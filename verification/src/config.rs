//! Shared configuration: the stage directory (a version-controlled working
//! tree of dotfile templates) and the cache directory (which holds the
//! tracked-file ledger and the applied-profile record).

use vstd::prelude::*;

verus! {

/// A filesystem path carried as plain text.
#[derive(Clone)]
pub struct PrintablePathBuf {
    pub path: String,
}

impl PrintablePathBuf {
    pub fn new(path: String) -> (r: Self)
        ensures
            r.path@ == path@,
    {
        PrintablePathBuf { path }
    }

    pub fn as_str(&self) -> (r: &str)
        ensures
            r@ == self.path@,
    {
        self.path.as_str()
    }
}

/// The directories every command works against.
#[derive(Clone)]
pub struct Config {
    pub stage_dir: PrintablePathBuf,
    pub cache_dir: PrintablePathBuf,
}

} // verus!

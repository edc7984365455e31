use dotrs::dotfiles::{clean_reconcile, reconcile_ledger};
use dotrs::filecache::FileCache;

fn strings(v: &[&str]) -> Vec<String> {
    v.iter().map(|s| s.to_string()).collect()
}

#[test]
fn open_parses_lines_trims_and_drops_blanks() {
    let fc = FileCache::open(Some("  /home/u/.bashrc \n\n/home/u/.vimrc\n   \n"));
    assert_eq!(fc.get(), &strings(&["/home/u/.bashrc", "/home/u/.vimrc"]));
}

#[test]
fn open_of_absent_file_is_empty() {
    let fc = FileCache::open(None);
    assert!(fc.get().is_empty());
}

#[test]
fn store_writes_one_path_per_line() {
    let mut fc = FileCache::open(None);
    fc.set(strings(&["/a", "/b"]));
    assert_eq!(fc.store(), "/a\n/b\n");
    fc.clear();
    assert_eq!(fc.store(), "");
}

#[test]
fn store_round_trips_through_open() {
    let mut fc = FileCache::open(None);
    fc.set(strings(&["/x/one", "/x/two", "/y/three"]));
    let text = fc.store();
    let again = FileCache::open(Some(text.as_str()));
    assert_eq!(again.get(), fc.get());
}

#[test]
fn diff_separates_added_and_removed_in_order() {
    let mut fc = FileCache::open(None);
    fc.set(strings(&["/keep", "/stale1", "/stale2"]));
    let candidate = strings(&["/new1", "/keep", "/new2"]);
    let d = fc.diff(&candidate);
    assert_eq!(d.added, strings(&["/new1", "/new2"]));
    assert_eq!(d.removed, strings(&["/stale1", "/stale2"]));
}

#[test]
fn ledger_equals_latest_candidate_after_each_apply() {
    let mut fc = FileCache::open(None);

    let c1 = strings(&["/h/a", "/h/b"]);
    let removed1 = reconcile_ledger(&mut fc, c1.clone());
    assert_eq!(fc.get(), &c1);
    assert!(removed1.is_empty());

    let c2 = strings(&["/h/b", "/h/c"]);
    let removed2 = reconcile_ledger(&mut fc, c2.clone());
    assert_eq!(fc.get(), &c2);
    assert_eq!(removed2, strings(&["/h/a"]));

    let c3 = strings(&[]);
    let removed3 = reconcile_ledger(&mut fc, c3.clone());
    assert_eq!(fc.get(), &c3);
    assert_eq!(removed3, strings(&["/h/b", "/h/c"]));
}

#[test]
fn clean_keeps_failures_unless_forced() {
    let mut fc = FileCache::open(None);
    fc.set(strings(&["/a", "/b", "/c"]));
    clean_reconcile(&mut fc, strings(&["/b"]), false);
    assert_eq!(fc.get(), &strings(&["/b"]));

    clean_reconcile(&mut fc, strings(&["/b"]), true);
    assert!(fc.get().is_empty());
}

//! The version-control wrapper's parsing and judging logic.  Running the
//! external executable stays with the caller; this module judges a finished
//! invocation (non-zero exit becomes an error carrying the exit code and the
//! captured output) and parses `status --porcelain` output into change
//! records.

use vstd::prelude::*;
use vstd::utf8::{valid_utf8, decode_utf8};
use crate::encryption::string_from_utf8;
use crate::text::{spec_tokens, spec_trim, spec_lines, first_two_tokens, lines_of, str_eq, trim};

verus! {

/// The author recorded on commits the watch service makes on its own.
pub const DEFAULT_COMMIT_AUTHOR: &'static str = "dotrs <dot@rs>";

/// Why a version-control invocation failed.
#[derive(Debug, Clone, PartialEq, Eq)]
pub enum Error {
    /// The executable could not be run at all (the spawner's message).
    CommandExecFailed(String),
    /// The command exited non-zero: the exit code (-1 when killed by a
    /// signal) and the captured stderr, or stdout when stderr is blank.
    NonZeroExit { code: i32, message: String },
    /// Captured output was not valid UTF-8.
    Utf8Transform,
    /// A status line carries an unknown change code.
    InvalidChangeType(String),
    /// A status line does not hold a change code and a path.
    InvalidChangeLine(String),
}

/// A change kind parsed from `status --porcelain` output.
#[derive(Debug, Clone, Copy, PartialEq, Eq, Structural)]
pub enum Change {
    Modified,
    Added,
    Deleted,
}

/// The change kind a single-letter status code stands for.
pub open spec fn spec_change_of(s: Seq<char>) -> Option<Change> {
    if s == "M"@ {
        Some(Change::Modified)
    } else if s == "A"@ {
        Some(Change::Added)
    } else if s == "D"@ {
        Some(Change::Deleted)
    } else {
        None
    }
}

/// What a finished subprocess handed back: its exit status and captured
/// byte streams.
pub struct CommandOutput {
    pub success: bool,
    pub code: Option<i32>,
    pub stdout_bytes: Vec<u8>,
    pub stderr_bytes: Vec<u8>,
}

impl CommandOutput {
    /// The captured standard output as text.
    pub fn stdout(&self) -> (r: Result<String, Error>)
        ensures
            valid_utf8(self.stdout_bytes@) ==> (r matches Ok(s) && s@ == decode_utf8(
                self.stdout_bytes@,
            )),
            !valid_utf8(self.stdout_bytes@) ==> r == Err::<String, Error>(Error::Utf8Transform),
    {
        match string_from_utf8(self.stdout_bytes.as_slice()) {
            Some(s) => Ok(s),
            None => Err(Error::Utf8Transform),
        }
    }

    /// The captured standard error as text.
    pub fn stderr(&self) -> (r: Result<String, Error>)
        ensures
            valid_utf8(self.stderr_bytes@) ==> (r matches Ok(s) && s@ == decode_utf8(
                self.stderr_bytes@,
            )),
            !valid_utf8(self.stderr_bytes@) ==> r == Err::<String, Error>(Error::Utf8Transform),
    {
        match string_from_utf8(self.stderr_bytes.as_slice()) {
            Some(s) => Ok(s),
            None => Err(Error::Utf8Transform),
        }
    }
}

/// The exit code to report: the status code, or -1 when the process died
/// without one.
pub open spec fn spec_exit_code(code: Option<i32>) -> int {
    match code {
        Some(c) => c as int,
        None => -1,
    }
}

/// Judge a finished invocation: success yields the captured stdout as text;
/// a non-zero exit yields `NonZeroExit` carrying the exit code and stderr,
/// or stdout when stderr is blank.
pub fn exec_outcome(out: &CommandOutput) -> (r: Result<String, Error>)
    ensures
        out.success && valid_utf8(out.stdout_bytes@) ==> (r matches Ok(s) && s@ == decode_utf8(
            out.stdout_bytes@,
        )),
        out.success && !valid_utf8(out.stdout_bytes@) ==> r == Err::<String, Error>(
            Error::Utf8Transform,
        ),
        !out.success && !valid_utf8(out.stderr_bytes@) ==> r == Err::<String, Error>(
            Error::Utf8Transform,
        ),
        !out.success && valid_utf8(out.stderr_bytes@) && spec_trim(
            decode_utf8(out.stderr_bytes@),
        ).len() != 0 ==> (r matches Err(Error::NonZeroExit { code, message })
            && code == spec_exit_code(out.code) && message@ == decode_utf8(out.stderr_bytes@)),
        !out.success && valid_utf8(out.stderr_bytes@) && spec_trim(
            decode_utf8(out.stderr_bytes@),
        ).len() == 0 && valid_utf8(out.stdout_bytes@) ==> (r matches Err(
            Error::NonZeroExit { code, message },
        ) && code == spec_exit_code(out.code) && message@ == decode_utf8(out.stdout_bytes@)),
        !out.success && valid_utf8(out.stderr_bytes@) && spec_trim(
            decode_utf8(out.stderr_bytes@),
        ).len() == 0 && !valid_utf8(out.stdout_bytes@) ==> r == Err::<String, Error>(
            Error::Utf8Transform,
        ),
{
    if out.success {
        return out.stdout();
    }
    let stderr_text = match out.stderr() {
        Ok(s) => s,
        Err(e) => {
            return Err(e);
        },
    };
    let message = if !trim(stderr_text.as_str()).is_empty() {
        stderr_text
    } else {
        match out.stdout() {
            Ok(s) => s,
            Err(e) => {
                return Err(e);
            },
        }
    };
    let code = match out.code {
        Some(c) => c,
        None => -1,
    };
    Err(Error::NonZeroExit { code, message })
}

/// Parse one `status --porcelain` line: the first token is the change code,
/// the second the path.
pub fn parse_change(line: &str) -> (r: Result<(Change, String), Error>)
    ensures
        spec_tokens(line@).len() < 2 ==> (r matches Err(Error::InvalidChangeLine(l)) && l@
            == line@),
        spec_tokens(line@).len() >= 2 ==> match spec_change_of(spec_tokens(line@)[0]) {
            Some(c) => r matches Ok((c2, p)) && c2 == c && p@ == spec_tokens(line@)[1],
            None => r matches Err(Error::InvalidChangeType(t)) && t@ == spec_tokens(line@)[0],
        },
{
    match first_two_tokens(line) {
        None => Err(Error::InvalidChangeLine(line.to_owned())),
        Some((code, path)) => {
            if str_eq(code.as_str(), "M") {
                Ok((Change::Modified, path))
            } else if str_eq(code.as_str(), "A") {
                Ok((Change::Added, path))
            } else if str_eq(code.as_str(), "D") {
                Ok((Change::Deleted, path))
            } else {
                Err(Error::InvalidChangeType(code))
            }
        },
    }
}

/// What went wrong while parsing status output.
pub enum ParseIssue {
    /// A line without two tokens.
    BadLine(Seq<char>),
    /// An unknown change code.
    BadType(Seq<char>),
}

/// Parse every status line in order; the first offending line wins.
pub open spec fn spec_parse_changes(lines: Seq<Seq<char>>) -> Result<
    Seq<(Change, Seq<char>)>,
    ParseIssue,
>
    decreases lines.len(),
{
    if lines.len() == 0 {
        Ok(Seq::empty())
    } else {
        match spec_parse_changes(lines.drop_last()) {
            Err(e) => Err(e),
            Ok(t) => {
                let l = lines.last();
                if spec_tokens(l).len() < 2 {
                    Err(ParseIssue::BadLine(l))
                } else {
                    match spec_change_of(spec_tokens(l)[0]) {
                        None => Err(ParseIssue::BadType(spec_tokens(l)[0])),
                        Some(c) => Ok(t.push((c, spec_tokens(l)[1]))),
                    }
                }
            },
        }
    }
}

/// The mathematical shape of a change list.
pub open spec fn changes_model(v: Seq<(Change, String)>) -> Seq<(Change, Seq<char>)> {
    Seq::new(v.len(), |i: int| (v[i].0, v[i].1@))
}

proof fn lemma_parse_changes_err(lines: Seq<Seq<char>>, i: int)
    requires
        0 <= i <= lines.len(),
        spec_parse_changes(lines.take(i)) is Err,
    ensures
        spec_parse_changes(lines) == spec_parse_changes(lines.take(i)),
    decreases lines.len() - i,
{
    if i < lines.len() {
        assert(lines.take(i + 1).drop_last() =~= lines.take(i));
        lemma_parse_changes_err(lines, i + 1);
    } else {
        assert(lines.take(i) =~= lines);
    }
}

/// Parse `status --porcelain` text into its change records, line by line.
#[verifier::loop_isolation(false)]
pub fn parse_changes(status_text: &str) -> (r: Result<Vec<(Change, String)>, Error>)
    ensures
        match spec_parse_changes(spec_lines(status_text@)) {
            Ok(cs) => r matches Ok(v) && changes_model(v@) == cs,
            Err(ParseIssue::BadLine(l)) => r matches Err(Error::InvalidChangeLine(s)) && s@ == l,
            Err(ParseIssue::BadType(t)) => r matches Err(Error::InvalidChangeType(s)) && s@ == t,
        },
{
    let lines = lines_of(status_text);
    let ghost lv = lines.deep_view();
    let n = lines.len();
    let mut out: Vec<(Change, String)> = Vec::new();
    let mut i: usize = 0;
    proof {
        assert(changes_model(out@) =~= Seq::<(Change, Seq<char>)>::empty());
    }
    while i < n
        invariant
            0 <= i <= n,
            out@.len() == i,
            spec_parse_changes(lv.take(i as int)) == Ok::<Seq<(Change, Seq<char>)>, ParseIssue>(
                changes_model(out@),
            ),
        decreases n - i,
    {
        let ghost before = out@;
        proof {
            assert(lv.take(i + 1).drop_last() =~= lv.take(i as int));
            assert(lv.take(i + 1).last() == lv[i as int]);
        }
        match parse_change(lines[i].as_str()) {
            Err(e) => {
                proof {
                    lemma_parse_changes_err(lv, i + 1);
                }
                return Err(e);
            },
            Ok(c) => {
                out.push(c);
                proof {
                    assert(changes_model(out@) =~= changes_model(before).push(
                        (out@[i as int].0, out@[i as int].1@),
                    ));
                }
            },
        }
        i = i + 1;
    }
    proof {
        assert(lv.take(n as int) =~= lv);
    }
    Ok(out)
}

/// The wrapper around the external version-control executable, bound to the
/// working directory it runs in.  The caller spawns the process; this type
/// carries the directory and owns the judging of results.
pub struct Git {
    pub dir: String,
}

impl Git {
    pub fn new(exec_dir: String) -> (r: Self)
        ensures
            r.dir@ == exec_dir@,
    {
        Git { dir: exec_dir }
    }
}

} // verus!

//! The synchronization pipelines.  Everything that decides is here and
//! verified: which entries of the stage tree are applied and where they land,
//! how the ledger is reconciled after an apply, and the exact command
//! sequences of pull and update as state machines.  The driver performs the
//! filesystem walking, rendering, writing and subprocess running, feeding
//! each result back into the machine.

use vstd::prelude::*;
use crate::config::Config;
use crate::filecache::FileCache;
use crate::git;
use crate::git::{Change, changes_model, spec_parse_changes, ParseIssue, parse_changes};
use crate::profile::Profile;
use crate::text::{
    sep_idx, lemma_sep_idx_bounds, lemma_sep_idx_is, spec_join, spec_lines, spec_trim,
    join_strings, str_eq, trim,
};

verus! {

/// Why a synchronization command failed.
#[derive(Debug, Clone, PartialEq, Eq)]
pub enum Error {
    /// The stage root holds no version-control metadata.
    NotInitialized,
    /// An import found the stage already holding version-control metadata.
    AlreadyInitialized,
    /// A version-control step failed.
    Git(git::Error),
}

/// The version-control metadata directory that marks an initialized stage.
pub fn stage_git_dir(cfg: &Config) -> (r: String)
    ensures
        r@ == cfg.stage_dir.path@ + "/.git"@,
{
    let mut p = cfg.stage_dir.path.clone();
    p.append("/.git");
    p
}

/// Require an initialized stage before any pipeline runs; the caller passes
/// whether the metadata directory exists.
pub fn assert_stage_dir_initialized(initialized: bool) -> (r: Result<(), Error>)
    ensures
        initialized <==> r is Ok,
        !initialized ==> r == Err::<(), Error>(Error::NotInitialized),
{
    if initialized {
        Ok(())
    } else {
        Err(Error::NotInitialized)
    }
}

/// The profile name an apply works under: the explicitly requested one,
/// else the recorded applied profile, else none.
pub fn effective_profile(explicit: Option<String>, recorded: Option<String>) -> (r: Option<
    String,
>)
    ensures
        explicit is Some ==> r == explicit,
        explicit is None ==> r == recorded,
{
    match explicit {
        Some(p) => Some(p),
        None => recorded,
    }
}

/// The profile lookup an apply uses: the named profile must exist unless it
/// is the reserved name "default".
pub fn profile_for_apply(stage_dir: &str, name: &str) -> (r: Profile)
    ensures
        r.base_path@ == stage_dir@,
        r.must_exist == (name@ != "default"@),
{
    Profile::new(stage_dir.to_owned(), !str_eq(name, "default"))
}

/// The final path component: everything after the last separator.
pub open spec fn spec_basename(p: Seq<char>) -> Seq<char>
    decreases p.len(),
    via spec_basename_decreases
{
    let i = sep_idx(p, '/');
    if i == p.len() {
        p
    } else {
        spec_basename(p.skip(i + 1))
    }
}

#[via_fn]
proof fn spec_basename_decreases(p: Seq<char>) {
    lemma_sep_idx_bounds(p, '/');
}

/// The final path component of a path string.
pub fn basename(p: &str) -> (r: &str)
    ensures
        r@ == spec_basename(p@),
{
    let mut rest: &str = p;
    loop
        invariant_except_break
            spec_basename(rest@) == spec_basename(p@),
        ensures
            rest@ == spec_basename(p@),
        decreases rest@.len(),
    {
        let n = rest.unicode_len();
        let mut i: usize = 0;
        while i < n && rest.get_char(i) != '/'
            invariant
                0 <= i <= n,
                n == rest@.len(),
                forall|k: int| 0 <= k < i ==> rest@[k] != '/',
            decreases n - i,
        {
            i = i + 1;
        }
        proof {
            lemma_sep_idx_is(rest@, '/', i as int);
        }
        if i == n {
            break;
        }
        let next = rest.substring_char(i + 1, n);
        proof {
            assert(next@ =~= rest@.skip(i + 1));
        }
        rest = next;
    }
    rest
}

/// Whether an entry of the stage tree takes part in an apply: the
/// version-control metadata directory and the profiles directory are skipped
/// with their contents, and files named after the version-control ignore
/// file are skipped.
pub open spec fn spec_keep_entry(rel: Seq<char>, is_dir: bool) -> bool {
    if is_dir {
        spec_basename(rel) != ".git"@ && spec_basename(rel) != ".dotrs-profiles"@
    } else {
        spec_basename(rel) != ".gitignore"@
    }
}

/// Whether the walker keeps this entry.
pub fn keep_entry(rel: &str, is_dir: bool) -> (r: bool)
    ensures
        r == spec_keep_entry(rel@, is_dir),
{
    let base = basename(rel);
    if is_dir {
        !str_eq(base, ".git") && !str_eq(base, ".dotrs-profiles")
    } else {
        !str_eq(base, ".gitignore")
    }
}

/// Where a stage entry lands: the home root plus the stage-relative path.
pub fn dest_path(home: &str, rel: &str) -> (r: String)
    ensures
        r@ == home@ + "/"@ + rel@,
{
    let mut p = home.to_owned();
    p.append("/");
    p.append(rel);
    p
}

/// The directory that holds `p`, or `None` for a bare name: the prefix
/// before the last separator.  After deleting a stale file, the driver
/// removes this directory too if the deletion left it empty.
pub fn parent_dir(p: &str) -> (r: Option<String>)
    ensures
        r is Some <==> spec_basename(p@).len() < p@.len(),
        r matches Some(d) ==> d@ == p@.take(p@.len() - spec_basename(p@).len() - 1),
{
    let n = p.unicode_len();
    let mut j: usize = n;
    while j > 0 && p.get_char(j - 1) != '/'
        invariant
            0 <= j <= n,
            n == p@.len(),
            forall|k: int| j <= k < n ==> p@[k] != '/',
        decreases j,
    {
        j = j - 1;
    }
    proof {
        lemma_basename_suffix(p@, j as int);
    }
    if j == 0 {
        None
    } else {
        let d = p.substring_char(0, j - 1);
        proof {
            assert(d@ =~= p@.take(j - 1));
        }
        Some(d.to_owned())
    }
}

proof fn lemma_basename_suffix(p: Seq<char>, j: int)
    requires
        0 <= j <= p.len(),
        forall|k: int| j <= k < p.len() ==> p[k] != '/',
        j == 0 || p[j - 1] == '/',
    ensures
        spec_basename(p) == p.skip(j),
    decreases j,
{
    lemma_sep_idx_bounds(p, '/');
    let i = sep_idx(p, '/');
    if j == 0 {
        lemma_sep_idx_is(p, '/', p.len() as int);
        assert(p.skip(0) =~= p);
    } else {
        assert(p[j - 1] == '/');
        assert(i <= j - 1);
        if i == p.len() {
            assert(false);
        }
        lemma_basename_suffix(p.skip(i + 1), j - (i + 1));
        assert(p.skip(i + 1).skip(j - (i + 1)) =~= p.skip(j));
        assert(forall|k: int| j - (i + 1) <= k < p.skip(i + 1).len() ==> #[trigger] p.skip(
            i + 1,
        )[k] == p[k + i + 1]);
    }
}

/// Reconcile the ledger after an apply that produced `written`: the stale
/// paths (tracked before, absent now) come back for deletion, and the ledger
/// holds exactly the new set, replaced wholesale.
pub fn reconcile_ledger(fc: &mut FileCache, written: Vec<String>) -> (removed: Vec<String>)
    ensures
        final(fc)@ == written.deep_view(),
        removed.deep_view() == old(fc)@.filter(
            |p: Seq<char>| !written.deep_view().contains(p),
        ),
{
    let d = fc.diff(&written);
    fc.set(written);
    d.removed
}

proof fn lemma_filter_members(s: Seq<Seq<char>>, pred: spec_fn(Seq<char>) -> bool, p: Seq<char>)
    requires
        s.filter(pred).contains(p),
    ensures
        s.contains(p) && pred(p),
    decreases s.len(),
{
    reveal(Seq::filter);
    if s.len() > 0 {
        let rest = s.drop_last();
        let f = s.filter(pred);
        let rf = rest.filter(pred);
        if pred(s.last()) && p == s.last() {
            assert(s[s.len() - 1] == p);
        } else {
            if pred(s.last()) {
                let j = choose|j: int| 0 <= j < f.len() && f[j] == p;
                assert(f == rf.push(s.last()));
                assert(j < rf.len());
                assert(rf.contains(p));
            }
            lemma_filter_members(rest, pred, p);
            let i = choose|i: int| 0 <= i < rest.len() && rest[i] == p;
            assert(s[i] == p);
        }
    }
}

/// Law: after every apply the ledger equals exactly the candidate set of
/// that apply, however many applies came before with whatever sets; and the
/// paths handed back for deletion are exactly those tracked before and not
/// in the new set — no path of the new set is ever deleted.
pub proof fn lemma_ledger_tracks_applies(
    before: Seq<Seq<char>>,
    cand: Seq<Seq<char>>,
    removed: Seq<Seq<char>>,
    ledger_after: Seq<Seq<char>>,
)
    requires
        ledger_after == cand,
        removed == before.filter(|p: Seq<char>| !cand.contains(p)),
    ensures
        ledger_after == cand,
        forall|p: Seq<char>| removed.contains(p) <==> before.contains(p) && !cand.contains(p),
        forall|p: Seq<char>| removed.contains(p) ==> !ledger_after.contains(p),
{
    let pred = |p: Seq<char>| !cand.contains(p);
    before.filter_lemma(pred);
    assert forall|p: Seq<char>| before.contains(p) && !cand.contains(p) implies removed.contains(
        p,
    ) by {
        let i = choose|i: int| 0 <= i < before.len() && before[i] == p;
        assert(pred(before[i]));
        assert(removed.contains(before[i]));
    }
    assert forall|p: Seq<char>| removed.contains(p) implies before.contains(p) && !cand.contains(
        p,
    ) by {
        lemma_filter_members(before, pred, p);
    }
}

/// After a cleanup pass that tried to delete every tracked file, the ledger
/// keeps exactly the paths whose deletion failed — or none at all when the
/// cleanup is forced, discarding them for good.
pub fn clean_reconcile(fc: &mut FileCache, failed: Vec<String>, force: bool)
    ensures
        force ==> final(fc)@ == Seq::<Seq<char>>::empty(),
        !force ==> final(fc)@ == failed.deep_view(),
{
    if force {
        fc.clear();
    } else {
        fc.set(failed);
    }
}

/// One command of the external version-control executable, with its exact
/// arguments.
#[derive(Debug, Clone, PartialEq, Eq)]
pub enum GitCommand {
    /// `branch --show-current`
    CurrentBranch,
    /// `pull origin <branch>`
    Pull { branch: String },
    /// `diff --quiet --exit-code`
    DiffQuiet,
    /// `add .`
    AddAll,
    /// `commit --message <message> --author <author>`
    Commit { message: String, author: String },
    /// `push origin <branch>`
    Push { branch: String },
    /// `status --porcelain`
    Status,
    /// `init`
    Init,
    /// `remote add origin <url>`
    RemoteAdd { url: String },
    /// `fetch --all`
    FetchAll,
    /// `checkout <git_ref>`
    Checkout { git_ref: String },
}

impl GitCommand {
    /// The argument list to hand to the executable.
    pub fn args(&self) -> (r: Vec<String>)
        ensures
            r.deep_view() == spec_git_args(self),
    {
        let mut v: Vec<String> = Vec::new();
        match self {
            GitCommand::CurrentBranch => {
                v.push("branch".to_owned());
                v.push("--show-current".to_owned());
            },
            GitCommand::Pull { branch } => {
                v.push("pull".to_owned());
                v.push("origin".to_owned());
                v.push(branch.clone());
            },
            GitCommand::DiffQuiet => {
                v.push("diff".to_owned());
                v.push("--quiet".to_owned());
                v.push("--exit-code".to_owned());
            },
            GitCommand::AddAll => {
                v.push("add".to_owned());
                v.push(".".to_owned());
            },
            GitCommand::Commit { message, author } => {
                v.push("commit".to_owned());
                v.push("--message".to_owned());
                v.push(message.clone());
                v.push("--author".to_owned());
                v.push(author.clone());
            },
            GitCommand::Push { branch } => {
                v.push("push".to_owned());
                v.push("origin".to_owned());
                v.push(branch.clone());
            },
            GitCommand::Status => {
                v.push("status".to_owned());
                v.push("--porcelain".to_owned());
            },
            GitCommand::Init => {
                v.push("init".to_owned());
            },
            GitCommand::RemoteAdd { url } => {
                v.push("remote".to_owned());
                v.push("add".to_owned());
                v.push("origin".to_owned());
                v.push(url.clone());
            },
            GitCommand::FetchAll => {
                v.push("fetch".to_owned());
                v.push("--all".to_owned());
            },
            GitCommand::Checkout { git_ref } => {
                v.push("checkout".to_owned());
                v.push(git_ref.clone());
            },
        }
        proof {
            assert(v.deep_view() =~= spec_git_args(self));
        }
        v
    }
}

/// The exact arguments of each command.
pub open spec fn spec_git_args(c: &GitCommand) -> Seq<Seq<char>> {
    match c {
        GitCommand::CurrentBranch => seq!["branch"@, "--show-current"@],
        GitCommand::Pull { branch } => seq!["pull"@, "origin"@, branch@],
        GitCommand::DiffQuiet => seq!["diff"@, "--quiet"@, "--exit-code"@],
        GitCommand::AddAll => seq!["add"@, "."@],
        GitCommand::Commit { message, author } => seq![
            "commit"@,
            "--message"@,
            message@,
            "--author"@,
            author@,
        ],
        GitCommand::Push { branch } => seq!["push"@, "origin"@, branch@],
        GitCommand::Status => seq!["status"@, "--porcelain"@],
        GitCommand::Init => seq!["init"@],
        GitCommand::RemoteAdd { url } => seq!["remote"@, "add"@, "origin"@, url@],
        GitCommand::FetchAll => seq!["fetch"@, "--all"@],
        GitCommand::Checkout { git_ref } => seq!["checkout"@, git_ref@],
    }
}

/// The import sequence: the commands that turn a fresh stage directory into
/// a checkout of the source repository, in order; a stage that already
/// holds version-control metadata is refused.  The driver runs them in
/// order and stops at the first failure.
pub fn import_commands(already_initialized: bool, url: &str, git_ref: &str) -> (r: Result<
    Vec<GitCommand>,
    Error,
>)
    ensures
        already_initialized ==> r == Err::<Vec<GitCommand>, Error>(Error::AlreadyInitialized),
        !already_initialized ==> (r matches Ok(v) && v@.len() == 4 && v@[0] == GitCommand::Init
            && (v@[1] matches GitCommand::RemoteAdd { url: u } && u@ == url@) && v@[2]
            == GitCommand::FetchAll && (v@[3] matches GitCommand::Checkout { git_ref: g } && g@
            == git_ref@)),
{
    if already_initialized {
        return Err(Error::AlreadyInitialized);
    }
    let mut v: Vec<GitCommand> = Vec::new();
    v.push(GitCommand::Init);
    v.push(GitCommand::RemoteAdd { url: url.to_owned() });
    v.push(GitCommand::FetchAll);
    v.push(GitCommand::Checkout { git_ref: git_ref.to_owned() });
    Ok(v)
}

/// The verb a change kind contributes to an auto-built commit message.
pub open spec fn spec_change_verb(c: Change) -> Seq<char> {
    match c {
        Change::Modified => "update"@,
        Change::Added => "add"@,
        Change::Deleted => "remove"@,
    }
}

/// One clause of the auto-built message: verb, space, path.
pub fn change_to_string(change: &(Change, String)) -> (r: String)
    ensures
        r@ == spec_change_verb(change.0) + " "@ + change.1@,
{
    let mut s = match change.0 {
        Change::Modified => "update".to_owned(),
        Change::Added => "add".to_owned(),
        Change::Deleted => "remove".to_owned(),
    };
    s.append(" ");
    s.append(change.1.as_str());
    s
}

/// The auto-built commit message: one verb-plus-path clause per change, in
/// the changes' original order, joined by ", ".
pub open spec fn spec_auto_message(changes: Seq<(Change, Seq<char>)>) -> Seq<char> {
    spec_join(
        Seq::new(changes.len(), |i: int| spec_change_verb(changes[i].0) + " "@ + changes[i].1),
        ", "@,
    )
}

/// Build the auto message from parsed changes.
pub fn auto_message(changes: &Vec<(Change, String)>) -> (r: String)
    ensures
        r@ == spec_auto_message(changes_model(changes@)),
{
    let mut parts: Vec<String> = Vec::new();
    let n = changes.len();
    let mut i: usize = 0;
    while i < n
        invariant
            0 <= i <= n,
            n == changes@.len(),
            parts@.len() == i,
            forall|k: int| 0 <= k < i ==> parts.deep_view()[k] == spec_change_verb(
                changes@[k].0,
            ) + " "@ + changes@[k].1@,
        decreases n - i,
    {
        let ghost before = parts.deep_view();
        parts.push(change_to_string(&changes[i]));
        proof {
            assert(parts.deep_view() =~= before.push(parts@[i as int]@));
        }
        i = i + 1;
    }
    let r = join_strings(&parts, ", ");
    proof {
        let cm = changes_model(changes@);
        assert(parts.deep_view() =~= Seq::new(
            cm.len(),
            |i: int| spec_change_verb(cm[i].0) + " "@ + cm[i].1,
        ));
    }
    r
}


/// Where the update sequence stands: which command must run next, or how it
/// ended.
#[derive(Debug, Clone, PartialEq, Eq)]
pub enum UpdateState {
    /// Ask for the current branch.
    NeedBranch,
    /// Pull the branch from origin.
    NeedPull { branch: String },
    /// Probe for changes with the exit-code diff.
    NeedDiff { branch: String },
    /// Changes exist: stage everything.
    NeedAdd { branch: String },
    /// No message was supplied: read the change list to build one.
    NeedStatus { branch: String },
    /// Commit with the settled message.
    NeedCommit { branch: String, message: String },
    /// Push the branch.
    NeedPush { branch: String },
    /// The sequence is over: whether changes were published.
    Done { published: bool },
    /// The sequence failed.
    Failed(Error),
}

/// The update pipeline: pull, probe for changes with the exit-code diff,
/// and when changes exist stage, commit and push them.  The driver runs
/// `next_command` and feeds each judged result into `step`.
pub struct UpdateFlow {
    pub author: String,
    pub message: Option<String>,
    pub state: UpdateState,
}

/// Start an update: it fails immediately unless the stage is initialized.
pub fn update_begin(initialized: bool, author: String, message: Option<String>) -> (r:
    UpdateFlow)
    ensures
        r.author == author,
        r.message == message,
        initialized ==> r.state == UpdateState::NeedBranch,
        !initialized ==> r.state == UpdateState::Failed(Error::NotInitialized),
{
    let state = if initialized {
        UpdateState::NeedBranch
    } else {
        UpdateState::Failed(Error::NotInitialized)
    };
    UpdateFlow { author, message, state }
}

impl UpdateFlow {
    /// The command the driver must run next; `None` once the sequence is
    /// over.
    pub fn next_command(&self) -> (r: Option<GitCommand>)
        ensures
            match self.state {
                UpdateState::NeedBranch => r == Some(GitCommand::CurrentBranch),
                UpdateState::NeedPull { branch } => r matches Some(GitCommand::Pull { branch: b })
                    && b == branch,
                UpdateState::NeedDiff { .. } => r == Some(GitCommand::DiffQuiet),
                UpdateState::NeedAdd { .. } => r == Some(GitCommand::AddAll),
                UpdateState::NeedStatus { .. } => r == Some(GitCommand::Status),
                UpdateState::NeedCommit { branch, message } => r matches Some(
                    GitCommand::Commit { message: m, author: a },
                ) && m == message && a == self.author,
                UpdateState::NeedPush { branch } => r matches Some(GitCommand::Push { branch: b })
                    && b == branch,
                UpdateState::Done { .. } => r is None,
                UpdateState::Failed(_) => r is None,
            },
    {
        match &self.state {
            UpdateState::NeedBranch => Some(GitCommand::CurrentBranch),
            UpdateState::NeedPull { branch } => Some(GitCommand::Pull { branch: branch.clone() }),
            UpdateState::NeedDiff { .. } => Some(GitCommand::DiffQuiet),
            UpdateState::NeedAdd { .. } => Some(GitCommand::AddAll),
            UpdateState::NeedStatus { .. } => Some(GitCommand::Status),
            UpdateState::NeedCommit { branch: _, message } => Some(
                GitCommand::Commit { message: message.clone(), author: self.author.clone() },
            ),
            UpdateState::NeedPush { branch } => Some(GitCommand::Push { branch: branch.clone() }),
            UpdateState::Done { .. } => None,
            UpdateState::Failed(_) => None,
        }
    }

    /// Advance on the judged result of the command just run.  The probe for
    /// changes is the one special case: exit 0 ends the update with nothing
    /// to publish, exit 1 means changes exist and the sequence goes on, and
    /// any other failure surfaces as an error.
    pub fn step(self, outcome: Result<String, git::Error>) -> (r: UpdateFlow)
        ensures
            r.author == self.author,
            r.message == self.message,
            match self.state {
                UpdateState::NeedBranch => match outcome {
                    Ok(out) => r.state matches UpdateState::NeedPull { branch } && branch@
                        == spec_trim(out@),
                    Err(e) => r.state == UpdateState::Failed(Error::Git(e)),
                },
                UpdateState::NeedPull { branch } => match outcome {
                    Ok(_) => r.state matches UpdateState::NeedDiff { branch: b } && b == branch,
                    Err(e) => r.state == UpdateState::Failed(Error::Git(e)),
                },
                UpdateState::NeedDiff { branch } => match outcome {
                    Ok(_) => r.state == UpdateState::Done { published: false },
                    Err(e) => match e {
                        git::Error::NonZeroExit { code, .. } => if code == 1 {
                            r.state matches UpdateState::NeedAdd { branch: b } && b == branch
                        } else {
                            r.state == UpdateState::Failed(Error::Git(e))
                        },
                        _ => r.state == UpdateState::Failed(Error::Git(e)),
                    },
                },
                UpdateState::NeedAdd { branch } => match outcome {
                    Ok(_) => match self.message {
                        Some(m) => r.state matches UpdateState::NeedCommit {
                            branch: b,
                            message: m2,
                        } && b == branch && m2 == m,
                        None => r.state matches UpdateState::NeedStatus { branch: b } && b
                            == branch,
                    },
                    Err(e) => r.state == UpdateState::Failed(Error::Git(e)),
                },
                UpdateState::NeedStatus { branch } => match outcome {
                    Ok(out) => match spec_parse_changes(spec_lines(out@)) {
                        Ok(cs) => r.state matches UpdateState::NeedCommit {
                            branch: b,
                            message: m,
                        } && b == branch && m@ == spec_auto_message(cs),
                        Err(ParseIssue::BadLine(l)) => r.state matches UpdateState::Failed(
                            Error::Git(git::Error::InvalidChangeLine(s)),
                        ) && s@ == l,
                        Err(ParseIssue::BadType(t)) => r.state matches UpdateState::Failed(
                            Error::Git(git::Error::InvalidChangeType(s)),
                        ) && s@ == t,
                    },
                    Err(e) => r.state == UpdateState::Failed(Error::Git(e)),
                },
                UpdateState::NeedCommit { branch, .. } => match outcome {
                    Ok(_) => r.state matches UpdateState::NeedPush { branch: b } && b == branch,
                    Err(e) => r.state == UpdateState::Failed(Error::Git(e)),
                },
                UpdateState::NeedPush { .. } => match outcome {
                    Ok(_) => r.state == UpdateState::Done { published: true },
                    Err(e) => r.state == UpdateState::Failed(Error::Git(e)),
                },
                UpdateState::Done { .. } => r.state == self.state,
                UpdateState::Failed(_) => r.state == self.state,
            },
    {
        let UpdateFlow { author, message, state } = self;
        let new_state = match state {
            UpdateState::NeedBranch => match outcome {
                Ok(out) => UpdateState::NeedPull { branch: trim(out.as_str()).to_owned() },
                Err(e) => UpdateState::Failed(Error::Git(e)),
            },
            UpdateState::NeedPull { branch } => match outcome {
                Ok(_) => UpdateState::NeedDiff { branch },
                Err(e) => UpdateState::Failed(Error::Git(e)),
            },
            UpdateState::NeedDiff { branch } => match outcome {
                Ok(_) => UpdateState::Done { published: false },
                Err(e) => match e {
                    git::Error::NonZeroExit { code, message: em } => if code == 1 {
                        UpdateState::NeedAdd { branch }
                    } else {
                        UpdateState::Failed(
                            Error::Git(git::Error::NonZeroExit { code, message: em }),
                        )
                    },
                    other => UpdateState::Failed(Error::Git(other)),
                },
            },
            UpdateState::NeedAdd { branch } => match outcome {
                Ok(_) => match &message {
                    Some(m) => UpdateState::NeedCommit { branch, message: m.clone() },
                    None => UpdateState::NeedStatus { branch },
                },
                Err(e) => UpdateState::Failed(Error::Git(e)),
            },
            UpdateState::NeedStatus { branch } => match outcome {
                Ok(out) => match parse_changes(out.as_str()) {
                    Ok(cs) => UpdateState::NeedCommit { branch, message: auto_message(&cs) },
                    Err(e) => UpdateState::Failed(Error::Git(e)),
                },
                Err(e) => UpdateState::Failed(Error::Git(e)),
            },
            UpdateState::NeedCommit { branch, message: _cm } => match outcome {
                Ok(_) => UpdateState::NeedPush { branch },
                Err(e) => UpdateState::Failed(Error::Git(e)),
            },
            UpdateState::NeedPush { branch: _b } => match outcome {
                Ok(_) => UpdateState::Done { published: true },
                Err(e) => UpdateState::Failed(Error::Git(e)),
            },
            other => other,
        };
        UpdateFlow { author, message, state: new_state }
    }
}

/// Where the pull sequence stands.
#[derive(Debug, Clone, PartialEq, Eq)]
pub enum PullState {
    /// Ask for the current branch.
    NeedBranch,
    /// Pull the branch from origin.
    NeedPull { branch: String },
    /// The pull is done.
    Done,
    /// The sequence failed.
    Failed(Error),
}

/// Start a pull: it fails immediately unless the stage is initialized.
pub fn pull_begin(initialized: bool) -> (r: PullState)
    ensures
        initialized ==> r == PullState::NeedBranch,
        !initialized ==> r == PullState::Failed(Error::NotInitialized),
{
    if initialized {
        PullState::NeedBranch
    } else {
        PullState::Failed(Error::NotInitialized)
    }
}

impl PullState {
    /// The command the driver must run next; `None` once the sequence is
    /// over.
    pub fn next_command(&self) -> (r: Option<GitCommand>)
        ensures
            match self {
                PullState::NeedBranch => r == Some(GitCommand::CurrentBranch),
                PullState::NeedPull { branch } => r matches Some(GitCommand::Pull { branch: b })
                    && b == branch,
                PullState::Done => r is None,
                PullState::Failed(_) => r is None,
            },
    {
        match self {
            PullState::NeedBranch => Some(GitCommand::CurrentBranch),
            PullState::NeedPull { branch } => Some(GitCommand::Pull { branch: branch.clone() }),
            PullState::Done => None,
            PullState::Failed(_) => None,
        }
    }

    /// Advance on the judged result of the command just run.
    pub fn step(self, outcome: Result<String, git::Error>) -> (r: PullState)
        ensures
            match self {
                PullState::NeedBranch => match outcome {
                    Ok(out) => r matches PullState::NeedPull { branch } && branch@ == spec_trim(
                        out@,
                    ),
                    Err(e) => r == PullState::Failed(Error::Git(e)),
                },
                PullState::NeedPull { .. } => match outcome {
                    Ok(_) => r == PullState::Done,
                    Err(e) => r == PullState::Failed(Error::Git(e)),
                },
                PullState::Done => r == self,
                PullState::Failed(_) => r == self,
            },
    {
        match self {
            PullState::NeedBranch => match outcome {
                Ok(out) => PullState::NeedPull { branch: trim(out.as_str()).to_owned() },
                Err(e) => PullState::Failed(Error::Git(e)),
            },
            PullState::NeedPull { branch: _b } => match outcome {
                Ok(_) => PullState::Done,
                Err(e) => PullState::Failed(Error::Git(e)),
            },
            other => other,
        }
    }
}

} // verus!

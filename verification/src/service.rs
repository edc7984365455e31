//! The watch service's decision logic.  The driver owns the filesystem
//! watch, the timer threads and the queue; everything that decides is here:
//! which filesystem events qualify, how a debounce timer collapses bursts
//! into single emissions, and what the single consumer runs for each queued
//! request — including the one follow-up rule, that a successful pull is
//! chased by exactly one apply.

use vstd::prelude::*;

verus! {

/// A request funneled through the queue to the single consumer.
#[derive(Clone, Copy, Debug, PartialEq, Eq, Structural)]
pub enum Request {
    Apply,
    Update,
    Pull,
}

/// What the consumer does for a request.
#[derive(Clone, Copy, Debug, PartialEq, Eq, Structural)]
pub enum ServiceAction {
    RunApply,
    RunUpdate,
    RunPull,
}

/// A filesystem event kind as the watcher reports it.
#[derive(Clone, Copy, Debug, PartialEq, Eq, Structural)]
pub enum FsEventKind {
    Create,
    Modify,
    Remove,
    Other,
}

/// Whether a path (relative to the stage root) lies under the
/// version-control metadata directory.
pub open spec fn spec_under_git(p: Seq<char>) -> bool {
    p.len() >= 4 && p.take(4) == ".git"@ && (p.len() == 4 || p[4] == '/')
}

/// Whether any of the event's paths lies under the metadata directory.
pub open spec fn spec_any_under_git(paths: Seq<Seq<char>>) -> bool
    decreases paths.len(),
{
    paths.len() > 0 && (spec_any_under_git(paths.drop_last()) || spec_under_git(paths.last()))
}

/// Whether a filesystem event arms the debounce timers: only creations,
/// removals and modifications count, and only outside the version-control
/// metadata directory.
pub open spec fn spec_qualifying(kind: FsEventKind, paths: Seq<Seq<char>>) -> bool {
    (kind == FsEventKind::Create || kind == FsEventKind::Modify || kind == FsEventKind::Remove)
        && !spec_any_under_git(paths)
}

fn under_git(p: &str) -> (r: bool)
    ensures
        r == spec_under_git(p@),
{
    let n = p.unicode_len();
    if n < 4 {
        proof {
            reveal_strlit(".git");
        }
        return false;
    }
    let head = p.substring_char(0, 4);
    proof {
        assert(head@ =~= p@.take(4));
    }
    let is_git = crate::text::str_eq(head, ".git");
    if !is_git {
        return false;
    }
    n == 4 || p.get_char(4) == '/'
}

/// Whether this event arms the debounce timers.
pub fn qualifying_event(kind: FsEventKind, rel_paths: &Vec<String>) -> (r: bool)
    ensures
        r == spec_qualifying(kind, rel_paths.deep_view()),
{
    let matches_kind = match kind {
        FsEventKind::Create => true,
        FsEventKind::Modify => true,
        FsEventKind::Remove => true,
        FsEventKind::Other => false,
    };
    if !matches_kind {
        return false;
    }
    let n = rel_paths.len();
    let mut i: usize = 0;
    while i < n
        invariant
            0 <= i <= n,
            n == rel_paths@.len(),
            !spec_any_under_git(rel_paths.deep_view().take(i as int)),
        decreases n - i,
    {
        let hit = under_git(rel_paths[i].as_str());
        proof {
            let dv = rel_paths.deep_view();
            assert(dv.take(i + 1).drop_last() =~= dv.take(i as int));
            assert(dv.take(i + 1).last() == dv[i as int]);
        }
        if hit {
            proof {
                lemma_any_under_git_monotone(rel_paths.deep_view(), i + 1);
            }
            return false;
        }
        i = i + 1;
    }
    proof {
        assert(rel_paths.deep_view().take(n as int) =~= rel_paths.deep_view());
    }
    true
}

proof fn lemma_any_under_git_monotone(paths: Seq<Seq<char>>, i: int)
    requires
        0 <= i <= paths.len(),
        spec_any_under_git(paths.take(i)),
    ensures
        spec_any_under_git(paths),
    decreases paths.len() - i,
{
    if i < paths.len() {
        assert(paths.take(i + 1).drop_last() =~= paths.take(i));
        lemma_any_under_git_monotone(paths, i + 1);
    } else {
        assert(paths.take(i) =~= paths);
    }
}

/// One debounce timer: re-armable, firing at most once per configured
/// delay however many triggers arrive within the window.  It is a pending
/// flag plus a next-wake time; each trigger postpones the wake time, and
/// the timer emits one event — and clears the flag — when it reaches a wake
/// time that no further trigger has postponed.  Times are caller-supplied
/// milliseconds.
pub struct Debouncer {
    pub delay: u64,
    pub pending: bool,
    pub wake_at: u64,
}

/// The timer state after a trigger at `now`.
pub open spec fn spec_trigger(d: Debouncer, now: u64) -> Debouncer
    recommends
        now + d.delay <= u64::MAX,
{
    Debouncer { delay: d.delay, pending: true, wake_at: (now + d.delay) as u64 }
}

/// The timer state and emission of a timer check at `now`.
pub open spec fn spec_fire(d: Debouncer, now: u64) -> (Debouncer, bool) {
    if d.pending && now >= d.wake_at {
        (Debouncer { delay: d.delay, pending: false, wake_at: d.wake_at }, true)
    } else {
        (d, false)
    }
}

impl Debouncer {
    /// A fresh timer with the configured delay: nothing pending.
    pub fn new(delay: u64) -> (r: Self)
        ensures
            r.delay == delay,
            !r.pending,
            r.wake_at == 0,
    {
        Debouncer { delay, pending: false, wake_at: 0 }
    }

    /// Arm, or re-arm, the timer: the wake time moves out to one full
    /// window after `now`.
    pub fn trigger(&mut self, now: u64)
        requires
            now + old(self).delay <= u64::MAX,
        ensures
            *final(self) == spec_trigger(*old(self), now),
    {
        self.pending = true;
        self.wake_at = now + self.delay;
    }

    /// Check the timer at `now`: it emits exactly once per armed window,
    /// when the wake time has come and no further trigger postponed it.
    pub fn fire(&mut self, now: u64) -> (fired: bool)
        ensures
            (*final(self), fired) == spec_fire(*old(self), now),
    {
        if self.pending && now >= self.wake_at {
            self.pending = false;
            true
        } else {
            false
        }
    }
}

/// The timer state after a burst of triggers, in order.
pub open spec fn spec_after_triggers(d: Debouncer, times: Seq<u64>) -> Debouncer
    decreases times.len(),
{
    if times.len() == 0 {
        d
    } else {
        spec_trigger(spec_after_triggers(d, times.drop_last()), times.last())
    }
}

/// Law: however many triggers arrive, one timer check at or past the wake
/// time that the last trigger set emits exactly one event, and every
/// further check emits nothing until a new trigger arrives.
pub proof fn lemma_debounce_coalesces(d0: Debouncer, times: Seq<u64>, t1: u64)
    requires
        times.len() > 0,
        times.last() + d0.delay <= u64::MAX,
        t1 >= times.last() + d0.delay,
    ensures
        spec_fire(spec_after_triggers(d0, times), t1).1,
        forall|t2: u64|
            !(#[trigger] spec_fire(spec_fire(spec_after_triggers(d0, times), t1).0, t2)).1,
{
    let dn = spec_after_triggers(d0, times);
    lemma_after_triggers_delay(d0, times);
    assert(dn.pending && dn.wake_at == times.last() + d0.delay);
}

proof fn lemma_after_triggers_delay(d0: Debouncer, times: Seq<u64>)
    ensures
        spec_after_triggers(d0, times).delay == d0.delay,
        times.len() > 0 ==> spec_after_triggers(d0, times).pending,
        times.len() > 0 ==> spec_after_triggers(d0, times).wake_at == (times.last()
            + d0.delay) as u64,
    decreases times.len(),
{
    if times.len() > 0 {
        lemma_after_triggers_delay(d0, times.drop_last());
    }
}

/// The operation the consumer performs for a queued request.
pub fn initial_action(req: Request) -> (r: ServiceAction)
    ensures
        req == Request::Apply ==> r == ServiceAction::RunApply,
        req == Request::Update ==> r == ServiceAction::RunUpdate,
        req == Request::Pull ==> r == ServiceAction::RunPull,
{
    match req {
        Request::Apply => ServiceAction::RunApply,
        Request::Update => ServiceAction::RunUpdate,
        Request::Pull => ServiceAction::RunPull,
    }
}

/// Law: what follows a finished operation — a successful pull, and nothing
/// else, is chased by exactly one apply; a failed pull is not.
pub fn follow_up_action(req: Request, succeeded: bool) -> (r: Option<ServiceAction>)
    ensures
        r == if req == Request::Pull && succeeded {
            Some(ServiceAction::RunApply)
        } else {
            None::<ServiceAction>
        },
{
    if matches!(req, Request::Pull) && succeeded {
        Some(ServiceAction::RunApply)
    } else {
        None
    }
}

} // verus!

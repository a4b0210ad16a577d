//! The polling loop's arithmetic, and what holds of jobs across its steps.
use crate::job::{polled, start_of, started, strictly_increasing, JobView, Step};
use crate::schedule::MAX_INSTANT;
use vstd::prelude::*;

verus! {

/// The longest the loop sleeps, in milliseconds: one minute, so that a jump of
/// the wall clock strands it for no longer.
pub const MAX_IDLE: i64 = 60_000;

/// The instant to wake up at before any job is looked at: one idle period on.
pub fn first_wake(now: i64) -> (r: i64)
    requires
        now <= MAX_INSTANT,
    ensures
        r == now + MAX_IDLE,
{
    now + MAX_IDLE
}

/// How long to sleep from `now` until `wake`, in milliseconds; nothing when
/// `wake` is not later than `now`.
pub fn sleep_millis(now: i64, wake: i64) -> (r: u64)
    ensures
        r == if now < wake {
            wake - now
        } else {
            0
        },
{
    if now < wake {
        (wake as i128 - now as i128) as u64
    } else {
        0
    }
}

/// A job that is due while a run of it is in flight is not started again: the
/// poll asks for a run, the start hands back nothing, and the job stays
/// running until that run ends.
pub proof fn lemma_no_overlap(before: JobView, after: JobView, now: int, wake: int, step: Step)
    requires
        before.running,
        before.next_fire matches Some(t) && t <= now,
        polled(before, after, now, wake, step),
    ensures
        step.dispatch,
        after.running,
        start_of(after) is None,
        started(after) == after,
{
}

/// Next fire times only move forward: a poll never moves a job's next fire
/// time back, a dispatched fire time is at or before the instant it was found
/// due, and the next fire time after a dispatch lies beyond that instant.
pub proof fn lemma_fire_times_increase(before: JobView, after: JobView, now: int, wake: int, step: Step)
    requires
        before.wf(),
        after.wf(),
        polled(before, after, now, wake, step),
    ensures
        strictly_increasing_drawn(before, after),
        step.dispatch ==> (before.next_fire matches Some(t) && t <= now),
        step.dispatch ==> (after.next_fire matches Some(n) ==> now < n),
        before.next_fire is Some && after.next_fire is Some ==> before.next_fire->0 <= after.next_fire->0,
        step.dispatch && after.next_fire is Some ==> before.next_fire->0 < after.next_fire->0,
{
    assert(before.drawn.subrange(0, before.drawn.len() as int) =~= before.drawn);
    if before.next_fire is Some && after.next_fire is Some && step.dispatch {
        assert(after.drawn[before.drawn.len() - 1] == before.next_fire->0);
    }
}

/// The history of fire times after a poll extends the one before and stays in
/// increasing order.
pub open spec fn strictly_increasing_drawn(before: JobView, after: JobView) -> bool {
    &&& before.drawn.len() <= after.drawn.len()
    &&& after.drawn.subrange(0, before.drawn.len() as int) == before.drawn
    &&& strictly_increasing(after.drawn)
}

/// A job that missed several fire times is dispatched once: the poll asks for
/// one run, moves the job to the first fire time after `now`, and a second
/// poll at the same instant asks for none.
pub proof fn lemma_missed_ticks_run_once(
    before: JobView,
    after: JobView,
    again: JobView,
    now: int,
    wake: int,
    wake2: int,
    step: Step,
    step2: Step,
)
    requires
        before.wf(),
        after.wf(),
        before.next_fire matches Some(t) && t <= now,
        polled(before, after, now, wake, step),
        polled(after, again, now, wake2, step2),
    ensures
        step.dispatch,
        !step2.dispatch,
        after.next_fire matches Some(n) ==> now < n && forall|k: int|
            0 <= k < after.drawn.len() && #[trigger] after.drawn[k] < n ==> after.drawn[k] <= now,
{
    if after.next_fire is Some {
        let n = after.next_fire->0;
        assert forall|k: int| 0 <= k < after.drawn.len() && #[trigger] after.drawn[k] < n implies after.drawn[k] <= now by {
            if k < before.drawn.len() - 1 {
                assert(after.drawn[k] == before.drawn[k]);
                assert(before.drawn[k] < before.drawn.last());
            }
        }
    }
}

} // verus!

//! Jobs: one schedule and one command each, with the state the scheduler and
//! the job's own runs share.
use crate::schedule::{fire_after, is_valid_expression, parse_schedule, MAX_INSTANT};
use vstd::prelude::*;

verus! {

/// Each value is larger than every value before it.
pub open spec fn strictly_increasing(s: Seq<int>) -> bool {
    forall|i: int, j: int| 0 <= i < j < s.len() ==> s[i] < s[j]
}

/// What a job is, as contracts see it.
pub struct JobView {
    pub id: nat,
    /// The cron expression the job follows.
    pub expression: Seq<char>,
    pub next_fire: Option<int>,
    pub command: Seq<char>,
    pub running: bool,
    /// Every fire time the schedule has yielded so far, oldest first.
    pub drawn: Seq<int>,
}

impl JobView {
    /// The fire times are drawn in increasing order, and the next fire time is
    /// the last one drawn.
    pub open spec fn wf(self) -> bool {
        &&& strictly_increasing(self.drawn)
        &&& self.next_fire matches Some(t) ==> self.drawn.len() > 0 && self.drawn.last() == t
    }
}

/// What the scheduler decided for one job at one instant.
pub struct Step {
    /// The job is due: start a run of it.
    pub dispatch: bool,
    /// The instant to wake up at, folded with this job's next fire time.
    pub wake: i64,
}

/// The smaller of two instants.
pub open spec fn earlier(a: int, b: int) -> int {
    if a < b {
        a
    } else {
        b
    }
}

/// After a due job at `now`: the fire times drawn since the one that was due
/// (that one included) were all at or before `now` but the new next fire time,
/// which is the first one after `now`; the history before is kept.
pub open spec fn caught_up(before: Seq<int>, after: JobView, now: int) -> bool {
    &&& before.len() <= after.drawn.len()
    &&& after.drawn.subrange(0, before.len() as int) == before
    &&& forall|k: int|
        before.len() - 1 <= k < after.drawn.len() && after.next_fire != Some(after.drawn[k])
            ==> after.drawn[k] <= now
    &&& after.next_fire matches Some(n) ==> now < n && before.len() < after.drawn.len()
}

/// What one poll of a job at `now` does, given the instant `wake` that the
/// scheduler means to wake up at so far.
pub open spec fn polled(before: JobView, after: JobView, now: int, wake: int, step: Step) -> bool {
    &&& after.id == before.id
    &&& after.expression == before.expression
    &&& after.command == before.command
    &&& after.running == before.running
    &&& match before.next_fire {
        None => !step.dispatch && step.wake == wake && after == before,
        Some(t) => if now < t {
            !step.dispatch && step.wake == earlier(t, wake) && after == before
        } else {
            step.dispatch && step.wake == wake && caught_up(before.drawn, after, now)
        },
    }
}

/// The command a start hands back: none while a run is in flight.
pub open spec fn start_of(j: JobView) -> Option<Seq<char>> {
    if j.running {
        None
    } else {
        Some(j.command)
    }
}

/// The job after an attempt to start it: running, whether or not it was.
pub open spec fn started(j: JobView) -> JobView {
    JobView { running: true, ..j }
}

/// One schedulable job.
pub struct Job {
    id: usize,
    expression: String,
    schedule: cron::Schedule,
    next_fire: Option<i64>,
    command: String,
    running: bool,
    drawn: Ghost<Seq<int>>,
}

impl View for Job {
    type V = JobView;

    closed spec fn view(&self) -> JobView {
        JobView {
            id: self.id as nat,
            expression: self.expression@,
            next_fire: match self.next_fire {
                Some(t) => Some(t as int),
                None => None,
            },
            command: self.command@,
            running: self.running,
            drawn: self.drawn@,
        }
    }
}

/// What one answer of the schedule means while a due job catches up.
pub enum Draw {
    /// The schedule fires no more.
    Exhausted,
    /// A fire time at or before now: it is skipped.
    Missed(i64),
    /// The first fire time after now: the job waits for it.
    Upcoming(i64),
}

/// Sorts the schedule's answer during a catch-up at `now`.
pub fn classify_draw(answer: Option<i64>, now: i64) -> (r: Draw)
    ensures
        r == match answer {
            None => Draw::Exhausted,
            Some(n) => if n <= now {
                Draw::Missed(n)
            } else {
                Draw::Upcoming(n)
            },
        },
{
    match answer {
        None => Draw::Exhausted,
        Some(n) => if n <= now {
            Draw::Missed(n)
        } else {
            Draw::Upcoming(n)
        },
    }
}

impl Job {
    /// A job that has not run yet, following the cron `expression`, whose
    /// first fire time is the first one of the schedule after `now`; the
    /// engine's message where it refuses the expression.
    pub fn new(id: usize, expression: &str, command: String, now: i64) -> (r: Result<Job, String>)
        requires
            now <= MAX_INSTANT,
        ensures
            r is Ok <==> is_valid_expression(expression@),
            r matches Ok(j) ==> {
                &&& j@.wf()
                &&& j@.id == id
                &&& j@.expression == expression@
                &&& j@.command == command@
                &&& !j@.running
                &&& j@.next_fire matches Some(t) ==> now < t && j@.drawn == seq![t]
                &&& j@.next_fire is None ==> j@.drawn.len() == 0
            },
    {
        let schedule = match parse_schedule(expression) {
            Ok(s) => s,
            Err(message) => {
                return Err(message);
            },
        };
        let next_fire = fire_after(&schedule, now);
        let drawn: Ghost<Seq<int>> = Ghost(
            match next_fire {
                Some(t) => seq![t as int],
                None => Seq::empty(),
            },
        );
        Ok(Job { id, expression: expression.to_owned(), schedule, next_fire, command, running: false, drawn })
    }
}

impl Job {
    /// The identifier given at load time.
    pub fn id(&self) -> (r: usize)
        ensures
            r == self@.id,
    {
        self.id
    }

    /// The cron expression the job follows.
    pub fn expression(&self) -> (r: &str)
        ensures
            r@ == self@.expression,
    {
        self.expression.as_str()
    }

    /// The next fire time, in milliseconds since the Unix epoch; `None` once
    /// the schedule has no more.
    pub fn next_fire(&self) -> (r: Option<i64>)
        ensures
            r matches Some(t) ==> self@.next_fire == Some(t as int),
            r is None <==> self@.next_fire is None,
    {
        self.next_fire
    }

    /// The shell command, as written in the crontab.
    pub fn command(&self) -> (r: &str)
        ensures
            r@ == self@.command,
    {
        self.command.as_str()
    }

    /// Whether a run of this job is in flight.
    pub fn is_running(&self) -> (r: bool)
        ensures
            r == self@.running,
    {
        self.running
    }

    /// The scheduler's decision for this job at `now`. A job with no next fire
    /// time is left alone; one that fires later lowers `wake` to its fire time;
    /// one that is due is dispatched once, and its schedule advanced past every
    /// fire time up to `now`, so missed ticks give no further runs.
    pub fn poll(&mut self, now: i64, wake: i64) -> (r: Step)
        requires
            old(self)@.wf(),
            now <= MAX_INSTANT,
        ensures
            final(self)@.wf(),
            polled(old(self)@, final(self)@, now as int, wake as int, r),
    {
        let t = match self.next_fire {
            None => {
                return Step { dispatch: false, wake };
            },
            Some(t) => t,
        };
        if now < t {
            return Step { dispatch: false, wake: if t < wake { t } else { wake } };
        }
        let ghost before = self.drawn@;
        let mut cur: i64 = t;
        let mut next: Option<i64> = None;
        let mut drawn: Ghost<Seq<int>> = Ghost(before);
        loop
            invariant_except_break
                drawn@.last() == cur,
                next is None,
                forall|k: int| before.len() - 1 <= k < drawn@.len() ==> drawn@[k] <= now,
            invariant
                cur <= now,
                now <= MAX_INSTANT,
                before.len() > 0,
                strictly_increasing(drawn@),
                before.len() <= drawn@.len(),
                drawn@.subrange(0, before.len() as int) == before,
            ensures
                strictly_increasing(drawn@),
                before.len() <= drawn@.len(),
                drawn@.subrange(0, before.len() as int) == before,
                next matches Some(n) ==> drawn@.len() > 0 && drawn@.last() == n && now < n
                    && before.len() < drawn@.len(),
                forall|k: int|
                    before.len() - 1 <= k < drawn@.len() && next != Some(drawn@[k] as i64) ==> drawn@[k] <= now,
            decreases now - cur,
        {
            let ghost prev = drawn@;
            match classify_draw(fire_after(&self.schedule, cur), now) {
                Draw::Exhausted => {
                    break;
                },
                Draw::Upcoming(n) => {
                    drawn = Ghost(drawn@.push(n as int));
                    assert(drawn@.subrange(0, before.len() as int) =~= prev.subrange(0, before.len() as int));
                    next = Some(n);
                    break;
                },
                Draw::Missed(n) => {
                    drawn = Ghost(drawn@.push(n as int));
                    assert(drawn@.subrange(0, before.len() as int) =~= prev.subrange(0, before.len() as int));
                    cur = n;
                },
            }
        }
        self.next_fire = next;
        self.drawn = drawn;
        Step { dispatch: true, wake }
    }

    /// Starts a run unless one is in flight: marks the job running and hands
    /// back its command. A job that is running already is left as it is, and
    /// nothing is started.
    pub fn begin_run(&mut self) -> (r: Option<String>)
        ensures
            r is None <==> start_of(old(self)@) is None,
            r matches Some(c) ==> start_of(old(self)@) == Some(c@),
            final(self)@ == started(old(self)@),
    {
        if self.running {
            return None;
        }
        self.running = true;
        Some(self.command.clone())
    }

    /// Records that the run in flight has ended, whatever its outcome.
    pub fn end_run(&mut self)
        ensures
            final(self)@ == (JobView { running: false, ..old(self)@ }),
    {
        self.running = false;
    }
}

} // verus!

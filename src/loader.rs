//! Turning the lines of a crontab into jobs.
use crate::job::Job;
use crate::line::{
    command_text, has_command, is_skipped, is_token_start, lemma_tokens_before_monotone,
    schedule_fields, schedule_text, split_line, tokens_before, trimmed, Parsed,
};
use crate::schedule::{cron_expression, expression_for, is_valid_expression, MAX_INSTANT};
use vstd::prelude::*;

verus! {

/// The text of each line.
pub open spec fn texts(lines: Seq<String>) -> Seq<Seq<char>> {
    lines.map_values(|l: String| l@)
}

/// A line loads: it holds no job, or its schedule is one the cron engine accepts.
pub open spec fn line_loads(l: Seq<char>) -> bool {
    let t = trimmed(l);
    is_skipped(t) || (has_command(t) && is_valid_expression(cron_expression(schedule_text(t))))
}

/// The commands of the lines that hold a job, in line order.
pub open spec fn commands_of(lines: Seq<Seq<char>>) -> Seq<Seq<char>>
    decreases lines.len(),
{
    if lines.len() == 0 {
        Seq::empty()
    } else {
        let rest = commands_of(lines.drop_last());
        let t = trimmed(lines.last());
        if is_skipped(t) {
            rest
        } else {
            rest.push(command_text(t))
        }
    }
}

/// The cron expressions of the lines that hold a job, in line order.
pub open spec fn expressions_of(lines: Seq<Seq<char>>) -> Seq<Seq<char>>
    decreases lines.len(),
{
    if lines.len() == 0 {
        Seq::empty()
    } else {
        let rest = expressions_of(lines.drop_last());
        let t = trimmed(lines.last());
        if is_skipped(t) {
            rest
        } else {
            rest.push(cron_expression(schedule_text(t)))
        }
    }
}

/// Both lists have one entry per line that holds a job.
pub proof fn lemma_entries_align(lines: Seq<Seq<char>>)
    ensures
        expressions_of(lines).len() == commands_of(lines).len(),
    decreases lines.len(),
{
    if lines.len() > 0 {
        lemma_entries_align(lines.drop_last());
    }
}

/// A line that holds no more tokens than its schedule takes (four fields and
/// a one-word command, say) does not load, so a crontab holding it loads no
/// job at all: `load_jobs` reports it and leaves the jobs as they were.
pub proof fn lemma_short_line_does_not_load(l: Seq<char>)
    requires
        !is_skipped(trimmed(l)),
        tokens_before(trimmed(l), trimmed(l).len() as int) <= schedule_fields(trimmed(l)),
    ensures
        !line_loads(l),
        !has_command(trimmed(l)),
{
    let t = trimmed(l);
    if has_command(t) {
        let i = choose|i: int| is_token_start(t, schedule_fields(t), i);
        lemma_tokens_before_monotone(t, i, t.len() as int);
    }
}

/// Why a crontab did not load.
pub enum LoadErrorKind {
    /// The line has fewer schedule fields than its syntax needs.
    TooFewFields,
    /// The cron engine refused the schedule, with its message.
    InvalidSchedule(String),
}

/// The first line of a crontab that did not load, counted from zero.
pub struct LoadError {
    pub line: usize,
    pub kind: LoadErrorKind,
}

/// The jobs that the `lines` of one crontab add at position `at` of `jobs`:
/// one per line that holds a job, in line order, following that line's
/// schedule and running its command, with identifiers from `first + 1` on,
/// none of them running, each due first after `now`.
pub open spec fn loaded_jobs(jobs: Seq<Job>, at: nat, first: nat, lines: Seq<Seq<char>>, now: int) -> bool {
    let cmds = commands_of(lines);
    &&& jobs.len() == at + cmds.len()
    &&& forall|k: int|
        0 <= k < cmds.len() ==> {
            let j = #[trigger] jobs[at + k]@;
            &&& j.wf()
            &&& j.id == first + k + 1
            &&& j.command == cmds[k]
            &&& j.expression == expressions_of(lines)[k]
            &&& !j.running
            &&& j.next_fire matches Some(t) ==> now < t
        }
}

/// Loads the jobs of one crontab, given as its lines, behind those in `jobs`.
/// Either every line loads and `jobs` gains one job per line that holds one,
/// or the first line that does not load is reported and `jobs` is left as it
/// was.
pub fn load_jobs(jobs: &mut Vec<Job>, lines: &Vec<String>, now: i64) -> (r: Result<(), LoadError>)
    requires
        old(jobs).len() + lines.len() < usize::MAX,
        now <= MAX_INSTANT,
    ensures
        r is Ok <==> forall|i: int| 0 <= i < lines.len() ==> line_loads(#[trigger] texts(lines@)[i]),
        r is Ok ==> final(jobs)@.subrange(0, old(jobs).len() as int) == old(jobs)@,
        r is Ok ==> loaded_jobs(final(jobs)@, old(jobs).len() as nat, old(jobs).len() as nat, texts(lines@), now as int),
        r matches Err(e) ==> {
            let l = texts(lines@)[e.line as int];
            &&& e.line < lines.len()
            &&& !line_loads(l)
            &&& forall|i: int| 0 <= i < e.line ==> line_loads(#[trigger] texts(lines@)[i])
            &&& (e.kind is TooFewFields <==> !has_command(trimmed(l)))
        },
        r is Err ==> final(jobs)@ == old(jobs)@,
{
    let ghost ls = texts(lines@);
    let base = jobs.len();
    let mut loaded: Vec<Job> = Vec::new();
    let mut i: usize = 0;
    while i < lines.len()
        invariant
            i <= lines.len(),
            ls == texts(lines@),
            base == old(jobs).len(),
            jobs@ == old(jobs)@,
            base + lines.len() < usize::MAX,
            now <= MAX_INSTANT,
            forall|j: int| 0 <= j < i ==> line_loads(#[trigger] ls[j]),
            loaded@.len() <= i,
            loaded_jobs(loaded@, 0, base as nat, ls.subrange(0, i as int), now as int),
        decreases lines.len() - i,
    {
        assert(ls.subrange(0, i + 1).drop_last() =~= ls.subrange(0, i as int));
        let line = lines[i].as_str();
        assert(ls[i as int] == line@);
        let ghost prev = loaded@;
        match split_line(line) {
            Parsed::Skipped => {},
            Parsed::TooFewFields => {
                return Err(LoadError { line: i, kind: LoadErrorKind::TooFewFields });
            },
            Parsed::Entry { schedule, command } => {
                let expr = expression_for(schedule.as_str());
                proof {
                    lemma_entries_align(ls.subrange(0, i as int));
                }
                match Job::new(base + loaded.len() + 1, expr.as_str(), command, now) {
                    Err(message) => {
                        return Err(LoadError { line: i, kind: LoadErrorKind::InvalidSchedule(message) });
                    },
                    Ok(job) => {
                        loaded.push(job);
                        assert forall|k: int| 0 <= k < prev.len() implies #[trigger] loaded@[k] == prev[k] by {}
                    },
                }
            },
        }
        i = i + 1;
    }
    assert(ls.subrange(0, i as int) =~= ls);
    let ghost fresh = loaded@;
    jobs.append(&mut loaded);
    assert(jobs@.subrange(0, base as int) =~= old(jobs)@);
    assert forall|k: int| 0 <= k < fresh.len() implies #[trigger] jobs@[base + k] == fresh[0 + k] by {}
    Ok(())
}

} // verus!

//! Schedule expressions: the text handed to the cron engine, and the two
//! questions the scheduler asks of it (does the text parse, when does it fire
//! next).
use chrono::TimeZone;
use vstd::prelude::*;

verus! {

#[verifier::external_type_specification]
#[verifier::external_body]
pub struct ExSchedule(cron::Schedule);

#[verifier::external_type_specification]
#[verifier::external_body]
pub struct ExCronError(cron::error::Error);

/// The latest instant this scheduler handles, in milliseconds since the Unix
/// epoch: the last millisecond of the year 9999.
pub const MAX_INSTANT: i64 = 253_402_300_799_999;

/// Whether the cron engine accepts `expr` as a schedule.
pub uninterp spec fn is_valid_expression(expr: Seq<char>) -> bool;

/// The expression handed to the cron engine for the schedule text of a line:
/// an `@` alias as it stands, five bare fields with a seconds field of `0` in
/// front and a year field of `*` behind.
pub open spec fn cron_expression(schedule: Seq<char>) -> Seq<char> {
    if schedule.len() > 0 && schedule[0] == '@' {
        schedule
    } else {
        seq!['0', ' '] + schedule + seq![' ', '*']
    }
}

/// Relies on `<cron::Schedule as FromStr>::from_str`: whether it succeeds
/// depends on the expression text alone.
#[verifier::external_body]
fn parse_expression(expr: &str) -> (r: Result<cron::Schedule, cron::error::Error>)
    ensures
        r is Ok <==> is_valid_expression(expr@),
{
    expr.parse()
}

/// Relies on `cron::Schedule::after` and the first value of the iterator it
/// returns, with chrono's `Local.timestamp_millis_opt` and
/// `DateTime::fixed_offset` to express `after`: the search runs in the UTC
/// offset that the local time zone has at `after`. A fixed offset has no local
/// time that is missing or ambiguous, so cron's day lookup (`TimeZone::ymd`)
/// always finds the day; a change of offset between `after` and the fire time
/// is picked up by the next search, from the next instant. `next_after`
/// searches from one second past its argument, so a fire time it yields lies
/// strictly after `after`. `None` where the schedule never fires again, or
/// where chrono cannot represent `after`; the bound keeps chrono's
/// `DateTime + Duration` in that search from overflowing.
#[verifier::external_body]
pub(crate) fn fire_after(schedule: &cron::Schedule, after: i64) -> (r: Option<i64>)
    requires
        after <= MAX_INSTANT,
    ensures
        r matches Some(t) ==> after < t,
{
    let start = chrono::Local.timestamp_millis_opt(after).single()?.fixed_offset();
    schedule.after(&start).next().map(|t| t.timestamp_millis())
}

/// The cron expression for the schedule text of a line.
pub fn expression_for(schedule: &str) -> (r: String)
    ensures
        r@ == cron_expression(schedule@),
{
    if schedule.unicode_len() > 0 && schedule.get_char(0) == '@' {
        schedule.to_owned()
    } else {
        let mut e = "0 ".to_owned();
        e.append(schedule);
        e.append(" *");
        proof {
            reveal_strlit("0 ");
            reveal_strlit(" *");
        }
        e
    }
}

/// Parses a cron expression; on failure, the engine's message.
pub fn parse_schedule(expr: &str) -> (r: Result<cron::Schedule, String>)
    ensures
        r is Ok <==> is_valid_expression(expr@),
{
    match parse_expression(expr) {
        Ok(s) => Ok(s),
        Err(e) => Err(e.to_string()),
    }
}

} // verus!

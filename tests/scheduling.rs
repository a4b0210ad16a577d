use pocketcron::job::{classify_draw, Draw, Job};
use pocketcron::line::{split_line, token_start, trim, Parsed};
use pocketcron::loader::{load_jobs, LoadError, LoadErrorKind};
use pocketcron::schedule::{expression_for, parse_schedule};
use pocketcron::scheduler::{first_wake, sleep_millis, MAX_IDLE};

/// 2023-11-14T22:14:00Z, on a whole minute.
const T0: i64 = 1_700_000_040_000;

fn lines(text: &[&str]) -> Vec<String> {
    text.iter().map(|l| l.to_string()).collect()
}

fn every_minute(id: usize, now: i64) -> Job {
    Job::new(id, "0 * * * * * *", "echo hi".to_string(), now).expect("valid expression")
}

#[test]
fn loads_two_jobs_in_order() {
    let mut jobs = Vec::new();
    let r = load_jobs(&mut jobs, &lines(&["* * * * * echo hi", "@hourly echo bye"]), T0);
    assert!(r.is_ok());
    assert_eq!(jobs.len(), 2);
    assert_eq!(jobs[0].id(), 1);
    assert_eq!(jobs[1].id(), 2);
    assert_eq!(jobs[0].command(), "echo hi");
    assert_eq!(jobs[1].command(), "echo bye");
    assert!(jobs[0].next_fire().is_some());
    assert!(jobs[1].next_fire().is_some());
    assert!(!jobs[0].is_running());
    assert_eq!(jobs[0].expression(), "0 * * * * *  *");
    assert_eq!(jobs[1].expression(), "@hourly ");
}

#[test]
fn ids_continue_across_files() {
    let mut jobs = Vec::new();
    assert!(load_jobs(&mut jobs, &lines(&["* * * * * a"]), T0).is_ok());
    assert!(load_jobs(&mut jobs, &lines(&["# note", "@daily b", "5 4 * * * c"]), T0).is_ok());
    let ids: Vec<usize> = jobs.iter().map(|j| j.id()).collect();
    assert_eq!(ids, vec![1, 2, 3]);
    assert_eq!(jobs[2].command(), "c");
}

#[test]
fn four_fields_fail_the_whole_file() {
    let mut jobs = Vec::new();
    assert!(load_jobs(&mut jobs, &lines(&["@hourly first"]), T0).is_ok());
    let r = load_jobs(&mut jobs, &lines(&["* * * * * fine", "# c", "* * * * echo hi"]), T0);
    match r {
        Err(LoadError { line, kind: LoadErrorKind::InvalidSchedule(_) }) => assert_eq!(line, 2),
        _ => panic!("expected an invalid schedule"),
    }
    assert_eq!(jobs.len(), 1);
    assert_eq!(jobs[0].command(), "first");
    let r = load_jobs(&mut jobs, &lines(&["* * * * * fine", "* * * * echo"]), T0);
    assert!(matches!(r, Err(LoadError { line: 1, kind: LoadErrorKind::TooFewFields })));
    assert_eq!(jobs.len(), 1);
}

#[test]
fn alias_without_command_is_too_few_fields() {
    let mut jobs = Vec::new();
    let r = load_jobs(&mut jobs, &lines(&["@hourly"]), T0);
    assert!(matches!(r, Err(LoadError { line: 0, kind: LoadErrorKind::TooFewFields })));
    assert!(jobs.is_empty());
}

#[test]
fn bad_schedule_is_reported_with_message() {
    let mut jobs = Vec::new();
    let r = load_jobs(&mut jobs, &lines(&["", "61 * * * * echo x"]), T0);
    match r {
        Err(LoadError { line, kind: LoadErrorKind::InvalidSchedule(message) }) => {
            assert_eq!(line, 1);
            assert!(!message.is_empty());
        },
        _ => panic!("expected an invalid schedule"),
    }
    assert!(jobs.is_empty());
}

#[test]
fn comments_and_blank_lines_give_no_job() {
    let mut jobs = Vec::new();
    assert!(load_jobs(&mut jobs, &lines(&["# every minute", "", "   \t ", "  # indented"]), T0).is_ok());
    assert!(jobs.is_empty());
    assert!(matches!(split_line("# * * * * * x"), Parsed::Skipped));
    assert!(matches!(split_line("  "), Parsed::Skipped));
}

#[test]
fn command_keeps_its_spacing() {
    match split_line("  0  5 * * *   echo   'a  b'\tc  ") {
        Parsed::Entry { schedule, command } => {
            assert_eq!(schedule, "0  5 * * *   ");
            assert_eq!(command, "echo   'a  b'\tc");
            assert_eq!(format!("{}{}", schedule, command), "0  5 * * *   echo   'a  b'\tc");
        },
        _ => panic!("expected an entry"),
    }
    match split_line("@reboot-ish  run  me") {
        Parsed::Entry { schedule, command } => {
            assert_eq!(schedule, "@reboot-ish  ");
            assert_eq!(command, "run  me");
        },
        _ => panic!("expected an entry"),
    }
}

#[test]
fn trims_and_finds_tokens() {
    assert_eq!(trim(" \u{3000}a b\n"), "a b");
    assert_eq!(trim("   "), "");
    assert_eq!(token_start("a  bc d", 0), Some(0));
    assert_eq!(token_start("a  bc d", 1), Some(3));
    assert_eq!(token_start("a  bc d", 2), Some(6));
    assert_eq!(token_start("a  bc d", 3), None);
}

#[test]
fn expressions_for_the_engine() {
    assert_eq!(expression_for("* * * * * "), "0 * * * * *  *");
    assert_eq!(expression_for("@daily "), "@daily ");
    assert!(parse_schedule("0 * * * * *  *").is_ok());
    assert!(parse_schedule("@daily ").is_ok());
    assert!(parse_schedule("0 * * * *").is_err());
}

#[test]
fn first_fire_is_the_next_minute() {
    let job = every_minute(1, T0);
    assert_eq!(job.next_fire(), Some(T0 + 60_000));
    let job = every_minute(1, T0 + 59_999);
    assert_eq!(job.next_fire(), Some(T0 + 60_000));
}

#[test]
fn running_job_is_not_started_again() {
    let mut job = every_minute(7, T0);
    let due = job.next_fire().unwrap();
    let step = job.poll(due, first_wake(due));
    assert!(step.dispatch);
    assert_eq!(job.begin_run(), Some("echo hi".to_string()));
    assert!(job.is_running());
    let later = job.next_fire().unwrap();
    let step = job.poll(later, first_wake(later));
    assert!(step.dispatch);
    assert_eq!(job.begin_run(), None);
    assert!(job.is_running());
    job.end_run();
    assert!(!job.is_running());
    assert_eq!(job.begin_run(), Some("echo hi".to_string()));
}

#[test]
fn fire_times_increase() {
    let mut job = every_minute(1, T0);
    let mut last = job.next_fire().unwrap();
    for _ in 0..5 {
        let step = job.poll(last, first_wake(last));
        assert!(step.dispatch);
        let next = job.next_fire().unwrap();
        assert!(next > last);
        last = next;
    }
}

#[test]
fn missed_ticks_give_one_run() {
    let mut job = every_minute(1, T0);
    assert_eq!(job.next_fire(), Some(T0 + 60_000));
    let late = T0 + 4 * 60_000 + 1_000;
    let step = job.poll(late, first_wake(late));
    assert!(step.dispatch);
    assert_eq!(job.next_fire(), Some(T0 + 5 * 60_000));
    let again = job.poll(late, first_wake(late));
    assert!(!again.dispatch);
    assert_eq!(again.wake, T0 + 5 * 60_000);
}

#[test]
fn waiting_job_lowers_the_wake_instant() {
    let mut job = every_minute(1, T0);
    let now = T0 + 30_000;
    let step = job.poll(now, first_wake(now));
    assert!(!step.dispatch);
    assert_eq!(step.wake, T0 + 60_000);
    let step = job.poll(now, T0 + 40_000);
    assert_eq!(step.wake, T0 + 40_000);
}

#[test]
fn wake_and_sleep_arithmetic() {
    assert_eq!(MAX_IDLE, 60_000);
    assert_eq!(first_wake(T0), T0 + 60_000);
    assert_eq!(sleep_millis(T0, T0 + 1_500), 1_500);
    assert_eq!(sleep_millis(T0, T0), 0);
    assert_eq!(sleep_millis(T0, T0 - 5), 0);
    assert_eq!(sleep_millis(i64::MIN, i64::MAX), u64::MAX);
}

#[test]
fn refused_expression_gives_no_job() {
    assert!(Job::new(1, "0 * * * *", "x".to_string(), T0).is_err());
    assert!(Job::new(1, "@hourly", "x".to_string(), T0).is_ok());
}

#[test]
fn draws_are_sorted_by_now() {
    assert!(matches!(classify_draw(None, T0), Draw::Exhausted));
    assert!(matches!(classify_draw(Some(T0), T0), Draw::Missed(t) if t == T0));
    assert!(matches!(classify_draw(Some(T0 - 1), T0), Draw::Missed(t) if t == T0 - 1));
    assert!(matches!(classify_draw(Some(T0 + 1), T0), Draw::Upcoming(t) if t == T0 + 1));
}

#[test]
fn written_line_keeps_command_exactly() {
    let mut jobs = Vec::new();
    let text = " \t*/5  1-3 * * 1,2\t\techo \"a\tb\"  'c  d' \t ";
    assert!(load_jobs(&mut jobs, &lines(&[text]), T0).is_ok());
    assert_eq!(jobs[0].command(), "echo \"a\tb\"  'c  d'");
    assert_eq!(jobs[0].expression(), "0 */5  1-3 * * 1,2\t\t *");
}

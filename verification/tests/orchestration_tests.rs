use glue_jobs::config::{
    build_start_request, contains_space, split_arg_entry, valid_arg_name, RunConfiguration,
};
use glue_jobs::dates::{date_range, Date};
use glue_jobs::driver::{drive_dates, RunOutcome};
use glue_jobs::poll::{
    failure_message, poll_decision, poll_until_terminal, require_run_id, PollAction, PollOutcome,
    RunError, RunRecord, RunState, POLL_INTERVAL_SECONDS,
};

fn config(date_arg: Option<&str>, extras: &[&str]) -> RunConfiguration {
    RunConfiguration {
        name: "etl".to_string(),
        date_arg_name: date_arg.map(|s| s.to_string()),
        additional_args: extras.iter().map(|s| s.to_string()).collect(),
    }
}

fn record(state: RunState, message: Option<&str>) -> RunRecord {
    RunRecord { state, error_message: message.map(|s| s.to_string()) }
}

#[test]
fn start_request_with_date() {
    let c = config(Some("--date"), &["--a", "1", "--b", "2"]);
    let date = "2024-01-01".to_string();
    let r = build_start_request(&c, Some(&date));
    assert_eq!(r.job_name, "etl");
    assert_eq!(
        r.arguments,
        vec![
            ("--date".to_string(), "2024-01-01".to_string()),
            ("--a".to_string(), "1".to_string()),
            ("--b".to_string(), "2".to_string()),
        ]
    );
}

#[test]
fn start_request_without_date() {
    let c = config(None, &["--a", "1"]);
    let r = build_start_request(&c, None);
    assert_eq!(r.arguments, vec![("--a".to_string(), "1".to_string())]);
}

#[test]
fn start_request_drops_trailing_entry() {
    let c = config(Some("--date"), &["--a", "1", "--odd"]);
    let r = build_start_request(&c, None);
    assert_eq!(r.arguments, vec![("--a".to_string(), "1".to_string())]);
}

#[test]
fn message_lists_each_argument() {
    let c = config(Some("--date"), &["--a", "1"]);
    let date = "2024-01-01".to_string();
    assert_eq!(
        c.message(Some(&date)),
        "Running etl with arguments:\n --date: 2024-01-01\n --a: 1\n"
    );
}

#[test]
fn message_without_date_line() {
    let c = config(None, &["--a", "1", "--b", "2"]);
    assert_eq!(c.message(None), "Running etl with arguments:\n --a: 1\n --b: 2\n");
}

#[test]
fn poll_succeeds_after_two_sleeps() {
    let script = vec![
        record(RunState::Running, None),
        record(RunState::Running, None),
        record(RunState::Other, None),
    ];
    let r = poll_until_terminal(&script);
    assert!(matches!(r.outcome, PollOutcome::Succeeded));
    assert_eq!(r.sleeps, 2);
    // Success needs no follow-up fetch for a message.
    assert_eq!(r.fetches, 3);
}

#[test]
fn poll_failure_takes_refetched_message() {
    let script = vec![
        record(RunState::Running, None),
        record(RunState::Failed, None),
        record(RunState::Failed, Some("disk full")),
    ];
    let r = poll_until_terminal(&script);
    match r.outcome {
        PollOutcome::Failed { message } => assert_eq!(message, "disk full"),
        other => panic!("expected a failure, got {:?}", other),
    }
    assert_eq!(r.sleeps, 1);
    assert_eq!(r.fetches, 3);
}

#[test]
fn poll_failure_without_message_reports_unknown() {
    let script = vec![record(RunState::Failed, None), record(RunState::Failed, None)];
    let r = poll_until_terminal(&script);
    match r.outcome {
        PollOutcome::Failed { message } => assert_eq!(message, "Unknown error"),
        other => panic!("expected a failure, got {:?}", other),
    }
}

#[test]
fn poll_ignores_message_of_the_failing_fetch() {
    // The fetch that reports the failure may carry a stale message; the
    // follow-up fetch decides.
    let script = vec![record(RunState::Failed, Some("stale")), record(RunState::Failed, None)];
    let r = poll_until_terminal(&script);
    match r.outcome {
        PollOutcome::Failed { message } => assert_eq!(message, "Unknown error"),
        other => panic!("expected a failure, got {:?}", other),
    }
}

#[test]
fn poll_succeeds_at_once_on_terminal_state() {
    let script = vec![record(RunState::Other, None)];
    let r = poll_until_terminal(&script);
    assert!(matches!(r.outcome, PollOutcome::Succeeded));
    assert_eq!(r.sleeps, 0);
    assert_eq!(r.fetches, 1);
}

#[test]
fn poll_reports_exhaustion_of_the_script() {
    let r = poll_until_terminal(&vec![record(RunState::Running, None)]);
    assert!(matches!(r.outcome, PollOutcome::Exhausted));
    assert_eq!(r.fetches, 1);
    assert_eq!(r.sleeps, 1);
    // A failure whose follow-up fetch is missing gives no verdict either.
    let r = poll_until_terminal(&vec![record(RunState::Failed, None)]);
    assert!(matches!(r.outcome, PollOutcome::Exhausted));
    assert_eq!(r.fetches, 1);
    assert_eq!(r.sleeps, 0);
}

#[test]
fn poll_decision_maps_each_state() {
    assert_eq!(poll_decision(RunState::Running), PollAction::Sleep);
    assert_eq!(poll_decision(RunState::Failed), PollAction::FetchMessage);
    assert_eq!(poll_decision(RunState::Other), PollAction::Finish);
}

#[test]
fn poll_interval_is_one_minute() {
    assert_eq!(POLL_INTERVAL_SECONDS, 60);
}

#[test]
fn failure_message_defaults() {
    assert_eq!(failure_message(Some("boom".to_string())), "boom");
    assert_eq!(failure_message(None), "Unknown error");
}

#[test]
fn run_id_is_required() {
    assert_eq!(require_run_id(Some("jr_1".to_string())).unwrap(), "jr_1");
    let e = require_run_id(None).unwrap_err();
    assert!(matches!(e, RunError::MissingRunId));
    assert_eq!(e.text(), "Job run ID is missing");
    let failed = RunError::JobFailed { message: "disk full".to_string() };
    assert_eq!(failed.text(), "disk full");
}

#[test]
fn driver_stops_at_first_failure() {
    let dates = vec!["d1".to_string(), "d2".to_string(), "d3".to_string()];
    let results = vec![
        RunOutcome::Success,
        RunOutcome::Failure { message: "boom".to_string() },
        RunOutcome::Success,
    ];
    let r = drive_dates(&dates, &results);
    assert_eq!(r.attempted, vec!["d1".to_string(), "d2".to_string()]);
    assert_eq!(r.failure.as_deref(), Some("boom"));
}

#[test]
fn driver_runs_every_date_without_failure() {
    let dates = vec!["d1".to_string(), "d2".to_string()];
    let results = vec![RunOutcome::Success, RunOutcome::Success];
    let r = drive_dates(&dates, &results);
    assert_eq!(r.attempted, dates);
    assert!(r.failure.is_none());
}

#[test]
fn backfill_scenario_halts_on_second_date() {
    // Three days, the date-parameterized job started once per day in
    // order; the failure on the second halts before the third.
    let dates = date_range(
        Date { year: 2024, month: 1, day: 1 },
        Date { year: 2024, month: 1, day: 3 },
    );
    assert_eq!(dates, vec!["2024-01-01", "2024-01-02", "2024-01-03"]);
    let c = config(Some("--date"), &[]);
    let requests: Vec<_> = dates.iter().map(|day| build_start_request(&c, Some(day))).collect();
    for (request, day) in requests.iter().zip(dates.iter()) {
        assert_eq!(request.job_name, "etl");
        assert_eq!(request.arguments, vec![("--date".to_string(), day.clone())]);
    }
    let results = vec![
        RunOutcome::Success,
        RunOutcome::Failure { message: "boom".to_string() },
        RunOutcome::Success,
    ];
    let r = drive_dates(&dates, &results);
    assert_eq!(r.attempted, vec!["2024-01-01".to_string(), "2024-01-02".to_string()]);
    assert_eq!(r.failure.as_deref(), Some("boom"));
}

#[test]
fn arg_name_must_begin_with_dashes() {
    assert!(valid_arg_name("--name"));
    assert!(valid_arg_name("--"));
    assert!(!valid_arg_name("-name"));
    assert!(!valid_arg_name("name"));
    assert!(!valid_arg_name(""));
}

#[test]
fn arg_entry_must_hold_a_space() {
    assert!(contains_space("--name value"));
    assert!(!contains_space("--namevalue"));
}

#[test]
fn arg_entry_splits_at_first_space() {
    assert_eq!(
        split_arg_entry("--name value"),
        Some(("--name".to_string(), "value".to_string()))
    );
    assert_eq!(split_arg_entry("--a b c"), Some(("--a".to_string(), "b c".to_string())));
    assert_eq!(split_arg_entry("--nospace"), None);
}

use rpytest::flakiness::FlakinessTracker;
use rpytest::models::{DaemonConfig, ExecutionMode, StabilityState, TestOutcome};
use rpytest::protocol::Outcome;

#[test]
fn outcome_classification() {
    assert!(Outcome::Passed.is_success());
    assert!(Outcome::Skipped { reason: None }.is_success());
    assert!(Outcome::XFail { reason: None }.is_success());

    assert!(Outcome::Failed {
        message: "".to_string()
    }
    .is_failure());
    assert!(Outcome::XPass.is_failure());

    assert!(Outcome::Error {
        message: "".to_string()
    }
    .is_error());
}

#[test]
fn test_execution_mode_from_str() {
    assert_eq!("embedded".parse::<ExecutionMode>().unwrap(), ExecutionMode::Embedded);
    assert_eq!("subprocess".parse::<ExecutionMode>().unwrap(), ExecutionMode::Subprocess);
    assert_eq!("auto".parse::<ExecutionMode>().unwrap(), ExecutionMode::Auto);

    // Case insensitive
    assert_eq!("EMBEDDED".parse::<ExecutionMode>().unwrap(), ExecutionMode::Embedded);
    assert_eq!("Auto".parse::<ExecutionMode>().unwrap(), ExecutionMode::Auto);

    // Invalid
    assert!("invalid".parse::<ExecutionMode>().is_err());
}

#[test]
fn test_execution_mode_display() {
    assert_eq!(ExecutionMode::Embedded.to_string(), "embedded");
    assert_eq!(ExecutionMode::Subprocess.to_string(), "subprocess");
    assert_eq!(ExecutionMode::Auto.to_string(), "auto");
}

#[test]
fn test_execution_mode_default() {
    assert_eq!(ExecutionMode::default(), ExecutionMode::Embedded);
}

#[test]
fn test_daemon_config_default() {
    let config = DaemonConfig::default();
    assert_eq!(config.execution_mode, ExecutionMode::Auto);
    assert_eq!(config.max_workers, 4);
}

#[test]
fn test_test_outcome_conversions() {
    assert_eq!(TestOutcome::from("passed"), TestOutcome::Passed);
    assert_eq!(TestOutcome::from("failed"), TestOutcome::Failed);
    assert_eq!(TestOutcome::from("skipped"), TestOutcome::Skipped);
    assert_eq!(TestOutcome::from("error"), TestOutcome::Error);
    assert_eq!(TestOutcome::from("xfail"), TestOutcome::Xfail);
    assert_eq!(TestOutcome::from("xpass"), TestOutcome::Xpass);
    assert_eq!(TestOutcome::from("unknown"), TestOutcome::Error);

    assert_eq!(String::from(TestOutcome::Passed), "passed");
    assert_eq!(String::from(TestOutcome::Failed), "failed");
}

#[test]
fn invalid_mode_message_names_the_modes() {
    let err = ExecutionMode::parse("warp").unwrap_err();
    assert_eq!(
        err,
        "Invalid execution mode: warp. Use 'embedded', 'subprocess', 'pooled', or 'auto'"
    );
    assert_eq!(ExecutionMode::parse("POOLED"), Ok(ExecutionMode::Pooled));
    assert_eq!(ExecutionMode::Pooled.to_string(), "pooled");
}

#[test]
fn test_stability_state_transitions() {
    // Unknown -> Stable
    let state = StabilityState::Unknown.transition(&TestOutcome::Passed, None);
    assert!(matches!(state, StabilityState::Stable { consecutive_passes: 1 }));

    // Unknown -> Unstable
    let state = StabilityState::Unknown.transition(&TestOutcome::Failed, None);
    assert!(matches!(state, StabilityState::Unstable { consecutive_failures: 1 }));

    // Stable -> Flaky (first failure)
    let state = StabilityState::Stable { consecutive_passes: 3 }
        .transition(&TestOutcome::Failed, Some(&TestOutcome::Passed));
    assert!(matches!(state, StabilityState::Flaky { streak_count: 1 }));

    // Unstable -> Flaky (first pass)
    let state = StabilityState::Unstable { consecutive_failures: 2 }
        .transition(&TestOutcome::Passed, Some(&TestOutcome::Failed));
    assert!(matches!(state, StabilityState::Flaky { streak_count: 1 }));

    // Flaky with flip -> Flaky (streak increases)
    let state = StabilityState::Flaky { streak_count: 1 }
        .transition(&TestOutcome::Failed, Some(&TestOutcome::Passed));
    assert!(matches!(state, StabilityState::Flaky { streak_count: 2 }));

    // Flaky with enough flips -> ConfirmedFlaky
    let state = StabilityState::Flaky { streak_count: 2 }
        .transition(&TestOutcome::Passed, Some(&TestOutcome::Failed));
    assert!(matches!(state, StabilityState::ConfirmedFlaky));

    // Flaky without flip -> Stable
    let state = StabilityState::Flaky { streak_count: 1 }
        .transition(&TestOutcome::Passed, Some(&TestOutcome::Passed));
    assert!(matches!(state, StabilityState::Stable { consecutive_passes: 1 }));

    // Flaky without flip -> Unstable
    let state = StabilityState::Flaky { streak_count: 1 }
        .transition(&TestOutcome::Failed, Some(&TestOutcome::Failed));
    assert!(matches!(state, StabilityState::Unstable { consecutive_failures: 1 }));

    // Skipped resets to Unknown
    let state = StabilityState::Stable { consecutive_passes: 5 }
        .transition(&TestOutcome::Skipped, Some(&TestOutcome::Passed));
    assert!(matches!(state, StabilityState::Unknown));
}

#[test]
fn tracker_records_outcomes() {
    let mut tracker = FlakinessTracker::new(None);
    tracker.record_outcome("test_a", TestOutcome::Passed, None);
    tracker.record_outcome("test_a", TestOutcome::Failed, Some("error"));

    assert_eq!(tracker.total_tracked(), 1);
    assert!(!tracker.is_flaky("test_a"));
    let state = tracker.stability_state("test_a");
    assert!(matches!(state, StabilityState::Flaky { streak_count: 1 }));
    let rec = tracker.get_record("test_a").unwrap();
    assert_eq!(rec.outcomes, vec!["passed".to_string(), "failed".to_string()]);
    assert_eq!(rec.last_failure_message, Some("error".to_string()));
    assert!(tracker.is_dirty());
    assert!(tracker.can_record("test_a", TestOutcome::Passed));
}

#[test]
fn tracker_detects_flaky_tests() {
    let mut tracker = FlakinessTracker::new(None);
    tracker.record_outcome("t", TestOutcome::Passed, None);
    tracker.record_outcome("t", TestOutcome::Failed, None);
    tracker.record_outcome("t", TestOutcome::Passed, None);
    tracker.record_outcome("u", TestOutcome::Failed, None);
    tracker.record_outcome("s", TestOutcome::Passed, None);
    assert!(tracker.is_flaky("t"));
    assert_eq!(tracker.get_flaky_tests().len(), 1);
    assert_eq!(tracker.get_unstable_tests().len(), 1);
    assert_eq!(tracker.stable_count(), 1);
    assert_eq!(tracker.total_tracked(), 3);
}

fn flakiness_tracker() -> FlakinessTracker {
    FlakinessTracker::new(Some("flakiness.json".to_string()))
}

#[test]
fn test_record_outcome() {
    let mut tracker = flakiness_tracker();
    tracker.record_outcome("test_a", TestOutcome::Passed, None);
    tracker.record_outcome("test_a", TestOutcome::Failed, Some("error"));
    assert_eq!(tracker.total_tracked(), 1);
    assert!(!tracker.is_flaky("test_a"));
    let state = tracker.stability_state("test_a");
    assert!(matches!(state, StabilityState::Flaky { streak_count: 1 }));
}

#[test]
fn test_flaky_detection() {
    let mut tracker = flakiness_tracker();
    tracker.record_outcome("test_a", TestOutcome::Passed, None);
    tracker.record_outcome("test_a", TestOutcome::Failed, None);
    tracker.record_outcome("test_a", TestOutcome::Passed, None);
    tracker.record_outcome("test_a", TestOutcome::Failed, None);
    tracker.record_outcome("test_a", TestOutcome::Passed, None);
    assert!(tracker.is_flaky("test_a"));
    let record = tracker.get_record("test_a").unwrap();
    let rate = rpytest::flakiness::failing_outcome_count(record) as f64 / record.outcomes.len() as f64;
    assert_eq!(rate, 0.4);
    let state = tracker.stability_state("test_a");
    assert!(matches!(state, StabilityState::ConfirmedFlaky));
}

#[test]
fn test_get_flaky_tests() {
    let mut tracker = flakiness_tracker();
    tracker.record_outcome("test_flaky", TestOutcome::Passed, None);
    tracker.record_outcome("test_flaky", TestOutcome::Failed, None);
    tracker.record_outcome("test_flaky", TestOutcome::Passed, None);
    tracker.record_outcome("test_stable", TestOutcome::Passed, None);
    tracker.record_outcome("test_stable", TestOutcome::Passed, None);
    let flaky = tracker.get_flaky_tests();
    assert_eq!(flaky.len(), 1);
    assert_eq!(flaky[0].node_id, "test_flaky");
    assert!(flaky[0].stability.is_flaky());
}

#[test]
fn test_confirmed_flaky_recovery() {
    let mut tracker = flakiness_tracker();
    tracker.record_outcome("test_recover", TestOutcome::Passed, None);
    tracker.record_outcome("test_recover", TestOutcome::Failed, None);
    tracker.record_outcome("test_recover", TestOutcome::Passed, None);
    tracker.record_outcome("test_recover", TestOutcome::Failed, None);
    tracker.record_outcome("test_recover", TestOutcome::Passed, None);
    assert!(tracker.is_flaky("test_recover"));
    assert!(matches!(tracker.stability_state("test_recover"), StabilityState::ConfirmedFlaky));
    tracker.record_outcome("test_recover", TestOutcome::Passed, None);
    tracker.record_outcome("test_recover", TestOutcome::Passed, None);
    tracker.record_outcome("test_recover", TestOutcome::Passed, None);
    assert!(matches!(
        tracker.stability_state("test_recover"),
        StabilityState::Stable { consecutive_passes: 4 }
    ));
    assert!(!tracker.is_flaky("test_recover"));
}

#[test]
fn test_stable_count() {
    let mut tracker = flakiness_tracker();
    tracker.record_outcome("stable1", TestOutcome::Passed, None);
    tracker.record_outcome("stable1", TestOutcome::Passed, None);
    tracker.record_outcome("flaky1", TestOutcome::Passed, None);
    tracker.record_outcome("flaky1", TestOutcome::Failed, None);
    tracker.record_outcome("flaky1", TestOutcome::Passed, None);
    tracker.record_outcome("unstable1", TestOutcome::Failed, None);
    tracker.record_outcome("unstable1", TestOutcome::Failed, None);
    assert_eq!(tracker.stable_count(), 1);
    assert_eq!(tracker.get_flaky_tests().len(), 1);
    assert_eq!(tracker.get_unstable_tests().len(), 1);
}

#[test]
fn report_counts_cover_every_tracked_test() {
    let mut tracker = flakiness_tracker();
    let runs: [(&str, TestOutcome); 9] = [
        ("a", TestOutcome::Passed),
        ("b", TestOutcome::Failed),
        ("c", TestOutcome::Passed),
        ("c", TestOutcome::Error),
        ("c", TestOutcome::Passed),
        ("d", TestOutcome::Skipped),
        ("b", TestOutcome::Passed),
        ("e", TestOutcome::Error),
        ("a", TestOutcome::Passed),
    ];
    for (id, outcome) in runs.iter() {
        tracker.record_outcome(id, *outcome, None);
        let total = tracker.stable_count()
            + tracker.get_flaky_tests().len()
            + tracker.get_unstable_tests().len();
        assert_eq!(total, tracker.total_tracked());
    }
    assert_eq!(tracker.total_tracked(), 5);
    let rec = tracker.get_record("c").unwrap();
    assert_eq!(rec.node_id, "c");
    assert_eq!(rec.outcomes, vec!["passed", "error", "passed"]);
    for _ in 0..25 {
        tracker.record_outcome("a", TestOutcome::Passed, None);
    }
    assert_eq!(tracker.get_record("a").unwrap().outcomes.len(), 20);
    assert_eq!(tracker.get_record("a").unwrap().total_runs, 27);
}

#[test]
fn storage_path_joins_the_data_directory() {
    let c = DaemonConfig::with_data_dir(Some(b"/home/u/.local/share".to_vec()));
    assert_eq!(c.storage_path, b"/home/u/.local/share/rpytest".to_vec());
    assert_eq!(c.socket_path, "/tmp/rpytest.sock");
    let c = DaemonConfig::with_data_dir(Some(b"/data/".to_vec()));
    assert_eq!(c.storage_path, b"/data/rpytest".to_vec());
    let c = DaemonConfig::with_data_dir(None);
    assert_eq!(c.storage_path, b"./rpytest".to_vec());
    // a directory name that is not UTF-8 is kept byte for byte
    let c = DaemonConfig::with_data_dir(Some(vec![b'/', 0xff, b'x']));
    assert_eq!(c.storage_path, vec![b'/', 0xff, b'x', b'/', b'r', b'p', b'y', b't', b'e', b's', b't']);
    let d = DaemonConfig::default();
    assert!(d.storage_path.ends_with(b"/rpytest"));
}

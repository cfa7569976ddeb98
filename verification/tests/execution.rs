use rpytest::executor::{
    create_executor, extract_message, fake_pytest_output, mode_of_executor, parse_batch_output,
    parse_pytest_output, pooled_worker_count, pytest_args, runs_in_parallel, split_batches,
    ExecutorConfig, ExecutorKind,
};
use rpytest::error::DaemonError;
use rpytest::models::{ExecutionMode, TestOutcome};

#[test]
fn test_executor_config_default() {
    let config = ExecutorConfig::new();
    assert!(config.batch_size > 0);
    assert_eq!(config.test_timeout_secs, 60);
    assert!(config.workers.is_none());
    assert!(config.maxfail.is_none());
}

#[test]
fn batch_size_scales_with_processors() {
    assert!(ExecutorConfig::optimal_batch_size() >= 500);
    assert_eq!(ExecutorConfig::batch_size_for(1), 500);
    assert_eq!(ExecutorConfig::batch_size_for(10), 500);
    assert_eq!(ExecutorConfig::batch_size_for(16), 800);
}

fn ids(v: &[&str]) -> Vec<String> {
    v.iter().map(|s| s.to_string()).collect()
}

#[test]
fn batch_output_passed() {
    let output = "test_file.py::test_one PASSED\ntest_file.py::test_two PASSED\n";
    let results = parse_batch_output(&ids(&["test_file.py::test_one", "test_file.py::test_two"]), output);
    assert_eq!(results.len(), 2);
    assert_eq!(results[0].outcome, TestOutcome::Passed);
    assert_eq!(results[1].outcome, TestOutcome::Passed);
    assert_eq!(results[1].node_id, "test_file.py::test_two");
    assert_eq!(results[0].duration_ms, 0);
}

#[test]
fn batch_output_each_status() {
    let output = "test_file.py::test_pass PASSED\ntest_file.py::test_fail FAILED\ntest_file.py::test_skip SKIPPED\ntest_file.py::test_xf XFAIL\ntest_file.py::test_xp XPASS\n";
    let results = parse_batch_output(
        &ids(&[
            "test_file.py::test_pass",
            "test_file.py::test_fail",
            "test_file.py::test_skip",
            "test_file.py::test_xf",
            "test_file.py::test_xp",
        ]),
        output,
    );
    let outcomes: Vec<TestOutcome> = results.iter().map(|r| r.outcome).collect();
    assert_eq!(
        outcomes,
        vec![
            TestOutcome::Passed,
            TestOutcome::Failed,
            TestOutcome::Skipped,
            TestOutcome::Xfail,
            TestOutcome::Xpass
        ]
    );
}

#[test]
fn batch_output_summary_fallback() {
    let output = "= 1 passed in 0.01s =\n";
    let results = parse_batch_output(&ids(&["test_file.py::test_one"]), output);
    assert_eq!(results[0].outcome, TestOutcome::Passed);

    let results = parse_batch_output(&ids(&["x.py::t"]), "= 2 failed in 0.2s =\n");
    assert_eq!(results[0].outcome, TestOutcome::Failed);

    // " passed," is no summary of passed tests
    let results = parse_batch_output(&ids(&["x.py::t"]), "= 1 passed, 1 failed in 0.2s =\n");
    assert_eq!(results[0].outcome, TestOutcome::Failed);

    let results = parse_batch_output(&ids(&["x.py::t"]), "= 1 errors in 0.2s =");
    assert_eq!(results[0].outcome, TestOutcome::Error);

    let results = parse_batch_output(&ids(&["x.py::t"]), "= 3 skipped in 0.2s =\r\n");
    assert_eq!(results[0].outcome, TestOutcome::Skipped);

    let results = parse_batch_output(&ids(&["x.py::t"]), "nothing useful");
    assert_eq!(results[0].outcome, TestOutcome::Passed);
}

#[test]
fn batch_output_matches_by_test_name() {
    // the output names the test with another path; the name after "::" matches
    let output = "other/test_file.py::test_one FAILED [ 50%]\r\n";
    let results = parse_batch_output(&ids(&["test_file.py::test_one"]), output);
    assert_eq!(results[0].outcome, TestOutcome::Failed);
    // a later report replaces an earlier one
    let output = "a.py::t PASSED\n   a.py::t   FAILED\n";
    let results = parse_batch_output(&ids(&["a.py::t"]), output);
    assert_eq!(results[0].outcome, TestOutcome::Failed);
}

#[test]
fn single_test_output() {
    assert_eq!(parse_pytest_output("1 passed"), TestOutcome::Passed);
    assert_eq!(parse_pytest_output("PASSED"), TestOutcome::Passed);
    assert_eq!(parse_pytest_output("1 failed"), TestOutcome::Failed);
    assert_eq!(parse_pytest_output("FAILED"), TestOutcome::Failed);
    assert_eq!(parse_pytest_output("1 skipped"), TestOutcome::Skipped);
    assert_eq!(parse_pytest_output("ERROR"), TestOutcome::Error);
    assert_eq!(parse_pytest_output(""), TestOutcome::Error);
}

#[test]
fn messages_from_output() {
    assert_eq!(
        extract_message("AssertionError: expected 1 got 2"),
        Some("AssertionError: expected 1 got 2".to_string())
    );
    assert_eq!(
        extract_message("Error: something failed"),
        Some("Error: something failed".to_string())
    );
    assert_eq!(extract_message("test passed ok"), None);
    assert_eq!(
        extract_message("line one\nFAILED: second\r\nValueError: third\n"),
        Some("FAILED: second".to_string())
    );
}

#[test]
fn pytest_command_line() {
    let mut config = ExecutorConfig::new();
    config.maxfail = Some(3);
    config.extra_args = vec!["-x".to_string()];
    let args = pytest_args(&ids(&["a.py::t1", "b.py::t2"]), &config);
    assert_eq!(
        args,
        ids(&[
            "-m", "pytest", "a.py::t1", "b.py::t2", "-v", "--tb=short", "--no-header", "--maxfail", "3",
            "-x", "--capture=no"
        ])
    );
    let config = ExecutorConfig::new();
    let args = pytest_args(&Vec::new(), &config);
    assert_eq!(args, ids(&["-m", "pytest", "-v", "--tb=short", "--no-header", "--capture=no"]));
}

#[test]
fn stand_in_output() {
    let out = fake_pytest_output(&ids(&["a.py::t1", "a.py::t2"]));
    assert_eq!(out, "a.py::t1 PASSED\na.py::t2 PASSED\n2 passed in 0.01s\n");
    let results = parse_batch_output(&ids(&["a.py::t1", "a.py::t2"]), &out);
    assert!(results.iter().all(|r| r.outcome == TestOutcome::Passed));
}

#[test]
fn batches_and_workers() {
    let all = ids(&["a", "b", "c", "d", "e"]);
    let batches = split_batches(&all, 2);
    assert_eq!(batches, vec![ids(&["a", "b"]), ids(&["c", "d"]), ids(&["e"])]);
    assert_eq!(split_batches(&Vec::new(), 3).len(), 0);
    assert!(runs_in_parallel(Some(2), 2));
    assert!(!runs_in_parallel(None, 5));
    assert!(!runs_in_parallel(Some(4), 1));
    assert_eq!(pooled_worker_count(50, 8), 1);
    assert_eq!(pooled_worker_count(51, 8), 2);
    assert_eq!(pooled_worker_count(1000, 8), 8);
    assert_eq!(pooled_worker_count(120, 8), 3);
}

#[test]
fn executor_choice() {
    assert_eq!(create_executor(ExecutionMode::Subprocess, false), Ok(ExecutorKind::Subprocess));
    assert_eq!(create_executor(ExecutionMode::Embedded, false), Ok(ExecutorKind::Embedded));
    assert_eq!(create_executor(ExecutionMode::Auto, true), Ok(ExecutorKind::Embedded));
    assert_eq!(create_executor(ExecutionMode::Auto, false), Ok(ExecutorKind::Subprocess));
    assert_eq!(
        create_executor(ExecutionMode::Pooled, true),
        Err(DaemonError::Other(
            "Pooled executor requires async initialization. Use create_pooled_executor() instead."
                .to_string()
        ))
    );
    assert_eq!(mode_of_executor("embedded"), ExecutionMode::Embedded);
    assert_eq!(mode_of_executor("pooled"), ExecutionMode::Pooled);
    assert_eq!(mode_of_executor("subprocess"), ExecutionMode::Subprocess);
    assert_eq!(mode_of_executor("other"), ExecutionMode::Subprocess);
}

#[test]
fn test_create_executor_subprocess() {
    let executor = create_executor(ExecutionMode::Subprocess, false);
    assert!(executor.is_ok());
    assert_eq!(executor.unwrap(), ExecutorKind::Subprocess);
}

#[test]
fn test_create_executor_auto() {
    for available in [true, false] {
        let executor = create_executor(ExecutionMode::Auto, available);
        assert!(executor.is_ok());
        let kind = executor.unwrap();
        assert!(kind == ExecutorKind::Embedded || kind == ExecutorKind::Subprocess);
    }
}

#[test]
fn test_create_executor_embedded() {
    let executor = create_executor(ExecutionMode::Embedded, true);
    assert!(executor.is_ok());
    assert_eq!(executor.unwrap(), ExecutorKind::Embedded);
}

#[test]
fn test_parse_batch_output_passed() {
    let output = "test_file.py::test_one PASSED\ntest_file.py::test_two PASSED\n";
    let node_ids = ids(&["test_file.py::test_one", "test_file.py::test_two"]);
    let results = parse_batch_output(&node_ids, output);
    assert_eq!(results.len(), 2);
    assert!(matches!(results[0].outcome, TestOutcome::Passed));
    assert!(matches!(results[1].outcome, TestOutcome::Passed));
}

#[test]
fn test_parse_batch_output_failed() {
    let node_ids = ids(&["test_file.py::test_fail"]);
    let results = parse_batch_output(&node_ids, "test_file.py::test_fail FAILED\n");
    assert_eq!(results.len(), 1);
    assert!(matches!(results[0].outcome, TestOutcome::Failed));
}

#[test]
fn test_parse_batch_output_skipped() {
    let node_ids = ids(&["test_file.py::test_skip"]);
    let results = parse_batch_output(&node_ids, "test_file.py::test_skip SKIPPED\n");
    assert_eq!(results.len(), 1);
    assert!(matches!(results[0].outcome, TestOutcome::Skipped));
}

#[test]
fn test_parse_batch_output_xfail() {
    let node_ids = ids(&["test_file.py::test_xfail"]);
    let results = parse_batch_output(&node_ids, "test_file.py::test_xfail XFAIL\n");
    assert_eq!(results.len(), 1);
    assert!(matches!(results[0].outcome, TestOutcome::Xfail));
}

#[test]
fn test_parse_batch_output_xpass() {
    let node_ids = ids(&["test_file.py::test_xpass"]);
    let results = parse_batch_output(&node_ids, "test_file.py::test_xpass XPASS\n");
    assert_eq!(results.len(), 1);
    assert!(matches!(results[0].outcome, TestOutcome::Xpass));
}

#[test]
fn test_parse_batch_output_mixed() {
    let output = "test_file.py::test_pass PASSED\ntest_file.py::test_fail FAILED\ntest_file.py::test_skip SKIPPED\n";
    let node_ids = ids(&[
        "test_file.py::test_pass",
        "test_file.py::test_fail",
        "test_file.py::test_skip",
    ]);
    let results = parse_batch_output(&node_ids, output);
    assert_eq!(results.len(), 3);
    assert!(matches!(results[0].outcome, TestOutcome::Passed));
    assert!(matches!(results[1].outcome, TestOutcome::Failed));
    assert!(matches!(results[2].outcome, TestOutcome::Skipped));
}

#[test]
fn test_parse_batch_output_summary_fallback() {
    let node_ids = ids(&["test_file.py::test_one"]);
    let results = parse_batch_output(&node_ids, "= 1 passed in 0.01s =\n");
    assert_eq!(results.len(), 1);
    assert!(matches!(results[0].outcome, TestOutcome::Passed));
}

#[test]
fn test_parse_pytest_output() {
    assert!(matches!(parse_pytest_output("1 passed"), TestOutcome::Passed));
    assert!(matches!(parse_pytest_output("PASSED"), TestOutcome::Passed));
    assert!(matches!(parse_pytest_output("1 failed"), TestOutcome::Failed));
    assert!(matches!(parse_pytest_output("FAILED"), TestOutcome::Failed));
    assert!(matches!(parse_pytest_output("1 skipped"), TestOutcome::Skipped));
    assert!(matches!(parse_pytest_output("ERROR"), TestOutcome::Error));
}

#[test]
fn test_extract_message() {
    assert_eq!(
        extract_message("AssertionError: expected 1 got 2"),
        Some("AssertionError: expected 1 got 2".to_string())
    );
    assert_eq!(
        extract_message("Error: something failed"),
        Some("Error: something failed".to_string())
    );
    assert_eq!(extract_message("test passed ok"), None);
}

#[test]
fn test_executor_config_optimal_batch_size() {
    let batch_size = ExecutorConfig::optimal_batch_size();
    assert!(batch_size >= 500);
}

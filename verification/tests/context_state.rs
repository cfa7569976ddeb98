use rpytest::context::{
    context_id, effective_mode, flakiness_path, no_pool_setting, requested_mode, sort_strings,
    summarize, RunState,
};
use rpytest::models::{ExecutionMode, StabilityState, TestNode, TestOutcome, TestResult};

fn node(id: &str, name: &str, markers: &[&str], skip: bool) -> TestNode {
    TestNode {
        node_id: id.to_string(),
        file_path: id.split("::").next().unwrap().to_string(),
        name: name.to_string(),
        class_name: None,
        line_number: 0,
        markers: markers.iter().map(|m| m.to_string()).collect(),
        skip,
        xfail: false,
    }
}

fn result(id: &str, outcome: TestOutcome, ms: u64) -> TestResult {
    TestResult {
        node_id: id.to_string(),
        outcome,
        duration_ms: ms,
        message: None,
        stdout: None,
        stderr: None,
    }
}

fn state() -> RunState {
    let mut s = RunState::new(Some("/repo/.rpytest/flakiness.json".to_string()));
    s.insert_node(node("t.py::test_a", "test_a", &["slow"], false));
    s.insert_node(node("t.py::test_b", "test_b", &[], true));
    s.insert_node(node("u.py::test_c", "test_c", &["db_slow"], false));
    s
}

#[test]
fn inventory_queries() {
    let s = state();
    assert_eq!(s.get_node_ids(), vec!["t.py::test_a", "t.py::test_b", "u.py::test_c"]);
    assert_eq!(s.get_inventory().len(), 3);
    assert_eq!(s.get_test_node("t.py::test_b").unwrap().name, "test_b");
    assert!(s.get_test_node("missing").is_none());
    let hits: Vec<String> = s.filter_by_keyword("slow").into_iter().map(|n| n.node_id).collect();
    assert_eq!(hits, vec!["t.py::test_a", "u.py::test_c"]);
    assert_eq!(s.filter_by_keyword("").len(), 3);
    assert_eq!(s.filter_by_keyword("u.py").len(), 1);
    assert_eq!(s.filter_by_marker("db").len(), 1);
    assert_eq!(s.filter_by_marker("").len(), 3);
}

#[test]
fn a_run_from_start_to_summary() {
    let mut s = state();
    let requested = vec!["t.py::test_a".to_string(), "t.py::test_b".to_string(), "new.py::t".to_string()];
    let (runnable, pre_skipped) = s.begin_run(&requested);
    assert_eq!(runnable, vec!["t.py::test_a", "new.py::t"]);
    assert_eq!(pre_skipped, 1);

    let results = vec![
        result("t.py::test_a", TestOutcome::Passed, 120),
        result("new.py::t", TestOutcome::Xfail, 30),
    ];
    for r in &results {
        assert!(s.can_record(r));
        s.record_result(r);
    }
    let summary = summarize(&results, pre_skipped, 999);
    assert_eq!(summary.total, 3);
    assert_eq!(summary.passed, 1);
    assert_eq!(summary.failed, 0);
    assert_eq!(summary.skipped, 1);
    assert_eq!(summary.errors, 0);
    assert_eq!(summary.duration_ms, 999);

    assert_eq!(s.scheduler().get_estimated_duration("t.py::test_a"), 120);
    assert_eq!(
        s.tracker().stability_state("t.py::test_a"),
        StabilityState::Stable { consecutive_passes: 1 }
    );

    // the next run hands the scheduler the last durations again
    let _ = s.begin_run(&requested);
    assert_eq!(s.scheduler().get_history("t.py::test_a").unwrap(), &vec![120u64, 120u64]);
}

#[test]
fn hashes_and_ids() {
    let s = state();
    let h = s.compute_hash();
    assert_eq!(h.len(), 64);
    // the hash does not depend on the order of collection
    let mut t = RunState::new(None);
    t.insert_node(node("u.py::test_c", "test_c", &[], false));
    t.insert_node(node("t.py::test_b", "test_b", &[], false));
    t.insert_node(node("t.py::test_a", "test_a", &[], false));
    assert_eq!(t.compute_hash(), h);
    // SHA-256 of nothing
    assert_eq!(
        RunState::new(None).compute_hash(),
        "e3b0c44298fc1c149afbf4c8996fb92427ae41e4649b934ca495991b7852b855"
    );

    let id = context_id("/repo", None, ExecutionMode::Subprocess);
    assert!(id.starts_with("ctx-"));
    assert_eq!(id.len(), 20);
    assert_eq!(id, context_id("/repo", None, ExecutionMode::Subprocess));
    assert_ne!(id, context_id("/repo", Some("/usr/bin/python3"), ExecutionMode::Subprocess));
    assert_ne!(id, context_id("/repo", None, ExecutionMode::Auto));
}

#[test]
fn settings_and_modes() {
    assert_eq!(requested_mode(Some("SUBPROCESS")), ExecutionMode::Subprocess);
    assert_eq!(requested_mode(Some("bogus")), ExecutionMode::Auto);
    assert_eq!(requested_mode(None), ExecutionMode::Auto);
    assert!(no_pool_setting(Some("1")));
    assert!(no_pool_setting(Some("true")));
    assert!(!no_pool_setting(Some("yes")));
    assert!(!no_pool_setting(None));
    assert_eq!(effective_mode(ExecutionMode::Pooled, true), ExecutionMode::Subprocess);
    assert_eq!(effective_mode(ExecutionMode::Pooled, false), ExecutionMode::Pooled);
    assert_eq!(effective_mode(ExecutionMode::Auto, true), ExecutionMode::Auto);
    assert_eq!(flakiness_path("/repo"), "/repo/.rpytest/flakiness.json");
    let sorted = sort_strings(&vec!["b".to_string(), "a".to_string(), "ab".to_string(), "B".to_string()]);
    assert_eq!(sorted, vec!["B", "a", "ab", "b"]);
}

use rpytest::collector::NativeTestNode;
use rpytest::context::{node_of_native, RunState};
use rpytest::error::DaemonError;
use rpytest::executor::{
    conftest_module, embedded_pytest_args, exit_code_results, module_for_path,
};
use rpytest::flakiness::{failing_outcome_count, reported_flaky};
use rpytest::models::{storage_candidates, FlakinessRecord, StabilityState, TestOutcome};
use rpytest::storage::{average_duration, check_storage_version, STORAGE_VERSION};

fn strings(v: &[&str]) -> Vec<String> {
    v.iter().map(|s| s.to_string()).collect()
}

#[test]
fn average_of_durations() {
    assert_eq!(average_duration(&vec![]), None);
    assert_eq!(average_duration(&vec![100]), Some(100));
    assert_eq!(average_duration(&vec![100, 200, 301]), Some(200));
}

#[test]
fn storage_version_check() {
    assert_eq!(check_storage_version(STORAGE_VERSION), Ok(()));
    assert_eq!(
        check_storage_version(7),
        Err(DaemonError::Other(
            "Storage schema version mismatch: expected 1, found 7".to_string()
        ))
    );
}

#[test]
fn storage_directories_in_order() {
    assert_eq!(
        storage_candidates(Some("/data/rp"), Some("/home/u/.cache"), "/tmp", Some("/work")),
        strings(&[
            "/data/rp",
            "/home/u/.cache/rpytest",
            "/tmp/rpytest",
            "/work/.rpytest/daemon",
        ])
    );
    assert_eq!(
        storage_candidates(None, None, "/var/tmp/", None),
        strings(&["/tmp/rpytest", "/var/tmp/rpytest", "./.rpytest/daemon"])
    );
}

fn record(outcomes: &[&str], flaky_streak: u32) -> FlakinessRecord {
    FlakinessRecord {
        node_id: "t.py::a".to_string(),
        outcomes: strings(outcomes),
        consecutive_failures: 0,
        consecutive_passes: 0,
        flaky_streak,
        total_runs: outcomes.len() as u32,
        last_failure_message: None,
        stability: StabilityState::Unknown,
    }
}

#[test]
fn flakiness_report_fields() {
    let r = record(&["passed", "failed", "error", "skipped"], 2);
    assert_eq!(failing_outcome_count(&r), 2);
    assert!(reported_flaky(&r));
    assert!(!reported_flaky(&record(&["failed", "error"], 3)));
    assert!(!reported_flaky(&record(&["passed", "failed"], 1)));
}

#[test]
fn embedded_arguments() {
    let ids = strings(&["t.py::a"]);
    assert_eq!(
        embedded_pytest_args(&ids, Some(3), Some(4), true, &strings(&["-x"])),
        strings(&[
            "t.py::a",
            "-v",
            "--tb=short",
            "--no-header",
            "-p",
            "no:cacheprovider",
            "--maxfail=3",
            "-n",
            "4",
            "--dist=loadscope",
            "-x",
        ])
    );
    assert_eq!(
        embedded_pytest_args(&ids, None, Some(4), false, &vec![]),
        strings(&["t.py::a", "-v", "--tb=short", "--no-header", "-p", "no:cacheprovider"])
    );
}

#[test]
fn results_from_exit_code() {
    let ids = strings(&["a", "b"]);
    let ok = exit_code_results(&ids, 0);
    assert_eq!(ok.len(), 2);
    assert_eq!(ok[1].node_id, "b");
    assert_eq!(ok[0].outcome, TestOutcome::Passed);
    assert_eq!(ok[0].message, Some("pytest exit code: 0".to_string()));
    let bad = exit_code_results(&ids, -1);
    assert_eq!(bad[0].outcome, TestOutcome::Error);
    assert_eq!(bad[0].message, Some("pytest exit code: -1".to_string()));
}

#[test]
fn module_names_of_test_files() {
    assert_eq!(module_for_path("tests/test_foo.py"), "tests.test_foo");
    assert_eq!(module_for_path("test_x.py.py"), "test_x");
    assert_eq!(conftest_module(""), "conftest");
    assert_eq!(conftest_module("tests/unit"), "tests.unit.conftest");
}

#[test]
fn native_tests_enter_the_inventory() {
    let n = NativeTestNode {
        node_id: "t.py::C::test_a".to_string(),
        file_path: "t.py".to_string(),
        name: "test_a".to_string(),
        class_name: Some("C".to_string()),
        line_number: 0,
        markers: strings(&["slow"]),
        is_simple: true,
        parameters: Vec::new(),
        skip: true,
        skip_reason: None,
        xfail: false,
        xfail_reason: None,
        xfail_strict: false,
    };
    let node = node_of_native(n);
    assert_eq!(node.node_id, "t.py::C::test_a");
    assert_eq!(node.class_name, Some("C".to_string()));
    assert!(node.skip);
    let mut state = RunState::new(None);
    state.insert_node(node);
    assert_eq!(state.total_runs(), 0);
    let (run, skipped) = state.begin_run(&strings(&["t.py::C::test_a"]));
    assert!(run.is_empty());
    assert_eq!(skipped, 1);
    assert_eq!(state.total_runs(), 1);
    assert!(state.duration_histories().is_empty());
}

fn plain_node(id: &str) -> rpytest::models::TestNode {
    rpytest::models::TestNode {
        node_id: id.to_string(),
        file_path: "t.py".to_string(),
        name: id.to_string(),
        class_name: None,
        line_number: 0,
        markers: Vec::new(),
        skip: false,
        xfail: false,
    }
}

#[test]
fn inventory_hash_ignores_collection_order() {
    let mut a = RunState::new(None);
    a.insert_node(plain_node("t.py::b"));
    a.insert_node(plain_node("t.py::a"));
    let mut b = RunState::new(None);
    b.insert_node(plain_node("t.py::a"));
    b.insert_node(plain_node("t.py::b"));
    assert_eq!(a.compute_hash(), b.compute_hash());
    assert_eq!(a.compute_hash().len(), 64);
    let mut c = RunState::new(None);
    c.insert_node(plain_node("t.py::a"));
    assert_ne!(a.compute_hash(), c.compute_hash());
}

use rpytest::inventory::Inventory;
use rpytest::nodes::{TestNode, TestNodeKind};

#[test]
fn test_node_creation() {
    let node = TestNode::new("test_module.py::test_function", "test_module.py");

    assert_eq!(node.name, "test_function");
    assert_eq!(node.class_name, None);
    assert_eq!(node.kind, TestNodeKind::Function);
}

#[test]
fn test_method_node() {
    let node = TestNode::new("test_module.py::TestClass::test_method", "test_module.py");

    assert_eq!(node.name, "test_method");
    assert_eq!(node.class_name, Some("TestClass".to_string()));
    assert_eq!(node.kind, TestNodeKind::Method);
}

#[test]
fn test_parametrized_node() {
    let node = TestNode::new("test_module.py::test_func[param1-param2]", "test_module.py");

    assert_eq!(node.name, "test_func");
    assert_eq!(node.class_name, None);
}

#[test]
fn test_keyword_matching() {
    let mut node = TestNode::new("test_math.py::TestArithmetic::test_addition", "test_math.py");
    node.add_marker("slow");
    node.build_keywords();

    assert!(node.matches_keyword("addition"));
    assert!(node.matches_keyword("Arithmetic"));
    assert!(node.matches_keyword("slow"));
    assert!(node.matches_keyword("test_math"));
    assert!(!node.matches_keyword("subtraction"));

    // Boolean expressions
    assert!(node.matches_keyword("addition and slow"));
    assert!(node.matches_keyword("addition or subtraction"));
    assert!(!node.matches_keyword("addition and fast"));
    assert!(node.matches_keyword("not subtraction"));
}

#[test]
fn test_marker_matching() {
    let mut node = TestNode::new("test.py::test_func", "test.py");
    node.add_marker("slow");
    node.add_marker("integration");

    assert!(node.matches_marker("slow"));
    assert!(node.matches_marker("integration"));
    assert!(!node.matches_marker("unit"));

    assert!(node.matches_marker("slow and integration"));
    assert!(node.matches_marker("slow or unit"));
    assert!(!node.matches_marker("slow and unit"));
    assert!(node.matches_marker("not unit"));
}

#[test]
fn test_duration_tracking() {
    let mut node = TestNode::new("test.py::test_func", "test.py");

    node.record_duration(100);
    assert_eq!(node.avg_duration_ms, Some(100));

    node.record_duration(200);
    assert_eq!(node.avg_duration_ms, Some(150));

    node.record_duration(300);
    assert_eq!(node.avg_duration_ms, Some(200));
}

#[test]
fn test_skip_xfail_markers() {
    let mut node = TestNode::new("test.py::test_func", "test.py");

    assert!(!node.skip);
    assert!(!node.xfail);

    node.add_marker("skip");
    assert!(node.skip);

    node.add_marker("xfail");
    assert!(node.xfail);
}

#[test]
fn failure_counts_are_kept() {
    let mut node = TestNode::new("test.py::test_func", "test.py");
    node.record_duration(100);
    node.record_duration(100);
    node.record_failure();
    node.record_duration(100);
    node.record_failure();
    assert_eq!(node.run_count, 3);
    assert_eq!(node.fail_count, 2);
}

#[test]
fn keyword_matching_ignores_case_and_spaces() {
    let mut node = TestNode::new("tests/test_io.py::TestFiles::test_read[utf8]", "tests/test_io.py");
    node.parameters = Some("utf8".to_string());
    node.add_marker("slow");
    node.build_keywords();
    assert_eq!(
        node.keywords,
        vec![
            "test_read".to_string(),
            "TestFiles".to_string(),
            "test_io".to_string(),
            "slow".to_string(),
            "utf8".to_string()
        ]
    );
    assert!(node.matches_keyword("  READ  "));
    assert!(node.matches_keyword("UTF8"));
    // "not " before an expression negates it
    assert!(!node.matches_keyword("not read"));
    assert!(node.matches_keyword("not read or slow") == !node.matches_keyword("read or slow"));
    // the first " and " splits before any " or "
    assert!(node.matches_keyword("write or read and slow"));
    // "not" alone is a plain keyword
    assert!(node.matches_keyword("not") == false);
}

#[test]
fn marker_added_twice_is_kept_once() {
    let mut node = TestNode::new("t.py::test_x", "t.py");
    node.add_marker("skipif");
    node.add_marker("skipif");
    assert_eq!(node.markers, vec!["skipif".to_string()]);
    assert!(node.skip);
    assert!(!node.xfail);
    assert!(node.has_marker("skipif"));
    assert!(!node.has_marker("skip"));
}

fn create_test_inventory() -> Inventory {
    let mut inventory = Inventory::new();

    let mut node1 = TestNode::new("test_math.py::test_add", "test_math.py");
    node1.add_marker("unit");
    node1.build_keywords();
    inventory.add(node1);

    let mut node2 = TestNode::new("test_math.py::test_subtract", "test_math.py");
    node2.add_marker("unit");
    node2.build_keywords();
    inventory.add(node2);

    let mut node3 = TestNode::new("test_api.py::test_login", "test_api.py");
    node3.add_marker("integration");
    node3.add_marker("slow");
    node3.build_keywords();
    inventory.add(node3);

    inventory
}

#[test]
fn store_test_basic_operations() {
    let inventory = create_test_inventory();

    assert_eq!(inventory.len(), 3);
    assert!(inventory.contains("test_math.py::test_add"));
    assert!(!inventory.contains("nonexistent"));

    let node = inventory.get("test_api.py::test_login").unwrap();
    assert!(node.has_marker("integration"));
}

#[test]
fn test_keyword_filter() {
    let inventory = create_test_inventory();

    let results = inventory.filter_by_keyword("math");
    assert_eq!(results.len(), 2);

    let results = inventory.filter_by_keyword("login");
    assert_eq!(results.len(), 1);
}

#[test]
fn test_marker_filter() {
    let inventory = create_test_inventory();

    let results = inventory.filter_by_marker("unit");
    assert_eq!(results.len(), 2);

    let results = inventory.filter_by_marker("integration");
    assert_eq!(results.len(), 1);

    let results = inventory.filter_by_marker("slow");
    assert_eq!(results.len(), 1);
}

#[test]
fn test_combined_filter() {
    let inventory = create_test_inventory();

    let results = inventory.filter(Some("test"), Some("unit"));
    assert_eq!(results.len(), 2);

    let results = inventory.filter(Some("login"), Some("integration"));
    assert_eq!(results.len(), 1);

    let results = inventory.filter(Some("math"), Some("integration"));
    assert_eq!(results.len(), 0);
}

#[test]
fn inventory_add_replace_remove() {
    let mut inventory = create_test_inventory();
    assert_eq!(inventory.meta().node_count, 3);
    let mut again = TestNode::new("test_math.py::test_add", "test_math.py");
    again.add_marker("fast");
    inventory.add(again);
    assert_eq!(inventory.len(), 3);
    assert!(inventory.get("test_math.py::test_add").unwrap().has_marker("fast"));
    // a replaced node keeps its place
    let ids: Vec<String> = inventory.node_ids().into_iter().cloned().collect();
    assert_eq!(ids[0], "test_math.py::test_add");

    let removed = inventory.remove("test_math.py::test_add").unwrap();
    assert_eq!(removed.node_id, "test_math.py::test_add");
    assert!(!inventory.contains("test_math.py::test_add"));
    assert_eq!(inventory.len(), 2);
    assert_eq!(inventory.meta().node_count, 2);
    assert!(inventory.remove("test_math.py::test_add").is_none());
    assert!(!inventory.is_empty());
}

#[test]
fn inventory_get_mut_changes_node() {
    let mut inventory = create_test_inventory();
    if let Some(n) = inventory.get_mut("test_api.py::test_login") {
        n.record_failure();
    }
    assert_eq!(inventory.get("test_api.py::test_login").unwrap().fail_count, 1);
    assert!(inventory.get_mut("missing").is_none());
}

#[test]
fn inventory_orders_by_duration_and_failure_rate() {
    let mut inventory = Inventory::new();
    let mut a = TestNode::new("a.py::test_a", "a.py");
    a.record_duration(50);
    let mut b = TestNode::new("b.py::test_b", "b.py");
    b.record_duration(500);
    b.record_failure();
    let c = TestNode::new("c.py::test_c", "c.py");
    let mut d = TestNode::new("d.py::test_d", "d.py");
    d.record_duration(500);
    d.record_duration(500);
    d.record_failure();
    inventory.add(a);
    inventory.add(b);
    inventory.add(c);
    inventory.add(d);

    let by_duration: Vec<&str> =
        inventory.sorted_by_duration().iter().map(|n| n.node_id.as_str()).collect();
    assert_eq!(by_duration, vec!["b.py::test_b", "d.py::test_d", "a.py::test_a", "c.py::test_c"]);

    // b fails 1 of 1 runs, d 1 of 2; a and c never failed
    let by_rate: Vec<&str> =
        inventory.sorted_by_failure_rate().iter().map(|n| n.node_id.as_str()).collect();
    assert_eq!(by_rate, vec!["b.py::test_b", "d.py::test_d", "a.py::test_a", "c.py::test_c"]);
}

#[test]
fn inventory_meta_update_and_restore() {
    let mut inventory = create_test_inventory();
    inventory.update_meta("abc123".to_string(), 1234567890);
    assert_eq!(inventory.meta().hash, "abc123");
    assert_eq!(inventory.meta().collected_at, 1234567890);
    assert_eq!(inventory.meta().schema_version, 1);

    let nodes: Vec<TestNode> = inventory.iter().into_iter().cloned().collect();
    let restored = Inventory::restore(Some(inventory.meta().clone()), nodes);
    assert_eq!(restored.len(), 3);
    assert_eq!(restored.meta().hash, "abc123");
    assert_eq!(restored.meta().node_count, 3);
    assert!(restored.contains("test_math.py::test_add"));

    let empty = Inventory::restore(None, Vec::new());
    assert!(empty.is_empty());
    assert_eq!(empty.meta().schema_version, 1);
}

#[test]
fn test_failure_tracking() {
    let mut node = TestNode::new("test.py::test_func", "test.py");
    node.record_duration(100);
    node.record_duration(100);
    node.record_failure();
    node.record_duration(100);
    node.record_failure();
    assert_eq!(node.run_count, 3);
    assert_eq!(node.fail_count, 2);
    let failure_rate = (node.fail_count as f64 / node.run_count as f64) * 100.0;
    assert!((failure_rate - 66.67).abs() < 0.1);
}

use rpytest::pysource::{collect_source, parse_module};
use rpytest::collector::PyStmt;
use rpytest::table::Table;

#[test]
fn source_tests_are_collected() {
    let source = "import pytest\n\n\
def test_a():\n    pass\n\n\
def helper():\n    pass\n\n\
class TestX:\n    def test_m(self):\n        pass\n\n\
async def test_async():\n    pass\n";
    let mut params: Table<Vec<String>> = Table::new();
    let tests = collect_source(source, "pkg/test_mod.py", false, &mut params).unwrap();
    let ids: Vec<&str> = tests.iter().map(|t| t.node_id.as_str()).collect();
    assert_eq!(
        ids,
        vec![
            "pkg/test_mod.py::test_a",
            "pkg/test_mod.py::TestX::test_m",
            "pkg/test_mod.py::test_async",
        ]
    );
    assert_eq!(tests[1].class_name, Some("TestX".to_string()));
    assert_eq!(params.len(), 0);
}

#[test]
fn source_parametrize_and_markers() {
    let source = "import pytest\n\n\
@pytest.mark.slow\n\
@pytest.mark.parametrize('x', [1, 'two', None, True, 2.5])\n\
def test_p(x):\n    pass\n";
    let mut params: Table<Vec<String>> = Table::new();
    let tests = collect_source(source, "test_p.py", false, &mut params).unwrap();
    let ids: Vec<&str> = tests.iter().map(|t| t.node_id.as_str()).collect();
    assert_eq!(
        ids,
        vec![
            "test_p.py::test_p[1]",
            "test_p.py::test_p[two]",
            "test_p.py::test_p[None]",
            "test_p.py::test_p[true]",
            "test_p.py::test_p[2.5]",
        ]
    );
    assert!(tests[0].markers.contains(&"slow".to_string()));
}

#[test]
fn source_fixture_params_are_recorded() {
    let source = "from pytest import fixture\n\n\
@fixture(params=['sqlite', 'pg'])\n\
def backend(request):\n    return request.param\n\n\
def test_db(backend):\n    pass\n";
    let mut params: Table<Vec<String>> = Table::new();
    let tests = collect_source(source, "test_db.py", false, &mut params).unwrap();
    assert_eq!(tests.len(), 1);
    assert_eq!(tests[0].node_id, "test_db.py::test_db");
    assert_eq!(params.len(), 1);
    assert_eq!(params.entries[0].0, "backend");
    assert_eq!(params.entries[0].1, vec!["sqlite".to_string(), "pg".to_string()]);
}

#[test]
fn source_that_does_not_parse_defines_nothing() {
    let mut params: Table<Vec<String>> = Table::new();
    let good = "from pytest import fixture\n@fixture(params=[1])\ndef f(request):\n    pass\n";
    collect_source(good, "conftest.py", true, &mut params).unwrap();
    assert_eq!(params.len(), 1);
    let tests = collect_source("def test_broken(:\n    pass\n", "test_bad.py", false, &mut params).unwrap();
    assert!(tests.is_empty());
    assert_eq!(params.len(), 1);
    assert!(parse_module("def (").is_none());
}

#[test]
fn parsed_module_keeps_definitions() {
    let m = parse_module("x = 1\n\ndef test_a(a, b):\n    pass\n\nclass C:\n    def m(self):\n        pass\n").unwrap();
    assert_eq!(m.len(), 3);
    assert!(matches!(m[0], PyStmt::Other));
    match &m[1] {
        PyStmt::Function(f) => {
            assert_eq!(f.name, "test_a");
            assert_eq!(f.arg_names, vec!["a".to_string(), "b".to_string()]);
            assert!(!f.is_async);
        }
        _ => panic!("expected a function"),
    }
    match &m[2] {
        PyStmt::Class(c) => {
            assert_eq!(c.name, "C");
            assert_eq!(c.body.len(), 1);
        }
        _ => panic!("expected a class"),
    }
}

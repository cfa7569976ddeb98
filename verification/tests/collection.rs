use rpytest::collector::{
    extract_param_values, extract_tests_from_ast, format_param_value, generate_pytest_id, is_ignored_path, is_test_file,
    split_param_names, NativeTestNode, PyClass, PyConst, PyExpr, PyFunction, PyKeyword, PyNode,
    PyStmt,
};
use rpytest::fixture_params::{
    expand_tests_by_fixture_params, fixture_param_list, record_fixture_params,
};
use rpytest::table::Table;

fn expr(node: PyNode, debug: &str) -> PyExpr {
    PyExpr { node, debug: debug.to_string() }
}

fn name(id: &str) -> PyExpr {
    expr(PyNode::Name(id.to_string()), id)
}

fn attr(value: PyExpr, a: &str) -> PyExpr {
    let debug = format!("{}.{}", value.debug, a);
    expr(PyNode::Attribute(Box::new(value), a.to_string()), &debug)
}

/// `pytest.mark.<m>`
fn mark(m: &str) -> PyExpr {
    attr(attr(name("pytest"), "mark"), m)
}

fn int_lit(v: &str) -> PyExpr {
    expr(PyNode::Constant(PyConst::Int(v.to_string())), v)
}

fn string(v: &str) -> PyExpr {
    expr(PyNode::Constant(PyConst::Str(v.to_string())), v)
}

fn boolean(b: bool) -> PyExpr {
    expr(PyNode::Constant(PyConst::Bool(b)), if b { "True" } else { "False" })
}

fn list(elts: Vec<PyExpr>) -> PyExpr {
    expr(PyNode::List(elts), "List")
}

fn kw(arg: &str, value: PyExpr) -> PyKeyword {
    PyKeyword { arg: Some(arg.to_string()), value }
}

fn call(func: PyExpr, args: Vec<PyExpr>, keywords: Vec<PyKeyword>) -> PyExpr {
    expr(PyNode::Call(Box::new(func), args, keywords), "Call")
}

fn parametrize(names: &str, values: Vec<PyExpr>) -> PyExpr {
    call(mark("parametrize"), vec![string(names), list(values)], vec![])
}

fn func(n: &str, decorators: Vec<PyExpr>, args: &[&str], is_async: bool) -> PyStmt {
    PyStmt::Function(PyFunction {
        name: n.to_string(),
        decorators,
        arg_names: args.iter().map(|a| a.to_string()).collect(),
        is_async,
    })
}

fn class(n: &str, decorators: Vec<PyExpr>, body: Vec<PyStmt>) -> PyStmt {
    PyStmt::Class(PyClass { name: n.to_string(), decorators, body })
}

fn collect(stmts: Vec<PyStmt>, path: &str) -> Vec<NativeTestNode> {
    extract_tests_from_ast(&stmts, path, false).unwrap()
}

fn bracket_id(t: &NativeTestNode) -> String {
    let start = t.node_id.find('[').unwrap();
    let end = t.node_id.find(']').unwrap();
    t.node_id[start + 1..end].to_string()
}

#[test]
fn test_collect_simple() {
    let tests = collect(
        vec![
            func("test_simple", vec![], &[], false),
            func("test_another", vec![], &[], false),
            class("TestClass", vec![], vec![func("test_method", vec![], &["self"], false)]),
        ],
        "test_example.py",
    );
    assert_eq!(tests.len(), 3);
    let names: Vec<&str> = tests.iter().map(|t| t.name.as_str()).collect();
    assert!(names.contains(&"test_simple"));
    assert!(names.contains(&"test_another"));
    assert!(names.contains(&"test_method"));
    assert_eq!(tests[0].node_id, "test_example.py::test_simple");
    assert_eq!(tests[2].node_id, "test_example.py::TestClass::test_method");
    assert_eq!(tests[2].class_name, Some("TestClass".to_string()));
    assert!(tests[0].is_simple);
}

#[test]
fn test_ignore_non_test_files() {
    assert!(!is_test_file("regular.py"));
    assert!(is_test_file("pkg/test_example.py"));
    assert!(is_test_file("pkg/example_test.py"));
    assert!(!is_test_file("pkg/test_example.txt"));
    assert!(!is_test_file("pkg/.."));
    assert!(!is_test_file(""));
    let tests = collect(vec![func("regular_func", vec![], &[], false)], "regular.py");
    assert!(tests.is_empty());
}

#[test]
fn ignored_directories() {
    assert!(is_ignored_path("/repo/.venv/lib/test_x.py"));
    assert!(is_ignored_path("/repo/venv/test_x.py"));
    assert!(is_ignored_path("/repo/node_modules/a/test_x.py"));
    assert!(is_ignored_path("/repo/.git/test_x.py"));
    assert!(!is_ignored_path("/repo/tests/test_x.py"));
}

#[test]
fn test_collect_with_markers() {
    let tests = collect(
        vec![
            func("test_expensive", vec![mark("slow")], &[], false),
            func(
                "test_param",
                vec![parametrize("x", vec![int_lit("1"), int_lit("2"), int_lit("3")])],
                &["x"],
                false,
            ),
        ],
        "test_marked.py",
    );
    assert_eq!(tests.len(), 4);
    let slow = tests.iter().find(|t| t.name == "test_expensive").unwrap();
    assert!(slow.markers.contains(&"slow".to_string()));
    let params: Vec<&NativeTestNode> = tests.iter().filter(|t| t.name == "test_param").collect();
    assert_eq!(params.len(), 3);
    let ids: Vec<String> = params.iter().map(|t| bracket_id(t)).collect();
    assert_eq!(ids, vec!["1", "2", "3"]);
    assert_eq!(params[0].node_id, "test_marked.py::test_param[1]");
    assert_eq!(params[1].parameters[0].values, vec!["2".to_string()]);
    assert_eq!(params[1].parameters[0].names, vec!["x".to_string()]);
}

#[test]
fn test_collect_async() {
    let tests = collect(
        vec![
            func("test_async_basic", vec![mark("asyncio")], &[], true),
            func("test_async_another", vec![], &[], true),
        ],
        "test_async.py",
    );
    assert_eq!(tests.len(), 2);
    let names: Vec<&str> = tests.iter().map(|t| t.name.as_str()).collect();
    assert!(names.contains(&"test_async_basic"));
    assert!(names.contains(&"test_async_another"));
}

#[test]
fn test_collect_skip_xfail() {
    let tests = collect(
        vec![
            func(
                "test_skipped",
                vec![call(mark("skip"), vec![], vec![kw("reason", string("intentional"))])],
                &[],
                false,
            ),
            func("test_xfailed", vec![mark("xfail")], &[], false),
        ],
        "test_skip.py",
    );
    assert_eq!(tests.len(), 2);
    let skipped = tests.iter().find(|t| t.name == "test_skipped").unwrap();
    assert!(skipped.markers.contains(&"skip".to_string()));
    assert!(skipped.skip);
    assert_eq!(skipped.skip_reason, Some("intentional".to_string()));
    let xfailed = tests.iter().find(|t| t.name == "test_xfailed").unwrap();
    assert!(xfailed.markers.contains(&"xfail".to_string()));
    assert!(xfailed.xfail);
}

#[test]
fn test_collect_parametrized_class_methods() {
    let tests = collect(
        vec![class(
            "TestParametrized",
            vec![],
            vec![func(
                "test_method",
                vec![parametrize("n", vec![int_lit("1"), int_lit("2"), int_lit("3")])],
                &["self", "n"],
                false,
            )],
        )],
        "test_class_param.py",
    );
    assert_eq!(tests.len(), 3);
    let methods: Vec<&NativeTestNode> =
        tests.iter().filter(|t| t.name == "test_method" && t.class_name.is_some()).collect();
    assert_eq!(methods.len(), 3);
    assert_eq!(methods[0].class_name, Some("TestParametrized".to_string()));
    assert_eq!(methods[0].node_id, "test_class_param.py::TestParametrized::test_method[1]");
}

#[test]
fn test_collect_stacked_parametrize() {
    let tests = collect(
        vec![func(
            "test_stacked_parametrize",
            vec![
                parametrize("x", vec![int_lit("1"), int_lit("2")]),
                parametrize("y", vec![int_lit("10"), int_lit("20")]),
            ],
            &["x", "y"],
            false,
        )],
        "test_stacked.py",
    );
    assert_eq!(tests.len(), 4);
    let ids: Vec<String> = tests.iter().map(bracket_id).collect();
    assert_eq!(ids.len(), 4);
    assert!(ids.contains(&"10-1".to_string()));
    assert!(ids.contains(&"10-2".to_string()));
    assert!(ids.contains(&"20-1".to_string()));
    assert!(ids.contains(&"20-2".to_string()));
    assert_eq!(ids[0], "10-1");
    assert_eq!(ids[1], "10-2");
}

#[test]
fn test_collect_class_markers() {
    let tests = collect(
        vec![class(
            "TestMarkedClass",
            vec![mark("slow")],
            vec![
                func("test_one", vec![], &["self"], false),
                func("test_two", vec![], &["self"], false),
            ],
        )],
        "test_class_markers.py",
    );
    assert_eq!(tests.len(), 2);
    for test in &tests {
        assert!(
            test.markers.contains(&"slow".to_string()),
            "Test {} should have 'slow' marker from class",
            test.name
        );
    }
}

#[test]
fn test_collect_skipif() {
    let cond = expr(PyNode::Other, "sys.version_info > (0, 0)");
    let tests = collect(
        vec![func(
            "test_skipif",
            vec![call(mark("skipif"), vec![cond], vec![kw("reason", string("always skips"))])],
            &[],
            false,
        )],
        "test_skipif.py",
    );
    assert_eq!(tests.len(), 1);
    assert!(tests[0].markers.contains(&"skip".to_string()));
    assert!(tests[0].skip);
}

#[test]
fn test_collect_xfail_with_condition() {
    let tests = collect(
        vec![func(
            "test_xfail_false_condition",
            vec![call(
                mark("xfail"),
                vec![],
                vec![kw("condition", boolean(false)), kw("reason", string("condition is false"))],
            )],
            &[],
            false,
        )],
        "test_xfail_cond.py",
    );
    assert_eq!(tests.len(), 1);
    assert!(tests[0].markers.contains(&"xfail".to_string()));
    assert_eq!(tests[0].xfail_reason, Some("condition is false".to_string()));
}

#[test]
fn test_collect_param_with_per_variant_marks() {
    let param = |v: &str, marks: Option<PyExpr>| {
        let keywords = match marks {
            Some(m) => vec![kw("marks", m)],
            None => vec![],
        };
        call(attr(name("pytest"), "param"), vec![int_lit(v)], keywords)
    };
    let skip_mark = call(mark("skip"), vec![], vec![kw("reason", string("test skip"))]);
    let tests = collect(
        vec![class(
            "TestParamMarks",
            vec![],
            vec![func(
                "test_param_marks",
                vec![parametrize(
                    "x",
                    vec![
                        param("1", Some(mark("slow"))),
                        param("2", None),
                        param("3", Some(list(vec![skip_mark]))),
                    ],
                )],
                &["self", "x"],
                false,
            )],
        )],
        "test_param_marks.py",
    );
    assert_eq!(tests.len(), 3);
    let t1 = tests.iter().find(|t| t.node_id.contains("[1]")).unwrap();
    assert!(t1.markers.contains(&"slow".to_string()), "Test 1 should have 'slow' marker");
    let t2 = tests.iter().find(|t| t.node_id.contains("[2]")).unwrap();
    assert!(!t2.markers.contains(&"slow".to_string()), "Test 2 should not have 'slow' marker");
    assert!(!t2.markers.contains(&"skip".to_string()), "Test 2 should not have 'skip' marker");
    let t3 = tests.iter().find(|t| t.node_id.contains("[3]")).unwrap();
    assert!(
        t3.markers.contains(&"skip".to_string()),
        "Test 3 should have 'skip' marker from pytest.param"
    );
}

#[test]
fn custom_param_id() {
    let p = call(attr(name("pytest"), "param"), vec![int_lit("5")], vec![kw("id", string("five"))]);
    let tests = collect(
        vec![func("test_ids", vec![parametrize("v", vec![p])], &["v"], false)],
        "test_ids.py",
    );
    assert_eq!(tests.len(), 1);
    assert_eq!(tests[0].node_id, "test_ids.py::test_ids[five]");
    assert_eq!(tests[0].parameters[0].id, "five");
}

#[test]
fn fixture_usage_is_recorded() {
    let stmts = vec![
        func("db", vec![call(name("fixture"), vec![], vec![])], &[], false),
        func("test_uses_db", vec![], &["db", "tmp_path"], false),
    ];
    let tests = collect(stmts, "test_fx.py");
    assert_eq!(tests.len(), 1);
    assert!(tests[0].markers.contains(&"uses_fixture:db".to_string()));
}

#[test]
fn id_formatting() {
    assert_eq!(format_param_value("abc"), "abc");
    assert_eq!(format_param_value("a b"), "a b");
    assert_eq!(format_param_value("a$b"), "a_b");
    assert_eq!(format_param_value("{1: 2}"), "dct");
    assert_eq!(format_param_value("True"), "true");
    assert_eq!(generate_pytest_id(&vec!["[1]".to_string()], 3), "lst3");
    assert_eq!(generate_pytest_id(&vec!["1".to_string(), "x".to_string()], 0), "1-x");
    assert_eq!(split_param_names("a, b ,c"), vec!["a", "b", "c"]);
}

fn fixture_module() -> Vec<PyStmt> {
    let fx = |params: Vec<PyExpr>| {
        vec![call(name("fixture"), vec![], vec![kw("params", list(params))])]
    };
    vec![
        func("backend", fx(vec![string("sqlite"), string("pg")]), &["request"], false),
        func("size", fx(vec![int_lit("1"), int_lit("2")]), &["request"], false),
        func("test_one", vec![], &["backend"], false),
        func("test_two", vec![], &["backend", "size"], false),
        func("test_plain", vec![], &[], false),
    ]
}

#[test]
fn fixture_params_are_found() {
    let list = fixture_param_list(&fixture_module());
    assert_eq!(list.len(), 2);
    assert_eq!(list[0].0, "backend");
    assert_eq!(list[0].1, vec!["sqlite".to_string(), "pg".to_string()]);
    assert_eq!(list[1].0, "size");
    assert_eq!(list[1].1, vec!["1".to_string(), "2".to_string()]);
}

#[test]
fn later_fixture_declaration_replaces_values() {
    let mut table: Table<Vec<String>> = Table::new();
    record_fixture_params(&fixture_module(), &mut table);
    let other = vec![func(
        "backend",
        vec![call(
            name("fixture"),
            vec![],
            vec![kw("params", list(vec![string("mysql")]))],
        )],
        &[],
        false,
    )];
    record_fixture_params(&other, &mut table);
    assert_eq!(table.len(), 2);
    assert_eq!(table.entries[0].0, "backend");
    assert_eq!(table.entries[0].1, vec!["mysql".to_string()]);
    assert_eq!(table.entries[1].0, "size");
}

#[test]
fn tests_expand_by_fixture_params() {
    let stmts = fixture_module();
    let tests = collect(stmts, "test_fx.py");
    assert_eq!(tests.len(), 3);
    let mut table: Table<Vec<String>> = Table::new();
    record_fixture_params(&fixture_module(), &mut table);
    let expanded = expand_tests_by_fixture_params(&tests, &table);
    let ids: Vec<&str> = expanded.iter().map(|t| t.node_id.as_str()).collect();
    assert_eq!(
        ids,
        vec![
            "test_fx.py::test_one[1]",
            "test_fx.py::test_one[2]",
            "test_fx.py::test_two[1=sqlite-2=1]",
            "test_fx.py::test_two[1=sqlite-2=2]",
            "test_fx.py::test_two[1=pg-2=1]",
            "test_fx.py::test_two[1=pg-2=2]",
            "test_fx.py::test_plain",
        ]
    );
    assert!(expanded[0].markers.contains(&"fixture_param:backend=sqlite".to_string()));
    assert!(expanded[1].markers.contains(&"fixture_param:backend=pg".to_string()));
    assert_eq!(expanded[2].markers, tests[1].markers);
}

#[test]
fn no_fixture_params_keeps_tests() {
    let tests = collect(vec![func("test_a", vec![], &[], false)], "test_a.py");
    let table: Table<Vec<String>> = Table::new();
    let expanded = expand_tests_by_fixture_params(&tests, &table);
    assert_eq!(expanded.len(), 1);
    assert_eq!(expanded[0].node_id, "test_a.py::test_a");
}

#[test]
fn parametrize_values_only() {
    let p = call(attr(name("pytest"), "param"), vec![int_lit("3")], vec![kw("id", string("three"))]);
    let values = extract_param_values(&list(vec![int_lit("1"), p])).unwrap();
    assert_eq!(values, vec![vec!["1".to_string()], vec!["3".to_string()]]);
    assert!(extract_param_values(&int_lit("1")).is_none());
}

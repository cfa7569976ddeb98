//! Python test modules from their source text: the RustPython parser reads
//! the source, and collection works on the part of the syntax tree it needs.

use vstd::prelude::*;
use rustpython_ast as ast;
use rustpython_ast::{Constant, Expr, Stmt};
use crate::collector::{
    extract_tests_from_ast, file_tests, native_views, NativeTestNode, PyClass, PyConst, PyExpr,
    PyFunction, PyKeyword, PyNode, PyStmt,
};
use crate::fixture_params::{entry_views, module_fixture_params, put_params, record_fixture_params};
use crate::table::Table;

verus! {

/// A range of positions in Python source.
#[verifier::external_type_specification]
#[verifier::external_body]
pub struct ExTextRange(ast::text_size::TextRange);

/// A statement of a parsed Python module.
#[verifier::external_type_specification]
#[verifier::external_body]
#[verifier::reject_recursive_types(R)]
pub struct ExStmt<R>(ast::Stmt<R>);

/// An expression of a parsed Python module.
#[verifier::external_type_specification]
#[verifier::external_body]
#[verifier::reject_recursive_types(R)]
pub struct ExExpr<R>(ast::Expr<R>);

/// A parameter, with its default, of a function in a parsed Python module.
#[verifier::external_type_specification]
#[verifier::external_body]
#[verifier::reject_recursive_types(R)]
pub struct ExArgWithDefault<R>(ast::ArgWithDefault<R>);

/// A keyword argument of a call in a parsed Python module.
#[verifier::external_type_specification]
#[verifier::external_body]
#[verifier::reject_recursive_types(R)]
pub struct ExKeyword<R>(ast::Keyword<R>);

/// A constant of a parsed Python module.
#[verifier::external_type_specification]
#[verifier::external_body]
pub struct ExConstant(ast::Constant);

/// The statements of the module that `source` holds, as collection reads
/// them, or none when `source` is not a Python module.
pub uninterp spec fn parsed_module(source: Seq<char>) -> Option<Seq<PyStmt>>;

/// Parses `source` as a Python module with `rustpython_parser::parse_program`
/// and converts each statement, expression and constant of the tree to the
/// form collection reads (with the `Debug` text of each expression).
///
/// Claimed: the result depends on the source text alone, and is `None`
/// exactly when the parser refuses the source.
#[verifier::external_body]
#[allow(deprecated)]
pub fn parse_module(source: &str) -> (r: Option<Vec<PyStmt>>)
    ensures
        r matches Some(v) ==> parsed_module(source@) == Some(v@),
        r is None ==> parsed_module(source@) is None,
{
    match rustpython_parser::parse_program(source, "<test>") {
        Ok(stmts) => Some(stmts_of(&stmts)),
        Err(_) => None,
    }
}

/// Each statement of `stmts`, converted.
#[verifier::external_body]
fn stmts_of(stmts: &[Stmt]) -> Vec<PyStmt> {
    stmts.iter().map(stmt_of).collect()
}

/// A function or class definition with its name, decorators, positional
/// parameter names and body; any other statement as `Other`.
#[verifier::external_body]
fn stmt_of(s: &Stmt) -> PyStmt {
    match s {
        Stmt::FunctionDef(f) => {
            PyStmt::Function(PyFunction { name: f.name.to_string(), decorators: exprs_of(&f.decorator_list), arg_names: arg_names_of(&f.args.args), is_async: false })
        },
        Stmt::AsyncFunctionDef(f) => {
            PyStmt::Function(PyFunction { name: f.name.to_string(), decorators: exprs_of(&f.decorator_list), arg_names: arg_names_of(&f.args.args), is_async: true })
        },
        Stmt::ClassDef(c) => PyStmt::Class(PyClass { name: c.name.to_string(), decorators: exprs_of(&c.decorator_list), body: stmts_of(&c.body) }),
        _ => PyStmt::Other,
    }
}

/// The name of each parameter of `args`.
#[verifier::external_body]
fn arg_names_of(args: &[ast::ArgWithDefault]) -> Vec<String> {
    args.iter().map(|a| a.def.arg.to_string()).collect()
}

/// Each expression of `es`, converted.
#[verifier::external_body]
fn exprs_of(es: &[Expr]) -> Vec<PyExpr> {
    es.iter().map(expr_of).collect()
}

/// Each optional expression of `es` (the keys of a dict display), converted.
#[verifier::external_body]
fn opt_exprs_of(es: &[Option<Expr>]) -> Vec<Option<PyExpr>> {
    es.iter().map(|e| e.as_ref().map(expr_of)).collect()
}

/// An expression: its kind and its `Debug` text.
#[verifier::external_body]
fn expr_of(e: &Expr) -> PyExpr {
    PyExpr { node: node_of(e), debug: format!("{:?}", e) }
}

/// The kind of an expression, with the parts collection reads.
#[verifier::external_body]
fn node_of(e: &Expr) -> PyNode {
    match e {
        Expr::Constant(c) => PyNode::Constant(constant_of(&c.value)),
        Expr::Name(n) => PyNode::Name(n.id.to_string()),
        Expr::Attribute(a) => PyNode::Attribute(Box::new(expr_of(&a.value)), a.attr.to_string()),
        Expr::Call(c) => call_node(&c.func, &c.args, &c.keywords),
        Expr::Tuple(t) => PyNode::Tuple(exprs_of(&t.elts)),
        Expr::List(l) => PyNode::List(exprs_of(&l.elts)),
        Expr::Dict(d) => PyNode::Dict(opt_exprs_of(&d.keys), exprs_of(&d.values)),
        _ => PyNode::Other,
    }
}

/// A call of `func` with positional `args` and keyword arguments `keywords`.
#[verifier::external_body]
fn call_node(func: &Expr, args: &[Expr], keywords: &[ast::Keyword]) -> PyNode {
    PyNode::Call(Box::new(expr_of(func)), exprs_of(args), keywords_of(keywords))
}

/// Each keyword argument of `ks`, converted.
#[verifier::external_body]
fn keywords_of(ks: &[ast::Keyword]) -> Vec<PyKeyword> {
    ks.iter().map(|k| PyKeyword { arg: k.arg.as_ref().map(|a| a.to_string()), value: expr_of(&k.value) }).collect()
}

/// A constant: strings, integers (in decimal), floats (as displayed),
/// booleans and `None`; any other constant in its `Debug` text.
#[verifier::external_body]
fn constant_of(c: &Constant) -> PyConst {
    match c {
        Constant::Str(s) => PyConst::Str(s.clone()),
        Constant::Int(n) => PyConst::Int(n.to_string()),
        Constant::Float(n) => PyConst::Float(n.to_string()),
        Constant::Bool(b) => PyConst::Bool(*b),
        Constant::None => PyConst::NoneValue,
        other => PyConst::Other(format!("{:?}", other)),
    }
}

/// Collects the tests of a Python test module from its source text: a
/// source that does not parse defines no test and no fixture; otherwise the
/// module's parametrized fixtures are recorded in `params` and its tests
/// are extracted (`None` when a variant's id cannot be made).
pub fn collect_source(
    source: &str,
    relative_path: &str,
    is_conftest: bool,
    params: &mut Table<Vec<String>>,
) -> (r: Option<Vec<NativeTestNode>>)
    requires
        old(params).wf(),
    ensures
        final(params).wf(),
        match parsed_module(source@) {
            None => {
                &&& r matches Some(v) && v@.len() == 0
                &&& final(params).entries@ == old(params).entries@
            },
            Some(m) => {
                &&& entry_views(final(params).entries@) == put_params(
                    entry_views(old(params).entries@),
                    module_fixture_params(m),
                )
                &&& r matches Some(v) ==> file_tests(m, relative_path@, is_conftest) == Some(
                    native_views(v@),
                )
                &&& r is None ==> file_tests(m, relative_path@, is_conftest) is None
            },
        },
{
    match parse_module(source) {
        None => Some(Vec::new()),
        Some(module) => {
            record_fixture_params(&module, params);
            extract_tests_from_ast(&module, relative_path, is_conftest)
        },
    }
}

} // verus!

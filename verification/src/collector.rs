//! Native test collection: which tests a Python test module defines, read
//! from its syntax tree.
//!
//! Collection reads the part of the syntax tree that `pysource` produces from
//! the source with the RustPython parser: the debug form of each expression
//! and the display form of each constant come with it.

use vstd::prelude::*;
use vstd::string::*;
use vstd::utf8::{encode_utf8, decode_utf8, is_char_boundary, encode_utf8_decode_utf8};
use crate::models::ParameterizedTestNode;
use crate::text::{
    starts_with, starts_with_chars, find_first, find_chars, chars_of, string_of, slice_chars,
    split_by, split_chars, trim, trim_chars, string_views, char_vec_views, push_str_chars,
    str_eq, copy_strings, copy_opt_string, lemma_find_from_bounds, push_char, push_decimal, decimal,
    contains, contains_chars, ends_with, ends_with_chars, rfind, rfind_chars, lemma_rfind_from_bounds,
};
use crate::table::{Table, entry_keys, entry_map, lemma_entry_map_at};

verus! {

broadcast use vstd::seq_lib::group_seq_properties;

// ---------------------------------------------------------------------------
// The syntax tree that collection reads
// ---------------------------------------------------------------------------

/// A constant of Python source.
#[derive(Debug, Clone, PartialEq, Eq)]
pub enum PyConst {
    /// A string, its contents.
    Str(String),
    /// An integer, in decimal.
    Int(String),
    /// A float, as collection displays it.
    Float(String),
    /// `True` or `False`.
    Bool(bool),
    /// `None`.
    NoneValue,
    /// Another constant (bytes, an ellipsis, a complex number), in its debug form.
    Other(String),
}

/// An expression of Python source, with its debug form.
#[derive(Debug)]
pub struct PyExpr {
    pub node: PyNode,
    pub debug: String,
}

/// The kinds of expressions collection distinguishes.
#[derive(Debug)]
pub enum PyNode {
    Constant(PyConst),
    Name(String),
    /// `value.attr`.
    Attribute(Box<PyExpr>, String),
    /// `func(args..., keywords...)`.
    Call(Box<PyExpr>, Vec<PyExpr>, Vec<PyKeyword>),
    Tuple(Vec<PyExpr>),
    List(Vec<PyExpr>),
    /// Keys (none for `**` entries) and values.
    Dict(Vec<Option<PyExpr>>, Vec<PyExpr>),
    Other,
}

/// A keyword argument `arg=value` (no `arg` for `**value`).
#[derive(Debug)]
pub struct PyKeyword {
    pub arg: Option<String>,
    pub value: PyExpr,
}

// ---------------------------------------------------------------------------
// Specifications
// ---------------------------------------------------------------------------

/// `parts` joined with `sep` between them.
pub open spec fn join(parts: Seq<Seq<char>>, sep: Seq<char>) -> Seq<char>
    decreases parts.len(),
{
    if parts.len() == 0 {
        Seq::empty()
    } else if parts.len() == 1 {
        parts[0]
    } else {
        join(parts.drop_last(), sep) + sep + parts.last()
    }
}

/// `s` with every occurrence of `p` (found left to right) removed, as
/// `str::replace(p, "")` does.
pub open spec fn remove_all(s: Seq<char>, p: Seq<char>) -> Seq<char>
    decreases s.len(),
{
    if p.len() == 0 {
        s
    } else {
        match find_first(s, p) {
            Some(i) => {
                proof {
                    lemma_find_from_bounds(s, p, 0);
                }
                s.subrange(0, i) + remove_all(s.subrange(i + p.len(), s.len() as int), p)
            },
            None => s,
        }
    }
}

/// How collection displays a constant.
pub open spec fn constant_text(c: PyConst) -> Seq<char> {
    match c {
        PyConst::Str(s) => s@,
        PyConst::Int(t) => t@,
        PyConst::Float(t) => t@,
        PyConst::Bool(b) => if b {
            "True"@
        } else {
            "False"@
        },
        PyConst::NoneValue => "None"@,
        PyConst::Other(t) => t@,
    }
}

/// The dotted name a decorator expression refers to: a call names what it
/// calls, an attribute appends its name to the name of its value (or stands
/// alone when the value has none), a name is itself.
pub open spec fn decorator_name(e: PyExpr) -> Option<Seq<char>>
    decreases e,
{
    match e.node {
        PyNode::Call(f, _, _) => decorator_name(*f),
        PyNode::Attribute(v, a) => match decorator_name(*v) {
            Some(inner) => Some(inner + "."@ + a@),
            None => Some(a@),
        },
        PyNode::Name(id) => Some(id@),
        _ => None,
    }
}

/// A constant's text, or the expression's debug form when it is no constant.
pub open spec fn element_text(e: PyExpr) -> Seq<char> {
    match e.node {
        PyNode::Constant(c) => constant_text(c),
        _ => e.debug@,
    }
}

/// The text of the constants among `es`, others left out.
pub open spec fn constant_texts(es: Seq<PyExpr>) -> Seq<Seq<char>>
    decreases es.len(),
{
    if es.len() == 0 {
        Seq::empty()
    } else {
        let rest = constant_texts(es.drop_last());
        match es.last().node {
            PyNode::Constant(c) => rest.push(constant_text(c)),
            _ => rest,
        }
    }
}

/// The `key=value` texts of a dictionary's entries whose key is a string
/// constant and whose value is a constant, the others left out.
pub open spec fn dict_entry_texts(keys: Seq<Option<PyExpr>>, values: Seq<PyExpr>) -> Seq<Seq<char>>
    decreases keys.len(),
{
    if keys.len() == 0 || values.len() == 0 {
        Seq::empty()
    } else {
        let n = if keys.len() < values.len() {
            keys.len()
        } else {
            values.len()
        };
        let rest = dict_entry_texts(keys.take(n - 1), values.take(n - 1));
        match (keys[n - 1], values[n - 1].node) {
            (Some(k), PyNode::Constant(c)) => match k.node {
                PyNode::Constant(PyConst::Str(ks)) => rest.push(ks@ + "="@ + constant_text(c)),
                _ => rest,
            },
            _ => rest,
        }
    }
}

/// A call of `param` or `pytest.param` (or `param.param`).
pub open spec fn is_param_call(f: PyExpr) -> bool {
    match f.node {
        PyNode::Name(id) => id@ == "param"@,
        PyNode::Attribute(v, a) => a@ == "param"@ && match v.node {
            PyNode::Name(id) => id@ == "param"@ || id@ == "pytest"@,
            _ => false,
        },
        _ => false,
    }
}

/// The string given as keyword `name` by the first keyword of that name, if
/// it is a string constant.
pub open spec fn keyword_string(kws: Seq<PyKeyword>, name: Seq<char>) -> Option<Seq<char>>
    decreases kws.len(),
{
    if kws.len() == 0 {
        None
    } else if kws[0].arg matches Some(a) && a@ == name {
        match kws[0].value.node {
            PyNode::Constant(PyConst::Str(s)) => Some(s@),
            _ => None,
        }
    } else {
        keyword_string(kws.drop_first(), name)
    }
}

/// The marks of a `marks=` expression: a call or an attribute is one mark,
/// a list holds marks.
pub open spec fn marks_of(e: PyExpr) -> Seq<Seq<char>>
    decreases e,
{
    match e.node {
        PyNode::Call(f, _, _) => match decorator_name(*f) {
            Some(n) => seq![remove_all(n, "pytest.mark."@)],
            None => Seq::empty(),
        },
        PyNode::List(elts) => marks_of_list(elts@),
        PyNode::Attribute(_, _) => match decorator_name(e) {
            Some(n) => seq![remove_all(n, "pytest.mark."@)],
            None => Seq::empty(),
        },
        _ => Seq::empty(),
    }
}

/// The marks of each expression of a list, in order.
pub open spec fn marks_of_list(es: Seq<PyExpr>) -> Seq<Seq<char>>
    decreases es,
{
    if es.len() == 0 {
        Seq::empty()
    } else {
        marks_of_list(es.drop_last()) + marks_of(es.last())
    }
}

/// The marks given by the `marks=` keywords, in order.
pub open spec fn keyword_marks(kws: Seq<PyKeyword>) -> Seq<Seq<char>>
    decreases kws.len(),
{
    if kws.len() == 0 {
        Seq::empty()
    } else {
        let rest = keyword_marks(kws.drop_last());
        if kws.last().arg matches Some(a) && a@ == "marks"@ {
            rest + marks_of(kws.last().value)
        } else {
            rest
        }
    }
}

/// One parametrization variant: its values, custom id and marks.
pub type VariantSpec = (Seq<Seq<char>>, Option<Seq<char>>, Seq<Seq<char>>);

/// The variant one element of a parametrize list describes: a constant is
/// one value, a tuple its elements, a dictionary or list one compact value,
/// `pytest.param(...)` its first argument's values with its id and marks;
/// another call describes none, any other expression its debug form.
pub open spec fn param_variant(e: PyExpr) -> Option<VariantSpec>
    decreases e,
{
    match e.node {
        PyNode::Constant(c) => Some((seq![constant_text(c)], None, Seq::empty())),
        PyNode::Tuple(elts) => Some((elts@.map_values(|x: PyExpr| element_text(x)), None, Seq::empty())),
        PyNode::Dict(keys, values) => {
            let parts = dict_entry_texts(keys@, values@);
            Some((
                seq![if parts.len() == 0 {
                    "{}"@
                } else {
                    "{"@ + join(parts, ","@) + "}"@
                }],
                None,
                Seq::empty(),
            ))
        },
        PyNode::List(elts) => {
            let parts = constant_texts(elts@);
            Some((
                seq![if parts.len() == 0 {
                    "[]"@
                } else {
                    "["@ + join(parts, ","@) + "]"@
                }],
                None,
                Seq::empty(),
            ))
        },
        PyNode::Call(f, args, kws) => {
            if is_param_call(*f) {
                let id = keyword_string(kws@, "id"@);
                let marks = keyword_marks(kws@);
                if args@.len() == 0 {
                    Some((seq!["param"@], id, marks))
                } else {
                    match param_variant(args@[0]) {
                        Some(v) => Some((v.0, id, marks)),
                        None => None,
                    }
                }
            } else {
                None
            }
        },
        _ => Some((seq![e.debug@], None, Seq::empty())),
    }
}

/// A tuple in a parametrize list is one variant with one value per tuple
/// element, in order: each constant's text, or another element's debug form.
pub proof fn lemma_tuple_variant_keeps_every_element(e: PyExpr)
    requires
        e.node is Tuple,
    ensures
        param_variant(e) matches Some(v) && {
            &&& v.0.len() == e.node->Tuple_0@.len()
            &&& forall|i: int|
                0 <= i < v.0.len() ==> #[trigger] v.0[i] == match e.node->Tuple_0@[i].node {
                    PyNode::Constant(c) => constant_text(c),
                    _ => e.node->Tuple_0@[i].debug@,
                }
            &&& v.1 is None
            &&& v.2.len() == 0
        },
{
}

/// A constant in a parametrize list is one variant with a single value, its
/// text, and neither an id nor marks.
pub proof fn lemma_constant_variant_is_its_text(e: PyExpr)
    requires
        e.node is Constant,
    ensures
        param_variant(e) == Some((seq![constant_text(e.node->Constant_0)], None::<Seq<char>>, Seq::<Seq<char>>::empty())),
{
}

/// The id of a variant with two values joins both values' id texts with `-`.
pub proof fn lemma_two_values_id(a: Seq<char>, b: Seq<char>, idx: nat)
    ensures
        pytest_id(seq![a, b], idx) == param_text(a) + "-"@ + param_text(b),
{
    let ps = seq![a, b].map_values(|v: Seq<char>| param_text(v));
    assert(ps.drop_last() =~= seq![param_text(a)]);
    assert(ps.last() == param_text(b));
    assert(join(ps.drop_last(), "-"@) == param_text(a));
    assert(join(ps, "-"@) == join(ps.drop_last(), "-"@) + "-"@ + ps.last());
}

/// The variants of each element of `es`, if every element describes one.
pub open spec fn param_variants(es: Seq<PyExpr>) -> Option<Seq<VariantSpec>>
    decreases es.len(),
{
    if es.len() == 0 {
        Some(Seq::empty())
    } else {
        match (param_variants(es.drop_last()), param_variant(es.last())) {
            (Some(vs), Some(v)) => Some(vs.push(v)),
            _ => None,
        }
    }
}

/// The variants of a parametrize argument: only a list has them.
pub open spec fn list_variants(e: PyExpr) -> Option<Seq<VariantSpec>> {
    match e.node {
        PyNode::List(elts) => param_variants(elts@),
        _ => None,
    }
}

/// The parameter names of `"x, y"`: the pieces between commas, trimmed.
pub open spec fn param_names(s: Seq<char>) -> Seq<Seq<char>> {
    split_by(s, ","@).map_values(|p: Seq<char>| trim(p))
}

/// The plain content of a parametrization.
pub open spec fn variant_views(v: Seq<(Vec<String>, Option<String>, Vec<String>)>) -> Seq<VariantSpec> {
    v.map_values(
        |x: (Vec<String>, Option<String>, Vec<String>)|
            (
                string_views(x.0@),
                match x.1 {
                    Some(s) => Some(s@),
                    None => None,
                },
                string_views(x.2@),
            ),
    )
}

/// A parametrize list describes one variant per element, in order, each
/// the variant its element describes.
pub proof fn lemma_list_variant_per_element(es: Seq<PyExpr>)
    ensures
        param_variants(es) matches Some(vs) ==> {
            &&& vs.len() == es.len()
            &&& forall|i: int| 0 <= i < es.len() ==> param_variant(#[trigger] es[i]) == Some(vs[i])
        },
        (forall|i: int| 0 <= i < es.len() ==> (#[trigger] param_variant(es[i])) is Some) ==> param_variants(es) is Some,
    decreases es.len(),
{
    if es.len() > 0 {
        let t = es.drop_last();
        lemma_list_variant_per_element(t);
        if param_variants(es) is Some {
            let vs = param_variants(es)->0;
            assert forall|i: int| 0 <= i < es.len() implies param_variant(#[trigger] es[i]) == Some(vs[i]) by {
                if i < es.len() - 1 {
                    assert(es[i] == t[i]);
                }
            }
        }
        if forall|i: int| 0 <= i < es.len() ==> (#[trigger] param_variant(es[i])) is Some {
            assert forall|i: int| 0 <= i < t.len() implies (#[trigger] param_variant(t[i])) is Some by {
                assert(t[i] == es[i]);
            }
            assert(param_variant(es[es.len() - 1]) is Some);
        }
    }
}

/// What `@pytest.mark.parametrize("names", [variants])` describes: its names
/// and variants (the generated id is left empty).
pub open spec fn parametrize_spec(e: PyExpr) -> Option<(Seq<Seq<char>>, Seq<VariantSpec>)> {
    match e.node {
        PyNode::Call(f, args, _) => {
            if decorator_name(*f) == Some("pytest.mark.parametrize"@) && args@.len() >= 2 {
                match args@[0].node {
                    PyNode::Constant(PyConst::Str(s)) => match list_variants(args@[1]) {
                        Some(vs) => Some((param_names(s@), vs)),
                        None => None,
                    },
                    _ => None,
                }
            } else {
                None
            }
        },
        _ => None,
    }
}

// ---------------------------------------------------------------------------
// Executable functions
// ---------------------------------------------------------------------------

/// Appends `s` to `v`.
fn push_copy(v: &mut Vec<String>, s: &String)
    ensures
        string_views(final(v)@) == string_views(old(v)@).push(s@),
{
    let ghost before = v@;
    v.push(s.clone());
    assert(string_views(v@) =~= string_views(before).push(s@));
}

/// Appends each of `t` to `v`.
fn extend_copies(v: &mut Vec<String>, t: &Vec<String>)
    ensures
        string_views(final(v)@) == string_views(old(v)@) + string_views(t@),
{
    let mut i: usize = 0;
    while i < t.len()
        invariant
            i <= t@.len(),
            string_views(v@) == string_views(old(v)@) + string_views(t@).take(i as int),
        decreases t@.len() - i,
    {
        push_copy(v, &t[i]);
        assert(string_views(t@).take(i + 1) =~= string_views(t@).take(i as int).push(t@[i as int]@));
        i = i + 1;
    }
    assert(string_views(t@).take(i as int) =~= string_views(t@));
}

/// `parts` joined with `sep`.
pub fn join_strings(parts: &Vec<String>, sep: &str) -> (r: String)
    ensures
        r@ == join(string_views(parts@), sep@),
{
    let mut r = String::new();
    let mut i: usize = 0;
    while i < parts.len()
        invariant
            i <= parts@.len(),
            r@ == join(string_views(parts@).take(i as int), sep@),
        decreases parts@.len() - i,
    {
        if i > 0 {
            push_str_chars(&mut r, sep);
        }
        push_str_chars(&mut r, parts[i].as_str());
        proof {
            let t = string_views(parts@).take(i + 1);
            assert(t.drop_last() =~= string_views(parts@).take(i as int));
            assert(t.last() == parts@[i as int]@);
            if i == 0 {
                assert(string_views(parts@).take(0) =~= Seq::<Seq<char>>::empty());
            }
        }
        i = i + 1;
    }
    assert(string_views(parts@).take(i as int) =~= string_views(parts@));
    r
}

/// `s` with every occurrence of the non-empty `p` removed.
pub fn remove_all_exec(s: &str, p: &str) -> (r: String)
    requires
        p@.len() > 0,
    ensures
        r@ == remove_all(s@, p@),
{
    let pc = chars_of(p);
    let mut rest = chars_of(s);
    let mut r = String::new();
    loop
        invariant
            pc@ == p@,
            p@.len() > 0,
            remove_all(s@, p@) == r@ + remove_all(rest@, p@),
        decreases rest@.len(),
    {
        let ghost before = rest@;
        match find_chars(&rest, &pc) {
            Some(i) => {
                proof {
                    lemma_find_from_bounds(before, p@, 0);
                }
                let n = rest.len();
                assert(i + pc@.len() <= n);
                let head = string_of(&rest, 0, i);
                push_str_chars(&mut r, head.as_str());
                let tail = slice_chars(&rest, i + pc.len(), n);
                rest = tail;
                assert(remove_all(before, p@) == before.subrange(0, i as int) + remove_all(rest@, p@));
            },
            None => {
                let all = string_of(&rest, 0, rest.len());
                assert(rest@.subrange(0, rest@.len() as int) =~= rest@);
                push_str_chars(&mut r, all.as_str());
                assert(remove_all(before, p@) == before);
                return r;
            },
        }
    }
}

/// A dotted name without `pytest.mark.`.
pub fn strip_mark_prefix(n: &str) -> (r: String)
    ensures
        r@ == remove_all(n@, "pytest.mark."@),
{
    proof {
        reveal_strlit("pytest.mark.");
    }
    remove_all_exec(n, "pytest.mark.")
}

/// How collection displays a constant.
pub fn format_constant(c: &PyConst) -> (r: String)
    ensures
        r@ == constant_text(*c),
{
    match c {
        PyConst::Str(s) => s.clone(),
        PyConst::Int(t) => t.clone(),
        PyConst::Float(t) => t.clone(),
        PyConst::Bool(b) => if *b {
            String::from_str("True")
        } else {
            String::from_str("False")
        },
        PyConst::NoneValue => String::from_str("None"),
        PyConst::Other(t) => t.clone(),
    }
}

/// The dotted name a decorator expression refers to.
pub fn get_decorator_name(e: &PyExpr) -> (r: Option<String>)
    ensures
        r matches Some(s) ==> decorator_name(*e) == Some(s@),
        r is None ==> decorator_name(*e) is None,
    decreases e,
{
    match &e.node {
        PyNode::Call(f, _, _) => get_decorator_name(f),
        PyNode::Attribute(v, a) => match get_decorator_name(v) {
            Some(inner) => {
                let mut s = inner;
                push_str_chars(&mut s, ".");
                push_str_chars(&mut s, a.as_str());
                Some(s)
            },
            None => Some(a.clone()),
        },
        PyNode::Name(id) => Some(id.clone()),
        _ => None,
    }
}

/// A constant's text, or the expression's debug form.
fn element_text_exec(e: &PyExpr) -> (r: String)
    ensures
        r@ == element_text(*e),
{
    match &e.node {
        PyNode::Constant(c) => format_constant(c),
        _ => e.debug.clone(),
    }
}

/// The string given as keyword `name`, if the first keyword of that name
/// gives a string constant.
pub fn extract_keyword_string(kws: &Vec<PyKeyword>, name: &str) -> (r: Option<String>)
    ensures
        r matches Some(s) ==> keyword_string(kws@, name@) == Some(s@),
        r is None ==> keyword_string(kws@, name@) is None,
{
    let mut i: usize = 0;
    while i < kws.len()
        invariant
            i <= kws@.len(),
            keyword_string(kws@, name@) == keyword_string(kws@.subrange(i as int, kws@.len() as int), name@),
        decreases kws@.len() - i,
    {
        let ghost rest = kws@.subrange(i as int, kws@.len() as int);
        assert(rest[0] == kws@[i as int]);
        assert(rest.drop_first() =~= kws@.subrange(i + 1, kws@.len() as int));
        let matches_name = match &kws[i].arg {
            Some(a) => str_eq(a.as_str(), name),
            None => false,
        };
        if matches_name {
            return match &kws[i].value.node {
                PyNode::Constant(PyConst::Str(s)) => Some(s.clone()),
                _ => None,
            };
        }
        i = i + 1;
    }
    assert(kws@.subrange(i as int, kws@.len() as int) =~= Seq::<PyKeyword>::empty());
    None
}

/// The marks of a `marks=` expression, appended to `marks`.
pub fn extract_marks_from_expr(e: &PyExpr, marks: &mut Vec<String>)
    ensures
        string_views(final(marks)@) == string_views(old(marks)@) + marks_of(*e),
    decreases e,
{
    match &e.node {
        PyNode::Call(f, _, _) => {
            match get_decorator_name(f) {
                Some(n) => {
                    let m = strip_mark_prefix(n.as_str());
                    push_copy(marks, &m);
                },
                None => {
                    assert(string_views(marks@) + Seq::<Seq<char>>::empty() =~= string_views(marks@));
                },
            }
        },
        PyNode::List(elts) => {
            let mut i: usize = 0;
            while i < elts.len()
                invariant
                    i <= elts@.len(),
                    e.node matches PyNode::List(l) && l@ == elts@,
                    string_views(marks@) == string_views(old(marks)@) + marks_of_list(elts@.take(i as int)),
                decreases elts@.len() - i,
            {
                proof {
                    assert(decreases_to!(*e => elts@[i as int]));
                }
                extract_marks_from_expr(&elts[i], marks);
                proof {
                    let t = elts@.take(i + 1);
                    assert(t.drop_last() =~= elts@.take(i as int));
                }
                i = i + 1;
            }
            assert(elts@.take(i as int) =~= elts@);
        },
        PyNode::Attribute(_, _) => {
            match get_decorator_name(e) {
                Some(n) => {
                    let m = strip_mark_prefix(n.as_str());
                    push_copy(marks, &m);
                },
                None => {
                    assert(string_views(marks@) + Seq::<Seq<char>>::empty() =~= string_views(marks@));
                },
            }
        },
        _ => {
            assert(string_views(marks@) + Seq::<Seq<char>>::empty() =~= string_views(marks@));
        },
    }
}

/// The marks given by the `marks=` keywords.
pub fn parse_marks_from_keywords(kws: &Vec<PyKeyword>) -> (r: Vec<String>)
    ensures
        string_views(r@) == keyword_marks(kws@),
{
    let mut marks: Vec<String> = Vec::new();
    let mut i: usize = 0;
    while i < kws.len()
        invariant
            i <= kws@.len(),
            string_views(marks@) == keyword_marks(kws@.take(i as int)),
        decreases kws@.len() - i,
    {
        let is_marks = match &kws[i].arg {
            Some(a) => str_eq(a.as_str(), "marks"),
            None => false,
        };
        if is_marks {
            extract_marks_from_expr(&kws[i].value, &mut marks);
        }
        proof {
            let t = kws@.take(i + 1);
            assert(t.drop_last() =~= kws@.take(i as int));
            if !is_marks {
                assert(string_views(marks@) =~= keyword_marks(t));
            }
        }
        i = i + 1;
    }
    assert(kws@.take(i as int) =~= kws@);
    marks
}

/// Whether the call is one of `param`.
fn is_param_call_exec(f: &PyExpr) -> (r: bool)
    ensures
        r == is_param_call(*f),
{
    match &f.node {
        PyNode::Name(id) => str_eq(id.as_str(), "param"),
        PyNode::Attribute(v, a) => {
            if str_eq(a.as_str(), "param") {
                match &v.node {
                    PyNode::Name(id) => str_eq(id.as_str(), "param") || str_eq(id.as_str(), "pytest"),
                    _ => false,
                }
            } else {
                false
            }
        },
        _ => false,
    }
}

/// A variant as executable values.
pub type Variant = (Vec<String>, Option<String>, Vec<String>);

/// The plain content of a variant.
pub open spec fn variant_view(v: Variant) -> VariantSpec {
    (
        string_views(v.0@),
        match v.1 {
            Some(s) => Some(s@),
            None => None,
        },
        string_views(v.2@),
    )
}

/// The variant one element of a parametrize list describes.
pub fn extract_single_param_value_full(e: &PyExpr) -> (r: Option<Variant>)
    ensures
        r matches Some(v) ==> param_variant(*e) == Some(variant_view(v)),
        r is None ==> param_variant(*e) is None,
    decreases e,
{
    match &e.node {
        PyNode::Constant(c) => {
            let mut values: Vec<String> = Vec::new();
            values.push(format_constant(c));
            assert(string_views(values@) =~= seq![constant_text(*c)]);
            let v: Variant = (values, None, Vec::new());
            assert(variant_view(v).2 =~= Seq::<Seq<char>>::empty());
            Some(v)
        },
        PyNode::Tuple(elts) => {
            let mut values: Vec<String> = Vec::new();
            let mut i: usize = 0;
            while i < elts.len()
                invariant
                    i <= elts@.len(),
                    string_views(values@) == elts@.take(i as int).map_values(|x: PyExpr| element_text(x)),
                decreases elts@.len() - i,
            {
                let t = element_text_exec(&elts[i]);
                let ghost v0 = values@;
                values.push(t);
                assert(string_views(values@) =~= string_views(v0).push(element_text(elts@[i as int])));
                assert(elts@.take(i + 1).map_values(|x: PyExpr| element_text(x)) =~= elts@.take(
                    i as int,
                ).map_values(|x: PyExpr| element_text(x)).push(element_text(elts@[i as int])));
                i = i + 1;
            }
            assert(elts@.take(i as int) =~= elts@);
            let v: Variant = (values, None, Vec::new());
            assert(variant_view(v).2 =~= Seq::<Seq<char>>::empty());
            Some(v)
        },
        PyNode::Dict(keys, values) => {
            let n = if keys.len() < values.len() {
                keys.len()
            } else {
                values.len()
            };
            let mut parts: Vec<String> = Vec::new();
            let mut i: usize = 0;
            while i < n
                invariant
                    n <= keys@.len(),
                    n <= values@.len(),
                    n == keys@.len() || n == values@.len(),
                    i <= n,
                    string_views(parts@) == dict_entry_texts(keys@.take(i as int), values@.take(i as int)),
                decreases n - i,
            {
                proof {
                    let kt = keys@.take(i + 1);
                    let vt = values@.take(i + 1);
                    assert(kt.take(i as int) =~= keys@.take(i as int));
                    assert(vt.take(i as int) =~= values@.take(i as int));
                }
                match &keys[i] {
                    Some(k) => match (&k.node, &values[i].node) {
                        (PyNode::Constant(PyConst::Str(ks)), PyNode::Constant(c)) => {
                            let mut t = ks.clone();
                            push_str_chars(&mut t, "=");
                            let ct = format_constant(c);
                            push_str_chars(&mut t, ct.as_str());
                            let ghost p0 = parts@;
                            parts.push(t);
                            assert(string_views(parts@) =~= string_views(p0).push(t@));
                        },
                        _ => {},
                    },
                    None => {},
                }
                i = i + 1;
            }
            proof {
                if n == keys@.len() {
                    assert(keys@.take(i as int) =~= keys@);
                    assert(dict_entry_texts(keys@, values@.take(n as int)) == dict_entry_texts(keys@, values@)) by {
                        lemma_dict_entries_prefix(keys@, values@);
                    }
                } else {
                    assert(values@.take(i as int) =~= values@);
                    lemma_dict_entries_prefix(keys@, values@);
                }
            }
            let repr = if parts.len() == 0 {
                String::from_str("{}")
            } else {
                let mut s = String::from_str("{");
                let j = join_strings(&parts, ",");
                push_str_chars(&mut s, j.as_str());
                push_str_chars(&mut s, "}");
                s
            };
            let mut vals: Vec<String> = Vec::new();
            vals.push(repr);
            let v: Variant = (vals, None, Vec::new());
            assert(variant_view(v).0 =~= seq![repr@]);
            assert(variant_view(v).2 =~= Seq::<Seq<char>>::empty());
            Some(v)
        },
        PyNode::List(elts) => {
            let mut parts: Vec<String> = Vec::new();
            let mut i: usize = 0;
            while i < elts.len()
                invariant
                    i <= elts@.len(),
                    string_views(parts@) == constant_texts(elts@.take(i as int)),
                decreases elts@.len() - i,
            {
                proof {
                    let t = elts@.take(i + 1);
                    assert(t.drop_last() =~= elts@.take(i as int));
                }
                match &elts[i].node {
                    PyNode::Constant(c) => {
                        let t = format_constant(c);
                        let ghost p0 = parts@;
                        parts.push(t);
                        assert(string_views(parts@) =~= string_views(p0).push(t@));
                    },
                    _ => {},
                }
                i = i + 1;
            }
            assert(elts@.take(i as int) =~= elts@);
            let repr = if parts.len() == 0 {
                String::from_str("[]")
            } else {
                let mut s = String::from_str("[");
                let j = join_strings(&parts, ",");
                push_str_chars(&mut s, j.as_str());
                push_str_chars(&mut s, "]");
                s
            };
            let mut vals: Vec<String> = Vec::new();
            vals.push(repr);
            let v: Variant = (vals, None, Vec::new());
            assert(variant_view(v).0 =~= seq![repr@]);
            assert(variant_view(v).2 =~= Seq::<Seq<char>>::empty());
            Some(v)
        },
        PyNode::Call(f, args, kws) => {
            if is_param_call_exec(f) {
                let id = extract_keyword_string(kws, "id");
                let marks = parse_marks_from_keywords(kws);
                if args.len() == 0 {
                    let mut vals: Vec<String> = Vec::new();
                    vals.push(String::from_str("param"));
                    let v: Variant = (vals, id, marks);
                    assert(variant_view(v).0 =~= seq!["param"@]);
                    return Some(v);
                }
                match extract_single_param_value_full(&args[0]) {
                    Some(inner) => {
                        let (vals, _, _) = inner;
                        Some((vals, id, marks))
                    },
                    None => None,
                }
            } else {
                None
            }
        },
        _ => {
            let mut vals: Vec<String> = Vec::new();
            vals.push(e.debug.clone());
            let v: Variant = (vals, None, Vec::new());
            assert(variant_view(v).0 =~= seq![e.debug@]);
            assert(variant_view(v).2 =~= Seq::<Seq<char>>::empty());
            Some(v)
        },
    }
}

/// Only the entries both lists reach count.
proof fn lemma_dict_entries_prefix(keys: Seq<Option<PyExpr>>, values: Seq<PyExpr>)
    ensures
        keys.len() <= values.len() ==> dict_entry_texts(keys, values.take(keys.len() as int))
            == dict_entry_texts(keys, values),
        values.len() <= keys.len() ==> dict_entry_texts(keys.take(values.len() as int), values)
            == dict_entry_texts(keys, values),
    decreases keys.len(),
{
    if keys.len() > 0 && values.len() > 0 {
        let n = if keys.len() < values.len() {
            keys.len()
        } else {
            values.len()
        };
        if keys.len() <= values.len() {
            let vt = values.take(keys.len() as int);
            assert(vt.take(n - 1) =~= values.take(n - 1));
        }
        if values.len() <= keys.len() {
            let kt = keys.take(values.len() as int);
            assert(kt.take(n - 1) =~= keys.take(n - 1));
        }
    }
}

/// The variants of a parametrize argument list, if every element describes one.
pub fn extract_param_values_with_info(e: &PyExpr) -> (r: Option<Vec<Variant>>)
    ensures
        r matches Some(vs) ==> list_variants(*e) == Some(vs@.map_values(|v: Variant| variant_view(v))),
        r is None ==> list_variants(*e) is None,
{
    match &e.node {
        PyNode::List(elts) => {
            let mut all: Vec<Variant> = Vec::new();
            let mut i: usize = 0;
            while i < elts.len()
                invariant
                    i <= elts@.len(),
                    e.node matches PyNode::List(l) && l@ == elts@,
                    param_variants(elts@.take(i as int)) == Some(all@.map_values(|v: Variant| variant_view(v))),
                decreases elts@.len() - i,
            {
                proof {
                    let t = elts@.take(i + 1);
                    assert(t.drop_last() =~= elts@.take(i as int));
                    assert(t.last() == elts@[i as int]);
                }
                match extract_single_param_value_full(&elts[i]) {
                    Some(v) => {
                        let ghost a0 = all@;
                        all.push(v);
                        assert(all@.map_values(|v: Variant| variant_view(v)) =~= a0.map_values(
                            |v: Variant| variant_view(v),
                        ).push(variant_view(v)));
                    },
                    None => {
                        proof {
                            assert(param_variants(elts@.take(i + 1)) is None);
                            lemma_variants_none_extends(elts@, i + 1);
                        }
                        return None;
                    },
                }
                i = i + 1;
            }
            assert(elts@.take(i as int) =~= elts@);
            Some(all)
        },
        _ => None,
    }
}

/// The values of each variant of a parametrize argument list (without
/// custom ids and marks), if every element describes a variant.
pub fn extract_param_values(e: &PyExpr) -> (r: Option<Vec<Vec<String>>>)
    ensures
        r matches Some(v) ==> list_variants(*e) matches Some(vs) && v@.map_values(
            |x: Vec<String>| string_views(x@),
        ) == vs.map_values(|x: VariantSpec| x.0),
        r is None ==> list_variants(*e) is None,
{
    match extract_param_values_with_info(e) {
        Some(all) => {
            let ghost vs = all@.map_values(|v: Variant| variant_view(v));
            let mut r: Vec<Vec<String>> = Vec::new();
            let mut i: usize = 0;
            while i < all.len()
                invariant
                    i <= all@.len(),
                    vs == all@.map_values(|v: Variant| variant_view(v)),
                    r@.map_values(|x: Vec<String>| string_views(x@)) == vs.take(i as int).map_values(
                        |x: VariantSpec| x.0,
                    ),
                decreases all@.len() - i,
            {
                let values = copy_strings(&all[i].0);
                let ghost r0 = r@;
                r.push(values);
                assert(r@.map_values(|x: Vec<String>| string_views(x@)) =~= r0.map_values(
                    |x: Vec<String>| string_views(x@),
                ).push(string_views(values@)));
                assert(vs.take(i + 1).map_values(|x: VariantSpec| x.0) =~= vs.take(i as int).map_values(
                    |x: VariantSpec| x.0,
                ).push(vs[i as int].0));
                i = i + 1;
            }
            assert(vs.take(i as int) =~= vs);
            Some(r)
        },
        None => None,
    }
}

/// Once an element describes no variant, no longer prefix does.
proof fn lemma_variants_none_extends(es: Seq<PyExpr>, k: int)
    requires
        0 <= k <= es.len(),
        param_variants(es.take(k)) is None,
    ensures
        param_variants(es) is None,
    decreases es.len() - k,
{
    if k < es.len() {
        let t = es.take(k + 1);
        assert(t.drop_last() =~= es.take(k));
        lemma_variants_none_extends(es, k + 1);
    } else {
        assert(es.take(k) =~= es);
    }
}

/// The trimmed pieces of `s` between commas.
pub fn split_param_names(s: &str) -> (r: Vec<String>)
    ensures
        string_views(r@) == param_names(s@),
{
    let cs = chars_of(s);
    let comma = chars_of(",");
    proof {
        reveal_strlit(",");
    }
    let pieces = split_chars(&cs, &comma);
    let ghost ps = split_by(s@, ","@);
    let mut r: Vec<String> = Vec::new();
    let mut i: usize = 0;
    while i < pieces.len()
        invariant
            char_vec_views(pieces@) == ps,
            i <= pieces@.len(),
            string_views(r@) == ps.take(i as int).map_values(|p: Seq<char>| trim(p)),
        decreases pieces@.len() - i,
    {
        let t = trim_chars(&pieces[i]);
        let name = string_of(&t, 0, t.len());
        assert(t@.subrange(0, t@.len() as int) =~= t@);
        assert(ps[i as int] == pieces@[i as int]@);
        let ghost r0 = r@;
        r.push(name);
        assert(string_views(r@) =~= string_views(r0).push(trim(ps[i as int])));
        assert(ps.take(i + 1).map_values(|p: Seq<char>| trim(p)) =~= ps.take(i as int).map_values(
            |p: Seq<char>| trim(p),
        ).push(trim(ps[i as int])));
        i = i + 1;
    }
    assert(ps.take(i as int) =~= ps);
    r
}

/// What a `@pytest.mark.parametrize(...)` decorator describes.
pub fn extract_parametrize_info(e: &PyExpr) -> (r: Option<ParameterizedTestNode>)
    ensures
        r matches Some(p) ==> parametrize_spec(*e) == Some(
            (string_views(p.param_names@), variant_views(p.param_values@)),
        ) && p.test_id@ == Seq::<char>::empty(),
        r is None ==> parametrize_spec(*e) is None,
{
    match &e.node {
        PyNode::Call(f, args, _) => {
            let is_parametrize = match get_decorator_name(f) {
                Some(n) => str_eq(n.as_str(), "pytest.mark.parametrize"),
                None => false,
            };
            if !is_parametrize || args.len() < 2 {
                return None;
            }
            let names = match &args[0].node {
                PyNode::Constant(PyConst::Str(s)) => split_param_names(s.as_str()),
                _ => {
                    return None;
                },
            };
            match extract_param_values_with_info(&args[1]) {
                Some(vs) => {
                    assert(vs@.map_values(|v: Variant| variant_view(v)) =~= variant_views(vs@));
                    Some(ParameterizedTestNode { param_names: names, param_values: vs, test_id: String::new() })
                },
                None => None,
            }
        },
        _ => None,
    }
}

/// The values of a fixture's `params=[...]` list: a constant's text, else
/// the element's debug form.
pub fn extract_list_param_values(e: &PyExpr) -> (r: Option<Vec<String>>)
    ensures
        r matches Some(v) ==> (e.node matches PyNode::List(elts) && string_views(v@) == elts@.map_values(
            |x: PyExpr| element_text(x),
        )),
        r is None ==> !(e.node is List),
{
    match &e.node {
        PyNode::List(elts) => {
            let mut values: Vec<String> = Vec::new();
            let mut i: usize = 0;
            while i < elts.len()
                invariant
                    i <= elts@.len(),
                    string_views(values@) == elts@.take(i as int).map_values(|x: PyExpr| element_text(x)),
                decreases elts@.len() - i,
            {
                let t = element_text_exec(&elts[i]);
                let ghost v0 = values@;
                values.push(t);
                assert(string_views(values@) =~= string_views(v0).push(element_text(elts@[i as int])));
                assert(elts@.take(i + 1).map_values(|x: PyExpr| element_text(x)) =~= elts@.take(
                    i as int,
                ).map_values(|x: PyExpr| element_text(x)).push(element_text(elts@[i as int])));
                i = i + 1;
            }
            assert(elts@.take(i as int) =~= elts@);
            Some(values)
        },
        _ => None,
    }
}

// ---------------------------------------------------------------------------
// Test ids of parametrized variants
// ---------------------------------------------------------------------------

/// Whether `c` is alphabetic or numeric in Unicode (what `char::is_alphanumeric` tests).
pub uninterp spec fn alphanumeric(c: char) -> bool;

/// `char::is_alphanumeric`.
#[verifier::external_body]
fn is_alphanumeric(c: char) -> (r: bool)
    ensures
        r == alphanumeric(c),
{
    c.is_alphanumeric()
}

/// Characters kept in a test id: alphanumerics and `_ - . space / : [ ]`.
pub open spec fn id_keeps(c: char) -> bool {
    alphanumeric(c) || c == '_' || c == '-' || c == '.' || c == ' ' || c == '/' || c == ':' || c
        == '[' || c == ']'
}

/// `v` with every character a test id does not keep replaced by `_`.
pub open spec fn sanitize(v: Seq<char>) -> Seq<char> {
    v.map_values(|c: char| if id_keeps(c) {
        c
    } else {
        '_'
    })
}

/// A text longer than 30 bytes (in UTF-8) cut to its first 27 bytes and `...`.
pub open spec fn shortened(t: Seq<char>) -> Seq<char> {
    if encode_utf8(t).len() > 30 {
        decode_utf8(encode_utf8(t).subrange(0, 27)) + "..."@
    } else {
        t
    }
}

/// The value stands for a container or a named constant with its own id text.
pub open spec fn is_named_value(v: Seq<char>) -> bool {
    v == "{}"@ || starts_with(v, "{"@) || v == "[]"@ || starts_with(v, "["@) || v == "None"@ || v
        == "True"@ || v == "False"@
}

/// How a parameter value shows in a test id: dictionaries as `dct`, lists
/// as `lst`, `None` as is, booleans in lower case, anything else sanitized
/// and shortened.
pub open spec fn param_text(v: Seq<char>) -> Seq<char> {
    if v == "{}"@ || starts_with(v, "{"@) {
        "dct"@
    } else if v == "[]"@ || starts_with(v, "["@) {
        "lst"@
    } else if v == "None"@ {
        "None"@
    } else if v == "True"@ {
        "true"@
    } else if v == "False"@ {
        "false"@
    } else {
        shortened(sanitize(v))
    }
}

/// Shortening cuts the value at a character boundary (cutting inside a
/// character is refused).
pub open spec fn param_text_defined(v: Seq<char>) -> bool {
    !is_named_value(v) && encode_utf8(sanitize(v)).len() > 30 ==> is_char_boundary(
        encode_utf8(sanitize(v)),
        27,
    )
}

/// The sanitized form of `v`.
fn sanitize_exec(v: &str) -> (r: String)
    ensures
        r@ == sanitize(v@),
{
    let cs = chars_of(v);
    let mut r = String::new();
    let mut i: usize = 0;
    while i < cs.len()
        invariant
            cs@ == v@,
            i <= cs@.len(),
            r@ == sanitize(v@).take(i as int),
        decreases cs@.len() - i,
    {
        let c = cs[i];
        let keep = is_alphanumeric(c) || c == '_' || c == '-' || c == '.' || c == ' ' || c == '/'
            || c == ':' || c == '[' || c == ']';
        if keep {
            push_char(&mut r, c);
        } else {
            push_char(&mut r, '_');
        }
        assert(sanitize(v@).take(i + 1) =~= sanitize(v@).take(i as int).push(sanitize(v@)[i as int]));
        i = i + 1;
    }
    assert(sanitize(v@).take(i as int) =~= sanitize(v@));
    r
}

/// Whether the value's id text can be made (its cut, if any, falls on a
/// character boundary).
pub fn param_text_fits(value: &str) -> (r: bool)
    ensures
        r == param_text_defined(value@),
{
    proof {
        reveal_strlit("{}");
        reveal_strlit("{");
        reveal_strlit("[]");
        reveal_strlit("[");
        reveal_strlit("None");
        reveal_strlit("True");
        reveal_strlit("False");
    }
    let v = chars_of(value);
    let named = str_eq(value, "{}") || starts_with_chars(&v, &chars_of("{")) || str_eq(value, "[]")
        || starts_with_chars(&v, &chars_of("[")) || str_eq(value, "None") || str_eq(value, "True")
        || str_eq(value, "False");
    if named {
        return true;
    }
    let s = sanitize_exec(value);
    let t = s.as_str();
    let bytes = t.as_bytes();
    if bytes.len() > 30 {
        t.is_char_boundary(27)
    } else {
        true
    }
}

/// Format a parameter value for a test id, as pytest does.
pub fn format_param_value(value: &str) -> (r: String)
    requires
        param_text_defined(value@),
    ensures
        r@ == param_text(value@),
{
    proof {
        reveal_strlit("{}");
        reveal_strlit("{");
        reveal_strlit("[]");
        reveal_strlit("[");
        reveal_strlit("None");
        reveal_strlit("True");
        reveal_strlit("False");
        reveal_strlit("dct");
        reveal_strlit("lst");
        reveal_strlit("true");
        reveal_strlit("false");
    }
    let v = chars_of(value);
    if str_eq(value, "{}") || starts_with_chars(&v, &chars_of("{")) {
        String::from_str("dct")
    } else if str_eq(value, "[]") || starts_with_chars(&v, &chars_of("[")) {
        String::from_str("lst")
    } else if str_eq(value, "None") {
        String::from_str("None")
    } else if str_eq(value, "True") {
        String::from_str("true")
    } else if str_eq(value, "False") {
        String::from_str("false")
    } else {
        let s = sanitize_exec(value);
        let t = s.as_str();
        let bytes = t.as_bytes();
        if bytes.len() > 30 {
            let (head, _tail) = t.split_at(27);
            let mut r = String::from_str(head);
            push_str_chars(&mut r, "...");
            proof {
                encode_utf8_decode_utf8(head@);
                assert(head@ == decode_utf8(encode_utf8(sanitize(value@)).subrange(0, 27)));
            }
            r
        } else {
            s
        }
    }
}

/// The id of a variant from its values: one value shows as its text (a
/// dictionary or list followed by the variant's index); several values show
/// as their texts joined by `-`.
pub open spec fn pytest_id(values: Seq<Seq<char>>, idx: nat) -> Seq<char> {
    if values.len() == 1 {
        let f = param_text(values[0]);
        if f == "dct"@ || f == "lst"@ {
            f + decimal(idx)
        } else {
            f
        }
    } else {
        join(values.map_values(|v: Seq<char>| param_text(v)), "-"@)
    }
}

/// Every value's id text can be made.
pub open spec fn texts_defined(values: Seq<Seq<char>>) -> bool {
    forall|i: int| 0 <= i < values.len() ==> param_text_defined(#[trigger] values[i])
}

/// Generate a pytest-style test id from parameter values and the variant's index.
pub fn generate_pytest_id(values: &Vec<String>, idx: usize) -> (r: String)
    requires
        texts_defined(string_views(values@)),
    ensures
        r@ == pytest_id(string_views(values@), idx as nat),
{
    proof {
        reveal_strlit("dct");
        reveal_strlit("lst");
    }
    if values.len() == 1 {
        assert(string_views(values@)[0] == values@[0]@);
        let f = format_param_value(values[0].as_str());
        if str_eq(f.as_str(), "dct") || str_eq(f.as_str(), "lst") {
            let mut r = f;
            push_decimal(&mut r, idx as u64);
            r
        } else {
            f
        }
    } else {
        let mut parts: Vec<String> = Vec::new();
        let mut i: usize = 0;
        while i < values.len()
            invariant
                i <= values@.len(),
                texts_defined(string_views(values@)),
                string_views(parts@) == string_views(values@).take(i as int).map_values(
                    |v: Seq<char>| param_text(v),
                ),
            decreases values@.len() - i,
        {
            assert(string_views(values@)[i as int] == values@[i as int]@);
            let t = format_param_value(values[i].as_str());
            let ghost p0 = parts@;
            parts.push(t);
            assert(string_views(parts@) =~= string_views(p0).push(t@));
            assert(string_views(values@).take(i + 1).map_values(|v: Seq<char>| param_text(v))
                =~= string_views(values@).take(i as int).map_values(|v: Seq<char>| param_text(v)).push(
                param_text(values@[i as int]@),
            ));
            i = i + 1;
        }
        assert(string_views(values@).take(i as int) =~= string_views(values@));
        join_strings(&parts, "-")
    }
}

/// Whether every value's id text can be made.
pub fn texts_fit(values: &Vec<String>) -> (r: bool)
    ensures
        r == texts_defined(string_views(values@)),
{
    let mut i: usize = 0;
    while i < values.len()
        invariant
            i <= values@.len(),
            forall|k: int| 0 <= k < i ==> param_text_defined(#[trigger] string_views(values@)[k]),
        decreases values@.len() - i,
    {
        assert(string_views(values@)[i as int] == values@[i as int]@);
        if !param_text_fits(values[i].as_str()) {
            return false;
        }
        i = i + 1;
    }
    true
}

// ---------------------------------------------------------------------------
// Markers, skips and expected failures of decorators
// ---------------------------------------------------------------------------

/// Pytest's built-in fixtures: their names are no markers.
pub open spec fn builtin_fixture(n: Seq<char>) -> bool {
    n == "capsys"@ || n == "capfd"@ || n == "capsysbinary"@ || n == "capfdbinary"@ || n == "caplog"@
        || n == "tmp_path"@ || n == "tmp_path_factory"@ || n == "tmpdir"@ || n == "tmpdir_factory"@
        || n == "request"@ || n == "pytestconfig"@ || n == "cache"@ || n == "recwarn"@ || n
        == "monkeypatch"@ || n == "doctest_namespace"@
}

/// Whether `n` names one of pytest's built-in fixtures.
pub fn is_builtin_fixture(n: &str) -> (r: bool)
    ensures
        r == builtin_fixture(n@),
{
    str_eq(n, "capsys") || str_eq(n, "capfd") || str_eq(n, "capsysbinary") || str_eq(n, "capfdbinary")
        || str_eq(n, "caplog") || str_eq(n, "tmp_path") || str_eq(n, "tmp_path_factory") || str_eq(
        n,
        "tmpdir",
    ) || str_eq(n, "tmpdir_factory") || str_eq(n, "request") || str_eq(n, "pytestconfig")
        || str_eq(n, "cache") || str_eq(n, "recwarn") || str_eq(n, "monkeypatch") || str_eq(
        n,
        "doctest_namespace",
    )
}

/// A parametrization, as plain values: names and variants.
pub type ParamSpec = (Seq<Seq<char>>, Seq<VariantSpec>);

/// The markers and the parametrizations of a test's decorators, in order:
/// a `pytest.mark.parametrize` call is a parametrization, another
/// `pytest.mark.` name a marker (without the prefix), a name outside
/// `pytest.` a marker as is; built-in fixture names are left out.
pub open spec fn decorator_info(ds: Seq<PyExpr>) -> (Seq<Seq<char>>, Seq<ParamSpec>)
    decreases ds.len(),
{
    if ds.len() == 0 {
        (Seq::empty(), Seq::empty())
    } else {
        let (m, p) = decorator_info(ds.drop_last());
        let d = ds.last();
        match decorator_name(d) {
            None => (m, p),
            Some(name) => if builtin_fixture(name) {
                (m, p)
            } else if name == "pytest.mark.parametrize"@ {
                match parametrize_spec(d) {
                    Some(x) => (m, p.push(x)),
                    None => (m, p),
                }
            } else if starts_with(name, "pytest.mark."@) {
                (m.push(remove_all(name, "pytest.mark."@)), p)
            } else if !starts_with(name, "pytest."@) {
                (m.push(name), p)
            } else {
                (m, p)
            },
        }
    }
}

/// The markers of a class's decorators: `pytest.mark.` names without the
/// prefix, built-in fixture names left out.
pub open spec fn class_markers_of(ds: Seq<PyExpr>) -> Seq<Seq<char>>
    decreases ds.len(),
{
    if ds.len() == 0 {
        Seq::empty()
    } else {
        let m = class_markers_of(ds.drop_last());
        match decorator_name(ds.last()) {
            Some(name) => if !builtin_fixture(name) && starts_with(name, "pytest.mark."@) {
                m.push(remove_all(name, "pytest.mark."@))
            } else {
                m
            },
            None => m,
        }
    }
}

/// The plain content of a parametrization.
pub open spec fn param_view(p: ParameterizedTestNode) -> ParamSpec {
    (string_views(p.param_names@), variant_views(p.param_values@))
}

/// The markers and parametrizations of a test's decorators.
pub fn extract_markers_and_parametrize(ds: &Vec<PyExpr>) -> (r: (Vec<String>, Vec<ParameterizedTestNode>))
    ensures
        (string_views(r.0@), r.1@.map_values(|p: ParameterizedTestNode| param_view(p)))
            == decorator_info(ds@),
{
    let mut markers: Vec<String> = Vec::new();
    let mut infos: Vec<ParameterizedTestNode> = Vec::new();
    let mut i: usize = 0;
    proof {
        reveal_strlit("pytest.mark.");
        reveal_strlit("pytest.");
    }
    while i < ds.len()
        invariant
            i <= ds@.len(),
            (string_views(markers@), infos@.map_values(|p: ParameterizedTestNode| param_view(p)))
                == decorator_info(ds@.take(i as int)),
        decreases ds@.len() - i,
    {
        proof {
            let t = ds@.take(i + 1);
            assert(t.drop_last() =~= ds@.take(i as int));
            assert(t.last() == ds@[i as int]);
        }
        let ghost m0 = markers@;
        let ghost p0 = infos@;
        match get_decorator_name(&ds[i]) {
            Some(name) => {
                let nc = chars_of(name.as_str());
                if is_builtin_fixture(name.as_str()) {
                } else if str_eq(name.as_str(), "pytest.mark.parametrize") {
                    match extract_parametrize_info(&ds[i]) {
                        Some(info) => {
                            infos.push(info);
                            assert(infos@.map_values(|p: ParameterizedTestNode| param_view(p))
                                =~= p0.map_values(|p: ParameterizedTestNode| param_view(p)).push(
                                param_view(info),
                            ));
                        },
                        None => {},
                    }
                } else if starts_with_chars(&nc, &chars_of("pytest.mark.")) {
                    let m = strip_mark_prefix(name.as_str());
                    push_copy(&mut markers, &m);
                } else if !starts_with_chars(&nc, &chars_of("pytest.")) {
                    push_copy(&mut markers, &name);
                }
            },
            None => {},
        }
        i = i + 1;
    }
    assert(ds@.take(i as int) =~= ds@);
    (markers, infos)
}

/// The markers of a class's decorators.
pub fn extract_pytest_markers(ds: &Vec<PyExpr>) -> (r: Vec<String>)
    ensures
        string_views(r@) == class_markers_of(ds@),
{
    let mut markers: Vec<String> = Vec::new();
    let mut i: usize = 0;
    while i < ds.len()
        invariant
            i <= ds@.len(),
            string_views(markers@) == class_markers_of(ds@.take(i as int)),
        decreases ds@.len() - i,
    {
        proof {
            let t = ds@.take(i + 1);
            assert(t.drop_last() =~= ds@.take(i as int));
            assert(t.last() == ds@[i as int]);
            reveal_strlit("pytest.mark.");
        }
        match get_decorator_name(&ds[i]) {
            Some(name) => {
                let nc = chars_of(name.as_str());
                if !is_builtin_fixture(name.as_str()) && starts_with_chars(&nc, &chars_of("pytest.mark.")) {
                    let m = strip_mark_prefix(name.as_str());
                    push_copy(&mut markers, &m);
                }
            },
            None => {},
        }
        i = i + 1;
    }
    assert(ds@.take(i as int) =~= ds@);
    markers
}

/// The string of the first keyword `name` whose value is a string constant.
pub open spec fn kwarg_string(kws: Seq<PyKeyword>, name: Seq<char>) -> Option<Seq<char>>
    decreases kws.len(),
{
    if kws.len() == 0 {
        None
    } else {
        let here = if kws[0].arg matches Some(a) && a@ == name {
            match kws[0].value.node {
                PyNode::Constant(PyConst::Str(s)) => Some(s@),
                _ => None,
            }
        } else {
            None
        };
        match here {
            Some(s) => Some(s),
            None => kwarg_string(kws.drop_first(), name),
        }
    }
}

/// The boolean of the first keyword `name` whose value is a boolean constant (false if none).
pub open spec fn kwarg_bool(kws: Seq<PyKeyword>, name: Seq<char>) -> bool
    decreases kws.len(),
{
    if kws.len() == 0 {
        false
    } else {
        let here = if kws[0].arg matches Some(a) && a@ == name {
            match kws[0].value.node {
                PyNode::Constant(PyConst::Bool(b)) => Some(b),
                _ => None,
            }
        } else {
            None
        };
        match here {
            Some(b) => b,
            None => kwarg_bool(kws.drop_first(), name),
        }
    }
}

/// The keywords of a call decorator (none for another decorator).
pub open spec fn call_keywords(d: PyExpr) -> Seq<PyKeyword> {
    match d.node {
        PyNode::Call(_, _, kws) => kws@,
        _ => Seq::empty(),
    }
}

/// The debug form of the first keyword named `condition`.
pub open spec fn condition_keyword(kws: Seq<PyKeyword>) -> Option<Seq<char>>
    decreases kws.len(),
{
    if kws.len() == 0 {
        None
    } else if kws[0].arg matches Some(a) && a@ == "condition"@ {
        Some(kws[0].value.debug@)
    } else {
        condition_keyword(kws.drop_first())
    }
}

/// The condition of a `skipif` or `xfail` call: its first argument, else
/// its `condition=` keyword, in their debug forms.
pub open spec fn condition_of(d: PyExpr) -> Option<Seq<char>> {
    match d.node {
        PyNode::Call(_, args, kws) => if args@.len() > 0 {
            Some(args@[0].debug@)
        } else {
            condition_keyword(kws@)
        },
        _ => None,
    }
}

/// The skip and expected-failure settings of a test.
#[derive(Debug, Clone, Default)]
pub struct SkipXfailInfo {
    pub skip: bool,
    pub skip_reason: Option<String>,
    pub skipif: bool,
    pub skipif_condition: Option<String>,
    pub xfail: bool,
    pub xfail_reason: Option<String>,
    pub xfail_condition: Option<String>,
    pub xfail_strict: bool,
    pub xfail_raises: Option<String>,
}

/// The plain content of skip and expected-failure settings.
pub struct SkipXfailView {
    pub skip: bool,
    pub skip_reason: Option<Seq<char>>,
    pub skipif: bool,
    pub skipif_condition: Option<Seq<char>>,
    pub xfail: bool,
    pub xfail_reason: Option<Seq<char>>,
    pub xfail_condition: Option<Seq<char>>,
    pub xfail_strict: bool,
    pub xfail_raises: Option<Seq<char>>,
}

/// The characters of an optional string.
pub open spec fn ostr(o: Option<String>) -> Option<Seq<char>> {
    match o {
        Some(s) => Some(s@),
        None => None,
    }
}

/// The plain content of `i`.
pub open spec fn skip_view(i: SkipXfailInfo) -> SkipXfailView {
    SkipXfailView {
        skip: i.skip,
        skip_reason: ostr(i.skip_reason),
        skipif: i.skipif,
        skipif_condition: ostr(i.skipif_condition),
        xfail: i.xfail,
        xfail_reason: ostr(i.xfail_reason),
        xfail_condition: ostr(i.xfail_condition),
        xfail_strict: i.xfail_strict,
        xfail_raises: ostr(i.xfail_raises),
    }
}

/// No skip and no expected failure.
pub open spec fn no_skip() -> SkipXfailView {
    SkipXfailView {
        skip: false,
        skip_reason: None,
        skipif: false,
        skipif_condition: None,
        xfail: false,
        xfail_reason: None,
        xfail_condition: None,
        xfail_strict: false,
        xfail_raises: None,
    }
}

/// The skip and expected-failure settings of a test's decorators; a later
/// decorator overrides what an earlier one set.
pub open spec fn skip_info(ds: Seq<PyExpr>) -> SkipXfailView
    decreases ds.len(),
{
    if ds.len() == 0 {
        no_skip()
    } else {
        let i = skip_info(ds.drop_last());
        let d = ds.last();
        let kws = call_keywords(d);
        match decorator_name(d) {
            Some(name) => if name == "pytest.mark.skip"@ || starts_with(name, "pytest.mark.skip("@) {
                SkipXfailView { skip: true, skip_reason: kwarg_string(kws, "reason"@), ..i }
            } else if name == "pytest.mark.skipif"@ || starts_with(name, "pytest.mark.skipif("@) {
                SkipXfailView {
                    skipif: true,
                    skipif_condition: condition_of(d),
                    skip_reason: kwarg_string(kws, "reason"@),
                    ..i
                }
            } else if name == "pytest.mark.xfail"@ || starts_with(name, "pytest.mark.xfail("@) {
                SkipXfailView {
                    xfail: true,
                    xfail_condition: condition_of(d),
                    xfail_reason: kwarg_string(kws, "reason"@),
                    xfail_strict: kwarg_bool(kws, "strict"@),
                    xfail_raises: kwarg_string(kws, "raises"@),
                    ..i
                }
            } else {
                i
            },
            None => i,
        }
    }
}

/// The string of the first keyword `arg` of a call decorator whose value is a string constant.
pub fn extract_kwarg_string(d: &PyExpr, arg: &str) -> (r: Option<String>)
    ensures
        ostr(r) == kwarg_string(call_keywords(*d), arg@),
{
    match &d.node {
        PyNode::Call(_, _, kws) => {
            let mut i: usize = 0;
            while i < kws.len()
                invariant
                    i <= kws@.len(),
                    call_keywords(*d) == kws@,
                    kwarg_string(kws@, arg@) == kwarg_string(kws@.subrange(i as int, kws@.len() as int), arg@),
                decreases kws@.len() - i,
            {
                let ghost rest = kws@.subrange(i as int, kws@.len() as int);
                assert(rest[0] == kws@[i as int]);
                assert(rest.drop_first() =~= kws@.subrange(i + 1, kws@.len() as int));
                let named = match &kws[i].arg {
                    Some(a) => str_eq(a.as_str(), arg),
                    None => false,
                };
                if named {
                    match &kws[i].value.node {
                        PyNode::Constant(PyConst::Str(s)) => {
                            return Some(s.clone());
                        },
                        _ => {},
                    }
                }
                i = i + 1;
            }
            assert(kws@.subrange(i as int, kws@.len() as int) =~= Seq::<PyKeyword>::empty());
            None
        },
        _ => None,
    }
}

/// The boolean of the first keyword `arg` of a call decorator whose value is a boolean constant.
pub fn extract_kwarg_bool(d: &PyExpr, arg: &str) -> (r: bool)
    ensures
        r == kwarg_bool(call_keywords(*d), arg@),
{
    match &d.node {
        PyNode::Call(_, _, kws) => {
            let mut i: usize = 0;
            while i < kws.len()
                invariant
                    i <= kws@.len(),
                    call_keywords(*d) == kws@,
                    kwarg_bool(kws@, arg@) == kwarg_bool(kws@.subrange(i as int, kws@.len() as int), arg@),
                decreases kws@.len() - i,
            {
                let ghost rest = kws@.subrange(i as int, kws@.len() as int);
                assert(rest[0] == kws@[i as int]);
                assert(rest.drop_first() =~= kws@.subrange(i + 1, kws@.len() as int));
                let named = match &kws[i].arg {
                    Some(a) => str_eq(a.as_str(), arg),
                    None => false,
                };
                if named {
                    match &kws[i].value.node {
                        PyNode::Constant(PyConst::Bool(b)) => {
                            return *b;
                        },
                        _ => {},
                    }
                }
                i = i + 1;
            }
            assert(kws@.subrange(i as int, kws@.len() as int) =~= Seq::<PyKeyword>::empty());
            false
        },
        _ => false,
    }
}

/// The condition of a `skipif` or `xfail` call decorator.
pub fn extract_condition(d: &PyExpr) -> (r: Option<String>)
    ensures
        ostr(r) == condition_of(*d),
{
    match &d.node {
        PyNode::Call(_, args, kws) => {
            if args.len() > 0 {
                return Some(args[0].debug.clone());
            }
            let mut i: usize = 0;
            while i < kws.len()
                invariant
                    i <= kws@.len(),
                    condition_of(*d) == condition_keyword(kws@),
                    condition_keyword(kws@) == condition_keyword(kws@.subrange(i as int, kws@.len() as int)),
                decreases kws@.len() - i,
            {
                let ghost rest = kws@.subrange(i as int, kws@.len() as int);
                assert(rest[0] == kws@[i as int]);
                assert(rest.drop_first() =~= kws@.subrange(i + 1, kws@.len() as int));
                let named = match &kws[i].arg {
                    Some(a) => str_eq(a.as_str(), "condition"),
                    None => false,
                };
                if named {
                    return Some(kws[i].value.debug.clone());
                }
                i = i + 1;
            }
            assert(kws@.subrange(i as int, kws@.len() as int) =~= Seq::<PyKeyword>::empty());
            None
        },
        _ => None,
    }
}

/// The skip and expected-failure settings of a test's decorators.
pub fn extract_skip_xfail_info(ds: &Vec<PyExpr>) -> (r: SkipXfailInfo)
    ensures
        skip_view(r) == skip_info(ds@),
{
    let mut info = SkipXfailInfo {
        skip: false,
        skip_reason: None,
        skipif: false,
        skipif_condition: None,
        xfail: false,
        xfail_reason: None,
        xfail_condition: None,
        xfail_strict: false,
        xfail_raises: None,
    };
    let mut i: usize = 0;
    while i < ds.len()
        invariant
            i <= ds@.len(),
            skip_view(info) == skip_info(ds@.take(i as int)),
        decreases ds@.len() - i,
    {
        proof {
            let t = ds@.take(i + 1);
            assert(t.drop_last() =~= ds@.take(i as int));
            assert(t.last() == ds@[i as int]);
        }
        let d = &ds[i];
        match get_decorator_name(d) {
            Some(name) => {
                let nc = chars_of(name.as_str());
                if str_eq(name.as_str(), "pytest.mark.skip") || starts_with_chars(&nc, &chars_of("pytest.mark.skip(")) {
                    info.skip = true;
                    info.skip_reason = extract_kwarg_string(d, "reason");
                } else if str_eq(name.as_str(), "pytest.mark.skipif") || starts_with_chars(
                    &nc,
                    &chars_of("pytest.mark.skipif("),
                ) {
                    info.skipif = true;
                    info.skipif_condition = extract_condition(d);
                    info.skip_reason = extract_kwarg_string(d, "reason");
                } else if str_eq(name.as_str(), "pytest.mark.xfail") || starts_with_chars(
                    &nc,
                    &chars_of("pytest.mark.xfail("),
                ) {
                    info.xfail = true;
                    info.xfail_condition = extract_condition(d);
                    info.xfail_reason = extract_kwarg_string(d, "reason");
                    info.xfail_strict = extract_kwarg_bool(d, "strict");
                    info.xfail_raises = extract_kwarg_string(d, "raises");
                }
            },
            None => {},
        }
        i = i + 1;
    }
    assert(ds@.take(i as int) =~= ds@);
    info
}

// ---------------------------------------------------------------------------
// Test nodes
// ---------------------------------------------------------------------------

/// The parameters of one variant: names, values and test id.
#[derive(Debug, Clone)]
pub struct ParamRecord {
    pub names: Vec<String>,
    pub values: Vec<String>,
    pub id: String,
}

/// A test found by native collection.
#[derive(Debug, Clone)]
pub struct NativeTestNode {
    pub node_id: String,
    pub file_path: String,
    pub name: String,
    pub class_name: Option<String>,
    pub line_number: u32,
    pub markers: Vec<String>,
    pub is_simple: bool,
    pub parameters: Vec<ParamRecord>,
    pub skip: bool,
    pub skip_reason: Option<String>,
    pub xfail: bool,
    pub xfail_reason: Option<String>,
    pub xfail_strict: bool,
}

/// The plain content of a variant's parameters.
pub struct ParamRecordView {
    pub names: Seq<Seq<char>>,
    pub values: Seq<Seq<char>>,
    pub id: Seq<char>,
}

/// The plain content of a collected test.
pub struct NativeView {
    pub node_id: Seq<char>,
    pub file_path: Seq<char>,
    pub name: Seq<char>,
    pub class_name: Option<Seq<char>>,
    pub line_number: u32,
    pub markers: Seq<Seq<char>>,
    pub is_simple: bool,
    pub parameters: Seq<ParamRecordView>,
    pub skip: bool,
    pub skip_reason: Option<Seq<char>>,
    pub xfail: bool,
    pub xfail_reason: Option<Seq<char>>,
    pub xfail_strict: bool,
}

/// The plain content of `p`.
pub open spec fn record_view(p: ParamRecord) -> ParamRecordView {
    ParamRecordView { names: string_views(p.names@), values: string_views(p.values@), id: p.id@ }
}

/// The plain content of `n`.
pub open spec fn native_view(n: NativeTestNode) -> NativeView {
    NativeView {
        node_id: n.node_id@,
        file_path: n.file_path@,
        name: n.name@,
        class_name: ostr(n.class_name),
        line_number: n.line_number,
        markers: string_views(n.markers@),
        is_simple: n.is_simple,
        parameters: n.parameters@.map_values(|p: ParamRecord| record_view(p)),
        skip: n.skip,
        skip_reason: ostr(n.skip_reason),
        xfail: n.xfail,
        xfail_reason: ostr(n.xfail_reason),
        xfail_strict: n.xfail_strict,
    }
}

/// The plain contents of nodes.
pub open spec fn native_views(s: Seq<NativeTestNode>) -> Seq<NativeView> {
    s.map_values(|n: NativeTestNode| native_view(n))
}

/// The id of a test function: `file::function`, or `file::Class::function`.
pub open spec fn base_id(file: Seq<char>, class: Seq<char>, func: Seq<char>) -> Seq<char> {
    if class.len() == 0 {
        file + "::"@ + func
    } else {
        file + "::"@ + class + "::"@ + func
    }
}

/// `markers` with `skip` added for a skipped test and `xfail` for an expected failure.
pub open spec fn with_flags(markers: Seq<Seq<char>>, s: SkipXfailView) -> Seq<Seq<char>> {
    let m1 = if s.skip || s.skipif {
        markers.push("skip"@)
    } else {
        markers
    };
    if s.xfail {
        m1.push("xfail"@)
    } else {
        m1
    }
}

/// A collected test of a function.
pub open spec fn test_node_spec(
    id: Seq<char>,
    func: Seq<char>,
    class: Seq<char>,
    file: Seq<char>,
    line: u32,
    markers: Seq<Seq<char>>,
    uses_external: bool,
    s: SkipXfailView,
    params: Seq<ParamRecordView>,
) -> NativeView {
    NativeView {
        node_id: id,
        file_path: file,
        name: func,
        class_name: if class.len() == 0 {
            None
        } else {
            Some(class)
        },
        line_number: line,
        markers: with_flags(markers, s),
        is_simple: !uses_external,
        parameters: params,
        skip: s.skip || s.skipif,
        skip_reason: match s.skip_reason {
            Some(r) => Some(r),
            None => s.skipif_condition,
        },
        xfail: s.xfail,
        xfail_reason: s.xfail_reason,
        xfail_strict: s.xfail_strict,
    }
}

/// `file::function` or `file::Class::function`.
fn base_id_exec(file: &str, class: &str, func: &str) -> (r: String)
    ensures
        r@ == base_id(file@, class@, func@),
{
    let mut id = String::from_str(file);
    push_str_chars(&mut id, "::");
    if !class.is_empty() {
        push_str_chars(&mut id, class);
        push_str_chars(&mut id, "::");
    }
    push_str_chars(&mut id, func);
    id
}

/// A copy of `markers` with the skip and expected-failure flags added.
fn flagged_markers(markers: &Vec<String>, s: &SkipXfailInfo) -> (r: Vec<String>)
    ensures
        string_views(r@) == with_flags(string_views(markers@), skip_view(*s)),
{
    let mut m = copy_strings(markers);
    if s.skip || s.skipif {
        let ghost m0 = m@;
        m.push(String::from_str("skip"));
        assert(string_views(m@) =~= string_views(m0).push("skip"@));
    }
    if s.xfail {
        let ghost m0 = m@;
        m.push(String::from_str("xfail"));
        assert(string_views(m@) =~= string_views(m0).push("xfail"@));
    }
    m
}

/// The collected test of a function: built from its place, markers and settings.
fn make_node(
    id: String,
    fn_name: &str,
    class_name: &str,
    file_path: &str,
    line_number: u32,
    markers: &Vec<String>,
    uses_external: bool,
    s: &SkipXfailInfo,
    params: Vec<ParamRecord>,
) -> (r: NativeTestNode)
    ensures
        native_view(r) == test_node_spec(
            id@,
            fn_name@,
            class_name@,
            file_path@,
            line_number,
            string_views(markers@),
            uses_external,
            skip_view(*s),
            params@.map_values(|p: ParamRecord| record_view(p)),
        ),
{
    let skip_reason = match &s.skip_reason {
        Some(r) => Some(r.clone()),
        None => copy_opt_string(&s.skipif_condition),
    };
    NativeTestNode {
        node_id: id,
        file_path: String::from_str(file_path),
        name: String::from_str(fn_name),
        class_name: if class_name.is_empty() {
            None
        } else {
            Some(String::from_str(class_name))
        },
        line_number,
        markers: flagged_markers(markers, s),
        is_simple: !uses_external,
        parameters: params,
        skip: s.skip || s.skipif,
        skip_reason,
        xfail: s.xfail,
        xfail_reason: copy_opt_string(&s.xfail_reason),
        xfail_strict: s.xfail_strict,
    }
}

/// Add the test of an unparametrized function.
pub fn create_test_node(
    fn_name: &str,
    class_name: &str,
    file_path: &str,
    line_number: u32,
    markers: &Vec<String>,
    uses_external: bool,
    s: &SkipXfailInfo,
    tests: &mut Vec<NativeTestNode>,
)
    ensures
        native_views(final(tests)@) == native_views(old(tests)@).push(
            test_node_spec(
                base_id(file_path@, class_name@, fn_name@),
                fn_name@,
                class_name@,
                file_path@,
                line_number,
                string_views(markers@),
                uses_external,
                skip_view(*s),
                Seq::empty(),
            ),
        ),
{
    let id = base_id_exec(file_path, class_name, fn_name);
    let params: Vec<ParamRecord> = Vec::new();
    let n = make_node(id, fn_name, class_name, file_path, line_number, markers, uses_external, s, params);
    assert(params@.map_values(|p: ParamRecord| record_view(p)) =~= Seq::<ParamRecordView>::empty());
    let ghost t0 = tests@;
    tests.push(n);
    assert(native_views(tests@) =~= native_views(t0).push(native_view(n)));
}

/// The ids of a parametrization's variants can be made: those without a
/// custom id have values whose id text can be made.
pub open spec fn variants_defined(vs: Seq<VariantSpec>) -> bool {
    forall|i: int| 0 <= i < vs.len() ==> (#[trigger] vs[i]).1 is None ==> texts_defined(vs[i].0)
}

/// The id of the variant at `idx`: its custom id, else one made from its values.
pub open spec fn variant_id(v: VariantSpec, idx: nat) -> Seq<char> {
    match v.1 {
        Some(id) => id,
        None => pytest_id(v.0, idx),
    }
}

/// The tests of one parametrization's variants, from the `k`-th on.
pub open spec fn variant_nodes(
    func: Seq<char>,
    class: Seq<char>,
    file: Seq<char>,
    line: u32,
    markers: Seq<Seq<char>>,
    uses_external: bool,
    s: SkipXfailView,
    names: Seq<Seq<char>>,
    vs: Seq<VariantSpec>,
) -> Seq<NativeView> {
    Seq::new(
        vs.len(),
        |i: int|
            {
                let id = variant_id(vs[i], i as nat);
                test_node_spec(
                    base_id(file, class, func) + "["@ + id + "]"@,
                    func,
                    class,
                    file,
                    line,
                    markers + vs[i].2,
                    uses_external,
                    s,
                    seq![ParamRecordView { names: names, values: vs[i].0, id: id }],
                )
            },
    )
}

/// Whether every variant's id can be made.
pub fn variants_fit(info: &ParameterizedTestNode) -> (r: bool)
    ensures
        r == variants_defined(variant_views(info.param_values@)),
{
    let ghost vs = variant_views(info.param_values@);
    let mut i: usize = 0;
    while i < info.param_values.len()
        invariant
            vs == variant_views(info.param_values@),
            i <= info.param_values@.len(),
            forall|k: int| 0 <= k < i ==> (#[trigger] vs[k]).1 is None ==> texts_defined(vs[k].0),
        decreases info.param_values@.len() - i,
    {
        let v = &info.param_values[i];
        assert(vs[i as int] == variant_view(*v));
        if v.1.is_none() && !texts_fit(&v.0) {
            return false;
        }
        i = i + 1;
    }
    true
}

/// Add one test per variant of a parametrization: its id is the variant's
/// custom id or one made from its values, and its markers add the variant's marks.
pub fn expand_parametrized_tests(
    fn_name: &str,
    class_name: &str,
    file_path: &str,
    line_number: u32,
    base_markers: &Vec<String>,
    uses_external: bool,
    s: &SkipXfailInfo,
    info: &ParameterizedTestNode,
    tests: &mut Vec<NativeTestNode>,
)
    requires
        variants_defined(variant_views(info.param_values@)),
    ensures
        native_views(final(tests)@) == native_views(old(tests)@) + variant_nodes(
            fn_name@,
            class_name@,
            file_path@,
            line_number,
            string_views(base_markers@),
            uses_external,
            skip_view(*s),
            string_views(info.param_names@),
            variant_views(info.param_values@),
        ),
{
    let ghost vs = variant_views(info.param_values@);
    let ghost all = variant_nodes(
        fn_name@,
        class_name@,
        file_path@,
        line_number,
        string_views(base_markers@),
        uses_external,
        skip_view(*s),
        string_views(info.param_names@),
        vs,
    );
    let base = base_id_exec(file_path, class_name, fn_name);
    let mut idx: usize = 0;
    while idx < info.param_values.len()
        invariant
            vs == variant_views(info.param_values@),
            variants_defined(vs),
            all.len() == vs.len(),
            all == variant_nodes(
                fn_name@,
                class_name@,
                file_path@,
                line_number,
                string_views(base_markers@),
                uses_external,
                skip_view(*s),
                string_views(info.param_names@),
                vs,
            ),
            base@ == base_id(file_path@, class_name@, fn_name@),
            idx <= info.param_values@.len(),
            native_views(tests@) == native_views(old(tests)@) + all.take(idx as int),
        decreases info.param_values@.len() - idx,
    {
        let v = &info.param_values[idx];
        assert(vs[idx as int] == variant_view(*v));
        let test_id = match &v.1 {
            Some(id) => id.clone(),
            None => generate_pytest_id(&v.0, idx),
        };
        let mut node_id = base.clone();
        push_str_chars(&mut node_id, "[");
        push_str_chars(&mut node_id, test_id.as_str());
        push_str_chars(&mut node_id, "]");
        let mut markers = copy_strings(base_markers);
        extend_copies(&mut markers, &v.2);
        let record = ParamRecord {
            names: copy_strings(&info.param_names),
            values: copy_strings(&v.0),
            id: test_id,
        };
        let mut params: Vec<ParamRecord> = Vec::new();
        params.push(record);
        let n = make_node(node_id, fn_name, class_name, file_path, line_number, &markers, uses_external, s, params);
        assert(params@.map_values(|p: ParamRecord| record_view(p)) =~= seq![record_view(record)]);
        assert(native_view(n) == all[idx as int]);
        let ghost t0 = tests@;
        tests.push(n);
        assert(native_views(tests@) =~= native_views(t0).push(native_view(n)));
        assert(all.take(idx + 1) =~= all.take(idx as int).push(all[idx as int]));
        idx = idx + 1;
    }
    assert(all.take(idx as int) =~= all);
}

// ---------------------------------------------------------------------------
// Stacked parametrizations
// ---------------------------------------------------------------------------

/// One parametrization's part of a combination: names, values, custom id, marks.
pub type Combo = (Vec<String>, Vec<String>, Option<String>, Vec<String>);

/// The plain content of a combination part.
pub type ComboSpec = (Seq<Seq<char>>, Seq<Seq<char>>, Option<Seq<char>>, Seq<Seq<char>>);

/// The plain content of `c`.
pub open spec fn combo_view(c: Combo) -> ComboSpec {
    (string_views(c.0@), string_views(c.1@), ostr(c.2), string_views(c.3@))
}

/// The plain content of one combination.
pub open spec fn combination_view(c: Seq<Combo>) -> Seq<ComboSpec> {
    c.map_values(|x: Combo| combo_view(x))
}

/// The plain content of combinations.
pub open spec fn combinations_view(cs: Seq<Vec<Combo>>) -> Seq<Seq<ComboSpec>> {
    cs.map_values(|c: Vec<Combo>| combination_view(c@))
}

/// The part a variant of a parametrization with `names` adds.
pub open spec fn part_of(names: Seq<Seq<char>>, v: VariantSpec) -> ComboSpec {
    (names, v.0, v.1, v.2)
}

/// Each variant of `vs`, in order, put before each of `rest`.
pub open spec fn with_each(names: Seq<Seq<char>>, vs: Seq<VariantSpec>, rest: Seq<Seq<ComboSpec>>) -> Seq<Seq<ComboSpec>>
    decreases vs.len(),
{
    if vs.len() == 0 {
        Seq::empty()
    } else {
        with_each(names, vs.drop_last(), rest) + rest.map_values(
            |c: Seq<ComboSpec>| seq![part_of(names, vs.last())] + c,
        )
    }
}

/// The combinations of the parametrizations from the `i`-th on: the first
/// one varies slowest.
pub open spec fn combos_from(infos: Seq<ParamSpec>, i: int) -> Seq<Seq<ComboSpec>>
    decreases infos.len() - i,
{
    if i >= infos.len() || i < 0 {
        seq![Seq::empty()]
    } else {
        with_each(infos[i].0, infos[i].1, combos_from(infos, i + 1))
    }
}

/// Every combination of one variant of each parametrization (none without
/// parametrizations).
pub open spec fn cartesian(infos: Seq<ParamSpec>) -> Seq<Seq<ComboSpec>> {
    if infos.len() == 0 {
        Seq::empty()
    } else if infos.len() == 1 {
        infos[0].1.map_values(|v: VariantSpec| seq![part_of(infos[0].0, v)])
    } else {
        combos_from(infos, 0)
    }
}

/// The number of variants of the parametrizations from the `i`-th on,
/// multiplied together.
pub open spec fn variant_product(infos: Seq<ParamSpec>, i: int) -> nat
    decreases infos.len() - i,
{
    if i >= infos.len() || i < 0 {
        1
    } else {
        infos[i].1.len() * variant_product(infos, i + 1)
    }
}

/// Putting each of `vs` before each of `rest` gives `vs.len() * rest.len()`
/// combinations, each one part longer than the one it extends.
proof fn lemma_with_each_size(names: Seq<Seq<char>>, vs: Seq<VariantSpec>, rest: Seq<Seq<ComboSpec>>, n: nat)
    requires
        forall|k: int| 0 <= k < rest.len() ==> (#[trigger] rest[k]).len() == n,
    ensures
        with_each(names, vs, rest).len() == vs.len() * rest.len(),
        forall|k: int|
            0 <= k < with_each(names, vs, rest).len() ==> (#[trigger] with_each(names, vs, rest)[k]).len()
                == n + 1,
    decreases vs.len(),
{
    if vs.len() > 0 {
        lemma_with_each_size(names, vs.drop_last(), rest, n);
        let a = with_each(names, vs.drop_last(), rest);
        let b = rest.map_values(|c: Seq<ComboSpec>| seq![part_of(names, vs.last())] + c);
        assert(with_each(names, vs, rest) == a + b);
        assert((vs.len() - 1) * rest.len() + rest.len() == vs.len() * rest.len()) by (nonlinear_arith);
        assert forall|k: int| 0 <= k < (a + b).len() implies #[trigger] (a + b)[k].len() == n + 1 by {
            if k >= a.len() {
                assert((a + b)[k] == b[k - a.len()]);
                assert(rest[k - a.len()].len() == n);
            } else {
                assert((a + b)[k] == a[k]);
            }
        }
    }
}

/// The combinations from the `i`-th parametrization on: one per choice of a
/// variant of each, each with one part per parametrization.
proof fn lemma_combos_from_size(infos: Seq<ParamSpec>, i: int)
    requires
        0 <= i <= infos.len(),
    ensures
        combos_from(infos, i).len() == variant_product(infos, i),
        forall|k: int|
            0 <= k < combos_from(infos, i).len() ==> (#[trigger] combos_from(infos, i)[k]).len()
                == infos.len() - i,
    decreases infos.len() - i,
{
    if i < infos.len() {
        lemma_combos_from_size(infos, i + 1);
        lemma_with_each_size(infos[i].0, infos[i].1, combos_from(infos, i + 1), (infos.len() - i - 1) as nat);
    } else {
        assert(combos_from(infos, i) == seq![Seq::<ComboSpec>::empty()]);
    }
}

/// Stacked parametrizations make their cartesian product: as many
/// combinations as the numbers of variants multiplied together, each with
/// one part per parametrization.
pub proof fn lemma_cartesian_size(infos: Seq<ParamSpec>)
    requires
        infos.len() > 0,
    ensures
        cartesian(infos).len() == variant_product(infos, 0),
        forall|k: int| 0 <= k < cartesian(infos).len() ==> (#[trigger] cartesian(infos)[k]).len() == infos.len(),
{
    if infos.len() == 1 {
        assert(variant_product(infos, 1) == 1);
        assert(variant_product(infos, 0) == infos[0].1.len() * 1);
    } else {
        lemma_combos_from_size(infos, 0);
    }
}

/// A copy of a combination part.
fn copy_combo(c: &Combo) -> (r: Combo)
    ensures
        combo_view(r) == combo_view(*c),
{
    (copy_strings(&c.0), copy_strings(&c.1), copy_opt_string(&c.2), copy_strings(&c.3))
}

/// The part a variant adds.
fn part_exec(names: &Vec<String>, v: &Variant) -> (r: Combo)
    ensures
        combo_view(r) == part_of(string_views(names@), variant_view(*v)),
{
    (copy_strings(names), copy_strings(&v.0), copy_opt_string(&v.1), copy_strings(&v.2))
}

/// The plain contents of parametrizations.
pub open spec fn param_views(infos: Seq<ParameterizedTestNode>) -> Seq<ParamSpec> {
    infos.map_values(|p: ParameterizedTestNode| param_view(p))
}

/// The combinations of the parametrizations from `index` on.
pub fn compute_cartesian_recursive(infos: &Vec<ParameterizedTestNode>, index: usize) -> (r: Vec<Vec<Combo>>)
    ensures
        combinations_view(r@) == combos_from(param_views(infos@), index as int),
    decreases infos@.len() - index,
{
    let ghost ps = param_views(infos@);
    if index >= infos.len() {
        let mut r: Vec<Vec<Combo>> = Vec::new();
        r.push(Vec::new());
        assert(combination_view(r@[0]@) =~= Seq::<ComboSpec>::empty());
        assert(combinations_view(r@) =~= seq![Seq::<ComboSpec>::empty()]);
        return r;
    }
    let remaining = compute_cartesian_recursive(infos, index + 1);
    let ghost rest = combinations_view(remaining@);
    let info = &infos[index];
    let ghost names = string_views(info.param_names@);
    let ghost vs = variant_views(info.param_values@);
    assert(ps[index as int] == (names, vs));
    let mut result: Vec<Vec<Combo>> = Vec::new();
    let mut j: usize = 0;
    while j < info.param_values.len()
        invariant
            j <= info.param_values@.len(),
            vs == variant_views(info.param_values@),
            names == string_views(info.param_names@),
            rest == combinations_view(remaining@),
            combinations_view(result@) == with_each(names, vs.take(j as int), rest),
        decreases info.param_values@.len() - j,
    {
        let v = &info.param_values[j];
        assert(vs[j as int] == variant_view(*v));
        let ghost before = combinations_view(result@);
        let mut k: usize = 0;
        while k < remaining.len()
            invariant
                j < info.param_values@.len(),
                vs == variant_views(info.param_values@),
                names == string_views(info.param_names@),
                rest == combinations_view(remaining@),
                k <= remaining@.len(),
                vs[j as int] == variant_view(*v),
                combinations_view(result@) == before + rest.take(k as int).map_values(
                    |c: Seq<ComboSpec>| seq![part_of(names, vs[j as int])] + c,
                ),
            decreases remaining@.len() - k,
        {
            let mut combo: Vec<Combo> = Vec::new();
            combo.push(part_exec(&info.param_names, v));
            let src = &remaining[k];
            let mut m: usize = 0;
            while m < src.len()
                invariant
                    m <= src@.len(),
                    combo@.len() == m + 1,
                    combo_view(combo@[0]) == part_of(names, vs[j as int]),
                    forall|q: int| 0 <= q < m ==> combo_view(#[trigger] combo@[q + 1]) == combo_view(src@[q]),
                decreases src@.len() - m,
            {
                combo.push(copy_combo(&src[m]));
                m = m + 1;
            }
            assert(rest[k as int] == combination_view(src@));
            assert forall|q: int| 0 <= q < combo@.len() implies #[trigger] combination_view(combo@)[q]
                == (seq![part_of(names, vs[j as int])] + combination_view(src@))[q] by {
                if q > 0 {
                    assert(combo_view(combo@[(q - 1) + 1]) == combo_view(src@[q - 1]));
                }
            }
            assert(combination_view(combo@) =~= seq![part_of(names, vs[j as int])] + combination_view(src@));
            let ghost r0 = combinations_view(result@);
            result.push(combo);
            assert(combinations_view(result@) =~= r0.push(combination_view(combo@)));
            assert(rest.take(k + 1).map_values(|c: Seq<ComboSpec>| seq![part_of(names, vs[j as int])] + c)
                =~= rest.take(k as int).map_values(|c: Seq<ComboSpec>| seq![part_of(names, vs[j as int])] + c).push(
                seq![part_of(names, vs[j as int])] + rest[k as int],
            ));
            k = k + 1;
        }
        proof {
            assert(rest.take(k as int) =~= rest);
            let t = vs.take(j + 1);
            assert(t.drop_last() =~= vs.take(j as int));
            assert(t.last() == vs[j as int]);
        }
        j = j + 1;
    }
    assert(vs.take(j as int) =~= vs);
    result
}

/// Every combination of one variant of each parametrization.
pub fn generate_cartesian_product(infos: &Vec<ParameterizedTestNode>) -> (r: Vec<Vec<Combo>>)
    ensures
        combinations_view(r@) == cartesian(param_views(infos@)),
{
    let ghost ps = param_views(infos@);
    if infos.len() == 0 {
        let r: Vec<Vec<Combo>> = Vec::new();
        assert(combinations_view(r@) =~= Seq::<Seq<ComboSpec>>::empty());
        return r;
    }
    if infos.len() == 1 {
        let info = &infos[0];
        let ghost names = string_views(info.param_names@);
        let ghost vs = variant_views(info.param_values@);
        assert(ps[0] == (names, vs));
        let mut r: Vec<Vec<Combo>> = Vec::new();
        let mut j: usize = 0;
        while j < info.param_values.len()
            invariant
                j <= info.param_values@.len(),
                vs == variant_views(info.param_values@),
                names == string_views(info.param_names@),
                combinations_view(r@) == vs.take(j as int).map_values(
                    |v: VariantSpec| seq![part_of(names, v)],
                ),
            decreases info.param_values@.len() - j,
        {
            let v = &info.param_values[j];
            assert(vs[j as int] == variant_view(*v));
            let mut combo: Vec<Combo> = Vec::new();
            combo.push(part_exec(&info.param_names, v));
            assert(combination_view(combo@) =~= seq![part_of(names, vs[j as int])]);
            let ghost r0 = combinations_view(r@);
            r.push(combo);
            assert(combinations_view(r@) =~= r0.push(combination_view(combo@)));
            assert(vs.take(j + 1).map_values(|v: VariantSpec| seq![part_of(names, v)]) =~= vs.take(
                j as int,
            ).map_values(|v: VariantSpec| seq![part_of(names, v)]).push(seq![part_of(names, vs[j as int])]));
            j = j + 1;
        }
        assert(vs.take(j as int) =~= vs);
        return r;
    }
    compute_cartesian_recursive(infos, 0)
}

/// The names of a combination, one part after the other.
pub open spec fn flat_names(c: Seq<ComboSpec>) -> Seq<Seq<char>>
    decreases c.len(),
{
    if c.len() == 0 {
        Seq::empty()
    } else {
        flat_names(c.drop_last()) + c.last().0
    }
}

/// The values of a combination, one part after the other.
pub open spec fn flat_values(c: Seq<ComboSpec>) -> Seq<Seq<char>>
    decreases c.len(),
{
    if c.len() == 0 {
        Seq::empty()
    } else {
        flat_values(c.drop_last()) + c.last().1
    }
}

/// The marks of a combination, one part after the other.
pub open spec fn flat_marks(c: Seq<ComboSpec>) -> Seq<Seq<char>>
    decreases c.len(),
{
    if c.len() == 0 {
        Seq::empty()
    } else {
        flat_marks(c.drop_last()) + c.last().3
    }
}

/// The id of every combination can be made from its values.
pub open spec fn combos_defined(cs: Seq<Seq<ComboSpec>>) -> bool {
    forall|i: int| 0 <= i < cs.len() ==> texts_defined(flat_values(#[trigger] cs[i]))
}

/// The tests of stacked parametrizations: one per combination, with an id
/// made from all its values (custom ids are not used) and all its marks.
pub open spec fn combo_nodes(
    func: Seq<char>,
    class: Seq<char>,
    file: Seq<char>,
    line: u32,
    markers: Seq<Seq<char>>,
    uses_external: bool,
    s: SkipXfailView,
    cs: Seq<Seq<ComboSpec>>,
) -> Seq<NativeView> {
    Seq::new(
        cs.len(),
        |i: int|
            {
                let id = pytest_id(flat_values(cs[i]), i as nat);
                test_node_spec(
                    base_id(file, class, func) + "["@ + id + "]"@,
                    func,
                    class,
                    file,
                    line,
                    markers + flat_marks(cs[i]),
                    uses_external,
                    s,
                    seq![ParamRecordView { names: flat_names(cs[i]), values: flat_values(cs[i]), id: id }],
                )
            },
    )
}

/// The names, values and marks of a combination, flattened.
fn flatten_combo(c: &Vec<Combo>) -> (r: (Vec<String>, Vec<String>, Vec<String>))
    ensures
        string_views(r.0@) == flat_names(combination_view(c@)),
        string_views(r.1@) == flat_values(combination_view(c@)),
        string_views(r.2@) == flat_marks(combination_view(c@)),
{
    let ghost cv = combination_view(c@);
    let mut names: Vec<String> = Vec::new();
    let mut values: Vec<String> = Vec::new();
    let mut marks: Vec<String> = Vec::new();
    let mut i: usize = 0;
    while i < c.len()
        invariant
            cv == combination_view(c@),
            i <= c@.len(),
            string_views(names@) == flat_names(cv.take(i as int)),
            string_views(values@) == flat_values(cv.take(i as int)),
            string_views(marks@) == flat_marks(cv.take(i as int)),
        decreases c@.len() - i,
    {
        proof {
            let t = cv.take(i + 1);
            assert(t.drop_last() =~= cv.take(i as int));
            assert(t.last() == combo_view(c@[i as int]));
        }
        extend_copies(&mut names, &c[i].0);
        extend_copies(&mut values, &c[i].1);
        extend_copies(&mut marks, &c[i].3);
        i = i + 1;
    }
    assert(cv.take(i as int) =~= cv);
    (names, values, marks)
}

/// Whether the id of every combination can be made.
pub fn combos_fit(infos: &Vec<ParameterizedTestNode>) -> (r: bool)
    ensures
        r == combos_defined(cartesian(param_views(infos@))),
{
    let combos = generate_cartesian_product(infos);
    let ghost cs = combinations_view(combos@);
    let mut i: usize = 0;
    while i < combos.len()
        invariant
            cs == combinations_view(combos@),
            cs == cartesian(param_views(infos@)),
            i <= combos@.len(),
            forall|k: int| 0 <= k < i ==> texts_defined(flat_values(#[trigger] cs[k])),
        decreases combos@.len() - i,
    {
        let (_n, values, _m) = flatten_combo(&combos[i]);
        assert(cs[i as int] == combination_view(combos@[i as int]@));
        if !texts_fit(&values) {
            return false;
        }
        i = i + 1;
    }
    true
}

/// Add one test per combination of stacked parametrizations.
pub fn expand_stacked_parametrized_tests(
    fn_name: &str,
    class_name: &str,
    file_path: &str,
    line_number: u32,
    base_markers: &Vec<String>,
    uses_external: bool,
    s: &SkipXfailInfo,
    infos: &Vec<ParameterizedTestNode>,
    tests: &mut Vec<NativeTestNode>,
)
    requires
        combos_defined(cartesian(param_views(infos@))),
    ensures
        native_views(final(tests)@) == native_views(old(tests)@) + combo_nodes(
            fn_name@,
            class_name@,
            file_path@,
            line_number,
            string_views(base_markers@),
            uses_external,
            skip_view(*s),
            cartesian(param_views(infos@)),
        ),
{
    let combos = generate_cartesian_product(infos);
    let ghost cs = combinations_view(combos@);
    let ghost all = combo_nodes(
        fn_name@,
        class_name@,
        file_path@,
        line_number,
        string_views(base_markers@),
        uses_external,
        skip_view(*s),
        cs,
    );
    let base = base_id_exec(file_path, class_name, fn_name);
    let mut idx: usize = 0;
    while idx < combos.len()
        invariant
            cs == combinations_view(combos@),
            combos_defined(cs),
            all.len() == cs.len(),
            all == combo_nodes(
                fn_name@,
                class_name@,
                file_path@,
                line_number,
                string_views(base_markers@),
                uses_external,
                skip_view(*s),
                cs,
            ),
            base@ == base_id(file_path@, class_name@, fn_name@),
            idx <= combos@.len(),
            native_views(tests@) == native_views(old(tests)@) + all.take(idx as int),
        decreases combos@.len() - idx,
    {
        let (names, values, marks) = flatten_combo(&combos[idx]);
        assert(cs[idx as int] == combination_view(combos@[idx as int]@));
        let test_id = generate_pytest_id(&values, idx);
        let mut node_id = base.clone();
        push_str_chars(&mut node_id, "[");
        push_str_chars(&mut node_id, test_id.as_str());
        push_str_chars(&mut node_id, "]");
        let mut markers = copy_strings(base_markers);
        extend_copies(&mut markers, &marks);
        let record = ParamRecord { names, values, id: test_id };
        let mut params: Vec<ParamRecord> = Vec::new();
        params.push(record);
        let n = make_node(node_id, fn_name, class_name, file_path, line_number, &markers, uses_external, s, params);
        assert(params@.map_values(|p: ParamRecord| record_view(p)) =~= seq![record_view(record)]);
        assert(native_view(n) == all[idx as int]);
        let ghost t0 = tests@;
        tests.push(n);
        assert(native_views(tests@) =~= native_views(t0).push(native_view(n)));
        assert(all.take(idx + 1) =~= all.take(idx as int).push(all[idx as int]));
        idx = idx + 1;
    }
    assert(all.take(idx as int) =~= all);
}

// ---------------------------------------------------------------------------
// Statements: the tests of a module
// ---------------------------------------------------------------------------

/// A function definition: its name, decorators, positional parameter names
/// and whether it is `async`.
#[derive(Debug)]
pub struct PyFunction {
    pub name: String,
    pub decorators: Vec<PyExpr>,
    pub arg_names: Vec<String>,
    pub is_async: bool,
}

/// A class definition: its name, decorators and body.
#[derive(Debug)]
pub struct PyClass {
    pub name: String,
    pub decorators: Vec<PyExpr>,
    pub body: Vec<PyStmt>,
}

/// The statements collection distinguishes.
#[derive(Debug)]
pub enum PyStmt {
    Function(PyFunction),
    Class(PyClass),
    Other,
}

/// A test function's name starts with `test_` or `Test`.
pub open spec fn is_test_name(n: Seq<char>) -> bool {
    starts_with(n, "test_"@) || starts_with(n, "Test"@)
}

/// The parameters of a function that name known fixtures, in order.
pub open spec fn used_fixtures(args: Seq<Seq<char>>, fixtures: Seq<Seq<char>>) -> Seq<Seq<char>> {
    args.filter(|a: Seq<char>| fixtures.contains(a))
}

/// The marker recording the use of a fixture.
pub open spec fn uses_marker(f: Seq<char>) -> Seq<char> {
    "uses_fixture:"@ + f
}

/// The tests a function defines (none if its name is no test name): one
/// test, one per variant of its parametrization, or one per combination of
/// stacked parametrizations (the lowest decorator varying slowest). A
/// synchronous test records the fixtures it uses as markers. `None` when a
/// variant's id cannot be made.
pub open spec fn function_tests(
    f: PyFunction,
    class: Seq<char>,
    file: Seq<char>,
    fixtures: Seq<Seq<char>>,
    class_markers: Seq<Seq<char>>,
) -> Option<Seq<NativeView>> {
    if !is_test_name(f.name@) {
        Some(Seq::empty())
    } else {
        let (mm, ps) = decorator_info(f.decorators@);
        let used = used_fixtures(string_views(f.arg_names@), fixtures);
        let markers = if f.is_async {
            class_markers + mm
        } else {
            class_markers + mm + used.map_values(|u: Seq<char>| uses_marker(u))
        };
        let uses_external = used.len() > 0;
        let sk = skip_info(f.decorators@);
        if ps.len() == 0 {
            Some(
                seq![
                    test_node_spec(
                        base_id(file, class, f.name@),
                        f.name@,
                        class,
                        file,
                        0,
                        markers,
                        uses_external,
                        sk,
                        Seq::empty(),
                    ),
                ],
            )
        } else if ps.len() == 1 {
            if variants_defined(ps[0].1) {
                Some(variant_nodes(f.name@, class, file, 0, markers, uses_external, sk, ps[0].0, ps[0].1))
            } else {
                None
            }
        } else {
            let cs = cartesian(ps.reverse());
            if combos_defined(cs) {
                Some(combo_nodes(f.name@, class, file, 0, markers, uses_external, sk, cs))
            } else {
                None
            }
        }
    }
}

/// The tests the statements define, in order; a class whose name starts
/// with `_` defines none, another one the tests of its body, with its
/// markers added to the markers of the classes around it.
pub open spec fn stmts_tests(
    stmts: Seq<PyStmt>,
    class: Seq<char>,
    file: Seq<char>,
    fixtures: Seq<Seq<char>>,
    cm: Seq<Seq<char>>,
) -> Option<Seq<NativeView>>
    decreases stmts,
{
    if stmts.len() == 0 {
        Some(Seq::empty())
    } else {
        match (stmts_tests(stmts.drop_last(), class, file, fixtures, cm), stmt_tests(stmts.last(), class, file, fixtures, cm)) {
            (Some(a), Some(b)) => Some(a + b),
            _ => None,
        }
    }
}

/// The tests one statement defines.
pub open spec fn stmt_tests(
    st: PyStmt,
    class: Seq<char>,
    file: Seq<char>,
    fixtures: Seq<Seq<char>>,
    cm: Seq<Seq<char>>,
) -> Option<Seq<NativeView>>
    decreases st,
{
    match st {
        PyStmt::Function(f) => function_tests(f, class, file, fixtures, cm),
        PyStmt::Class(c) => if starts_with(c.name@, "_"@) {
            Some(Seq::empty())
        } else {
            stmts_tests(c.body@, c.name@, file, fixtures, cm + class_markers_of(c.decorators@))
        },
        PyStmt::Other => Some(Seq::empty()),
    }
}

/// The fixtures the parameters of a function name, in order.
fn used_fixtures_exec(args: &Vec<String>, fixtures: &Vec<String>) -> (r: Vec<String>)
    ensures
        string_views(r@) == used_fixtures(string_views(args@), string_views(fixtures@)),
{
    let ghost av = string_views(args@);
    let ghost fv = string_views(fixtures@);
    let ghost pred = |a: Seq<char>| fv.contains(a);
    let mut r: Vec<String> = Vec::new();
    let mut i: usize = 0;
    while i < args.len()
        invariant
            av == string_views(args@),
            fv == string_views(fixtures@),
            pred == (|a: Seq<char>| fv.contains(a)),
            i <= args@.len(),
            string_views(r@) == av.take(i as int).filter(pred),
        decreases args@.len() - i,
    {
        proof {
            assert(av.take(i + 1) == av.take(i as int).push(av[i as int]));
            av.take(i as int).lemma_filter_push(av[i as int], pred);
        }
        if contains_string(fixtures, &args[i]) {
            push_copy(&mut r, &args[i]);
        }
        i = i + 1;
    }
    assert(av.take(i as int) =~= av);
    r
}

/// `v` holds a string with the characters of `s`.
pub fn contains_string(v: &Vec<String>, s: &String) -> (r: bool)
    ensures
        r == string_views(v@).contains(s@),
{
    let mut i: usize = 0;
    while i < v.len()
        invariant
            i <= v@.len(),
            forall|k: int| 0 <= k < i ==> #[trigger] string_views(v@)[k] != s@,
        decreases v@.len() - i,
    {
        if v[i] == *s {
            assert(string_views(v@)[i as int] == s@);
            return true;
        }
        i = i + 1;
    }
    false
}

/// Add the tests a function defines; `false` (with some of them added)
/// when a variant's id cannot be made.
pub fn process_function_def(
    f: &PyFunction,
    class_name: &str,
    file_path: &str,
    fixtures: &Vec<String>,
    class_markers: &Vec<String>,
    tests: &mut Vec<NativeTestNode>,
) -> (ok: bool)
    ensures
        ok == function_tests(*f, class_name@, file_path@, string_views(fixtures@), string_views(class_markers@)) is Some,
        ok ==> function_tests(*f, class_name@, file_path@, string_views(fixtures@), string_views(class_markers@))
            == Some(native_views(final(tests)@).subrange(old(tests)@.len() as int, final(tests)@.len() as int)),
        ok ==> native_views(final(tests)@).subrange(0, old(tests)@.len() as int) == native_views(old(tests)@),
        ok ==> final(tests)@.len() >= old(tests)@.len(),
{
    let ghost spec_r = function_tests(*f, class_name@, file_path@, string_views(fixtures@), string_views(class_markers@));
    let ghost t0 = native_views(tests@);
    let n = chars_of(f.name.as_str());
    if !(starts_with_chars(&n, &chars_of("test_")) || starts_with_chars(&n, &chars_of("Test"))) {
        assert(native_views(tests@).subrange(t0.len() as int, t0.len() as int) =~= Seq::<NativeView>::empty());
        assert(native_views(tests@).subrange(0, t0.len() as int) =~= t0);
        return true;
    }
    let (method_markers, infos) = extract_markers_and_parametrize(&f.decorators);
    let mut markers = copy_strings(class_markers);
    extend_copies(&mut markers, &method_markers);
    let used = used_fixtures_exec(&f.arg_names, fixtures);
    if !f.is_async {
        let mut k: usize = 0;
        let ghost m0 = string_views(markers@);
        while k < used.len()
            invariant
                k <= used@.len(),
                string_views(markers@) == m0 + string_views(used@).take(k as int).map_values(
                    |u: Seq<char>| uses_marker(u),
                ),
            decreases used@.len() - k,
        {
            let mut m = String::from_str("uses_fixture:");
            push_str_chars(&mut m, used[k].as_str());
            push_copy(&mut markers, &m);
            assert(string_views(used@).take(k + 1).map_values(|u: Seq<char>| uses_marker(u)) =~= string_views(
                used@,
            ).take(k as int).map_values(|u: Seq<char>| uses_marker(u)).push(uses_marker(used@[k as int]@)));
            k = k + 1;
        }
        assert(string_views(used@).take(k as int) =~= string_views(used@));
    } else {
        assert(string_views(markers@) == string_views(class_markers@) + string_views(method_markers@));
    }
    let uses_external = used.len() > 0;
    let sk = extract_skip_xfail_info(&f.decorators);
    let ghost ps = infos@.map_values(|p: ParameterizedTestNode| param_view(p));
    if infos.len() == 0 {
        create_test_node(f.name.as_str(), class_name, file_path, 0, &markers, uses_external, &sk, tests);
    } else if infos.len() == 1 {
        assert(ps[0] == param_view(infos@[0]));
        if !variants_fit(&infos[0]) {
            return false;
        }
        expand_parametrized_tests(f.name.as_str(), class_name, file_path, 0, &markers, uses_external, &sk, &infos[0], tests);
    } else {
        let mut reversed: Vec<ParameterizedTestNode> = Vec::new();
        let mut j: usize = infos.len();
        while j > 0
            invariant
                j <= infos@.len(),
                ps == infos@.map_values(|p: ParameterizedTestNode| param_view(p)),
                param_views(reversed@) == ps.reverse().take(infos@.len() - j),
            decreases j,
        {
            j = j - 1;
            let info = &infos[j];
            let copy = ParameterizedTestNode {
                param_names: copy_strings(&info.param_names),
                param_values: copy_variants(&info.param_values),
                test_id: info.test_id.clone(),
            };
            let ghost r0 = param_views(reversed@);
            reversed.push(copy);
            assert(param_views(reversed@) =~= r0.push(param_view(copy)));
            assert(ps.reverse().take(infos@.len() - j) =~= ps.reverse().take(infos@.len() - j - 1).push(ps[j as int]));
        }
        assert(ps.reverse().take(infos@.len() as int) =~= ps.reverse());
        if !combos_fit(&reversed) {
            return false;
        }
        expand_stacked_parametrized_tests(f.name.as_str(), class_name, file_path, 0, &markers, uses_external, &sk, &reversed, tests);
    }
    assert(native_views(tests@) =~= t0 + native_views(tests@).subrange(t0.len() as int, tests@.len() as int));
    assert(native_views(tests@).subrange(0, t0.len() as int) =~= t0);
    true
}

/// A copy of a parametrization's variants.
fn copy_variants(v: &Vec<Variant>) -> (r: Vec<Variant>)
    ensures
        variant_views(r@) == variant_views(v@),
{
    let mut r: Vec<Variant> = Vec::new();
    let mut i: usize = 0;
    while i < v.len()
        invariant
            i <= v@.len(),
            variant_views(r@) == variant_views(v@).take(i as int),
        decreases v@.len() - i,
    {
        let x = &v[i];
        let c: Variant = (copy_strings(&x.0), copy_opt_string(&x.1), copy_strings(&x.2));
        let ghost r0 = r@;
        r.push(c);
        assert(variant_views(r@) =~= variant_views(r0).push(variant_view(c)));
        assert(variant_views(v@).take(i + 1) =~= variant_views(v@).take(i as int).push(variant_view(*x)));
        i = i + 1;
    }
    assert(variant_views(v@).take(i as int) =~= variant_views(v@));
    r
}

/// Add the tests the statements define; `false` when a variant's id
/// cannot be made.
pub fn extract_stmt_items(
    stmts: &Vec<PyStmt>,
    class_name: &str,
    file_path: &str,
    fixtures: &Vec<String>,
    class_markers: &Vec<String>,
    tests: &mut Vec<NativeTestNode>,
) -> (ok: bool)
    ensures
        ok == stmts_tests(stmts@, class_name@, file_path@, string_views(fixtures@), string_views(class_markers@)) is Some,
        ok ==> stmts_tests(stmts@, class_name@, file_path@, string_views(fixtures@), string_views(class_markers@))
            == Some(native_views(final(tests)@).subrange(old(tests)@.len() as int, final(tests)@.len() as int)),
        ok ==> native_views(final(tests)@).subrange(0, old(tests)@.len() as int) == native_views(old(tests)@),
        ok ==> final(tests)@.len() >= old(tests)@.len(),
    decreases stmts@,
{
    let ghost fx = string_views(fixtures@);
    let ghost cm = string_views(class_markers@);
    let ghost t0 = native_views(tests@);
    let mut i: usize = 0;
    while i < stmts.len()
        invariant
            i <= stmts@.len(),
            fx == string_views(fixtures@),
            cm == string_views(class_markers@),
            t0 == native_views(old(tests)@),
            tests@.len() >= t0.len(),
            native_views(tests@).subrange(0, t0.len() as int) == t0,
            stmts_tests(stmts@.take(i as int), class_name@, file_path@, fx, cm) == Some(
                native_views(tests@).subrange(t0.len() as int, tests@.len() as int),
            ),
        decreases stmts@.len() - i,
    {
        let ghost before = native_views(tests@);
        let ghost n0 = tests@.len();
        proof {
            let t = stmts@.take(i + 1);
            assert(t.drop_last() =~= stmts@.take(i as int));
            assert(t.last() == stmts@[i as int]);
            assert(decreases_to!(stmts@ => stmts@[i as int]));
        }
        let ok = match &stmts[i] {
            PyStmt::Function(f) => process_function_def(f, class_name, file_path, fixtures, class_markers, tests),
            PyStmt::Class(c) => {
                let nc = chars_of(c.name.as_str());
                if starts_with_chars(&nc, &chars_of("_")) {
                    assert(native_views(tests@).subrange(n0 as int, n0 as int) =~= Seq::<NativeView>::empty());
                    assert(native_views(tests@).subrange(0, n0 as int) =~= before);
                    true
                } else {
                    let mut markers = copy_strings(class_markers);
                    let own = extract_pytest_markers(&c.decorators);
                    extend_copies(&mut markers, &own);
                    proof {
                        assert(decreases_to!(stmts@[i as int] => c.body@));
                    }
                    extract_stmt_items(&c.body, c.name.as_str(), file_path, fixtures, &markers, tests)
                }
            },
            PyStmt::Other => {
                assert(native_views(tests@).subrange(n0 as int, n0 as int) =~= Seq::<NativeView>::empty());
                assert(native_views(tests@).subrange(0, n0 as int) =~= before);
                true
            },
        };
        if !ok {
            proof {
                assert(stmt_tests(stmts@[i as int], class_name@, file_path@, fx, cm) is None);
                assert(stmts_tests(stmts@.take(i + 1), class_name@, file_path@, fx, cm) is None);
                lemma_stmts_none_extends(stmts@, i + 1, class_name@, file_path@, fx, cm);
            }
            return false;
        }
        proof {
            let nv = native_views(tests@);
            assert(nv.subrange(0, n0 as int) == before);
            assert(before.subrange(0, t0.len() as int) == t0);
            assert(nv.subrange(0, t0.len() as int) =~= t0);
            assert(nv.subrange(t0.len() as int, tests@.len() as int) =~= before.subrange(
                t0.len() as int,
                n0 as int,
            ) + nv.subrange(n0 as int, tests@.len() as int));
        }
        i = i + 1;
    }
    assert(stmts@.take(i as int) =~= stmts@);
    true
}

/// Once a statement defines no tests list, no longer prefix does.
proof fn lemma_stmts_none_extends(
    stmts: Seq<PyStmt>,
    k: int,
    class: Seq<char>,
    file: Seq<char>,
    fx: Seq<Seq<char>>,
    cm: Seq<Seq<char>>,
)
    requires
        0 <= k <= stmts.len(),
        stmts_tests(stmts.take(k), class, file, fx, cm) is None,
    ensures
        stmts_tests(stmts, class, file, fx, cm) is None,
    decreases stmts.len() - k,
{
    if k < stmts.len() {
        let t = stmts.take(k + 1);
        assert(t.drop_last() =~= stmts.take(k));
        lemma_stmts_none_extends(stmts, k + 1, class, file, fx, cm);
    } else {
        assert(stmts.take(k) =~= stmts);
    }
}

/// The names of the module's functions decorated with `@fixture`, once per
/// such decorator, in order.
pub open spec fn fixture_names(stmts: Seq<PyStmt>) -> Seq<Seq<char>>
    decreases stmts.len(),
{
    if stmts.len() == 0 {
        Seq::empty()
    } else {
        let rest = fixture_names(stmts.drop_last());
        match stmts.last() {
            PyStmt::Function(f) => rest + fixture_marks(f.decorators@, f.name@),
            _ => rest,
        }
    }
}

/// `name` once for each decorator named `fixture`.
pub open spec fn fixture_marks(ds: Seq<PyExpr>, name: Seq<char>) -> Seq<Seq<char>>
    decreases ds.len(),
{
    if ds.len() == 0 {
        Seq::empty()
    } else if decorator_name(ds.last()) == Some("fixture"@) {
        fixture_marks(ds.drop_last(), name).push(name)
    } else {
        fixture_marks(ds.drop_last(), name)
    }
}

/// The fixtures of a module's functions.
pub fn extract_conftest_fixtures(stmts: &Vec<PyStmt>) -> (r: Vec<String>)
    ensures
        string_views(r@) == fixture_names(stmts@),
{
    let mut r: Vec<String> = Vec::new();
    let mut i: usize = 0;
    while i < stmts.len()
        invariant
            i <= stmts@.len(),
            string_views(r@) == fixture_names(stmts@.take(i as int)),
        decreases stmts@.len() - i,
    {
        proof {
            let t = stmts@.take(i + 1);
            assert(t.drop_last() =~= stmts@.take(i as int));
            assert(t.last() == stmts@[i as int]);
        }
        match &stmts[i] {
            PyStmt::Function(f) => {
                let ghost r0 = string_views(r@);
                let mut j: usize = 0;
                while j < f.decorators.len()
                    invariant
                        j <= f.decorators@.len(),
                        string_views(r@) == r0 + fixture_marks(f.decorators@.take(j as int), f.name@),
                    decreases f.decorators@.len() - j,
                {
                    proof {
                        let t = f.decorators@.take(j + 1);
                        assert(t.drop_last() =~= f.decorators@.take(j as int));
                        assert(t.last() == f.decorators@[j as int]);
                    }
                    let is_fixture = match get_decorator_name(&f.decorators[j]) {
                        Some(n) => str_eq(n.as_str(), "fixture"),
                        None => false,
                    };
                    if is_fixture {
                        push_copy(&mut r, &f.name);
                    }
                    j = j + 1;
                }
                assert(f.decorators@.take(j as int) =~= f.decorators@);
            },
            _ => {},
        }
        i = i + 1;
    }
    assert(stmts@.take(i as int) =~= stmts@);
    r
}

/// `a` followed by the names of `b` it does not hold yet, in order.
pub open spec fn merge_names(a: Seq<Seq<char>>, b: Seq<Seq<char>>) -> Seq<Seq<char>>
    decreases b.len(),
{
    if b.len() == 0 {
        a
    } else {
        let m = merge_names(a, b.drop_last());
        if m.contains(b.last()) {
            m
        } else {
            m.push(b.last())
        }
    }
}

/// The fixtures a test module can use: those of a conftest module and its own.
pub open spec fn module_fixtures(stmts: Seq<PyStmt>, is_conftest: bool) -> Seq<Seq<char>> {
    merge_names(
        if is_conftest {
            fixture_names(stmts)
        } else {
            Seq::empty()
        },
        fixture_names(stmts),
    )
}

/// The tests a module defines (`relative_path` names it in their ids).
pub open spec fn file_tests(stmts: Seq<PyStmt>, relative_path: Seq<char>, is_conftest: bool) -> Option<Seq<NativeView>> {
    stmts_tests(stmts, Seq::empty(), relative_path, module_fixtures(stmts, is_conftest), Seq::empty())
}

/// The tests a module defines; `None` when a variant's id cannot be made
/// (its shortened value would cut a character in two).
pub fn extract_tests_from_ast(stmts: &Vec<PyStmt>, relative_path: &str, is_conftest: bool) -> (r: Option<Vec<NativeTestNode>>)
    ensures
        r matches Some(v) ==> file_tests(stmts@, relative_path@, is_conftest) == Some(native_views(v@)),
        r is None ==> file_tests(stmts@, relative_path@, is_conftest) is None,
{
    let file_fixtures = extract_conftest_fixtures(stmts);
    let mut all: Vec<String> = if is_conftest {
        copy_strings(&file_fixtures)
    } else {
        Vec::new()
    };
    let ghost a0 = string_views(all@);
    let mut i: usize = 0;
    while i < file_fixtures.len()
        invariant
            i <= file_fixtures@.len(),
            string_views(all@) == merge_names(a0, string_views(file_fixtures@).take(i as int)),
        decreases file_fixtures@.len() - i,
    {
        proof {
            let t = string_views(file_fixtures@).take(i + 1);
            assert(t.drop_last() =~= string_views(file_fixtures@).take(i as int));
            assert(t.last() == file_fixtures@[i as int]@);
        }
        if !contains_string(&all, &file_fixtures[i]) {
            push_copy(&mut all, &file_fixtures[i]);
        }
        i = i + 1;
    }
    assert(string_views(file_fixtures@).take(i as int) =~= string_views(file_fixtures@));
    let mut tests: Vec<NativeTestNode> = Vec::new();
    let no_markers: Vec<String> = Vec::new();
    assert(string_views(no_markers@) =~= Seq::<Seq<char>>::empty());
    let ok = extract_stmt_items(stmts, "", relative_path, &all, &no_markers, &mut tests);
    proof {
        reveal_strlit("");
        assert(""@ =~= Seq::<char>::empty());
    }
    if ok {
        assert(native_views(tests@).subrange(0, tests@.len() as int) =~= native_views(tests@));
        Some(tests)
    } else {
        None
    }
}

// ---------------------------------------------------------------------------
// Test files
// ---------------------------------------------------------------------------

/// The pieces of a path that name something: neither empty nor `.`.
pub open spec fn named_parts(parts: Seq<Seq<char>>) -> Seq<Seq<char>>
    decreases parts.len(),
{
    if parts.len() == 0 {
        Seq::empty()
    } else {
        let rest = named_parts(parts.drop_last());
        let c = parts.last();
        if c.len() > 0 && c != "."@ {
            rest.push(c)
        } else {
            rest
        }
    }
}

/// The final component of a `/`-separated path, as `Path::file_name` gives
/// it on Unix: none when the path has no named component or ends in `..`.
pub open spec fn path_file_name(p: Seq<char>) -> Option<Seq<char>> {
    let cs = named_parts(split_by(p, "/"@));
    if cs.len() == 0 || cs.last() == ".."@ {
        None
    } else {
        Some(cs.last())
    }
}

/// A test module's file name: extension `py`, and `test_*.py` or `*_test.py`.
pub open spec fn test_file_name(n: Seq<char>) -> bool {
    &&& ends_with(n, ".py"@)
    &&& n.len() > 3
    &&& (starts_with(n, "test_"@) || ends_with(n, "_test.py"@))
}

/// Whether `path` names a Python test module.
pub fn is_test_file(path: &str) -> (r: bool)
    ensures
        r == (path_file_name(path@) matches Some(n) && test_file_name(n)),
{
    let cs = chars_of(path);
    let slash = chars_of("/");
    proof {
        reveal_strlit("/");
        reveal_strlit(".");
        reveal_strlit("..");
    }
    let parts = split_chars(cs.as_slice(), slash.as_slice());
    let ghost pv = char_vec_views(parts@);
    assert(pv == split_by(path@, "/"@));
    let mut last: Option<usize> = None;
    let mut i: usize = 0;
    while i < parts.len()
        invariant
            i <= parts@.len(),
            pv == char_vec_views(parts@),
            "."@ == seq!['.'],
            last matches Some(k) ==> k < i && named_parts(pv.take(i as int)).len() > 0 && named_parts(
                pv.take(i as int),
            ).last() == parts@[k as int]@,
            last is None ==> named_parts(pv.take(i as int)).len() == 0,
        decreases parts@.len() - i,
    {
        proof {
            let t = pv.take(i + 1);
            assert(t.drop_last() =~= pv.take(i as int));
            assert(t.last() == parts@[i as int]@);
        }
        let c = &parts[i];
        let is_dot = c.len() == 1 && c[0] == '.';
        assert(is_dot == (c@ == "."@)) by {
            if c@.len() == 1 && c@[0] == '.' {
                assert(c@ =~= seq!['.']);
            }
        }
        if c.len() > 0 && !is_dot {
            last = Some(i);
        }
        i = i + 1;
    }
    assert(pv.take(i as int) =~= pv);
    match last {
        None => false,
        Some(k) => {
            let name = &parts[k];
            let is_up = name.len() == 2 && name[0] == '.' && name[1] == '.';
            assert(is_up == (name@ == ".."@)) by {
                if name@.len() == 2 && name@[0] == '.' && name@[1] == '.' {
                    assert(name@ =~= ".."@);
                }
            }
            if is_up {
                return false;
            }
            let py = chars_of(".py");
            let prefix = chars_of("test_");
            let suffix = chars_of("_test.py");
            ends_with_chars(name.as_slice(), py.as_slice()) && name.len() > 3 && (starts_with_chars(
                name.as_slice(),
                prefix.as_slice(),
            ) || ends_with_chars(name.as_slice(), suffix.as_slice()))
        },
    }
}

/// Whether a path lies in a directory that collection passes over: a
/// virtual environment, `node_modules` or `.git`.
pub fn is_ignored_path(path: &str) -> (r: bool)
    ensures
        r == (contains(path@, "/.venv/"@) || contains(path@, "/venv/"@) || contains(
            path@,
            "/node_modules/"@,
        ) || contains(path@, "/.git/"@)),
{
    let cs = chars_of(path);
    contains_chars(cs.as_slice(), chars_of("/.venv/").as_slice()) || contains_chars(
        cs.as_slice(),
        chars_of("/venv/").as_slice(),
    ) || contains_chars(cs.as_slice(), chars_of("/node_modules/").as_slice()) || contains_chars(
        cs.as_slice(),
        chars_of("/.git/").as_slice(),
    )
}

} // verus!

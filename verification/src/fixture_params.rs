//! Parametrized fixtures: fixtures declared with `params=[...]`, and the
//! variants of the tests that use them.
//!
//! Each test that uses one parametrized fixture becomes one test per value
//! of the fixture; a test that uses several becomes one test per combination
//! of their values.

use vstd::prelude::*;
use crate::collector::{
    PyStmt, PyExpr, PyNode, PyKeyword, NativeTestNode, NativeView, ParamRecord, native_view,
    native_views, record_view, element_text, decorator_name, call_keywords, get_decorator_name,
    extract_list_param_values, uses_marker, join, join_strings, ostr,
};
use crate::table::{Table, entry_keys, lemma_entry_map_at};
use crate::text::{
    string_views, str_eq, copy_strings, copy_opt_string, push_str_chars, push_decimal, decimal,
    chars_of, contains, contains_chars, starts_with, starts_with_chars, ends_with, ends_with_chars,
};

verus! {

broadcast use vstd::seq_lib::group_seq_properties;

/// A parametrized fixture: its name and the texts of its values.
pub type ParamEntry = (Seq<char>, Seq<Seq<char>>);

/// The plain content of fixture entries.
pub open spec fn entry_views(v: Seq<(String, Vec<String>)>) -> Seq<ParamEntry> {
    v.map_values(|e: (String, Vec<String>)| (e.0@, string_views(e.1@)))
}

/// The names of fixture entries.
pub open spec fn entry_names(s: Seq<ParamEntry>) -> Seq<Seq<char>> {
    s.map_values(|e: ParamEntry| e.0)
}

/// The values of a `params=` keyword: the texts of a list's elements.
pub open spec fn list_values(e: PyExpr) -> Option<Seq<Seq<char>>> {
    match e.node {
        PyNode::List(elts) => Some(elts@.map_values(|x: PyExpr| element_text(x))),
        _ => None,
    }
}

/// The fixture `name` with the values of each keyword `params` given a list.
pub open spec fn keyword_params(kws: Seq<PyKeyword>, name: Seq<char>) -> Seq<ParamEntry>
    decreases kws.len(),
{
    if kws.len() == 0 {
        Seq::empty()
    } else {
        let rest = keyword_params(kws.drop_last(), name);
        let k = kws.last();
        if k.arg matches Some(a) && a@ == "params"@ && list_values(k.value) is Some {
            rest.push((name, list_values(k.value)->0))
        } else {
            rest
        }
    }
}

/// The parametrized fixtures that a function's `fixture` decorators declare.
pub open spec fn decorator_params(ds: Seq<PyExpr>, name: Seq<char>) -> Seq<ParamEntry>
    decreases ds.len(),
{
    if ds.len() == 0 {
        Seq::empty()
    } else {
        let rest = decorator_params(ds.drop_last(), name);
        if decorator_name(ds.last()) == Some("fixture"@) {
            rest + keyword_params(call_keywords(ds.last()), name)
        } else {
            rest
        }
    }
}

/// The parametrized fixtures a module declares with its synchronous
/// functions, in order.
pub open spec fn module_fixture_params(stmts: Seq<PyStmt>) -> Seq<ParamEntry>
    decreases stmts.len(),
{
    if stmts.len() == 0 {
        Seq::empty()
    } else {
        let rest = module_fixture_params(stmts.drop_last());
        match stmts.last() {
            PyStmt::Function(f) => if f.is_async {
                rest
            } else {
                rest + decorator_params(f.decorators@, f.name@)
            },
            _ => rest,
        }
    }
}

/// `s` with the fixture `e.0` given the values `e.1`: in its place if it is
/// there, else at the end.
pub open spec fn put_param(s: Seq<ParamEntry>, e: ParamEntry) -> Seq<ParamEntry> {
    if entry_names(s).contains(e.0) {
        s.update(entry_names(s).index_of(e.0), e)
    } else {
        s.push(e)
    }
}

/// `s` with each of `es` put in turn.
pub open spec fn put_params(s: Seq<ParamEntry>, es: Seq<ParamEntry>) -> Seq<ParamEntry>
    decreases es.len(),
{
    if es.len() == 0 {
        s
    } else {
        put_param(put_params(s, es.drop_last()), es.last())
    }
}

/// A copy of each entry.
fn copy_entry(e: &(String, Vec<String>)) -> (r: (String, Vec<String>))
    ensures
        r.0@ == e.0@,
        string_views(r.1@) == string_views(e.1@),
{
    (e.0.clone(), copy_strings(&e.1))
}

/// The parametrized fixtures a module declares with its synchronous
/// functions: for each `fixture` decorator, each keyword `params` given a
/// list, with the texts of its elements.
pub fn fixture_param_list(stmts: &Vec<PyStmt>) -> (r: Vec<(String, Vec<String>)>)
    ensures
        entry_views(r@) == module_fixture_params(stmts@),
{
    let mut r: Vec<(String, Vec<String>)> = Vec::new();
    let mut i: usize = 0;
    while i < stmts.len()
        invariant
            i <= stmts@.len(),
            entry_views(r@) == module_fixture_params(stmts@.take(i as int)),
        decreases stmts@.len() - i,
    {
        proof {
            let t = stmts@.take(i + 1);
            assert(t.drop_last() =~= stmts@.take(i as int));
            assert(t.last() == stmts@[i as int]);
        }
        match &stmts[i] {
            PyStmt::Function(f) => {
                if !f.is_async {
                    let ghost r0 = entry_views(r@);
                    let mut j: usize = 0;
                    while j < f.decorators.len()
                        invariant
                            j <= f.decorators@.len(),
                            entry_views(r@) == r0 + decorator_params(f.decorators@.take(j as int), f.name@),
                        decreases f.decorators@.len() - j,
                    {
                        proof {
                            let t = f.decorators@.take(j + 1);
                            assert(t.drop_last() =~= f.decorators@.take(j as int));
                            assert(t.last() == f.decorators@[j as int]);
                        }
                        let d = &f.decorators[j];
                        let is_fixture = match get_decorator_name(d) {
                            Some(n) => str_eq(n.as_str(), "fixture"),
                            None => false,
                        };
                        if is_fixture {
                            let ghost r1 = entry_views(r@);
                            let ghost kws = call_keywords(*d);
                            let ghost before = r0 + decorator_params(f.decorators@.take(j as int), f.name@);
                            assert(r1 == before);
                            match &d.node {
                                PyNode::Call(_, _, ks) => {
                                    assert(kws == ks@);
                                    let mut k: usize = 0;
                                    while k < ks.len()
                                        invariant
                                            k <= ks@.len(),
                                            kws == ks@,
                                            entry_views(r@) == r1 + keyword_params(kws.take(k as int), f.name@),
                                        decreases ks@.len() - k,
                                    {
                                        proof {
                                            let t = kws.take(k + 1);
                                            assert(t.drop_last() =~= kws.take(k as int));
                                            assert(t.last() == kws[k as int]);
                                        }
                                        let kw = &ks[k];
                                        let is_params = match &kw.arg {
                                            Some(a) => str_eq(a.as_str(), "params"),
                                            None => false,
                                        };
                                        if is_params {
                                            match extract_list_param_values(&kw.value) {
                                                Some(values) => {
                                                    assert(list_values(kw.value) == Some(string_views(values@)));
                                                    let ghost r2 = entry_views(r@);
                                                    r.push((f.name.clone(), values));
                                                    assert(entry_views(r@) =~= r2.push((f.name@, string_views(values@))));
                                                },
                                                None => {
                                                    assert(list_values(kw.value) is None);
                                                },
                                            }
                                        }
                                        k = k + 1;
                                    }
                                    assert(kws.take(k as int) =~= kws);
                                },
                                _ => {
                                    assert(kws =~= Seq::<PyKeyword>::empty());
                                    assert(keyword_params(kws, f.name@) =~= Seq::<ParamEntry>::empty());
                                    assert(entry_views(r@) =~= r1 + keyword_params(kws, f.name@));
                                },
                            }
                            assert(entry_views(r@) =~= before + keyword_params(kws, f.name@));
                        }
                        j = j + 1;
                    }
                    assert(f.decorators@.take(j as int) =~= f.decorators@);
                }
            },
            _ => {},
        }
        i = i + 1;
    }
    assert(stmts@.take(i as int) =~= stmts@);
    r
}

/// The names of a table's entries are its keys.
proof fn lemma_entry_names(v: Seq<(String, Vec<String>)>)
    ensures
        entry_names(entry_views(v)) == entry_keys(v),
{
    assert(entry_names(entry_views(v)) =~= entry_keys(v));
}

/// Gives the fixture `name` the values `values`, in its place if it is
/// there, else at the end.
pub fn put_fixture_param(params: &mut Table<Vec<String>>, name: String, values: Vec<String>)
    requires
        old(params).wf(),
    ensures
        final(params).wf(),
        entry_views(final(params).entries@) == put_param(
            entry_views(old(params).entries@),
            (name@, string_views(values@)),
        ),
{
    let ghost e0 = params.entries@;
    let ghost e = (name@, string_views(values@));
    proof {
        lemma_entry_names(e0);
    }
    match params.find(&name) {
        Some(i) => {
            proof {
                lemma_entry_map_at(e0, i as int);
            }
            params.set_value(i, values);
            assert(entry_views(params.entries@) =~= entry_views(e0).update(i as int, e));
        },
        None => {
            params.push(name, values);
            assert(entry_views(params.entries@) =~= entry_views(e0).push(e));
        },
    }
}

/// Records the parametrized fixtures a module declares: a later declaration
/// of a fixture replaces the values of an earlier one.
pub fn record_fixture_params(stmts: &Vec<PyStmt>, params: &mut Table<Vec<String>>)
    requires
        old(params).wf(),
    ensures
        final(params).wf(),
        entry_views(final(params).entries@) == put_params(
            entry_views(old(params).entries@),
            module_fixture_params(stmts@),
        ),
{
    let list = fixture_param_list(stmts);
    let ghost es = entry_views(list@);
    let mut i: usize = 0;
    while i < list.len()
        invariant
            i <= list@.len(),
            es == entry_views(list@),
            params.wf(),
            entry_views(params.entries@) == put_params(entry_views(old(params).entries@), es.take(i as int)),
        decreases list@.len() - i,
    {
        let e = copy_entry(&list[i]);
        proof {
            let t = es.take(i + 1);
            assert(t.drop_last() =~= es.take(i as int));
            assert(t.last() == es[i as int]);
        }
        put_fixture_param(params, e.0, e.1);
        i = i + 1;
    }
    assert(es.take(i as int) =~= es);
}

/// The parametrized fixtures that a test with `markers` uses (each use is
/// recorded as a marker), in the order of `ps`.
pub open spec fn used_params(markers: Seq<Seq<char>>, ps: Seq<ParamEntry>) -> Seq<ParamEntry>
    decreases ps.len(),
{
    if ps.len() == 0 {
        Seq::empty()
    } else {
        let rest = used_params(markers, ps.drop_last());
        if markers.contains(uses_marker(ps.last().0)) {
            rest.push(ps.last())
        } else {
            rest
        }
    }
}

/// Each of `vs`, in order, put before each of `rest`.
pub open spec fn prepend_each(vs: Seq<Seq<char>>, rest: Seq<Seq<Seq<char>>>) -> Seq<Seq<Seq<char>>>
    decreases vs.len(),
{
    if vs.len() == 0 {
        Seq::empty()
    } else {
        prepend_each(vs.drop_last(), rest) + rest.map_values(
            |c: Seq<Seq<char>>| seq![vs.last()] + c,
        )
    }
}

/// Every choice of one value of each fixture, the first fixture varying slowest.
pub open spec fn value_combos(ps: Seq<ParamEntry>) -> Seq<Seq<Seq<char>>>
    decreases ps.len(),
{
    if ps.len() == 0 {
        seq![Seq::empty()]
    } else {
        prepend_each(ps[0].1, value_combos(ps.drop_first()))
    }
}

/// The numbers of values of the fixtures, multiplied together.
pub open spec fn value_product(ps: Seq<ParamEntry>) -> nat
    decreases ps.len(),
{
    if ps.len() == 0 {
        1
    } else {
        ps[0].1.len() * value_product(ps.drop_first())
    }
}

/// Putting each of `vs` before each of `rest` gives `vs.len() * rest.len()`
/// combinations; each starts with one of `vs` and goes on with one of `rest`.
proof fn lemma_prepend_each(vs: Seq<Seq<char>>, rest: Seq<Seq<Seq<char>>>)
    ensures
        prepend_each(vs, rest).len() == vs.len() * rest.len(),
        forall|k: int|
            0 <= k < prepend_each(vs, rest).len() ==> {
                let c = #[trigger] prepend_each(vs, rest)[k];
                &&& c.len() > 0
                &&& vs.contains(c[0])
                &&& rest.contains(c.drop_first())
            },
    decreases vs.len(),
{
    if vs.len() > 0 {
        let d = vs.drop_last();
        lemma_prepend_each(d, rest);
        let x = prepend_each(d, rest);
        let y = rest.map_values(|c: Seq<Seq<char>>| seq![vs.last()] + c);
        assert(prepend_each(vs, rest) == x + y);
        assert((vs.len() - 1) * rest.len() + rest.len() == vs.len() * rest.len()) by (nonlinear_arith);
        assert forall|k: int| 0 <= k < prepend_each(vs, rest).len() implies {
            let c = #[trigger] prepend_each(vs, rest)[k];
            &&& c.len() > 0
            &&& vs.contains(c[0])
            &&& rest.contains(c.drop_first())
        } by {
            let c = prepend_each(vs, rest)[k];
            if k < x.len() {
                assert(c == x[k]);
                let i = choose|i: int| 0 <= i < d.len() && d[i] == x[k][0];
                assert(vs[i] == d[i]);
            } else {
                let b = k - x.len();
                assert(c == y[b]);
                assert(c == seq![vs.last()] + rest[b]);
                assert(c[0] == vs[vs.len() - 1]);
                assert(c.drop_first() =~= rest[b]);
            }
        }
    }
}

/// Tests that use several parametrized fixtures get one variant per choice
/// of a value of each: as many as their numbers of values multiplied
/// together, each choice taking one value of each fixture, in order.
pub proof fn lemma_value_combos(ps: Seq<ParamEntry>)
    ensures
        value_combos(ps).len() == value_product(ps),
        forall|k: int|
            0 <= k < value_combos(ps).len() ==> (#[trigger] value_combos(ps)[k]).len() == ps.len(),
        forall|k: int, j: int|
            0 <= k < value_combos(ps).len() && 0 <= j < ps.len() ==> ps[j].1.contains(
                #[trigger] value_combos(ps)[k][j],
            ),
    decreases ps.len(),
{
    if ps.len() == 0 {
        assert(value_combos(ps) == seq![Seq::<Seq<char>>::empty()]);
    } else {
        let t = ps.drop_first();
        lemma_value_combos(t);
        let rest = value_combos(t);
        lemma_prepend_each(ps[0].1, rest);
        assert(value_combos(ps) == prepend_each(ps[0].1, rest));
        assert forall|k: int| 0 <= k < value_combos(ps).len() implies (#[trigger] value_combos(ps)[k]).len()
            == ps.len() by {
            let c = value_combos(ps)[k];
            assert(c == prepend_each(ps[0].1, rest)[k]);
            let b = choose|b: int| 0 <= b < rest.len() && rest[b] == c.drop_first();
            assert(rest[b].len() == t.len());
        }
        assert forall|k: int, j: int| 0 <= k < value_combos(ps).len() && 0 <= j < ps.len() implies ps[j].1.contains(
            #[trigger] value_combos(ps)[k][j],
        ) by {
            let c = value_combos(ps)[k];
            assert(c == prepend_each(ps[0].1, rest)[k]);
            let b = choose|b: int| 0 <= b < rest.len() && rest[b] == c.drop_first();
            assert(rest[b].len() == t.len());
            if j > 0 {
                assert(c[j] == c.drop_first()[j - 1]);
                assert(t[j - 1] == ps[j]);
                assert(t[j - 1].1.contains(rest[b][j - 1]));
            }
        }
    }
}

/// The id part of a combination: `1=a-2=b-...`.
pub open spec fn combo_label(c: Seq<Seq<char>>) -> Seq<char> {
    join(Seq::new(c.len(), |i: int| decimal((i + 1) as nat) + "="@ + c[i]), "-"@)
}

/// `n` with another id and other markers.
pub open spec fn with_id_markers(n: NativeView, id: Seq<char>, markers: Seq<Seq<char>>) -> NativeView {
    NativeView {
        node_id: id,
        file_path: n.file_path,
        name: n.name,
        class_name: n.class_name,
        line_number: n.line_number,
        markers: markers,
        is_simple: n.is_simple,
        parameters: n.parameters,
        skip: n.skip,
        skip_reason: n.skip_reason,
        xfail: n.xfail,
        xfail_reason: n.xfail_reason,
        xfail_strict: n.xfail_strict,
    }
}

/// The tests that `n` becomes: itself when it uses no parametrized fixture;
/// one per value (`id[k]`, with a marker naming the fixture and value) when
/// it uses one; one per combination (`id[1=a-2=b]`) when it uses several.
pub open spec fn expanded_test(n: NativeView, ps: Seq<ParamEntry>) -> Seq<NativeView> {
    let used = used_params(n.markers, ps);
    if used.len() == 0 {
        seq![n]
    } else if used.len() == 1 {
        Seq::new(
            used[0].1.len(),
            |i: int|
                with_id_markers(
                    n,
                    n.node_id + "["@ + decimal((i + 1) as nat) + "]"@,
                    n.markers.push("fixture_param:"@ + used[0].0 + "="@ + used[0].1[i]),
                ),
        )
    } else {
        value_combos(used).map_values(
            |c: Seq<Seq<char>>| with_id_markers(n, n.node_id + "["@ + combo_label(c) + "]"@, n.markers),
        )
    }
}

/// The tests that each of `ns` becomes, in order.
pub open spec fn expanded_tests(ns: Seq<NativeView>, ps: Seq<ParamEntry>) -> Seq<NativeView>
    decreases ns.len(),
{
    if ns.len() == 0 {
        Seq::empty()
    } else {
        expanded_tests(ns.drop_last(), ps) + expanded_test(ns.last(), ps)
    }
}

/// A copy of a variant's parameters.
fn copy_record(p: &ParamRecord) -> (r: ParamRecord)
    ensures
        record_view(r) == record_view(*p),
{
    ParamRecord { names: copy_strings(&p.names), values: copy_strings(&p.values), id: p.id.clone() }
}

/// `n` with another id and other markers.
fn node_with(n: &NativeTestNode, node_id: String, markers: Vec<String>) -> (r: NativeTestNode)
    ensures
        native_view(r) == with_id_markers(native_view(*n), node_id@, string_views(markers@)),
{
    let mut parameters: Vec<ParamRecord> = Vec::new();
    let mut i: usize = 0;
    while i < n.parameters.len()
        invariant
            i <= n.parameters@.len(),
            parameters@.map_values(|p: ParamRecord| record_view(p)) == n.parameters@.take(
                i as int,
            ).map_values(|p: ParamRecord| record_view(p)),
        decreases n.parameters@.len() - i,
    {
        let c = copy_record(&n.parameters[i]);
        let ghost p0 = parameters@;
        parameters.push(c);
        assert(parameters@.map_values(|p: ParamRecord| record_view(p)) =~= p0.map_values(
            |p: ParamRecord| record_view(p),
        ).push(record_view(c)));
        assert(n.parameters@.take(i + 1).map_values(|p: ParamRecord| record_view(p))
            =~= n.parameters@.take(i as int).map_values(|p: ParamRecord| record_view(p)).push(
            record_view(n.parameters@[i as int]),
        ));
        i = i + 1;
    }
    assert(n.parameters@.take(i as int) =~= n.parameters@);
    NativeTestNode {
        node_id,
        file_path: n.file_path.clone(),
        name: n.name.clone(),
        class_name: copy_opt_string(&n.class_name),
        line_number: n.line_number,
        markers,
        is_simple: n.is_simple,
        parameters,
        skip: n.skip,
        skip_reason: copy_opt_string(&n.skip_reason),
        xfail: n.xfail,
        xfail_reason: copy_opt_string(&n.xfail_reason),
        xfail_strict: n.xfail_strict,
    }
}

/// Whether `v` holds a string equal to `s`.
fn holds_string(v: &Vec<String>, s: &String) -> (r: bool)
    ensures
        r == string_views(v@).contains(s@),
{
    let mut i: usize = 0;
    while i < v.len()
        invariant
            i <= v@.len(),
            forall|j: int| 0 <= j < i ==> v@[j]@ != s@,
        decreases v@.len() - i,
    {
        if str_eq(v[i].as_str(), s.as_str()) {
            assert(string_views(v@)[i as int] == s@);
            return true;
        }
        i = i + 1;
    }
    proof {
        if string_views(v@).contains(s@) {
            let j = choose|j: int| 0 <= j < string_views(v@).len() && string_views(v@)[j] == s@;
            assert(v@[j]@ == s@);
        }
    }
    false
}

/// The parametrized fixtures of `params` that a test with `markers` uses.
pub fn fixture_params_for_test(markers: &Vec<String>, params: &Table<Vec<String>>) -> (r: Vec<(String, Vec<String>)>)
    ensures
        entry_views(r@) == used_params(string_views(markers@), entry_views(params.entries@)),
{
    let ghost ps = entry_views(params.entries@);
    let mut r: Vec<(String, Vec<String>)> = Vec::new();
    let mut i: usize = 0;
    while i < params.entries.len()
        invariant
            i <= params.entries@.len(),
            ps == entry_views(params.entries@),
            entry_views(r@) == used_params(string_views(markers@), ps.take(i as int)),
        decreases params.entries@.len() - i,
    {
        proof {
            let t = ps.take(i + 1);
            assert(t.drop_last() =~= ps.take(i as int));
            assert(t.last() == ps[i as int]);
        }
        let entry = &params.entries[i];
        let mut expected = String::from_str("uses_fixture:");
        push_str_chars(&mut expected, entry.0.as_str());
        proof {
            reveal_strlit("uses_fixture:");
        }
        assert(expected@ == uses_marker(entry.0@));
        if holds_string(markers, &expected) {
            let c = copy_entry(entry);
            let ghost r0 = entry_views(r@);
            r.push(c);
            assert(entry_views(r@) =~= r0.push(ps[i as int]));
        }
        i = i + 1;
    }
    assert(ps.take(i as int) =~= ps);
    r
}

/// The plain content of value combinations.
pub open spec fn combo_views(cs: Seq<Vec<String>>) -> Seq<Seq<Seq<char>>> {
    cs.map_values(|c: Vec<String>| string_views(c@))
}

/// Each of `vs`, in order, put before each of `rest`.
fn prepend_values(vs: &Vec<String>, rest: &Vec<Vec<String>>) -> (r: Vec<Vec<String>>)
    ensures
        combo_views(r@) == prepend_each(string_views(vs@), combo_views(rest@)),
{
    let ghost rv = combo_views(rest@);
    let ghost vv = string_views(vs@);
    let mut r: Vec<Vec<String>> = Vec::new();
    let mut j: usize = 0;
    while j < vs.len()
        invariant
            j <= vs@.len(),
            rv == combo_views(rest@),
            vv == string_views(vs@),
            combo_views(r@) == prepend_each(vv.take(j as int), rv),
        decreases vs@.len() - j,
    {
        let ghost before = combo_views(r@);
        let mut k: usize = 0;
        while k < rest.len()
            invariant
                j < vs@.len(),
                k <= rest@.len(),
                rv == combo_views(rest@),
                vv == string_views(vs@),
                combo_views(r@) == before + rv.take(k as int).map_values(
                    |c: Seq<Seq<char>>| seq![vv[j as int]] + c,
                ),
            decreases rest@.len() - k,
        {
            let mut combo: Vec<String> = Vec::new();
            combo.push(vs[j].clone());
            let src = &rest[k];
            let mut m: usize = 0;
            while m < src.len()
                invariant
                    m <= src@.len(),
                    combo@.len() == m + 1,
                    combo@[0]@ == vv[j as int],
                    forall|q: int| 0 <= q < m ==> (#[trigger] combo@[q + 1])@ == src@[q]@,
                decreases src@.len() - m,
            {
                combo.push(src[m].clone());
                m = m + 1;
            }
            assert(rv[k as int] == string_views(src@));
            assert forall|q: int| 0 <= q < combo@.len() implies #[trigger] string_views(combo@)[q]
                == (seq![vv[j as int]] + string_views(src@))[q] by {
                if q > 0 {
                    assert(combo@[(q - 1) + 1]@ == src@[q - 1]@);
                }
            }
            assert(string_views(combo@) =~= seq![vv[j as int]] + string_views(src@));
            let ghost r0 = combo_views(r@);
            r.push(combo);
            assert(combo_views(r@) =~= r0.push(string_views(combo@)));
            assert(rv.take(k + 1).map_values(|c: Seq<Seq<char>>| seq![vv[j as int]] + c)
                =~= rv.take(k as int).map_values(|c: Seq<Seq<char>>| seq![vv[j as int]] + c).push(
                seq![vv[j as int]] + rv[k as int],
            ));
            k = k + 1;
        }
        proof {
            assert(rv.take(k as int) =~= rv);
            let t = vv.take(j + 1);
            assert(t.drop_last() =~= vv.take(j as int));
            assert(t.last() == vv[j as int]);
        }
        j = j + 1;
    }
    assert(vv.take(j as int) =~= vv);
    r
}

/// Every choice of one value of each fixture of `ps`, the first varying slowest.
pub fn fixture_value_combos(ps: &Vec<(String, Vec<String>)>) -> (r: Vec<Vec<String>>)
    ensures
        combo_views(r@) == value_combos(entry_views(ps@)),
{
    let ghost es = entry_views(ps@);
    let mut combos: Vec<Vec<String>> = Vec::new();
    combos.push(Vec::new());
    assert(string_views(combos@[0]@) =~= Seq::<Seq<char>>::empty());
    assert(combo_views(combos@) =~= seq![Seq::<Seq<char>>::empty()]);
    assert(es.subrange(ps@.len() as int, ps@.len() as int) =~= Seq::<ParamEntry>::empty());
    let mut i: usize = ps.len();
    while i > 0
        invariant
            i <= ps@.len(),
            es == entry_views(ps@),
            combo_views(combos@) == value_combos(es.subrange(i as int, ps@.len() as int)),
        decreases i,
    {
        i = i - 1;
        let next = prepend_values(&ps[i].1, &combos);
        proof {
            let sub = es.subrange(i as int, ps@.len() as int);
            assert(sub.drop_first() =~= es.subrange(i + 1, ps@.len() as int));
            assert(sub[0] == es[i as int]);
        }
        combos = next;
    }
    assert(es.subrange(0, ps@.len() as int) =~= es);
    combos
}

/// The id part of a combination of values.
pub fn combo_label_exec(c: &Vec<String>) -> (r: String)
    ensures
        r@ == combo_label(string_views(c@)),
{
    let ghost cv = string_views(c@);
    let mut parts: Vec<String> = Vec::new();
    let mut k: usize = 0;
    while k < c.len()
        invariant
            k <= c@.len(),
            cv == string_views(c@),
            string_views(parts@) =~= Seq::new(k as nat, |i: int| decimal((i + 1) as nat) + "="@ + cv[i]),
        decreases c@.len() - k,
    {
        let mut part = String::new();
        push_decimal(&mut part, (k + 1) as u64);
        push_str_chars(&mut part, "=");
        push_str_chars(&mut part, c[k].as_str());
        proof {
            reveal_strlit("");
        }
        assert(part@ =~= decimal((k + 1) as nat) + "="@ + cv[k as int]);
        let ghost p0 = string_views(parts@);
        parts.push(part);
        assert(string_views(parts@) =~= p0.push(part@));
        k = k + 1;
    }
    assert(string_views(parts@) =~= Seq::new(cv.len(), |i: int| decimal((i + 1) as nat) + "="@ + cv[i]));
    join_strings(&parts, "-")
}

/// Adds the tests that `n` becomes.
fn expand_test(n: &NativeTestNode, params: &Table<Vec<String>>, out: &mut Vec<NativeTestNode>)
    ensures
        native_views(final(out)@) == native_views(old(out)@) + expanded_test(
            native_view(*n),
            entry_views(params.entries@),
        ),
{
    let ghost nv = native_view(*n);
    let ghost all = expanded_test(nv, entry_views(params.entries@));
    let used = fixture_params_for_test(&n.markers, params);
    let ghost uv = entry_views(used@);
    assert(uv == used_params(nv.markers, entry_views(params.entries@)));
    if used.len() == 0 {
        let m = node_with(n, n.node_id.clone(), copy_strings(&n.markers));
        assert(native_view(m) == nv);
        let ghost o0 = native_views(out@);
        out.push(m);
        assert(native_views(out@) =~= o0 + all);
    } else if used.len() == 1 {
        let name = &used[0].0;
        let values = &used[0].1;
        assert(uv[0] == (name@, string_views(values@)));
        let ghost o0 = native_views(out@);
        let mut idx: usize = 0;
        while idx < values.len()
            invariant
                idx <= values@.len(),
                nv == native_view(*n),
                uv.len() == 1,
                uv[0] == (name@, string_views(values@)),
                all == expanded_test(nv, entry_views(params.entries@)),
                uv == used_params(nv.markers, entry_views(params.entries@)),
                all.len() == values@.len(),
                native_views(out@) == o0 + all.take(idx as int),
            decreases values@.len() - idx,
        {
            let mut id = n.node_id.clone();
            push_str_chars(&mut id, "[");
            push_decimal(&mut id, (idx + 1) as u64);
            push_str_chars(&mut id, "]");
            let mut marker = String::from_str("fixture_param:");
            push_str_chars(&mut marker, name.as_str());
            push_str_chars(&mut marker, "=");
            push_str_chars(&mut marker, values[idx].as_str());
            let mut markers = copy_strings(&n.markers);
            let ghost m0 = markers@;
            markers.push(marker);
            proof {
                reveal_strlit("fixture_param:");
                reveal_strlit("=");
                reveal_strlit("[");
                reveal_strlit("]");
            }
            assert(string_views(markers@) =~= nv.markers.push(
                "fixture_param:"@ + uv[0].0 + "="@ + uv[0].1[idx as int],
            ));
            let m = node_with(n, id, markers);
            assert(native_view(m) == all[idx as int]);
            let ghost oo = native_views(out@);
            out.push(m);
            assert(native_views(out@) =~= oo.push(native_view(m)));
            assert(all.take(idx + 1) =~= all.take(idx as int).push(all[idx as int]));
            idx = idx + 1;
        }
        assert(all.take(idx as int) =~= all);
    } else {
        let combos = fixture_value_combos(&used);
        let ghost cv = combo_views(combos@);
        assert(cv == value_combos(uv));
        let ghost o0 = native_views(out@);
        let mut idx: usize = 0;
        while idx < combos.len()
            invariant
                idx <= combos@.len(),
                nv == native_view(*n),
                uv.len() > 1,
                cv == combo_views(combos@),
                cv == value_combos(uv),
                all == expanded_test(nv, entry_views(params.entries@)),
                uv == used_params(nv.markers, entry_views(params.entries@)),
                all.len() == combos@.len(),
                native_views(out@) == o0 + all.take(idx as int),
            decreases combos@.len() - idx,
        {
            let label = combo_label_exec(&combos[idx]);
            let mut id = n.node_id.clone();
            push_str_chars(&mut id, "[");
            push_str_chars(&mut id, label.as_str());
            push_str_chars(&mut id, "]");
            proof {
                reveal_strlit("[");
                reveal_strlit("]");
            }
            assert(cv[idx as int] == string_views(combos@[idx as int]@));
            let m = node_with(n, id, copy_strings(&n.markers));
            assert(native_view(m) == all[idx as int]);
            let ghost oo = native_views(out@);
            out.push(m);
            assert(native_views(out@) =~= oo.push(native_view(m)));
            assert(all.take(idx + 1) =~= all.take(idx as int).push(all[idx as int]));
            idx = idx + 1;
        }
        assert(all.take(idx as int) =~= all);
    }
}

/// The tests that each of `tests` becomes with the parametrized fixtures of
/// `params`, in order.
pub fn expand_tests_by_fixture_params(tests: &Vec<NativeTestNode>, params: &Table<Vec<String>>) -> (r: Vec<NativeTestNode>)
    ensures
        native_views(r@) == expanded_tests(native_views(tests@), entry_views(params.entries@)),
{
    let ghost ps = entry_views(params.entries@);
    let mut r: Vec<NativeTestNode> = Vec::new();
    let mut i: usize = 0;
    while i < tests.len()
        invariant
            i <= tests@.len(),
            ps == entry_views(params.entries@),
            native_views(r@) == expanded_tests(native_views(tests@).take(i as int), ps),
        decreases tests@.len() - i,
    {
        proof {
            let t = native_views(tests@).take(i + 1);
            assert(t.drop_last() =~= native_views(tests@).take(i as int));
            assert(t.last() == native_view(tests@[i as int]));
        }
        expand_test(&tests[i], params, &mut r);
        i = i + 1;
    }
    assert(native_views(tests@).take(i as int) =~= native_views(tests@));
    r
}

} // verus!

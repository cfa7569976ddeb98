//! Test execution decisions: executor configuration and choice, pytest
//! command lines, batching, and reading outcomes from pytest's output.
//!
//! Running the interpreter is the application's part; the library decides
//! what is run and reads what came back.

use vstd::prelude::*;
use vstd::string::*;
use crate::error::DaemonError;
use crate::models::{ExecutionMode, TestOutcome, TestResult};
use crate::table::{Table, entry_map, lemma_entry_map_at};
use crate::text::{
    is_space, is_space_exec, split_by, find_first, rfind, contains, starts_with, decimal,
    char_vec_views, string_views, chars_of, string_of, slice_chars, find_chars, rfind_chars,
    contains_chars, starts_with_chars, split_chars, push_str_chars, push_decimal, push_char,
    signed_decimal, push_signed_decimal,
    lemma_find_from_bounds, lemma_rfind_from_bounds,
};

verus! {

broadcast use vstd::seq_lib::group_seq_properties;

// ---------------------------------------------------------------------------
// Lines and words
// ---------------------------------------------------------------------------

/// A line without the carriage return that ended it.
pub open spec fn strip_cr(l: Seq<char>) -> Seq<char> {
    if l.len() > 0 && l.last() == '\r' {
        l.drop_last()
    } else {
        l
    }
}

/// The lines of `s` as `str::lines` gives them: the pieces between line
/// feeds, each piece that a line feed ends without one trailing carriage
/// return, and no empty piece after the last line feed.
pub open spec fn lines_of(s: Seq<char>) -> Seq<Seq<char>> {
    let p = split_by(s, seq!['\n']);
    let head = p.drop_last().map_values(|l: Seq<char>| strip_cr(l));
    if p.last().len() == 0 {
        head
    } else {
        head.push(p.last())
    }
}

/// The first index at or after `i` that holds no white space, or the end.
pub open spec fn skip_space(s: Seq<char>, i: int) -> int
    decreases s.len() - i,
{
    if i < s.len() && is_space(s[i]) {
        skip_space(s, i + 1)
    } else {
        i
    }
}

/// The first index at or after `i` that holds white space, or the end.
pub open spec fn word_end(s: Seq<char>, i: int) -> int
    decreases s.len() - i,
{
    if i < s.len() && !is_space(s[i]) {
        word_end(s, i + 1)
    } else {
        i
    }
}

pub proof fn lemma_skip_space(s: Seq<char>, i: int)
    requires
        0 <= i,
    ensures
        i <= skip_space(s, i),
        i <= s.len() ==> skip_space(s, i) <= s.len(),
        skip_space(s, i) < s.len() ==> !is_space(s[skip_space(s, i)]),
        forall|k: int| i <= k < skip_space(s, i) ==> is_space(s[k]),
    decreases s.len() - i,
{
    if i < s.len() && is_space(s[i]) {
        lemma_skip_space(s, i + 1);
    }
}

pub proof fn lemma_word_end(s: Seq<char>, i: int)
    requires
        0 <= i,
    ensures
        i <= word_end(s, i),
        i <= s.len() ==> word_end(s, i) <= s.len(),
        word_end(s, i) < s.len() ==> is_space(s[word_end(s, i)]),
        forall|k: int| i <= k < word_end(s, i) ==> !is_space(s[k]),
    decreases s.len() - i,
{
    if i < s.len() && !is_space(s[i]) {
        lemma_word_end(s, i + 1);
    }
}

/// The white-space separated words of `s` from index `i` on.
pub open spec fn words_from(s: Seq<char>, i: int) -> Seq<Seq<char>>
    decreases s.len() - i,
{
    if i < 0 {
        seq![]
    } else {
        let a = skip_space(s, i);
        proof {
            lemma_skip_space(s, i);
            lemma_word_end(s, a);
        }
        if a >= s.len() {
            seq![]
        } else {
            let b = word_end(s, a);
            seq![s.subrange(a, b)] + words_from(s, b)
        }
    }
}

/// The white-space separated words of `s` (as `str::split_whitespace`).
pub open spec fn words(s: Seq<char>) -> Seq<Seq<char>> {
    words_from(s, 0)
}

/// The lines of `s`.
pub fn lines_exec(s: &Vec<char>) -> (r: Vec<Vec<char>>)
    ensures
        char_vec_views(r@) == lines_of(s@),
{
    let nl = ['\n'];
    assert(nl@ =~= seq!['\n']);
    let pieces = split_chars(s, &nl);
    let ghost p = split_by(s@, seq!['\n']);
    assert(char_vec_views(pieces@) == p);
    assert(p.len() >= 1) by {
        reveal_with_fuel(split_by, 2);
        lemma_find_from_bounds(s@, seq!['\n'], 0);
    }
    let n = pieces.len();
    let mut r: Vec<Vec<char>> = Vec::new();
    let mut i: usize = 0;
    while i + 1 < n
        invariant
            n == pieces@.len(),
            n >= 1,
            char_vec_views(pieces@) == p,
            i + 1 <= n,
            char_vec_views(r@) == p.drop_last().map_values(|l: Seq<char>| strip_cr(l)).take(i as int),
        decreases n - i,
    {
        let piece = &pieces[i];
        let m = piece.len();
        let line = if m > 0 && piece[m - 1] == '\r' {
            slice_chars(piece, 0, m - 1)
        } else {
            slice_chars(piece, 0, m)
        };
        assert(p[i as int] == piece@);
        assert(line@ =~= strip_cr(piece@));
        let ghost r0 = r@;
        r.push(line);
        assert(char_vec_views(r@) =~= char_vec_views(r0).push(line@));
        assert(p.drop_last().map_values(|l: Seq<char>| strip_cr(l)).take(i + 1) =~= p.drop_last().map_values(
            |l: Seq<char>| strip_cr(l),
        ).take(i as int).push(strip_cr(p[i as int])));
        i = i + 1;
    }
    assert(p.drop_last().map_values(|l: Seq<char>| strip_cr(l)).take(i as int) =~= p.drop_last().map_values(
        |l: Seq<char>| strip_cr(l),
    ));
    let last = &pieces[n - 1];
    assert(last@ == p.last());
    if last.len() > 0 {
        let ghost r0 = r@;
        r.push(slice_chars(last, 0, last.len()));
        assert(last@.subrange(0, last@.len() as int) =~= last@);
        assert(char_vec_views(r@) =~= char_vec_views(r0).push(last@));
    }
    r
}

/// The white-space separated words of `s`.
pub fn words_exec(s: &Vec<char>) -> (r: Vec<Vec<char>>)
    ensures
        char_vec_views(r@) == words(s@),
{
    let n = s.len();
    let mut r: Vec<Vec<char>> = Vec::new();
    let mut i: usize = 0;
    loop
        invariant
            n == s@.len(),
            i <= n,
            words(s@) == char_vec_views(r@) + words_from(s@, i as int),
        decreases n - i,
    {
        let ghost i0 = i as int;
        proof {
            lemma_skip_space(s@, i0);
        }
        let mut a = i;
        while a < n && is_space_exec(s[a])
            invariant
                n == s@.len(),
                i <= a <= n,
                skip_space(s@, a as int) == skip_space(s@, i0),
            decreases n - a,
        {
            a = a + 1;
        }
        assert(a == skip_space(s@, i0));
        if a >= n {
            assert(words_from(s@, i0) == Seq::<Seq<char>>::empty());
            assert(char_vec_views(r@) + Seq::<Seq<char>>::empty() =~= char_vec_views(r@));
            return r;
        }
        proof {
            lemma_word_end(s@, a as int);
        }
        let mut b = a;
        while b < n && !is_space_exec(s[b])
            invariant
                n == s@.len(),
                a <= b <= n,
                word_end(s@, b as int) == word_end(s@, a as int),
            decreases n - b,
        {
            b = b + 1;
        }
        assert(b == word_end(s@, a as int));
        assert(b > a) by {
            assert(!is_space(s@[a as int]));
        }
        let w = slice_chars(s, a, b);
        let ghost r0 = r@;
        r.push(w);
        proof {
            assert(words_from(s@, i0) == seq![w@] + words_from(s@, b as int));
            assert(char_vec_views(r@) =~= char_vec_views(r0).push(w@));
            assert(char_vec_views(r0) + words_from(s@, i0) =~= char_vec_views(r@) + words_from(
                s@,
                b as int,
            ));
        }
        i = b;
    }
}

// ---------------------------------------------------------------------------
// Reading outcomes from pytest's verbose output
// ---------------------------------------------------------------------------

/// The outcome a status word announces, by its beginning.
pub open spec fn word_outcome(w: Seq<char>) -> Option<TestOutcome> {
    if starts_with(w, "PASSED"@) {
        Some(TestOutcome::Passed)
    } else if starts_with(w, "FAILED"@) {
        Some(TestOutcome::Failed)
    } else if starts_with(w, "SKIPPED"@) {
        Some(TestOutcome::Skipped)
    } else if starts_with(w, "XFAIL"@) {
        Some(TestOutcome::Xfail)
    } else if starts_with(w, "XPASS"@) {
        Some(TestOutcome::Xpass)
    } else {
        None
    }
}

/// The outcome of the first status word among `ws`.
pub open spec fn first_outcome(ws: Seq<Seq<char>>) -> Option<TestOutcome>
    decreases ws.len(),
{
    if ws.len() == 0 {
        None
    } else {
        match word_outcome(ws[0]) {
            Some(o) => Some(o),
            None => first_outcome(ws.drop_first()),
        }
    }
}

/// What a line reports: the test named by its first word, with the outcome
/// of the first status word after it.
pub open spec fn line_report(l: Seq<char>) -> Option<(Seq<char>, TestOutcome)> {
    let ws = words(l);
    if ws.len() == 0 {
        None
    } else {
        match first_outcome(ws.drop_first()) {
            Some(o) => Some((ws[0], o)),
            None => None,
        }
    }
}

/// The name of a test reference: what follows its last `::`.
pub open spec fn ref_tail(r: Seq<char>) -> Option<Seq<char>> {
    match rfind(r, "::"@) {
        Some(p) => Some(r.subrange(p + 2, r.len() as int)),
        None => None,
    }
}

/// The outcomes reported by `lines`, by full test reference and by test
/// name; a later report replaces an earlier one.
pub open spec fn outcome_map(lines: Seq<Seq<char>>) -> Map<Seq<char>, TestOutcome>
    decreases lines.len(),
{
    if lines.len() == 0 {
        Map::empty()
    } else {
        let m = outcome_map(lines.drop_last());
        match line_report(lines.last()) {
            Some((r, o)) => {
                let m1 = m.insert(r, o);
                match ref_tail(r) {
                    Some(t) => m1.insert(t, o),
                    None => m1,
                }
            },
            None => m,
        }
    }
}

/// The outcome reported for a node id: by the full id, else by what
/// follows its first `::`.
pub open spec fn reported_outcome(m: Map<Seq<char>, TestOutcome>, id: Seq<char>) -> Option<TestOutcome> {
    if m.contains_key(id) {
        Some(m[id])
    } else {
        match find_first(id, "::"@) {
            Some(p) => {
                let t = id.subrange(p + 2, id.len() as int);
                if m.contains_key(t) {
                    Some(m[t])
                } else {
                    None
                }
            },
            None => None,
        }
    }
}

/// The final summary of the output mentions passed tests.
pub open spec fn summary_passed(out: Seq<char>) -> bool {
    contains(out, " passed]"@) || contains(out, " passed in"@)
}

/// The final summary of the output mentions failed tests.
pub open spec fn summary_failed(out: Seq<char>) -> bool {
    contains(out, " failed]"@) || contains(out, " failed in"@)
}

/// The final summary of the output mentions skipped tests.
pub open spec fn summary_skipped(out: Seq<char>) -> bool {
    contains(out, " skipped]"@) || contains(out, " skipped in"@)
}

/// The final summary of the output mentions errors.
pub open spec fn summary_errors(out: Seq<char>) -> bool {
    contains(out, " error]"@) || contains(out, " errors in"@)
}

/// The outcome given to a test that no line reports: from the summary, and
/// passed when the summary says nothing.
pub open spec fn summary_outcome(out: Seq<char>) -> TestOutcome {
    if summary_passed(out) && !summary_failed(out) {
        TestOutcome::Passed
    } else if summary_failed(out) && !summary_passed(out) {
        TestOutcome::Failed
    } else if summary_errors(out) {
        TestOutcome::Error
    } else if summary_skipped(out) {
        TestOutcome::Skipped
    } else {
        TestOutcome::Passed
    }
}

/// The outcome of one requested test in a batch's output.
pub open spec fn batch_outcome(out: Seq<char>, id: Seq<char>) -> TestOutcome {
    let o = match reported_outcome(outcome_map(lines_of(out)), id) {
        Some(o) => o,
        None => TestOutcome::Error,
    };
    if o == TestOutcome::Error {
        summary_outcome(out)
    } else {
        o
    }
}

/// The outcome a status word announces.
fn word_outcome_exec(w: &Vec<char>) -> (r: Option<TestOutcome>)
    ensures
        r == word_outcome(w@),
{
    if starts_with_chars(w, &chars_of("PASSED")) {
        Some(TestOutcome::Passed)
    } else if starts_with_chars(w, &chars_of("FAILED")) {
        Some(TestOutcome::Failed)
    } else if starts_with_chars(w, &chars_of("SKIPPED")) {
        Some(TestOutcome::Skipped)
    } else if starts_with_chars(w, &chars_of("XFAIL")) {
        Some(TestOutcome::Xfail)
    } else if starts_with_chars(w, &chars_of("XPASS")) {
        Some(TestOutcome::Xpass)
    } else {
        None
    }
}

/// What a line reports.
fn line_report_exec(l: &Vec<char>) -> (r: Option<(Vec<char>, TestOutcome)>)
    ensures
        r matches Some(x) ==> line_report(l@) == Some((x.0@, x.1)),
        r is None ==> line_report(l@) is None,
{
    let ws = words_exec(l);
    let ghost wv = words(l@);
    if ws.len() == 0 {
        return None;
    }
    let mut k: usize = 1;
    while k < ws.len()
        invariant
            char_vec_views(ws@) == wv,
            wv == words(l@),
            1 <= k <= ws@.len(),
            first_outcome(wv.drop_first()) == first_outcome(wv.subrange(k as int, wv.len() as int)),
        decreases ws@.len() - k,
    {
        let ghost rest = wv.subrange(k as int, wv.len() as int);
        assert(rest[0] == ws@[k as int]@);
        match word_outcome_exec(&ws[k]) {
            Some(o) => {
                assert(first_outcome(rest) == Some(o));
                let first = slice_chars(&ws[0], 0, ws[0].len());
                assert(ws@[0]@.subrange(0, ws@[0]@.len() as int) =~= ws@[0]@);
                assert(wv[0] == ws@[0]@);
                assert(first@ == wv[0]);
                assert(first_outcome(wv.drop_first()) == Some(o));

                return Some((first, o));
            },
            None => {
                assert(rest.drop_first() =~= wv.subrange(k + 1, wv.len() as int));
            },
        }
        k = k + 1;
    }
    assert(wv.subrange(k as int, wv.len() as int) =~= Seq::<Seq<char>>::empty());
    None
}

/// Puts `o` under `key`, replacing what was there.
fn put_outcome(t: &mut Table<TestOutcome>, key: String, o: TestOutcome)
    requires
        old(t).wf(),
    ensures
        final(t).wf(),
        final(t).map() == old(t).map().insert(key@, o),
{
    match t.find(&key) {
        Some(i) => {
            t.set_value(i, o);
        },
        None => {
            t.push(key, o);
        },
    }
}

/// The outcome stored under `key`, if any.
fn get_outcome(t: &Table<TestOutcome>, key: &String) -> (r: Option<TestOutcome>)
    requires
        t.wf(),
    ensures
        r == (if t.map().contains_key(key@) {
            Some(t.map()[key@])
        } else {
            None
        }),
{
    match t.find(key) {
        Some(i) => {
            proof {
                lemma_entry_map_at(t.entries@, i as int);
            }
            Some(t.entries[i].1)
        },
        None => None,
    }
}

/// Parse a batch's output into one result per requested test, in the order
/// requested: the outcome reported for the test by a line of the output, or
/// else the one the final summary suggests. Durations and messages are not read.
pub fn parse_batch_output(node_ids: &Vec<String>, output: &str) -> (r: Vec<TestResult>)
    ensures
        r@.len() == node_ids@.len(),
        forall|i: int|
            0 <= i < r@.len() ==> {
                &&& (#[trigger] r@[i]).node_id@ == node_ids@[i]@
                &&& r@[i].outcome == batch_outcome(output@, node_ids@[i]@)
                &&& r@[i].duration_ms == 0
                &&& r@[i].message is None
                &&& r@[i].stdout is None
                &&& r@[i].stderr is None
            },
{
    let out = chars_of(output);
    let lines = lines_exec(&out);
    let ghost ls = lines_of(output@);
    let mut table: Table<TestOutcome> = Table::new();
    let mut i: usize = 0;
    while i < lines.len()
        invariant
            char_vec_views(lines@) == ls,
            i <= lines@.len(),
            table.wf(),
            table.map() == outcome_map(ls.take(i as int)),
        decreases lines@.len() - i,
    {
        proof {
            assert(ls.take(i + 1).drop_last() =~= ls.take(i as int));
            assert(ls.take(i + 1).last() == lines@[i as int]@);
        }
        match line_report_exec(&lines[i]) {
            Some((r, o)) => {
                let key = string_of(&r, 0, r.len());
                assert(r@.subrange(0, r@.len() as int) =~= r@);
                put_outcome(&mut table, key, o);
                let colons = chars_of("::");
                proof {
                    reveal_strlit("::");
                }
                match rfind_chars(&r, &colons) {
                    Some(p) => {
                        proof {
                            lemma_rfind_from_bounds(r@, "::"@, r@.len() - 2);
                        }
                        let n = r.len();
                        assert(p + 2 <= n);
                        let tail = string_of(&r, p + 2, n);
                        put_outcome(&mut table, tail, o);
                    },
                    None => {},
                }
            },
            None => {},
        }
        i = i + 1;
    }
    assert(ls.take(i as int) =~= ls);
    let ghost m = outcome_map(ls);
    let passed = contains_chars(&out, &chars_of(" passed]")) || contains_chars(
        &out,
        &chars_of(" passed in"),
    );
    let failed = contains_chars(&out, &chars_of(" failed]")) || contains_chars(
        &out,
        &chars_of(" failed in"),
    );
    let skipped = contains_chars(&out, &chars_of(" skipped]")) || contains_chars(
        &out,
        &chars_of(" skipped in"),
    );
    let errors = contains_chars(&out, &chars_of(" error]")) || contains_chars(
        &out,
        &chars_of(" errors in"),
    );
    let fallback = if passed && !failed {
        TestOutcome::Passed
    } else if failed && !passed {
        TestOutcome::Failed
    } else if errors {
        TestOutcome::Error
    } else if skipped {
        TestOutcome::Skipped
    } else {
        TestOutcome::Passed
    };
    assert(fallback == summary_outcome(output@));
    let mut results: Vec<TestResult> = Vec::new();
    let mut j: usize = 0;
    while j < node_ids.len()
        invariant
            table.wf(),
            table.map() == m,
            m == outcome_map(lines_of(output@)),
            fallback == summary_outcome(output@),
            j <= node_ids@.len(),
            results@.len() == j,
            forall|k: int|
                0 <= k < j ==> {
                    &&& (#[trigger] results@[k]).node_id@ == node_ids@[k]@
                    &&& results@[k].outcome == batch_outcome(output@, node_ids@[k]@)
                    &&& results@[k].duration_ms == 0
                    &&& results@[k].message is None
                    &&& results@[k].stdout is None
                    &&& results@[k].stderr is None
                },
        decreases node_ids@.len() - j,
    {
        let id = &node_ids[j];
        let found = match get_outcome(&table, id) {
            Some(o) => Some(o),
            None => {
                let idc = chars_of(id.as_str());
                let colons = chars_of("::");
                proof {
                    reveal_strlit("::");
                }
                match find_chars(&idc, &colons) {
                    Some(p) => {
                        proof {
                            lemma_find_from_bounds(idc@, "::"@, 0);
                        }
                        let n = idc.len();
                        assert(p + 2 <= n);
                        let tail = string_of(&idc, p + 2, n);
                        get_outcome(&table, &tail)
                    },
                    None => None,
                }
            },
        };
        assert(found == reported_outcome(m, id@));
        let o = match found {
            Some(o) => o,
            None => TestOutcome::Error,
        };
        let outcome = match o {
            TestOutcome::Error => fallback,
            other => other,
        };
        results.push(
            TestResult {
                node_id: id.clone(),
                outcome,
                duration_ms: 0,
                message: None,
                stdout: None,
                stderr: None,
            },
        );
        j = j + 1;
    }
    results
}

// ---------------------------------------------------------------------------
// Single-test output, messages
// ---------------------------------------------------------------------------

/// The outcome of a single-test run, read from its whole output.
pub open spec fn single_outcome(out: Seq<char>) -> TestOutcome {
    if contains(out, "1 passed"@) || contains(out, "PASSED"@) {
        TestOutcome::Passed
    } else if contains(out, "1 failed"@) || contains(out, "FAILED"@) {
        TestOutcome::Failed
    } else if contains(out, "1 skipped"@) || contains(out, "SKIPPED"@) {
        TestOutcome::Skipped
    } else {
        TestOutcome::Error
    }
}

/// A line that carries an error message.
pub open spec fn is_message_line(l: Seq<char>) -> bool {
    contains(l, "AssertionError"@) || contains(l, "Error:"@) || contains(l, "FAILED:"@)
}

/// The first of `ls` that carries an error message.
pub open spec fn first_message(ls: Seq<Seq<char>>) -> Option<Seq<char>>
    decreases ls.len(),
{
    if ls.len() == 0 {
        None
    } else if is_message_line(ls[0]) {
        Some(ls[0])
    } else {
        first_message(ls.drop_first())
    }
}

/// Parse the output of a single-test run to determine its outcome: a pass,
/// else a failure, else a skip is recognised by the summary count or the
/// status word; anything else is an error.
pub fn parse_pytest_output(output: &str) -> (r: TestOutcome)
    ensures
        r == single_outcome(output@),
{
    let out = chars_of(output);
    if contains_chars(&out, &chars_of("1 passed")) || contains_chars(&out, &chars_of("PASSED")) {
        return TestOutcome::Passed;
    }
    if contains_chars(&out, &chars_of("1 failed")) || contains_chars(&out, &chars_of("FAILED")) {
        return TestOutcome::Failed;
    }
    if contains_chars(&out, &chars_of("1 skipped")) || contains_chars(&out, &chars_of("SKIPPED")) {
        return TestOutcome::Skipped;
    }
    TestOutcome::Error
}

/// Extract an error message from output: the first line that mentions an
/// assertion error, an `Error:` or a `FAILED:`.
pub fn extract_message(output: &str) -> (r: Option<String>)
    ensures
        r matches Some(m) ==> first_message(lines_of(output@)) == Some(m@),
        r is None ==> first_message(lines_of(output@)) is None,
{
    let out = chars_of(output);
    let lines = lines_exec(&out);
    let ghost ls = lines_of(output@);
    let a = chars_of("AssertionError");
    let b = chars_of("Error:");
    let c = chars_of("FAILED:");
    let mut i: usize = 0;
    while i < lines.len()
        invariant
            char_vec_views(lines@) == ls,
            ls == lines_of(output@),
            a@ == "AssertionError"@,
            b@ == "Error:"@,
            c@ == "FAILED:"@,
            i <= lines@.len(),
            first_message(ls) == first_message(ls.subrange(i as int, ls.len() as int)),
        decreases lines@.len() - i,
    {
        let l = &lines[i];
        let ghost rest = ls.subrange(i as int, ls.len() as int);
        assert(rest[0] == l@);
        if contains_chars(l, &a) || contains_chars(l, &b) || contains_chars(l, &c) {
            let m = string_of(l, 0, l.len());
            assert(l@.subrange(0, l@.len() as int) =~= l@);
            return Some(m);
        }
        assert(rest.drop_first() =~= ls.subrange(i + 1, ls.len() as int));
        i = i + 1;
    }
    assert(ls.subrange(i as int, ls.len() as int) =~= Seq::<Seq<char>>::empty());
    None
}

// ---------------------------------------------------------------------------
// Executor configuration
// ---------------------------------------------------------------------------

/// The batch size for a machine with `cpus` processors: 50 tests per
/// processor, and at least 500.
pub open spec fn batch_size_spec(cpus: int) -> int {
    if cpus * 50 > 500 {
        cpus * 50
    } else {
        500
    }
}

/// The batch size for `cpus` processors, where the largest `usize` stands
/// for a product that does not fit.
pub open spec fn batch_size_on(cpus: int) -> int {
    if cpus * 50 <= usize::MAX {
        batch_size_spec(cpus)
    } else {
        usize::MAX as int
    }
}

/// The number of processors available to this process (`num_cpus::get`),
/// which its documentation says is at least 1.
#[verifier::external_body]
fn cpu_count() -> (r: usize)
    ensures
        r >= 1,
{
    num_cpus::get()
}

/// Executor configuration.
#[derive(Debug, Clone)]
pub struct ExecutorConfig {
    /// Number of parallel workers
    pub workers: Option<u32>,
    /// Stop after N failures
    pub maxfail: Option<u32>,
    /// Batch size for grouping tests
    pub batch_size: usize,
    /// Timeout per test in seconds
    pub test_timeout_secs: u64,
    /// Extra pytest arguments
    pub extra_args: Vec<String>,
}

impl Default for ExecutorConfig {
    fn default() -> (r: Self)
        ensures
            r.workers is None,
            r.maxfail is None,
            r.batch_size == 0,
            r.test_timeout_secs == 0,
            r.extra_args@.len() == 0,
    {
        ExecutorConfig {
            workers: None,
            maxfail: None,
            batch_size: 0,
            test_timeout_secs: 0,
            extra_args: Vec::new(),
        }
    }
}

impl ExecutorConfig {
    /// Create default config with a batch size adapted to the machine.
    pub fn new() -> (r: Self)
        ensures
            r.workers is None,
            r.maxfail is None,
            exists|cpus: int| cpus >= 1 && r.batch_size == #[trigger] batch_size_on(cpus),
            r.batch_size >= 500,
            r.test_timeout_secs == 60,
            r.extra_args@.len() == 0,
    {
        ExecutorConfig {
            workers: None,
            maxfail: None,
            batch_size: Self::optimal_batch_size(),
            test_timeout_secs: 60,
            extra_args: Vec::new(),
        }
    }

    /// The batch size for a machine with `cpus` processors.
    pub fn batch_size_for(cpus: usize) -> (r: usize)
        requires
            cpus * 50 <= usize::MAX,
        ensures
            r == batch_size_spec(cpus as int),
    {
        let b = cpus * 50;
        if b > 500 {
            b
        } else {
            500
        }
    }

    /// Calculate the batch size for this machine: 50 tests per processor and
    /// at least 500 (the largest `usize` where the product does not fit).
    pub fn optimal_batch_size() -> (r: usize)
        ensures
            exists|cpus: int| cpus >= 1 && r == #[trigger] batch_size_on(cpus),
            r >= 500,
    {
        let cpus = cpu_count();
        if cpus <= usize::MAX / 50 {
            let r = Self::batch_size_for(cpus);
            assert(cpus >= 1 && r == batch_size_on(cpus as int));
            r
        } else {
            assert(cpus * 50 > usize::MAX);
            assert(usize::MAX == batch_size_on(cpus as int));
            usize::MAX
        }
    }
}

// ---------------------------------------------------------------------------
// Pytest command lines and batches
// ---------------------------------------------------------------------------

/// The arguments given to the interpreter to run `node_ids` under pytest.
pub open spec fn pytest_args_spec(node_ids: Seq<Seq<char>>, maxfail: Option<u32>, extra: Seq<Seq<char>>) -> Seq<Seq<char>> {
    seq!["-m"@, "pytest"@] + node_ids + seq!["-v"@, "--tb=short"@, "--no-header"@] + match maxfail {
        Some(n) => seq!["--maxfail"@, decimal(n as nat)],
        None => Seq::empty(),
    } + extra + seq!["--capture=no"@]
}

/// Pushes a copy of `s` onto `v`.
fn push_string(v: &mut Vec<String>, s: &str)
    ensures
        string_views(final(v)@) == string_views(old(v)@).push(s@),
{
    let ghost before = v@;
    v.push(String::from_str(s));
    assert(string_views(v@) =~= string_views(before).push(s@));
}

/// The arguments given to the interpreter to run `node_ids` under pytest
/// with this configuration: verbose output with short tracebacks and no
/// header, the failure limit if one is set, the extra arguments, no capture.
pub fn pytest_args(node_ids: &Vec<String>, config: &ExecutorConfig) -> (r: Vec<String>)
    ensures
        string_views(r@) == pytest_args_spec(
            string_views(node_ids@),
            config.maxfail,
            string_views(config.extra_args@),
        ),
{
    let mut r: Vec<String> = Vec::new();
    push_string(&mut r, "-m");
    push_string(&mut r, "pytest");
    let ghost head = string_views(r@);
    let mut i: usize = 0;
    while i < node_ids.len()
        invariant
            i <= node_ids@.len(),
            string_views(r@) == head + string_views(node_ids@).take(i as int),
        decreases node_ids@.len() - i,
    {
        push_string(&mut r, node_ids[i].as_str());
        assert(string_views(node_ids@).take(i + 1) =~= string_views(node_ids@).take(i as int).push(
            node_ids@[i as int]@,
        ));
        i = i + 1;
    }
    assert(string_views(node_ids@).take(i as int) =~= string_views(node_ids@));
    push_string(&mut r, "-v");
    push_string(&mut r, "--tb=short");
    push_string(&mut r, "--no-header");
    match config.maxfail {
        Some(n) => {
            push_string(&mut r, "--maxfail");
            let mut d = String::new();
            push_decimal(&mut d, n as u64);
            let ghost before = r@;
            r.push(d);
            assert(string_views(r@) =~= string_views(before).push(decimal(n as nat)));
        },
        None => {},
    }
    let ghost mid = string_views(r@);
    let mut j: usize = 0;
    while j < config.extra_args.len()
        invariant
            j <= config.extra_args@.len(),
            string_views(r@) == mid + string_views(config.extra_args@).take(j as int),
        decreases config.extra_args@.len() - j,
    {
        push_string(&mut r, config.extra_args[j].as_str());
        assert(string_views(config.extra_args@).take(j + 1) =~= string_views(
            config.extra_args@,
        ).take(j as int).push(config.extra_args@[j as int]@));
        j = j + 1;
    }
    assert(string_views(config.extra_args@).take(j as int) =~= string_views(config.extra_args@));
    push_string(&mut r, "--capture=no");
    assert(string_views(r@) =~= pytest_args_spec(
        string_views(node_ids@),
        config.maxfail,
        string_views(config.extra_args@),
    ));
    r
}

/// One `<id> PASSED` line per test.
pub open spec fn passed_lines(node_ids: Seq<Seq<char>>) -> Seq<char>
    decreases node_ids.len(),
{
    if node_ids.len() == 0 {
        Seq::empty()
    } else {
        passed_lines(node_ids.drop_last()) + node_ids.last() + " PASSED\n"@
    }
}

/// The stand-in output: one `PASSED` line per test and a summary line.
pub open spec fn fake_lines(node_ids: Seq<Seq<char>>) -> Seq<char> {
    passed_lines(node_ids) + decimal(node_ids.len()) + " passed in 0.01s\n"@
}

/// The output of a stand-in run (used when no interpreter is to be started):
/// every test passes.
pub fn fake_pytest_output(node_ids: &Vec<String>) -> (r: String)
    ensures
        r@ == fake_lines(string_views(node_ids@)),
{
    let mut out = String::new();
    let mut i: usize = 0;
    while i < node_ids.len()
        invariant
            i <= node_ids@.len(),
            out@ == passed_lines(string_views(node_ids@).take(i as int)),
        decreases node_ids@.len() - i,
    {
        push_str_chars(&mut out, node_ids[i].as_str());
        push_str_chars(&mut out, " PASSED\n");
        proof {
            let t = string_views(node_ids@).take(i + 1);
            assert(t.drop_last() =~= string_views(node_ids@).take(i as int));
            assert(t.last() == node_ids@[i as int]@);
        }
        i = i + 1;
    }
    assert(string_views(node_ids@).take(i as int) =~= string_views(node_ids@));
    push_decimal(&mut out, node_ids.len() as u64);
    push_str_chars(&mut out, " passed in 0.01s\n");
    out
}

/// The pieces of `ids` of `size` tests each, the last one possibly shorter.
pub open spec fn chunks_spec(ids: Seq<Seq<char>>, size: nat) -> Seq<Seq<Seq<char>>>
    decreases ids.len(),
{
    if ids.len() == 0 || size == 0 {
        Seq::empty()
    } else if ids.len() <= size {
        seq![ids]
    } else {
        seq![ids.take(size as int)] + chunks_spec(ids.skip(size as int), size)
    }
}

/// Split the tests into batches of `batch_size`, in order (as `slice::chunks`).
pub fn split_batches(node_ids: &Vec<String>, batch_size: usize) -> (r: Vec<Vec<String>>)
    requires
        batch_size > 0,
    ensures
        r@.map_values(|b: Vec<String>| string_views(b@)) == chunks_spec(string_views(node_ids@), batch_size as nat),
{
    let n = node_ids.len();
    let mut r: Vec<Vec<String>> = Vec::new();
    let mut start: usize = 0;
    let ghost ids = string_views(node_ids@);
    while start < n
        invariant
            n == node_ids@.len(),
            ids == string_views(node_ids@),
            start <= n,
            batch_size > 0,
            chunks_spec(ids, batch_size as nat) == r@.map_values(|b: Vec<String>| string_views(b@))
                + chunks_spec(ids.skip(start as int), batch_size as nat),
        decreases n - start,
    {
        let end = if n - start > batch_size {
            start + batch_size
        } else {
            n
        };
        let mut batch: Vec<String> = Vec::new();
        let mut k = start;
        while k < end
            invariant
                start <= k <= end <= n,
                n == node_ids@.len(),
                string_views(batch@) == ids.subrange(start as int, k as int),
                ids == string_views(node_ids@),
            decreases end - k,
        {
            let ghost b0 = batch@;
            batch.push(node_ids[k].clone());
            assert(string_views(batch@) =~= string_views(b0).push(ids[k as int]));
            assert(ids.subrange(start as int, k + 1) =~= ids.subrange(start as int, k as int).push(
                ids[k as int],
            ));
            k = k + 1;
        }
        proof {
            let rest = ids.skip(start as int);
            if n - start > batch_size {
                assert(rest.take(batch_size as int) =~= ids.subrange(start as int, end as int));
                assert(rest.skip(batch_size as int) =~= ids.skip(end as int));
            } else {
                assert(rest =~= ids.subrange(start as int, end as int));
                assert(ids.skip(end as int) =~= Seq::<Seq<char>>::empty());
            }
        }
        let ghost r0 = r@;
        r.push(batch);
        assert(r@.map_values(|b: Vec<String>| string_views(b@)) =~= r0.map_values(
            |b: Vec<String>| string_views(b@),
        ).push(ids.subrange(start as int, end as int)));
        start = end;
    }
    assert(ids.skip(start as int) =~= Seq::<Seq<char>>::empty());
    assert(r@.map_values(|b: Vec<String>| string_views(b@)) + Seq::<Seq<Seq<char>>>::empty()
        =~= r@.map_values(|b: Vec<String>| string_views(b@)));
    r
}

/// Batches run side by side only with more than one worker and more than one batch.
pub fn runs_in_parallel(workers: Option<u32>, batch_count: usize) -> (r: bool)
    ensures
        r == ((match workers {
            Some(w) => w as int,
            None => 1,
        }) > 1 && batch_count > 1),
{
    let w: u32 = match workers {
        Some(w) => w,
        None => 1,
    };
    w > 1 && batch_count > 1
}

/// Tests per worker below which a pooled run uses fewer workers.
pub const MIN_BATCH_SIZE: usize = 50;

/// How many pool workers a run of `test_count` tests uses with `workers`
/// available: one for up to 50 tests, else no more than keep 50 tests per
/// worker (rounding up), and no more than available.
pub fn pooled_worker_count(test_count: usize, workers: usize) -> (r: usize)
    ensures
        test_count <= 50 ==> r == 1,
        test_count > 50 ==> r == (if workers < (test_count + 49) / 50 {
            workers as int
        } else {
            (test_count + 49) / 50
        }),
{
    if test_count <= MIN_BATCH_SIZE {
        1
    } else {
        let needed = test_count / MIN_BATCH_SIZE + if test_count % MIN_BATCH_SIZE != 0 {
            1usize
        } else {
            0usize
        };
        assert(needed == (test_count + 49) / 50);
        if workers < needed {
            workers
        } else {
            needed
        }
    }
}

/// A processor count taken as a `u32`, as a `usize` again.
pub open spec fn u32_width(c: usize) -> usize {
    (c as u32) as usize
}

/// The workers available to a pooled run: as configured, else one per
/// processor (its count taken as a `u32`).
pub fn requested_workers(workers: Option<u32>) -> (r: usize)
    ensures
        workers matches Some(w) ==> r == w,
        workers is None ==> exists|cpus: usize| cpus >= 1 && r == #[trigger] u32_width(cpus),
{
    match workers {
        Some(w) => w as usize,
        None => {
            let cpus = cpu_count();
            let r = (cpus as u32) as usize;
            assert(r == u32_width(cpus));
            r
        },
    }
}

// ---------------------------------------------------------------------------
// Choosing an executor
// ---------------------------------------------------------------------------

/// The kinds of executors that run tests.
#[derive(Debug, Clone, Copy, PartialEq, Eq, Structural)]
pub enum ExecutorKind {
    /// The interpreter embedded in the daemon's process.
    Embedded,
    /// One interpreter process per batch.
    Subprocess,
    /// A pool of warm interpreter processes.
    Pooled,
}

/// The message refusing a pooled executor from the synchronous path.
pub open spec fn pooled_refusal() -> Seq<char> {
    "Pooled executor requires async initialization. Use create_pooled_executor() instead."@
}

/// Which executor a mode asks for, given whether the embedded interpreter is
/// available: embedded and subprocess modes get their own kind, automatic
/// mode the embedded one when it is available and otherwise the subprocess
/// one, and pooled mode is refused (a pool is created asynchronously).
pub fn create_executor(mode: ExecutionMode, embedded_available: bool) -> (r: Result<ExecutorKind, DaemonError>)
    ensures
        mode == ExecutionMode::Embedded ==> r == Ok::<ExecutorKind, DaemonError>(ExecutorKind::Embedded),
        mode == ExecutionMode::Subprocess ==> r == Ok::<ExecutorKind, DaemonError>(ExecutorKind::Subprocess),
        mode == ExecutionMode::Auto ==> r == Ok::<ExecutorKind, DaemonError>(if embedded_available {
            ExecutorKind::Embedded
        } else {
            ExecutorKind::Subprocess
        }),
        mode == ExecutionMode::Pooled ==> (r matches Err(DaemonError::Other(m)) && m@ == pooled_refusal()),
{
    match mode {
        ExecutionMode::Embedded => Ok(ExecutorKind::Embedded),
        ExecutionMode::Subprocess => Ok(ExecutorKind::Subprocess),
        ExecutionMode::Pooled => Err(
            DaemonError::Other(
                String::from_str(
                    "Pooled executor requires async initialization. Use create_pooled_executor() instead.",
                ),
            ),
        ),
        ExecutionMode::Auto => {
            if embedded_available {
                Ok(ExecutorKind::Embedded)
            } else {
                Ok(ExecutorKind::Subprocess)
            }
        },
    }
}

/// The name an executor of a kind reports.
pub open spec fn kind_name(k: ExecutorKind) -> Seq<char> {
    match k {
        ExecutorKind::Embedded => "embedded"@,
        ExecutorKind::Subprocess => "subprocess"@,
        ExecutorKind::Pooled => "pooled"@,
    }
}

/// The execution mode an executor's reported name stands for: `embedded`
/// and `pooled` are theirs, anything else means subprocess.
pub fn mode_of_executor(name: &str) -> (r: ExecutionMode)
    ensures
        r == (if name@ == "embedded"@ {
            ExecutionMode::Embedded
        } else if name@ == "pooled"@ {
            ExecutionMode::Pooled
        } else {
            ExecutionMode::Subprocess
        }),
{
    if crate::text::str_eq(name, "embedded") {
        ExecutionMode::Embedded
    } else if crate::text::str_eq(name, "pooled") {
        ExecutionMode::Pooled
    } else {
        ExecutionMode::Subprocess
    }
}

// ---------------------------------------------------------------------------
// Runs in the embedded interpreter
// ---------------------------------------------------------------------------

/// The arguments of an embedded pytest run of `node_ids`: verbose output
/// with short tracebacks, no header and no cache plugin, the failure limit
/// if one is set, pytest-xdist workers when more than one is asked for and
/// xdist is there, then the extra arguments.
pub open spec fn embedded_args_spec(
    node_ids: Seq<Seq<char>>,
    maxfail: Option<u32>,
    workers: Option<u32>,
    xdist: bool,
    extra: Seq<Seq<char>>,
) -> Seq<Seq<char>> {
    node_ids + seq!["-v"@, "--tb=short"@, "--no-header"@, "-p"@, "no:cacheprovider"@] + match maxfail {
        Some(n) => seq!["--maxfail="@ + decimal(n as nat)],
        None => Seq::empty(),
    } + match workers {
        Some(w) => if w > 1 && xdist {
            seq!["-n"@, decimal(w as nat), "--dist=loadscope"@]
        } else {
            Seq::empty()
        },
        None => Seq::empty(),
    } + extra
}

/// Pushes copies of the strings of `t` onto `v`.
fn push_all(v: &mut Vec<String>, t: &Vec<String>)
    ensures
        string_views(final(v)@) == string_views(old(v)@) + string_views(t@),
{
    let ghost head = string_views(v@);
    let mut i: usize = 0;
    while i < t.len()
        invariant
            i <= t@.len(),
            string_views(v@) == head + string_views(t@).take(i as int),
        decreases t@.len() - i,
    {
        push_string(v, t[i].as_str());
        assert(string_views(t@).take(i + 1) =~= string_views(t@).take(i as int).push(t@[i as int]@));
        i = i + 1;
    }
    assert(string_views(t@).take(i as int) =~= string_views(t@));
}

/// The arguments of an embedded pytest run.
pub fn embedded_pytest_args(
    node_ids: &Vec<String>,
    maxfail: Option<u32>,
    workers: Option<u32>,
    xdist_available: bool,
    extra_args: &Vec<String>,
) -> (r: Vec<String>)
    ensures
        string_views(r@) == embedded_args_spec(
            string_views(node_ids@),
            maxfail,
            workers,
            xdist_available,
            string_views(extra_args@),
        ),
{
    let mut r: Vec<String> = Vec::new();
    push_all(&mut r, node_ids);
    push_string(&mut r, "-v");
    push_string(&mut r, "--tb=short");
    push_string(&mut r, "--no-header");
    push_string(&mut r, "-p");
    push_string(&mut r, "no:cacheprovider");
    match maxfail {
        Some(n) => {
            let mut d = String::from_str("--maxfail=");
            push_decimal(&mut d, n as u64);
            let ghost before = r@;
            r.push(d);
            assert(string_views(r@) =~= string_views(before).push("--maxfail="@ + decimal(n as nat)));
        },
        None => {},
    }
    match workers {
        Some(w) => {
            if w > 1 && xdist_available {
                push_string(&mut r, "-n");
                let mut d = String::new();
                push_decimal(&mut d, w as u64);
                let ghost before = r@;
                r.push(d);
                assert(string_views(r@) =~= string_views(before).push(decimal(w as nat)));
                push_string(&mut r, "--dist=loadscope");
            }
        },
        None => {},
    }
    push_all(&mut r, extra_args);
    assert(string_views(r@) =~= embedded_args_spec(
        string_views(node_ids@),
        maxfail,
        workers,
        xdist_available,
        string_views(extra_args@),
    ));
    r
}

/// When an embedded run reported no result, each test gets one from the
/// exit code: passed when it is 0, an error otherwise, with the message
/// `pytest exit code: <code>`.
pub fn exit_code_results(node_ids: &Vec<String>, exit_code: i32) -> (r: Vec<TestResult>)
    ensures
        r@.len() == node_ids@.len(),
        forall|i: int|
            0 <= i < r@.len() ==> {
                &&& (#[trigger] r@[i]).node_id@ == node_ids@[i]@
                &&& r@[i].outcome == (if exit_code == 0 {
                    TestOutcome::Passed
                } else {
                    TestOutcome::Error
                })
                &&& r@[i].duration_ms == 0
                &&& r@[i].message matches Some(m) && m@ == "pytest exit code: "@ + signed_decimal(
                    exit_code,
                )
                &&& r@[i].stdout is None
                &&& r@[i].stderr is None
            },
{
    let mut msg = String::from_str("pytest exit code: ");
    push_signed_decimal(&mut msg, exit_code);
    let mut r: Vec<TestResult> = Vec::new();
    let mut i: usize = 0;
    while i < node_ids.len()
        invariant
            i <= node_ids@.len(),
            r@.len() == i,
            msg@ == "pytest exit code: "@ + signed_decimal(exit_code),
            forall|k: int|
                0 <= k < i ==> {
                    &&& (#[trigger] r@[k]).node_id@ == node_ids@[k]@
                    &&& r@[k].outcome == (if exit_code == 0 {
                        TestOutcome::Passed
                    } else {
                        TestOutcome::Error
                    })
                    &&& r@[k].duration_ms == 0
                    &&& r@[k].message matches Some(m) && m@ == msg@
                    &&& r@[k].stdout is None
                    &&& r@[k].stderr is None
                },
        decreases node_ids@.len() - i,
    {
        r.push(TestResult {
            node_id: node_ids[i].clone(),
            outcome: if exit_code == 0 {
                TestOutcome::Passed
            } else {
                TestOutcome::Error
            },
            duration_ms: 0,
            message: Some(msg.clone()),
            stdout: None,
            stderr: None,
        });
        i = i + 1;
    }
    r
}

/// `s` without every trailing `.py` (as `str::trim_end_matches(".py")`).
pub open spec fn trim_py(s: Seq<char>) -> Seq<char>
    decreases s.len(),
{
    if s.len() >= 3 && s[s.len() - 3] == '.' && s[s.len() - 2] == 'p' && s[s.len() - 1] == 'y' {
        trim_py(s.subrange(0, s.len() - 3))
    } else {
        s
    }
}

/// `s` with each `/` made a `.`.
pub open spec fn dotted(s: Seq<char>) -> Seq<char> {
    s.map_values(|c: char| if c == '/' { '.' } else { c })
}

/// The characters `cs[0..end]` with each `/` made a `.`.
fn dotted_prefix(cs: &Vec<char>, end: usize) -> (r: String)
    requires
        end <= cs@.len(),
    ensures
        r@ == dotted(cs@.subrange(0, end as int)),
{
    let mut r = String::new();
    let mut i: usize = 0;
    while i < end
        invariant
            i <= end <= cs@.len(),
            r@ == dotted(cs@.subrange(0, i as int)),
        decreases end - i,
    {
        let c = if cs[i] == '/' { '.' } else { cs[i] };
        push_char(&mut r, c);
        assert(dotted(cs@.subrange(0, i + 1)) =~= dotted(cs@.subrange(0, i as int)).push(c));
        i = i + 1;
    }
    r
}

/// The module a test file is imported as: its path without the `.py`
/// suffixes, with dots for slashes.
pub fn module_for_path(test_path: &str) -> (r: String)
    ensures
        r@ == dotted(trim_py(test_path@)),
{
    let cs = chars_of(test_path);
    let mut end: usize = cs.len();
    assert(cs@.subrange(0, end as int) =~= cs@);
    while end >= 3 && cs[end - 3] == '.' && cs[end - 2] == 'p' && cs[end - 1] == 'y'
        invariant
            end <= cs@.len(),
            cs@ == test_path@,
            trim_py(cs@.subrange(0, end as int)) == trim_py(test_path@),
        decreases end,
    {
        let ghost t = cs@.subrange(0, end as int);
        assert(t.subrange(0, t.len() - 3) =~= cs@.subrange(0, end - 3));
        end = end - 3;
    }
    let ghost t = cs@.subrange(0, end as int);
    assert(!(t.len() >= 3 && t[t.len() - 3] == '.' && t[t.len() - 2] == 'p' && t[t.len() - 1] == 'y'));
    dotted_prefix(&cs, end)
}

/// The conftest module of a test file's directory: `conftest` at the root,
/// else the directory in dotted form followed by `.conftest`.
pub fn conftest_module(parent: &str) -> (r: String)
    ensures
        r@ == (if parent@.len() == 0 {
            "conftest"@
        } else {
            dotted(parent@) + ".conftest"@
        }),
{
    let cs = chars_of(parent);
    if cs.len() == 0 {
        return String::from_str("conftest");
    }
    let mut r = dotted_prefix(&cs, cs.len());
    assert(cs@.subrange(0, cs@.len() as int) =~= cs@);
    push_str_chars(&mut r, ".conftest");
    r
}

} // verus!

//! The state a repository context keeps between runs: its test inventory,
//! duration and outcome histories, scheduler and flakiness tracker, and what
//! a run does to them.
//!
//! Starting the interpreter, the database and the clock are the
//! application's part; it hands the library what they produced.

use vstd::prelude::*;
use vstd::string::*;
use vstd::utf8::encode_utf8;
use crate::digest::{sha256, sha256_spec, hex_encode, hex_of};
use crate::collector::{NativeTestNode, ostr};
use crate::flakiness::{
    FlakinessTracker, TrackerView, keep_last, next_record, record_defined, record_or_fresh,
};
use crate::models::{ExecutionMode, RunSummary, TestNode, TestOutcome, TestResult, outcome_name, node_view, NodeView};
use crate::scheduler::{TestScheduler, HISTORY_LEN, keep_last_durations};
use crate::storage::push_bytes;
use crate::table::{Table, entry_keys, entry_values, entry_map, lemma_entry_map_at, lemma_entry_map_update};
use crate::text::{
    contains, contains_chars, chars_of, string_views, lex_lt, lex_less, lemma_lex_irreflexive,
    lemma_lex_transitive, lemma_lex_total, copy_strings, str_eq,
};

verus! {

broadcast use vstd::seq_lib::group_seq_properties;

/// Represents a single test node, as collected.
#[derive(Debug, Clone)]
pub struct TestNodeInternal {
    pub node_id: String,
    pub file_path: String,
    pub name: String,
    pub class_name: Option<String>,
    pub line_number: u32,
    pub markers: Vec<String>,
    pub skip: bool,
    pub xfail: bool,
}

/// The plain contents of nodes.
pub open spec fn views_of(s: Seq<TestNode>) -> Seq<NodeView> {
    s.map_values(|n: TestNode| node_view(n))
}

/// A requested test that the inventory marks as skipped: it is counted as
/// skipped and not run.
pub open spec fn pre_skipped(nodes: Map<Seq<char>, TestNode>, id: Seq<char>) -> bool {
    nodes.contains_key(id) && nodes[id].skip
}

/// Some marker of `n` contains `k`.
pub open spec fn marker_contains(n: TestNode, k: Seq<char>) -> bool {
    exists|i: int| 0 <= i < n.markers@.len() && contains(#[trigger] n.markers@[i]@, k)
}

/// Marker selection reads the markers alone: two tests with the same
/// markers are selected alike, whatever their ids and names.
pub proof fn lemma_marker_selection_reads_only_markers(a: TestNode, b: TestNode, k: Seq<char>)
    requires
        string_views(a.markers@) == string_views(b.markers@),
    ensures
        marker_contains(a, k) == marker_contains(b, k),
{
    assert(string_views(a.markers@).len() == a.markers@.len());
    assert(string_views(b.markers@).len() == b.markers@.len());
    if marker_contains(a, k) {
        let i = choose|i: int| 0 <= i < a.markers@.len() && contains(#[trigger] a.markers@[i]@, k);
        assert(string_views(a.markers@)[i] == a.markers@[i]@);
        assert(b.markers@[i]@ == string_views(b.markers@)[i]);
    }
    if marker_contains(b, k) {
        let i = choose|i: int| 0 <= i < b.markers@.len() && contains(#[trigger] b.markers@[i]@, k);
        assert(string_views(b.markers@)[i] == b.markers@[i]@);
        assert(a.markers@[i]@ == string_views(a.markers@)[i]);
    }
}

/// A test without markers is never selected by a marker; a test one of
/// whose markers contains the asked text always is.
pub proof fn lemma_marker_selection_needs_a_marker(n: TestNode, k: Seq<char>, i: int)
    ensures
        n.markers@.len() == 0 ==> !marker_contains(n, k),
        0 <= i < n.markers@.len() && contains(n.markers@[i]@, k) ==> marker_contains(n, k),
{
}

/// The node's id, its name or one of its markers contains `k`.
pub open spec fn keyword_hit(n: TestNode, k: Seq<char>) -> bool {
    contains(n.node_id@, k) || contains(n.name@, k) || marker_contains(n, k)
}

/// Every test a marker selects is also selected by the same text as a
/// keyword, and so is every test whose id or name contains the text.
pub proof fn lemma_keyword_selects_more(n: TestNode, k: Seq<char>)
    ensures
        marker_contains(n, k) ==> keyword_hit(n, k),
        contains(n.node_id@, k) ==> keyword_hit(n, k),
        contains(n.name@, k) ==> keyword_hit(n, k),
{
}

/// The history of `id` in `m`, empty when it has none.
pub open spec fn history_of<A>(m: Map<Seq<char>, Seq<A>>, id: Seq<char>) -> Seq<A> {
    if m.contains_key(id) {
        m[id]
    } else {
        Seq::empty()
    }
}

/// A duration history after `d` was added for `id` (the last ten are kept).
pub open spec fn with_duration(m: Map<Seq<char>, Seq<u64>>, id: Seq<char>, d: u64) -> Map<Seq<char>, Seq<u64>> {
    m.insert(id, keep_last(history_of(m, id).push(d), HISTORY_LEN as nat))
}

/// The scheduler's history after it was given the latest duration of each
/// test of `entries` that has one, in order.
pub open spec fn refreshed(h: Map<Seq<char>, Seq<u64>>, entries: Seq<(Seq<char>, Seq<u64>)>) -> Map<Seq<char>, Seq<u64>>
    decreases entries.len(),
{
    if entries.len() == 0 {
        h
    } else {
        let h1 = refreshed(h, entries.drop_last());
        let e = entries.last();
        if e.1.len() > 0 {
            with_duration(h1, e.0, e.1.last())
        } else {
            h1
        }
    }
}

/// The results of `rs` with outcome `o`.
pub open spec fn count_outcome(rs: Seq<TestResult>, o: TestOutcome) -> nat {
    rs.filter(|r: TestResult| r.outcome == o).len()
}

/// The summary of a run: every result and every pre-skipped test counts;
/// expected failures and unexpected passes count in the total only.
pub open spec fn run_summary(rs: Seq<TestResult>, pre_skipped: nat, duration_ms: u64) -> RunSummary {
    RunSummary {
        total: (rs.len() + pre_skipped) as usize,
        passed: count_outcome(rs, TestOutcome::Passed) as usize,
        failed: count_outcome(rs, TestOutcome::Failed) as usize,
        skipped: (count_outcome(rs, TestOutcome::Skipped) + pre_skipped) as usize,
        errors: count_outcome(rs, TestOutcome::Error) as usize,
        duration_ms,
    }
}

/// No outcome is counted more often than there are results.
proof fn lemma_count_outcome_bound(rs: Seq<TestResult>, o: TestOutcome)
    ensures
        count_outcome(rs, o) <= rs.len(),
    decreases rs.len(),
{
    let p = |r: TestResult| r.outcome == o;
    if rs.len() == 0 {
        assert(rs.filter(p) =~= Seq::<TestResult>::empty());
    } else {
        let t = rs.drop_last();
        lemma_count_outcome_bound(t, o);
        assert(rs =~= t.push(rs.last()));
        t.lemma_filter_push(rs.last(), p);
    }
}

/// A summary of no results counts only the pre-skipped tests, as skipped.
pub proof fn lemma_summary_of_nothing(pre_skipped: nat, duration_ms: u64)
    requires
        pre_skipped <= usize::MAX,
    ensures
        run_summary(Seq::empty(), pre_skipped, duration_ms) == (RunSummary {
            total: pre_skipped as usize,
            passed: 0,
            failed: 0,
            skipped: pre_skipped as usize,
            errors: 0,
            duration_ms,
        }),
{
    let e = Seq::<TestResult>::empty();
    assert(e.filter(|r: TestResult| r.outcome == TestOutcome::Passed) =~= e);
    assert(e.filter(|r: TestResult| r.outcome == TestOutcome::Failed) =~= e);
    assert(e.filter(|r: TestResult| r.outcome == TestOutcome::Skipped) =~= e);
    assert(e.filter(|r: TestResult| r.outcome == TestOutcome::Error) =~= e);
}

/// One more result adds one to the total and one to exactly the count of its
/// own outcome: a pass to `passed`, a failure to `failed`, a skip to
/// `skipped`, an error to `errors` (never to `failed`); an expected failure
/// or an unexpected pass only to the total.
pub proof fn lemma_summary_counts_each_result(
    rs: Seq<TestResult>,
    x: TestResult,
    pre_skipped: nat,
    duration_ms: u64,
)
    requires
        rs.len() + 1 + pre_skipped <= usize::MAX,
    ensures
        run_summary(rs.push(x), pre_skipped, duration_ms).total == run_summary(rs, pre_skipped, duration_ms).total + 1,
        run_summary(rs.push(x), pre_skipped, duration_ms).passed == run_summary(rs, pre_skipped, duration_ms).passed
            + (if x.outcome == TestOutcome::Passed { 1int } else { 0int }),
        run_summary(rs.push(x), pre_skipped, duration_ms).failed == run_summary(rs, pre_skipped, duration_ms).failed
            + (if x.outcome == TestOutcome::Failed { 1int } else { 0int }),
        run_summary(rs.push(x), pre_skipped, duration_ms).skipped == run_summary(rs, pre_skipped, duration_ms).skipped
            + (if x.outcome == TestOutcome::Skipped { 1int } else { 0int }),
        run_summary(rs.push(x), pre_skipped, duration_ms).errors == run_summary(rs, pre_skipped, duration_ms).errors
            + (if x.outcome == TestOutcome::Error { 1int } else { 0int }),
        run_summary(rs.push(x), pre_skipped, duration_ms).duration_ms == duration_ms,
{
    let pp = |r: TestResult| r.outcome == TestOutcome::Passed;
    let pf = |r: TestResult| r.outcome == TestOutcome::Failed;
    let ps = |r: TestResult| r.outcome == TestOutcome::Skipped;
    let pe = |r: TestResult| r.outcome == TestOutcome::Error;
    rs.lemma_filter_push(x, pp);
    rs.lemma_filter_push(x, pf);
    rs.lemma_filter_push(x, ps);
    rs.lemma_filter_push(x, pe);
    lemma_count_outcome_bound(rs.push(x), TestOutcome::Passed);
    lemma_count_outcome_bound(rs.push(x), TestOutcome::Failed);
    lemma_count_outcome_bound(rs.push(x), TestOutcome::Skipped);
    lemma_count_outcome_bound(rs.push(x), TestOutcome::Error);
}

/// `s` is in strictly increasing order of character codes.
pub open spec fn lex_sorted(s: Seq<Seq<char>>) -> bool {
    forall|i: int, j: int| 0 <= i < j < s.len() ==> lex_lt(#[trigger] s[i], #[trigger] s[j])
}

/// The UTF-8 bytes of the strings of `s`, one after the other.
pub open spec fn joined_bytes(s: Seq<Seq<char>>) -> Seq<u8>
    decreases s.len(),
{
    if s.len() == 0 {
        Seq::empty()
    } else {
        joined_bytes(s.drop_last()) + encode_utf8(s.last())
    }
}

/// The inventory hash of a set of ids: the SHA-256 digest of the ids in
/// increasing order, one after the other, in lower-case hexadecimal.
pub open spec fn inventory_hash_of(sorted_ids: Seq<Seq<char>>) -> Seq<char> {
    hex_of(sha256_spec(joined_bytes(sorted_ids)))
}

/// The mode a context runs in when pooled workers are switched off: pooled
/// becomes subprocess, any other mode stays.
pub open spec fn effective_mode_spec(requested: ExecutionMode, no_pool: bool) -> ExecutionMode {
    if no_pool && requested == ExecutionMode::Pooled {
        ExecutionMode::Subprocess
    } else {
        requested
    }
}

/// The mode a context runs in when pooled workers are switched off.
pub fn effective_mode(requested: ExecutionMode, no_pool: bool) -> (r: ExecutionMode)
    ensures
        r == effective_mode_spec(requested, no_pool),
{
    if no_pool && requested == ExecutionMode::Pooled {
        ExecutionMode::Subprocess
    } else {
        requested
    }
}

/// Whether the value of the setting that switches pooled workers off
/// switches them off: `1` or `true`.
pub fn no_pool_setting(value: Option<&str>) -> (r: bool)
    ensures
        r == (value matches Some(v) && (v@ == "1"@ || v@ == "true"@)),
{
    match value {
        Some(v) => str_eq(v, "1") || str_eq(v, "true"),
        None => false,
    }
}

/// Sort distinct strings in increasing order of character codes.
pub fn sort_strings(v: &Vec<String>) -> (r: Vec<String>)
    requires
        string_views(v@).no_duplicates(),
    ensures
        r@.len() == v@.len(),
        lex_sorted(string_views(r@)),
        string_views(r@).to_set() == string_views(v@).to_set(),
{
    let ghost vs = string_views(v@);
    let mut r: Vec<String> = Vec::new();
    let mut i: usize = 0;
    while i < v.len()
        invariant
            vs == string_views(v@),
            vs.no_duplicates(),
            i <= v@.len(),
            r@.len() == i,
            lex_sorted(string_views(r@)),
            string_views(r@).to_set() == vs.take(i as int).to_set(),
        decreases v@.len() - i,
    {
        let x = &v[i];
        let ghost rv = string_views(r@);
        let mut p: usize = 0;
        while p < r.len() && lex_less(r[p].as_str(), x.as_str())
            invariant
                p <= r@.len(),
                rv == string_views(r@),
                forall|q: int| 0 <= q < p ==> lex_lt(#[trigger] rv[q], x@),
            decreases r@.len() - p,
        {
            p = p + 1;
        }
        proof {
            assert(!vs.take(i as int).contains(x@)) by {
                if vs.take(i as int).contains(x@) {
                    let t0 = vs.take(i as int);
                    let k = choose|k: int| 0 <= k < t0.len() && t0[k] == x@;
                    assert(vs[k] == vs[i as int]);
                }
            }
            assert(!rv.contains(x@)) by {
                if rv.contains(x@) {
                    assert(rv.to_set().contains(x@));
                }
            }
            if p < r@.len() {
                assert(rv[p as int] != x@);
                assert(!lex_lt(rv[p as int], x@));
                lemma_lex_total(rv[p as int], x@);
            }
        }
        let ghost r0 = rv;
        r.insert(p, x.clone());
        proof {
            let nv = string_views(r@);
            assert(nv =~= r0.insert(p as int, x@));
            assert forall|a: int, b: int| 0 <= a < b < nv.len() implies lex_lt(
                #[trigger] nv[a],
                #[trigger] nv[b],
            ) by {
                if b < p {
                } else if b == p {
                } else if a == p {
                    if b - 1 > p {
                        assert(lex_lt(r0[p as int], r0[b - 1]));
                        lemma_lex_transitive(x@, r0[p as int], r0[b - 1]);
                    }
                } else if a < p {
                    assert(lex_lt(r0[a], x@));
                    if b - 1 > p || b - 1 == p {
                        assert(lex_lt(r0[a], r0[b - 1]));
                    }
                } else {
                    assert(lex_lt(r0[a - 1], r0[b - 1]));
                }
            }
            assert(vs.take(i + 1) =~= vs.take(i as int).push(x@));
            assert forall|y: Seq<char>| nv.to_set().contains(y) <==> vs.take(i + 1).to_set().contains(y) by {
                if nv.contains(y) {
                    let k = choose|k: int| 0 <= k < nv.len() && nv[k] == y;
                    if k < p {
                        assert(r0[k] == y);
                        assert(r0.to_set().contains(y));
                    } else if k > p {
                        assert(r0[k - 1] == y);
                        assert(r0.to_set().contains(y));
                    }
                    assert(vs.take(i + 1).contains(y) || r0.to_set().contains(y));
                    if r0.to_set().contains(y) {
                        assert(vs.take(i as int).to_set().contains(y));
                        let t0 = vs.take(i as int);
                        let m = choose|m: int| 0 <= m < t0.len() && t0[m] == y;
                        assert(vs.take(i + 1)[m] == y);
                    }
                }
                if vs.take(i + 1).contains(y) {
                    let t1 = vs.take(i + 1);
                    let m = choose|m: int| 0 <= m < t1.len() && t1[m] == y;
                    if m == i {
                        assert(nv[p as int] == y);
                    } else {
                        assert(vs.take(i as int)[m] == y);
                        assert(vs.take(i as int).to_set().contains(y));
                        assert(r0.contains(y));
                        let k = choose|k: int| 0 <= k < r0.len() && r0[k] == y;
                        if k < p {
                            assert(nv[k] == y);
                        } else {
                            assert(nv[k + 1] == y);
                        }
                    }
                }
            }
            assert(nv.to_set() =~= vs.take(i + 1).to_set());
        }
        i = i + 1;
    }
    assert(vs.take(i as int) =~= vs);
    r
}

/// The repository context's state between runs.
#[derive(Debug)]
pub struct RunState {
    inventory: Table<TestNode>,
    duration_history: Table<Vec<u64>>,
    outcome_history: Table<Vec<String>>,
    scheduler: TestScheduler,
    tracker: FlakinessTracker,
    total_runs: u32,
}

impl RunState {
    /// Distinct keys in each table, and each node under its own id.
    pub closed spec fn wf(&self) -> bool {
        &&& self.inventory.wf()
        &&& self.duration_history.wf()
        &&& self.outcome_history.wf()
        &&& forall|i: int|
            0 <= i < self.inventory.entries@.len() ==> #[trigger] self.inventory.entries@[i].0@
                == self.inventory.entries@[i].1.node_id@
    }

    /// The inventory by node id.
    pub closed spec fn nodes(&self) -> Map<Seq<char>, TestNode> {
        self.inventory.map()
    }

    /// The inventory's ids in the order they were first collected.
    pub closed spec fn id_order(&self) -> Seq<Seq<char>> {
        self.inventory.keys()
    }

    /// The inventory's nodes in the order their ids were first collected.
    pub closed spec fn node_order(&self) -> Seq<TestNode> {
        self.inventory.values()
    }

    /// The duration histories, with the order of their tests.
    pub closed spec fn duration_entries(&self) -> Seq<(Seq<char>, Seq<u64>)> {
        self.duration_history.entries@.map_values(|e: (String, Vec<u64>)| (e.0@, e.1@))
    }

    /// The last durations of each test (at most ten).
    pub closed spec fn durations(&self) -> Map<Seq<char>, Seq<u64>> {
        self.duration_history.map().map_values(|v: Vec<u64>| v@)
    }

    /// The outcome names of each test, oldest first.
    pub closed spec fn outcomes(&self) -> Map<Seq<char>, Seq<Seq<char>>> {
        self.outcome_history.map().map_values(|v: Vec<String>| string_views(v@))
    }

    /// The scheduler's duration history.
    pub closed spec fn schedule_history(&self) -> Map<Seq<char>, Seq<u64>> {
        self.scheduler.history()
    }

    /// The flakiness tracker's content.
    pub closed spec fn tracker_view(&self) -> TrackerView {
        self.tracker.view()
    }

    /// The number of runs started.
    pub closed spec fn runs(&self) -> nat {
        self.total_runs as nat
    }

    /// A context with nothing collected or run yet, whose flakiness records
    /// are kept under `flakiness_path`.
    pub fn new(flakiness_path: Option<String>) -> (r: RunState)
        ensures
            r.wf(),
            r.nodes() == Map::<Seq<char>, TestNode>::empty(),
            r.node_order() == Seq::<TestNode>::empty(),
            r.durations() == Map::<Seq<char>, Seq<u64>>::empty(),
            r.duration_entries() == Seq::<(Seq<char>, Seq<u64>)>::empty(),
            r.outcomes() == Map::<Seq<char>, Seq<Seq<char>>>::empty(),
            r.schedule_history() == Map::<Seq<char>, Seq<u64>>::empty(),
            r.tracker_view().records == Map::<Seq<char>, crate::flakiness::RecordView>::empty(),
            r.tracker_view().storage_path == match flakiness_path {
                Some(p) => Some(p@),
                None => None::<Seq<char>>,
            },
            r.runs() == 0,
    {
        let r = RunState {
            inventory: Table::new(),
            duration_history: Table::new(),
            outcome_history: Table::new(),
            scheduler: TestScheduler::new(),
            tracker: FlakinessTracker::new(flakiness_path),
            total_runs: 0,
        };
        assert(r.durations() =~= Map::<Seq<char>, Seq<u64>>::empty());
        assert(r.outcomes() =~= Map::<Seq<char>, Seq<Seq<char>>>::empty());
        assert(r.duration_entries() =~= Seq::<(Seq<char>, Seq<u64>)>::empty());
        r
    }

    /// The flakiness tracker.
    pub fn tracker(&self) -> (r: &FlakinessTracker)
        ensures
            r.view() == self.tracker_view(),
    {
        &self.tracker
    }

    /// The flakiness tracker, to change (for loading or saving its records).
    pub fn tracker_mut(&mut self) -> (r: &mut FlakinessTracker)
        ensures
            r.view() == old(self).tracker_view(),
            final(self).tracker_view() == final(r).view(),
            final(self).nodes() == old(self).nodes(),
            final(self).node_order() == old(self).node_order(),
            final(self).id_order() == old(self).id_order(),
            final(self).durations() == old(self).durations(),
            final(self).duration_entries() == old(self).duration_entries(),
            final(self).outcomes() == old(self).outcomes(),
            final(self).schedule_history() == old(self).schedule_history(),
            final(self).runs() == old(self).runs(),
            final(self).wf() == old(self).wf(),
    {
        &mut self.tracker
    }

    /// The scheduler.
    pub fn scheduler(&self) -> (r: &TestScheduler)
        ensures
            r.history() == self.schedule_history(),
    {
        &self.scheduler
    }

    /// The number of runs started.
    pub fn total_runs(&self) -> (r: u32)
        ensures
            r == self.runs(),
    {
        self.total_runs
    }

    /// The duration histories, each with its test, in the order the tests
    /// were first recorded.
    pub fn duration_histories(&self) -> (r: &Vec<(String, Vec<u64>)>)
        ensures
            r@.map_values(|e: (String, Vec<u64>)| (e.0@, e.1@)) == self.duration_entries(),
    {
        &self.duration_history.entries
    }

    /// Adds collected nodes to the inventory, each under its id (a node with
    /// an id already present replaces the earlier one in its place).
    pub fn insert_node(&mut self, node: TestNode)
        requires
            old(self).wf(),
        ensures
            final(self).wf(),
            final(self).nodes() == old(self).nodes().insert(node.node_id@, node),
            !old(self).nodes().contains_key(node.node_id@) ==> final(self).node_order() == old(
                self,
            ).node_order().push(node) && final(self).id_order() == old(self).id_order().push(
                node.node_id@,
            ),
            old(self).nodes().contains_key(node.node_id@) ==> final(self).id_order() == old(
                self,
            ).id_order(),
            final(self).durations() == old(self).durations(),
            final(self).duration_entries() == old(self).duration_entries(),
            final(self).outcomes() == old(self).outcomes(),
            final(self).schedule_history() == old(self).schedule_history(),
            final(self).tracker_view() == old(self).tracker_view(),
            final(self).runs() == old(self).runs(),
    {
        let key = node.node_id.clone();
        let ghost e = self.inventory.entries@;
        match self.inventory.find(&key) {
            Some(i) => {
                proof {
                    lemma_entry_map_at(e, i as int);
                }
                self.inventory.set_value(i, node);
                proof {
                    let e2 = self.inventory.entries@;
                    assert forall|k: int| 0 <= k < e2.len() implies #[trigger] e2[k].0@
                        == e2[k].1.node_id@ by {
                        if k != i {
                            assert(e2[k] == e[k]);
                        }
                    }
                    assert(self.inventory.keys() =~= old(self).inventory.keys());
                }
            },
            None => {
                self.inventory.push(key, node);
                proof {
                    let e2 = self.inventory.entries@;
                    assert forall|k: int| 0 <= k < e2.len() implies #[trigger] e2[k].0@
                        == e2[k].1.node_id@ by {
                        if k < e.len() {
                            assert(e2[k] == e[k]);
                        }
                    }
                    assert(self.inventory.keys() =~= old(self).inventory.keys().push(node.node_id@));
                    assert(self.inventory.values() =~= old(self).inventory.values().push(node));
                }
            },
        }
    }

    /// All test node ids, in inventory order.
    pub fn get_node_ids(&self) -> (r: Vec<String>)
        ensures
            string_views(r@) == self.id_order(),
    {
        let mut r: Vec<String> = Vec::new();
        let mut i: usize = 0;
        while i < self.inventory.entries.len()
            invariant
                i <= self.inventory.entries@.len(),
                string_views(r@) == self.id_order().take(i as int),
            decreases self.inventory.entries@.len() - i,
        {
            let ghost r0 = r@;
            r.push(self.inventory.entries[i].0.clone());
            assert(string_views(r@) =~= string_views(r0).push(self.id_order()[i as int]));
            assert(self.id_order().take(i + 1) =~= self.id_order().take(i as int).push(
                self.id_order()[i as int],
            ));
            i = i + 1;
        }
        assert(self.id_order().take(i as int) =~= self.id_order());
        r
    }

    /// All test nodes, in inventory order.
    pub fn get_inventory(&self) -> (r: Vec<TestNode>)
        ensures
            views_of(r@) == views_of(self.node_order()),
    {
        let mut r: Vec<TestNode> = Vec::new();
        let mut i: usize = 0;
        while i < self.inventory.entries.len()
            invariant
                i <= self.inventory.entries@.len(),
                views_of(r@) == views_of(self.node_order().take(i as int)),
            decreases self.inventory.entries@.len() - i,
        {
            let ghost r0 = r@;
            let n = self.inventory.entries[i].1.duplicate();
            r.push(n);
            assert(views_of(r@) =~= views_of(r0).push(node_view(n)));
            assert(views_of(self.node_order().take(i + 1)) =~= views_of(self.node_order().take(i as int)).push(node_view(self.node_order()[i as int])));
            i = i + 1;
        }
        assert(self.node_order().take(i as int) =~= self.node_order());
        r
    }

    /// The test node with this id, if there is one.
    pub fn get_test_node(&self, node_id: &str) -> (r: Option<TestNode>)
        requires
            self.wf(),
        ensures
            r matches Some(n) ==> self.nodes().contains_key(node_id@) && node_view(n) == node_view(
                self.nodes()[node_id@],
            ),
            r is None ==> !self.nodes().contains_key(node_id@),
    {
        let key = String::from_str(node_id);
        match self.inventory.find(&key) {
            Some(i) => {
                proof {
                    lemma_entry_map_at(self.inventory.entries@, i as int);
                }
                Some(self.inventory.entries[i].1.duplicate())
            },
            None => None,
        }
    }

    /// Some marker of the node contains `k`.
    fn marker_contains_exec(n: &TestNode, k: &Vec<char>) -> (r: bool)
        ensures
            r == marker_contains(*n, k@),
    {
        let mut i: usize = 0;
        while i < n.markers.len()
            invariant
                i <= n.markers@.len(),
                forall|j: int| 0 <= j < i ==> !contains(#[trigger] n.markers@[j]@, k@),
            decreases n.markers@.len() - i,
        {
            if contains_chars(&chars_of(n.markers[i].as_str()), k) {
                return true;
            }
            i = i + 1;
        }
        false
    }

    /// Tests whose id, name or a marker contains `keyword` (every test when it
    /// is empty), in inventory order.
    pub fn filter_by_keyword(&self, keyword: &str) -> (r: Vec<TestNode>)
        ensures
            views_of(r@) == views_of(self.node_order().filter(|n: TestNode| keyword_hit(n, keyword@))),
    {
        let k = chars_of(keyword);
        let ghost pred = |n: TestNode| keyword_hit(n, keyword@);
        let ghost vals = self.node_order();
        let mut r: Vec<TestNode> = Vec::new();
        let mut i: usize = 0;
        while i < self.inventory.entries.len()
            invariant
                vals == entry_values(self.inventory.entries@),
                pred == (|n: TestNode| keyword_hit(n, keyword@)),
                k@ == keyword@,
                i <= self.inventory.entries@.len(),
                views_of(r@) == views_of(vals.take(i as int).filter(pred)),
            decreases self.inventory.entries@.len() - i,
        {
            let n = &self.inventory.entries[i].1;
            proof {
                assert(vals.take(i + 1) == vals.take(i as int).push(vals[i as int]));
                vals.take(i as int).lemma_filter_push(vals[i as int], pred);
            }
            let hit = contains_chars(&chars_of(n.node_id.as_str()), &k) || contains_chars(
                &chars_of(n.name.as_str()),
                &k,
            ) || Self::marker_contains_exec(n, &k);
            if hit {
                let ghost r0 = r@;
                let d = n.duplicate();
                r.push(d);
                assert(views_of(r@) =~= views_of(r0).push(node_view(*n)));
                assert(views_of(vals.take(i as int).filter(pred).push(*n)) =~= views_of(
                    vals.take(i as int).filter(pred),
                ).push(node_view(*n)));
            }
            i = i + 1;
        }
        assert(vals.take(i as int) == vals);
        r
    }

    /// Tests with a marker that contains `marker` (every test when it is
    /// empty), in inventory order.
    pub fn filter_by_marker(&self, marker: &str) -> (r: Vec<TestNode>)
        ensures
            views_of(r@) == views_of(
                if marker@.len() == 0 {
                    self.node_order()
                } else {
                    self.node_order().filter(|n: TestNode| marker_contains(n, marker@))
                },
            ),
    {
        if marker.is_empty() {
            return self.get_inventory();
        }
        let k = chars_of(marker);
        let ghost pred = |n: TestNode| marker_contains(n, marker@);
        let ghost vals = self.node_order();
        let mut r: Vec<TestNode> = Vec::new();
        let mut i: usize = 0;
        while i < self.inventory.entries.len()
            invariant
                vals == entry_values(self.inventory.entries@),
                pred == (|n: TestNode| marker_contains(n, marker@)),
                k@ == marker@,
                i <= self.inventory.entries@.len(),
                views_of(r@) == views_of(vals.take(i as int).filter(pred)),
            decreases self.inventory.entries@.len() - i,
        {
            let n = &self.inventory.entries[i].1;
            proof {
                assert(vals.take(i + 1) == vals.take(i as int).push(vals[i as int]));
                vals.take(i as int).lemma_filter_push(vals[i as int], pred);
            }
            if Self::marker_contains_exec(n, &k) {
                let ghost r0 = r@;
                let d = n.duplicate();
                r.push(d);
                assert(views_of(r@) =~= views_of(r0).push(node_view(*n)));
                assert(views_of(vals.take(i as int).filter(pred).push(*n)) =~= views_of(
                    vals.take(i as int).filter(pred),
                ).push(node_view(*n)));
            }
            i = i + 1;
        }
        assert(vals.take(i as int) == vals);
        r
    }

    /// Splits the requested tests into those to run, in order, and the number
    /// of those the inventory marks as skipped (a test the inventory does not
    /// know is run).
    pub fn partition(&self, node_ids: &Vec<String>) -> (r: (Vec<String>, usize))
        requires
            self.wf(),
        ensures
            string_views(r.0@) == string_views(node_ids@).filter(|id: Seq<char>| !pre_skipped(self.nodes(), id)),
            r.1 == string_views(node_ids@).filter(|id: Seq<char>| pre_skipped(self.nodes(), id)).len(),
    {
        let ghost ids = string_views(node_ids@);
        let ghost run_p = |id: Seq<char>| !pre_skipped(self.nodes(), id);
        let ghost skip_p = |id: Seq<char>| pre_skipped(self.nodes(), id);
        let mut runnable: Vec<String> = Vec::new();
        let mut skipped: usize = 0;
        let mut i: usize = 0;
        while i < node_ids.len()
            invariant
                self.wf(),
                ids == string_views(node_ids@),
                run_p == (|id: Seq<char>| !pre_skipped(self.nodes(), id)),
                skip_p == (|id: Seq<char>| pre_skipped(self.nodes(), id)),
                i <= node_ids@.len(),
                string_views(runnable@) == ids.take(i as int).filter(run_p),
                skipped == ids.take(i as int).filter(skip_p).len(),
                skipped <= i,
            decreases node_ids@.len() - i,
        {
            let id = &node_ids[i];
            proof {
                assert(ids.take(i + 1) == ids.take(i as int).push(ids[i as int]));
                ids.take(i as int).lemma_filter_push(ids[i as int], run_p);
                ids.take(i as int).lemma_filter_push(ids[i as int], skip_p);
                ids.take(i as int).filter_lemma(skip_p);
            }
            let skip = match self.inventory.find(id) {
                Some(j) => {
                    proof {
                        lemma_entry_map_at(self.inventory.entries@, j as int);
                    }
                    self.inventory.entries[j].1.skip
                },
                None => false,
            };
            assert(skip == pre_skipped(self.nodes(), ids[i as int]));
            if skip {
                skipped = skipped + 1;
            } else {
                let ghost r0 = runnable@;
                runnable.push(id.clone());
                assert(string_views(runnable@) =~= string_views(r0).push(ids[i as int]));
            }
            i = i + 1;
        }
        assert(ids.take(i as int) == ids);
        (runnable, skipped)
    }

    /// Gives the scheduler the latest duration of each test that has one.
    pub fn refresh_scheduler(&mut self)
        requires
            old(self).wf(),
        ensures
            final(self).wf(),
            final(self).schedule_history() == refreshed(old(self).schedule_history(), old(self).duration_entries()),
            final(self).nodes() == old(self).nodes(),
            final(self).node_order() == old(self).node_order(),
            final(self).id_order() == old(self).id_order(),
            final(self).durations() == old(self).durations(),
            final(self).duration_entries() == old(self).duration_entries(),
            final(self).outcomes() == old(self).outcomes(),
            final(self).tracker_view() == old(self).tracker_view(),
            final(self).runs() == old(self).runs(),
    {
        let ghost entries = self.duration_entries();
        let mut i: usize = 0;
        while i < self.duration_history.entries.len()
            invariant
                self.wf(),
                entries == self.duration_entries(),
                entries.len() == self.duration_history.entries@.len(),
                i <= entries.len(),
                self.schedule_history() == refreshed(old(self).schedule_history(), entries.take(i as int)),
                self.nodes() == old(self).nodes(),
                self.node_order() == old(self).node_order(),
                self.id_order() == old(self).id_order(),
                self.durations() == old(self).durations(),
                self.duration_entries() == old(self).duration_entries(),
                self.outcomes() == old(self).outcomes(),
                self.tracker_view() == old(self).tracker_view(),
                self.runs() == old(self).runs(),
            decreases entries.len() - i,
        {
            proof {
                assert(entries.take(i + 1).drop_last() =~= entries.take(i as int));
                assert(entries.take(i + 1).last() == entries[i as int]);
            }
            let n = self.duration_history.entries[i].1.len();
            if n > 0 {
                let d = self.duration_history.entries[i].1[n - 1];
                let id = self.duration_history.entries[i].0.as_str();
                self.scheduler.update_duration(id, d);
            }
            i = i + 1;
        }
        assert(entries.take(i as int) =~= entries);
    }

    /// Starts a run of `node_ids`: counts the run, gives the scheduler the
    /// latest durations and returns the tests to run with the number of
    /// pre-skipped ones.
    pub fn begin_run(&mut self, node_ids: &Vec<String>) -> (r: (Vec<String>, usize))
        requires
            old(self).wf(),
            old(self).runs() < u32::MAX,
        ensures
            final(self).wf(),
            final(self).runs() == old(self).runs() + 1,
            string_views(r.0@) == string_views(node_ids@).filter(|id: Seq<char>| !pre_skipped(old(self).nodes(), id)),
            r.1 == string_views(node_ids@).filter(|id: Seq<char>| pre_skipped(old(self).nodes(), id)).len(),
            final(self).schedule_history() == refreshed(old(self).schedule_history(), old(self).duration_entries()),
            final(self).nodes() == old(self).nodes(),
            final(self).node_order() == old(self).node_order(),
            final(self).durations() == old(self).durations(),
            final(self).duration_entries() == old(self).duration_entries(),
            final(self).outcomes() == old(self).outcomes(),
            final(self).tracker_view() == old(self).tracker_view(),
    {
        self.total_runs = self.total_runs + 1;
        let r = self.partition(node_ids);
        self.refresh_scheduler();
        r
    }

    /// Whether recording this result keeps the flakiness counters within range.
    pub fn can_record(&self, result: &TestResult) -> (r: bool)
        ensures
            r == record_defined(record_or_fresh(self.tracker_view(), result.node_id@), result.outcome),
    {
        self.tracker.can_record(result.node_id.as_str(), result.outcome)
    }

    /// Records one result: its duration (the last ten are kept) and outcome
    /// name in the histories, its outcome in the flakiness tracker and its
    /// duration in the scheduler.
    pub fn record_result(&mut self, result: &TestResult)
        requires
            old(self).wf(),
            record_defined(record_or_fresh(old(self).tracker_view(), result.node_id@), result.outcome),
        ensures
            final(self).wf(),
            final(self).durations() == with_duration(old(self).durations(), result.node_id@, result.duration_ms),
            final(self).outcomes() == old(self).outcomes().insert(
                result.node_id@,
                history_of(old(self).outcomes(), result.node_id@).push(outcome_name(result.outcome)),
            ),
            final(self).tracker_view() == (TrackerView {
                records: old(self).tracker_view().records.insert(
                    result.node_id@,
                    next_record(
                        record_or_fresh(old(self).tracker_view(), result.node_id@),
                        result.outcome,
                        match result.message {
                            Some(m) => Some(m@),
                            None => None,
                        },
                        old(self).tracker_view().max_outcomes,
                    ),
                ),
                dirty: true,
                ..old(self).tracker_view()
            }),
            final(self).schedule_history() == with_duration(old(self).schedule_history(), result.node_id@, result.duration_ms),
            final(self).nodes() == old(self).nodes(),
            final(self).node_order() == old(self).node_order(),
            final(self).id_order() == old(self).id_order(),
            final(self).runs() == old(self).runs(),
    {
        let id = &result.node_id;
        // duration history
        let ghost de = self.duration_history.entries@;
        match self.duration_history.find(id) {
            Some(i) => {
                proof {
                    lemma_entry_map_at(de, i as int);
                }
                let mut h = copy_durations(&self.duration_history.entries[i].1);
                h.push(result.duration_ms);
                let kept = keep_last_durations(h, HISTORY_LEN);
                self.duration_history.set_value(i, kept);
            },
            None => {
                let mut h: Vec<u64> = Vec::new();
                h.push(result.duration_ms);
                let kept = keep_last_durations(h, HISTORY_LEN);
                self.duration_history.push(id.clone(), kept);
            },
        }
        assert(self.durations() =~= with_duration(old(self).durations(), result.node_id@, result.duration_ms));
        // outcome history
        let ghost oe = self.outcome_history.entries@;
        match self.outcome_history.find(id) {
            Some(i) => {
                proof {
                    lemma_entry_map_at(oe, i as int);
                }
                let mut h = copy_strings(&self.outcome_history.entries[i].1);
                let ghost h0 = h@;
                h.push(result.outcome.name());
                assert(string_views(h@) =~= string_views(h0).push(outcome_name(result.outcome)));
                self.outcome_history.set_value(i, h);
            },
            None => {
                let mut h: Vec<String> = Vec::new();
                h.push(result.outcome.name());
                assert(string_views(h@) =~= seq![outcome_name(result.outcome)]);
                self.outcome_history.push(id.clone(), h);
            },
        }
        assert(self.outcomes() =~= old(self).outcomes().insert(
            result.node_id@,
            history_of(old(self).outcomes(), result.node_id@).push(outcome_name(result.outcome)),
        ));
        let message: Option<&str> = match &result.message {
            Some(m) => Some(m.as_str()),
            None => None,
        };
        self.tracker.record_outcome(id.as_str(), result.outcome, message);
        self.scheduler.update_duration(id.as_str(), result.duration_ms);
    }

    /// The inventory hash: the SHA-256 digest of the node ids in increasing
    /// order, one after the other, in lower-case hexadecimal.
    pub fn compute_hash(&self) -> (r: String)
        requires
            self.wf(),
        ensures
            exists|sorted: Seq<Seq<char>>|
                sorted.len() == self.id_order().len() && lex_sorted(sorted) && sorted.to_set()
                    == self.id_order().to_set() && r@ == #[trigger] inventory_hash_of(sorted),
    {
        let ids = self.get_node_ids();
        let sorted = sort_strings(&ids);
        let ghost sv = string_views(sorted@);
        let mut bytes: Vec<u8> = Vec::new();
        let mut i: usize = 0;
        while i < sorted.len()
            invariant
                sv == string_views(sorted@),
                i <= sorted@.len(),
                bytes@ == joined_bytes(sv.take(i as int)),
            decreases sorted@.len() - i,
        {
            push_bytes(&mut bytes, sorted[i].as_str().as_bytes());
            proof {
                let t = sv.take(i + 1);
                assert(t.drop_last() =~= sv.take(i as int));
                assert(t.last() == sorted@[i as int]@);
            }
            i = i + 1;
        }
        assert(sv.take(i as int) =~= sv);
        let digest = sha256(bytes.as_slice());
        let r = hex_encode(digest.as_slice());
        assert(r@ == inventory_hash_of(sv));
        r
    }
}

/// A copy of a duration history.
fn copy_durations(v: &Vec<u64>) -> (r: Vec<u64>)
    ensures
        r@ == v@,
{
    let mut r: Vec<u64> = Vec::new();
    let mut i: usize = 0;
    while i < v.len()
        invariant
            i <= v@.len(),
            r@ == v@.take(i as int),
        decreases v@.len() - i,
    {
        r.push(v[i]);
        assert(r@ =~= v@.take(i + 1));
        i = i + 1;
    }
    assert(v@.take(i as int) =~= v@);
    r
}

/// Counts the results of a run, with the pre-skipped tests, into its summary.
pub fn summarize(results: &Vec<TestResult>, pre_skipped: usize, duration_ms: u64) -> (r: RunSummary)
    requires
        results@.len() + pre_skipped <= usize::MAX,
    ensures
        r == run_summary(results@, pre_skipped as nat, duration_ms),
{
    let ghost rs = results@;
    let ghost pp = |r: TestResult| r.outcome == TestOutcome::Passed;
    let ghost pf = |r: TestResult| r.outcome == TestOutcome::Failed;
    let ghost ps = |r: TestResult| r.outcome == TestOutcome::Skipped;
    let ghost pe = |r: TestResult| r.outcome == TestOutcome::Error;
    let mut passed: usize = 0;
    let mut failed: usize = 0;
    let mut skipped: usize = 0;
    let mut errors: usize = 0;
    let mut i: usize = 0;
    while i < results.len()
        invariant
            rs == results@,
            results@.len() + pre_skipped <= usize::MAX,
            pp == (|r: TestResult| r.outcome == TestOutcome::Passed),
            pf == (|r: TestResult| r.outcome == TestOutcome::Failed),
            ps == (|r: TestResult| r.outcome == TestOutcome::Skipped),
            pe == (|r: TestResult| r.outcome == TestOutcome::Error),
            i <= rs.len(),
            passed == rs.take(i as int).filter(pp).len(),
            failed == rs.take(i as int).filter(pf).len(),
            skipped == rs.take(i as int).filter(ps).len(),
            errors == rs.take(i as int).filter(pe).len(),
            passed <= i,
            failed <= i,
            skipped <= i,
            errors <= i,
        decreases rs.len() - i,
    {
        proof {
            let t = rs.take(i as int);
            assert(rs.take(i + 1) == t.push(rs[i as int]));
            t.lemma_filter_push(rs[i as int], pp);
            t.lemma_filter_push(rs[i as int], pf);
            t.lemma_filter_push(rs[i as int], ps);
            t.lemma_filter_push(rs[i as int], pe);
        }
        match results[i].outcome {
            TestOutcome::Passed => passed = passed + 1,
            TestOutcome::Failed => failed = failed + 1,
            TestOutcome::Skipped => skipped = skipped + 1,
            TestOutcome::Error => errors = errors + 1,
            _ => {},
        }
        i = i + 1;
    }
    assert(rs.take(i as int) =~= rs);
    RunSummary {
        total: results.len() + pre_skipped,
        passed,
        failed,
        skipped: skipped + pre_skipped,
        errors,
        duration_ms,
    }
}

/// The key a context is known by: repository, interpreter (`auto` when not
/// given) and mode, separated by colons.
pub open spec fn context_key(repo: Seq<char>, python: Option<Seq<char>>, mode: ExecutionMode) -> Seq<char> {
    repo + ":"@ + match python {
        Some(p) => p,
        None => "auto"@,
    } + ":"@ + crate::models::mode_name(mode)
}

/// A context's id: `ctx-` and the first eight bytes of the SHA-256 digest
/// of its key, in lower-case hexadecimal (the same request gets the same context).
pub open spec fn context_id_spec(key: Seq<char>) -> Seq<char> {
    "ctx-"@ + hex_of(sha256_spec(encode_utf8(key)).take(8))
}

/// The id of the context for a repository, interpreter and mode.
pub fn context_id(repo_path: &str, python_path: Option<&str>, mode: ExecutionMode) -> (r: String)
    ensures
        r@ == context_id_spec(
            context_key(
                repo_path@,
                match python_path {
                    Some(p) => Some(p@),
                    None => None,
                },
                mode,
            ),
        ),
{
    let mut key = String::new();
    crate::text::push_str_chars(&mut key, repo_path);
    crate::text::push_str_chars(&mut key, ":");
    match python_path {
        Some(p) => crate::text::push_str_chars(&mut key, p),
        None => crate::text::push_str_chars(&mut key, "auto"),
    }
    crate::text::push_str_chars(&mut key, ":");
    let m = mode.to_string();
    crate::text::push_str_chars(&mut key, m.as_str());
    let ghost k = key@;
    let digest = sha256(key.as_str().as_bytes());
    let mut head: Vec<u8> = Vec::new();
    let mut i: usize = 0;
    while i < 8
        invariant
            i <= 8,
            digest@.len() == 32,
            head@ == digest@.take(i as int),
        decreases 8 - i,
    {
        head.push(digest[i]);
        assert(head@ =~= digest@.take(i + 1));
        i = i + 1;
    }
    let hex = hex_encode(head.as_slice());
    let mut r = String::new();
    crate::text::push_str_chars(&mut r, "ctx-");
    crate::text::push_str_chars(&mut r, hex.as_str());
    assert(k =~= context_key(
        repo_path@,
        match python_path {
            Some(p) => Some(p@),
            None => None,
        },
        mode,
    ));
    r
}

/// The mode a request asks for: its name when it names a mode (case does
/// not matter), automatic otherwise.
pub fn requested_mode(name: Option<&str>) -> (r: ExecutionMode)
    ensures
        r == match name {
            Some(s) => match crate::models::parse_mode_spec(s@) {
                Ok(m) => m,
                Err(_) => ExecutionMode::Auto,
            },
            None => ExecutionMode::Auto,
        },
{
    match name {
        Some(s) => match ExecutionMode::parse(s) {
            Ok(m) => m,
            Err(_) => ExecutionMode::Auto,
        },
        None => ExecutionMode::Auto,
    }
}

/// Where a repository keeps its flakiness records: `.rpytest/flakiness.json`
/// under its root.
pub fn flakiness_path(repo_path: &str) -> (r: String)
    ensures
        r@ == crate::models::join_component(
            crate::models::join_component(repo_path@, ".rpytest"@),
            "flakiness.json"@,
        ),
{
    let dir = crate::models::join_path(repo_path, ".rpytest");
    crate::models::join_path(dir.as_str(), "flakiness.json")
}

/// The inventory node of a natively collected test: its id, place, markers
/// and skip and xfail flags.
pub fn node_of_native(n: NativeTestNode) -> (r: TestNode)
    ensures
        node_view(r) == (NodeView {
            node_id: n.node_id@,
            file_path: n.file_path@,
            name: n.name@,
            class_name: ostr(n.class_name),
            line_number: n.line_number,
            markers: string_views(n.markers@),
            skip: n.skip,
            xfail: n.xfail,
        }),
{
    TestNode {
        node_id: n.node_id,
        file_path: n.file_path,
        name: n.name,
        class_name: n.class_name,
        line_number: n.line_number,
        markers: n.markers,
        skip: n.skip,
        xfail: n.xfail,
    }
}

/// Two sequences in strictly increasing order with the same elements are
/// the same sequence.
proof fn lemma_sorted_unique(a: Seq<Seq<char>>, b: Seq<Seq<char>>)
    requires
        lex_sorted(a),
        lex_sorted(b),
        a.to_set() == b.to_set(),
    ensures
        a == b,
    decreases a.len(),
{
    if a.len() == 0 {
        if b.len() > 0 {
            assert(b.to_set().contains(b[0]));
            assert(!a.to_set().contains(b[0]));
        }
        assert(a =~= b);
    } else {
        assert(a.to_set().contains(a[0]));
        assert(b.to_set().contains(a[0]));
        let j = choose|j: int| 0 <= j < b.len() && b[j] == a[0];
        assert(b.to_set().contains(b[0]));
        assert(a.to_set().contains(b[0]));
        let i = choose|i: int| 0 <= i < a.len() && a[i] == b[0];
        if j > 0 {
            assert(lex_lt(b[0], b[j]));
            if i > 0 {
                assert(lex_lt(a[0], a[i]));
                lemma_lex_transitive(a[0], a[i], a[0]);
            }
            lemma_lex_irreflexive(a[0]);
        }
        assert(a[0] == b[0]);
        let x = a[0];
        let a1 = a.drop_first();
        let b1 = b.drop_first();
        assert forall|k: int| 0 <= k < a1.len() implies a1[k] != x by {
            assert(lex_lt(a[0], a[k + 1]));
            lemma_lex_irreflexive(x);
        }
        assert forall|k: int| 0 <= k < b1.len() implies b1[k] != x by {
            assert(lex_lt(b[0], b[k + 1]));
            lemma_lex_irreflexive(x);
        }
        assert forall|y: Seq<char>| a1.to_set().contains(y) <==> b1.to_set().contains(y) by {
            if a1.to_set().contains(y) {
                let k = choose|k: int| 0 <= k < a1.len() && a1[k] == y;
                assert(a.to_set().contains(a[k + 1]));
                assert(b.to_set().contains(y));
                let m = choose|m: int| 0 <= m < b.len() && b[m] == y;
                assert(m != 0);
                assert(b1[m - 1] == y);
            }
            if b1.to_set().contains(y) {
                let k = choose|k: int| 0 <= k < b1.len() && b1[k] == y;
                assert(b.to_set().contains(b[k + 1]));
                assert(a.to_set().contains(y));
                let m = choose|m: int| 0 <= m < a.len() && a[m] == y;
                assert(m != 0);
                assert(a1[m - 1] == y);
            }
        }
        assert(a1.to_set() =~= b1.to_set());
        assert forall|p: int, q: int| 0 <= p < q < a1.len() implies lex_lt(#[trigger] a1[p], #[trigger] a1[q]) by {
            assert(lex_lt(a[p + 1], a[q + 1]));
        }
        assert forall|p: int, q: int| 0 <= p < q < b1.len() implies lex_lt(#[trigger] b1[p], #[trigger] b1[q]) by {
            assert(lex_lt(b[p + 1], b[q + 1]));
        }
        lemma_sorted_unique(a1, b1);
        assert(a =~= seq![x] + a1);
        assert(b =~= seq![x] + b1);
    }
}

/// The inventory hash depends only on which tests the inventory holds, not
/// on the order in which they were collected: two id lists in increasing
/// order that hold the same ids give the same hash.
pub proof fn lemma_hash_ignores_order(a: Seq<Seq<char>>, b: Seq<Seq<char>>)
    requires
        lex_sorted(a),
        lex_sorted(b),
        a.to_set() == b.to_set(),
    ensures
        inventory_hash_of(a) == inventory_hash_of(b),
{
    lemma_sorted_unique(a, b);
}

} // verus!

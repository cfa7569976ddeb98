//! Test scheduler for load balancing across workers.
//!
//! Strategy: schedule longest tests first (LPT - Longest Processing Time).
//! Slow tests start early while faster tests fill in the gaps.

use vstd::prelude::*;
use vstd::string::*;
use crate::ranking::{is_ranking, rank_desc, ranks_before, lemma_ranking_unique};
use crate::table::{Table, entry_keys, entry_map, lemma_entry_map_at};
use crate::flakiness::keep_last;

verus! {

broadcast use vstd::seq_lib::group_seq_properties;

/// Number of durations kept per test.
pub const HISTORY_LEN: usize = 10;

/// Estimate used for a test with no recorded duration.
pub const DEFAULT_DURATION_MS: u64 = 1000;

/// Priority boost given to recently failed tests.
pub const FAILED_FIRST_BOOST: u64 = 1_000_000;

/// `d[0] + 2 d[1] + 4 d[2] + ...`: each duration weighted by 2^i, the most
/// recent (last) weighing most.
pub open spec fn weighted_sum(d: Seq<u64>) -> int
    decreases d.len(),
{
    if d.len() == 0 {
        0
    } else {
        d[0] + 2 * weighted_sum(d.subrange(1, d.len() as int))
    }
}

/// 2 to the power `n`.
pub open spec fn pow2(n: nat) -> int
    decreases n,
{
    if n == 0 {
        1
    } else {
        2 * pow2((n - 1) as nat)
    }
}

/// Exponentially weighted mean of a duration history: weights halve from the
/// most recent run to each older one; the result is rounded down.
pub open spec fn estimate(d: Seq<u64>) -> int {
    weighted_sum(d) / (pow2(d.len()) - 1)
}

/// The estimate for a test given its recorded history (if any).
pub open spec fn estimate_for(history: Map<Seq<char>, Seq<u64>>, id: Seq<char>, default: u64) -> int {
    if history.contains_key(id) && history[id].len() > 0 {
        estimate(history[id])
    } else {
        default as int
    }
}

proof fn lemma_pow2_pos(n: nat)
    ensures
        pow2(n) >= 1,
        pow2(n + 1) == 2 * pow2(n),
    decreases n,
{
    if n > 0 {
        lemma_pow2_pos((n - 1) as nat);
    }
}

proof fn lemma_weighted_sum_bound(d: Seq<u64>)
    ensures
        0 <= weighted_sum(d) <= (pow2(d.len()) - 1) * (u64::MAX as int),
    decreases d.len(),
{
    lemma_pow2_pos(d.len());
    if d.len() > 0 {
        let rest = d.subrange(1, d.len() as int);
        lemma_weighted_sum_bound(rest);
        lemma_pow2_pos(rest.len());
        assert(pow2(d.len()) == 2 * pow2(rest.len())) by {
            assert(d.len() == rest.len() + 1);
        }
    }
}

/// With a single duration the estimate is that duration.
pub proof fn lemma_estimate_single(x: u64)
    ensures
        estimate(seq![x]) == x,
{
    let d = seq![x];
    assert(d.subrange(1, 1) =~= Seq::<u64>::empty());
    assert(d[0] == x);
    assert(weighted_sum(Seq::<u64>::empty()) == 0);
    assert(weighted_sum(d) == d[0] + 2 * weighted_sum(d.subrange(1, 1)));
    assert(pow2(1) == 2) by {
        assert(pow2(0) == 1);
    }
}

/// The estimate lies between the smallest and the largest recorded duration.
pub proof fn lemma_estimate_within_range(d: Seq<u64>, lo: u64, hi: u64)
    requires
        d.len() > 0,
        forall|i: int| 0 <= i < d.len() ==> lo <= #[trigger] d[i] <= hi,
    ensures
        lo <= estimate(d) <= hi,
{
    lemma_weighted_sum_range(d, lo, hi);
    lemma_pow2_pos(d.len());
    let p = pow2(d.len()) - 1;
    assert(p >= 1) by {
        lemma_pow2_pos((d.len() - 1) as nat);
        assert(pow2(d.len()) == 2 * pow2((d.len() - 1) as nat));
    }
    let w = weighted_sum(d);
    assert(p * lo <= w <= p * hi);
    assert(lo <= w / p <= hi) by (nonlinear_arith)
        requires
            p >= 1,
            p * lo <= w <= p * hi,
            lo >= 0,
    ;
}

proof fn lemma_weighted_sum_range(d: Seq<u64>, lo: u64, hi: u64)
    requires
        forall|i: int| 0 <= i < d.len() ==> lo <= #[trigger] d[i] <= hi,
    ensures
        (pow2(d.len()) - 1) * lo <= weighted_sum(d) <= (pow2(d.len()) - 1) * hi,
    decreases d.len(),
{
    lemma_pow2_pos(d.len());
    if d.len() > 0 {
        let rest = d.subrange(1, d.len() as int);
        lemma_weighted_sum_range(rest, lo, hi);
        lemma_pow2_pos(rest.len());
        assert(pow2(d.len()) == 2 * pow2(rest.len())) by {
            assert(d.len() == rest.len() + 1);
        }
        let q = pow2(rest.len());
        assert(lo <= d[0] <= hi);
        assert(weighted_sum(d) == d[0] + 2 * weighted_sum(rest));
        assert((2 * q - 1) * lo == lo + 2 * ((q - 1) * lo)) by (nonlinear_arith);
        assert((2 * q - 1) * hi == hi + 2 * ((q - 1) * hi)) by (nonlinear_arith);
    } else {
        assert(pow2(0) == 1);
    }
}

/// Scheduler for ordering tests based on duration estimates.
#[derive(Debug)]
pub struct TestScheduler {
    duration_history: Table<Vec<u64>>,
    default_duration_ms: u64,
}

/// The durations of each history, as sequences.
pub open spec fn history_view(m: Map<Seq<char>, Vec<u64>>) -> Map<Seq<char>, Seq<u64>> {
    m.map_values(|v: Vec<u64>| v@)
}

impl TestScheduler {
    #[verifier::type_invariant]
    spec fn inv(self) -> bool {
        &&& self.duration_history.wf()
        &&& forall|i: int|
            0 <= i < self.duration_history.entries@.len() ==> 1
                <= #[trigger] self.duration_history.entries@[i].1@.len() <= HISTORY_LEN
    }

    /// Recorded durations of each test, oldest first.
    pub closed spec fn history(&self) -> Map<Seq<char>, Seq<u64>> {
        history_view(self.duration_history.map())
    }

    /// The estimate used for tests without history.
    pub closed spec fn default_ms(&self) -> u64 {
        self.default_duration_ms
    }

    /// The recorded histories are the table's entries, one per test.
    proof fn lemma_history_finite(&self)
        requires
            self.inv(),
        ensures
            self.history().dom().finite(),
            self.history().dom().len() == self.duration_history.entries@.len(),
    {
        let e = self.duration_history.entries@;
        assert(self.history().dom() =~= entry_keys(e).to_set());
        entry_keys(e).unique_seq_to_set();
    }

    /// Create a new scheduler with a one second default estimate.
    pub fn new() -> (s: TestScheduler)
        ensures
            s.history() == Map::<Seq<char>, Seq<u64>>::empty(),
            s.history().dom().finite(),
            s.default_ms() == DEFAULT_DURATION_MS,
    {
        let s = TestScheduler { duration_history: Table::new(), default_duration_ms: DEFAULT_DURATION_MS };
        assert(s.history() =~= Map::<Seq<char>, Seq<u64>>::empty());
        s
    }

    /// The estimate used for tests without history.
    pub fn default_duration_ms(&self) -> (r: u64)
        ensures
            r == self.default_ms(),
    {
        self.default_duration_ms
    }

    /// Update duration history for a test (the last ten runs are kept).
    pub fn update_duration(&mut self, node_id: &str, duration_ms: u64)
        ensures
            final(self).history() == old(self).history().insert(
                node_id@,
                keep_last(
                    (if old(self).history().contains_key(node_id@) {
                        old(self).history()[node_id@]
                    } else {
                        Seq::<u64>::empty()
                    }).push(duration_ms),
                    HISTORY_LEN as nat,
                ),
            ),
            final(self).history().dom().finite(),
            final(self).history().dom().len() == old(self).history().dom().len() + (if old(
                self,
            ).history().contains_key(node_id@) {
                0int
            } else {
                1int
            }),
            final(self).default_ms() == old(self).default_ms(),
    {
        proof {
            use_type_invariant(&*self);
            self.lemma_history_finite();
        }
        let key = String::from_str(node_id);
        let mut table: Table<Vec<u64>> = Table::new();
        std::mem::swap(&mut table, &mut self.duration_history);
        let ghost old_entries = table.entries@;
        let ghost old_map = table.map();
        let (pos, hist) = match table.find(&key) {
            Some(i) => {
                proof {
                    lemma_entry_map_at(old_entries, i as int);
                }
                let (_k, h) = table.remove_at(i);
                (i, h)
            },
            None => (table.len(), Vec::new()),
        };
        let ghost before: Seq<u64> = hist@;
        assert(before == (if history_view(old_map).contains_key(node_id@) {
            history_view(old_map)[node_id@]
        } else {
            Seq::<u64>::empty()
        }));
        let mut hist = hist;
        hist.push(duration_ms);
        let kept = keep_last_durations(hist, HISTORY_LEN);
        proof {
            assert(!table.keys().contains(key@)) by {
                if table.keys().contains(key@) {
                    let j = choose|j: int| 0 <= j < table.keys().len() && table.keys()[j] == key@;
                    if j < pos {
                        assert(entry_keys(old_entries)[j] == key@);
                    } else {
                        assert(entry_keys(old_entries)[j + 1] == key@);
                    }
                }
            }
        }
        let ghost kept_v = kept@;
        table.insert_at(pos, key, kept);
        proof {
            let e = table.entries@;
            assert forall|i: int| 0 <= i < e.len() implies 1 <= #[trigger] e[i].1@.len()
                <= HISTORY_LEN by {
                if i < pos {
                    assert(e[i] == old_entries[i]);
                } else if i > pos {
                    assert(e[i] == old_entries[i]);
                }
            }
        }
        self.duration_history = table;
        proof {
            assert(self.history() =~= history_view(old_map).insert(node_id@, kept_v));
            use_type_invariant(&*self);
            self.lemma_history_finite();
        }
    }

    /// Get estimated duration for a test: the weighted mean of its recorded
    /// durations, or the default estimate when there is none.
    pub fn get_estimated_duration(&self, node_id: &str) -> (r: u64)
        ensures
            r == estimate_for(self.history(), node_id@, self.default_ms()),
    {
        proof {
            use_type_invariant(self);
        }
        let key = String::from_str(node_id);
        match self.duration_history.find(&key) {
            Some(i) => {
                proof {
                    lemma_entry_map_at(self.duration_history.entries@, i as int);
                }
                let d = &self.duration_history.entries[i].1;
                estimate_exec(d)
            },
            None => self.default_duration_ms,
        }
    }

    /// Clear duration history.
    pub fn clear_history(&mut self)
        ensures
            final(self).history() == Map::<Seq<char>, Seq<u64>>::empty(),
            final(self).history().dom().finite(),
            final(self).default_ms() == old(self).default_ms(),
    {
        self.duration_history = Table::new();
        assert(self.history() =~= Map::<Seq<char>, Seq<u64>>::empty());
    }

    /// Get history for a specific test: a recorded history holds between one
    /// and ten durations.
    pub fn get_history(&self, node_id: &str) -> (r: Option<&Vec<u64>>)
        ensures
            r matches Some(h) ==> self.history().contains_key(node_id@) && h@ == self.history()[node_id@],
            r matches Some(h) ==> 1 <= h@.len() <= HISTORY_LEN,
            r is None ==> !self.history().contains_key(node_id@),
    {
        proof {
            use_type_invariant(self);
        }
        let key = String::from_str(node_id);
        match self.duration_history.find(&key) {
            Some(i) => {
                proof {
                    lemma_entry_map_at(self.duration_history.entries@, i as int);
                }
                Some(&self.duration_history.entries[i].1)
            },
            None => None,
        }
    }

    /// Get total number of tracked tests.
    pub fn tracked_count(&self) -> (r: usize)
        ensures
            r == self.history().dom().len(),
            self.history().dom().finite(),
    {
        proof {
            use_type_invariant(self);
            self.lemma_history_finite();
        }
        self.duration_history.len()
    }

    /// The estimate of each of the given tests.
    fn estimates(&self, node_ids: &[String]) -> (r: Vec<u64>)
        ensures
            r@.len() == node_ids@.len(),
            forall|i: int|
                0 <= i < node_ids@.len() ==> r@[i] == estimate_for(
                    self.history(),
                    #[trigger] node_ids@[i]@,
                    self.default_ms(),
                ),
    {
        let mut r: Vec<u64> = Vec::new();
        let mut i: usize = 0;
        while i < node_ids.len()
            invariant
                i <= node_ids@.len(),
                r@.len() == i,
                forall|j: int|
                    0 <= j < i ==> r@[j] == estimate_for(
                        self.history(),
                        #[trigger] node_ids@[j]@,
                        self.default_ms(),
                    ),
            decreases node_ids@.len() - i,
        {
            r.push(self.get_estimated_duration(node_ids[i].as_str()));
            i = i + 1;
        }
        r
    }

    /// Schedule tests for execution: highest priority first, where the
    /// priority is the estimated duration, raised by one million for recently
    /// failed tests when `failed_first` is set; equal priorities keep their
    /// input order.
    pub fn schedule(
        &self,
        node_ids: &[String],
        failed_first: bool,
        recent_failures: &[String],
    ) -> (r: Vec<String>)
        requires
            forall|i: int|
                0 <= i < node_ids@.len() && failed_first && names_contain(
                    recent_failures@,
                    #[trigger] node_ids@[i]@,
                ) ==> estimate_for(self.history(), node_ids@[i]@, self.default_ms())
                    + FAILED_FIRST_BOOST <= u64::MAX,
        ensures
            exists|perm: Seq<usize>|
                {
                    &&& is_ranking(
                        schedule_priorities(
                            self.history(),
                            self.default_ms(),
                            node_ids@,
                            failed_first,
                            recent_failures@,
                        ),
                        perm,
                    )
                    &&& r@.len() == perm.len()
                    &&& forall|k: int|
                        0 <= k < perm.len() ==> #[trigger] r@[k]@ == node_ids@[perm[k] as int]@
                },
    {
        let est = self.estimates(node_ids);
        let mut keys: Vec<u128> = Vec::new();
        let ghost prios = schedule_priorities(
            self.history(),
            self.default_ms(),
            node_ids@,
            failed_first,
            recent_failures@,
        );
        let mut i: usize = 0;
        while i < node_ids.len()
            invariant
                i <= node_ids@.len(),
                est@.len() == node_ids@.len(),
                keys@.len() == i,
                prios.len() == node_ids@.len(),
                prios == schedule_priorities(
                    self.history(),
                    self.default_ms(),
                    node_ids@,
                    failed_first,
                    recent_failures@,
                ),
                forall|j: int|
                    0 <= j < node_ids@.len() ==> est@[j] == estimate_for(
                        self.history(),
                        #[trigger] node_ids@[j]@,
                        self.default_ms(),
                    ),
                forall|j: int|
                    0 <= j < node_ids@.len() && failed_first && names_contain(
                        recent_failures@,
                        #[trigger] node_ids@[j]@,
                    ) ==> estimate_for(self.history(), node_ids@[j]@, self.default_ms())
                        + FAILED_FIRST_BOOST <= u64::MAX,
                forall|j: int| 0 <= j < i ==> #[trigger] keys@[j] == prios[j],
            decreases node_ids@.len() - i,
        {
            let mut priority: u64 = est[i];
            if failed_first && contains_name(recent_failures, &node_ids[i]) {
                priority = priority + FAILED_FIRST_BOOST;
            }
            keys.push(priority as u128);
            i = i + 1;
        }
        assert(keys@ =~= prios);
        let perm = rank_desc(&keys);
        let mut r: Vec<String> = Vec::new();
        let mut k: usize = 0;
        while k < perm.len()
            invariant
                is_ranking(keys@, perm@),
                keys@.len() == node_ids@.len(),
                k <= perm@.len(),
                r@.len() == k,
                forall|j: int| 0 <= j < k ==> #[trigger] r@[j]@ == node_ids@[perm@[j] as int]@,
            decreases perm@.len() - k,
        {
            r.push(node_ids[perm[k]].clone());
            k = k + 1;
        }
        r
    }

    /// Split tests into balanced batches: tests in descending order of
    /// estimate (ties in input order) each go to the batch with the smallest
    /// total estimate so far (the first such batch); empty batches are dropped.
    /// With at most one worker, or no tests, the single batch is all tests.
    pub fn split_balanced(&self, node_ids: &[String], worker_count: usize) -> (r: Vec<Vec<String>>)
        ensures
            worker_count <= 1 || node_ids@.len() == 0 ==> r@.len() == 1 && r@[0]@.len()
                == node_ids@.len() && forall|j: int|
                0 <= j < node_ids@.len() ==> #[trigger] r@[0]@[j]@ == node_ids@[j]@,
            worker_count > 1 && node_ids@.len() > 0 ==> exists|perm: Seq<usize>|
                {
                    &&& is_ranking(
                        estimate_keys(self.history(), self.default_ms(), node_ids@),
                        perm,
                    )
                    &&& batches_match(
                        r@,
                        nonempty_batches(
                            lpt_batches(
                                estimate_keys(self.history(), self.default_ms(), node_ids@),
                                perm,
                                worker_count as nat,
                                perm.len(),
                            ),
                        ),
                        node_ids@,
                    )
                },
    {
        if worker_count <= 1 || node_ids.len() == 0 {
            let mut all: Vec<String> = Vec::new();
            let mut j: usize = 0;
            while j < node_ids.len()
                invariant
                    j <= node_ids@.len(),
                    all@.len() == j,
                    forall|q: int| 0 <= q < j ==> #[trigger] all@[q]@ == node_ids@[q]@,
                decreases node_ids@.len() - j,
            {
                all.push(node_ids[j].clone());
                j = j + 1;
            }
            let mut r: Vec<Vec<String>> = Vec::new();
            r.push(all);
            return r;
        }
        let est = self.estimates(node_ids);
        let mut keys: Vec<u128> = Vec::new();
        let ghost ekeys = estimate_keys(self.history(), self.default_ms(), node_ids@);
        let mut i: usize = 0;
        while i < est.len()
            invariant
                i <= est@.len(),
                est@.len() == node_ids@.len(),
                ekeys == estimate_keys(self.history(), self.default_ms(), node_ids@),
                forall|j: int|
                    0 <= j < node_ids@.len() ==> est@[j] == estimate_for(
                        self.history(),
                        #[trigger] node_ids@[j]@,
                        self.default_ms(),
                    ),
                keys@.len() == i,
                forall|j: int| 0 <= j < i ==> #[trigger] keys@[j] == ekeys[j],
                forall|j: int| 0 <= j < i ==> #[trigger] keys@[j] <= u64::MAX,
            decreases est@.len() - i,
        {
            keys.push(est[i] as u128);
            i = i + 1;
        }
        assert(keys@ =~= ekeys);
        let perm = rank_desc(&keys);
        // greedy assignment
        let mut loads: Vec<u128> = Vec::new();
        let mut batches: Vec<Vec<String>> = Vec::new();
        let mut b: usize = 0;
        while b < worker_count
            invariant
                b <= worker_count,
                loads@.len() == b,
                batches@.len() == b,
                forall|q: int| 0 <= q < b ==> loads@[q] == 0,
                forall|q: int| 0 <= q < b ==> (#[trigger] batches@[q])@.len() == 0,
            decreases worker_count - b,
        {
            loads.push(0);
            batches.push(Vec::new());
            b = b + 1;
        }
        proof {
            let st0 = lpt_state(ekeys, perm@, worker_count as nat, 0);
            assert forall|q: int| 0 <= q < batches@.len() implies batch_matches(
                #[trigger] batches@[q]@,
                st0.1[q],
                node_ids@,
            ) by {}
        }
        let mut k: usize = 0;
        while k < perm.len()
            invariant
                is_ranking(ekeys, perm@),
                ekeys.len() == node_ids@.len(),
                keys@ == ekeys,
                forall|j: int| 0 <= j < ekeys.len() ==> #[trigger] ekeys[j] <= u64::MAX,
                worker_count > 1,
                k <= perm@.len(),
                perm@.len() == node_ids@.len(),
                node_ids@.len() <= usize::MAX,
                loads@.len() == worker_count,
                batches@.len() == worker_count,
                batches_agree(
                    batches@,
                    lpt_state(ekeys, perm@, worker_count as nat, k as nat),
                    loads@,
                    node_ids@,
                ),
            decreases perm@.len() - k,
        {
            let t = perm[k];
            let m = first_min_index(&loads);
            proof {
                lemma_lpt_loads_total(ekeys, perm@, worker_count as nat, k as nat);
                lemma_prefix_total_bound(ekeys, perm@, k as nat);
                assert(loads_view(loads@) == lpt_state(ekeys, perm@, worker_count as nat, k as nat).0);
                assert((k + 1) * (u64::MAX as int) <= usize::MAX * (u64::MAX as int)) by (nonlinear_arith)
                    requires k + 1 <= usize::MAX;
            }
            let d = keys[t];
            let ghost old_batches = batches@;
            let new_load = loads[m] + d;
            loads.set(m, new_load);
            let mut moved: Vec<String> = Vec::new();
            std::mem::swap(&mut moved, &mut batches[m]);
            moved.push(node_ids[t].clone());
            std::mem::swap(&mut moved, &mut batches[m]);
            proof {
                let st = lpt_state(ekeys, perm@, worker_count as nat, (k + 1) as nat);
                assert(batches@[m as int]@ == old_batches[m as int]@.push(node_ids@[t as int]));
                assert forall|q: int| 0 <= q < worker_count && q != m implies #[trigger] batches@[q]
                    == old_batches[q] by {}
                assert forall|q: int| 0 <= q < batches@.len() implies batch_matches(
                    #[trigger] batches@[q]@,
                    st.1[q],
                    node_ids@,
                ) by {
                    if q == m {
                        let prev = lpt_state(ekeys, perm@, worker_count as nat, k as nat).1[q];
                        assert(st.1[q] == prev.push(t));
                        assert forall|j: int| 0 <= j < st.1[q].len() implies #[trigger] batches@[q]@[j]@
                            == node_ids@[st.1[q][j] as int]@ by {
                            if j < prev.len() {
                                assert(batches@[q]@[j] == old_batches[q]@[j]);
                            }
                        }
                    }
                }
            }
            k = k + 1;
        }
        // drop empty batches
        let mut r: Vec<Vec<String>> = Vec::new();
        let ghost st = lpt_state(ekeys, perm@, worker_count as nat, perm@.len());
        let mut q: usize = 0;
        let mut batches = batches;
        let ghost all_batches = batches@;
        while batches.len() > 0
            invariant
                q <= worker_count,
                all_batches.len() == worker_count,
                batches@ == all_batches.subrange(q as int, worker_count as int),
                batches_agree(all_batches, st, loads@, node_ids@),
                batches_match(r@, nonempty_batches(st.1.subrange(0, q as int)), node_ids@),
            decreases batches@.len(),
        {
            let bt = batches.remove(0);
            assert(bt == all_batches[q as int]);
            proof {
                assert(st.1.subrange(0, q + 1) == st.1.subrange(0, q as int).push(st.1[q as int]));
                lemma_nonempty_push(st.1.subrange(0, q as int), st.1[q as int]);
            }
            if bt.len() > 0 {
                proof {
                    lemma_batches_match_push(r@, nonempty_batches(st.1.subrange(0, q as int)), bt, st.1[q as int], node_ids@);
                }
                r.push(bt);
            }
            q = q + 1;
        }
        assert(st.1.subrange(0, worker_count as int) == st.1);
        r
    }
}

/// Without `failed_first`, each test's priority is its plain duration
/// estimate, and recent failures change nothing.
pub proof fn lemma_plain_schedule_ignores_failures(
    history: Map<Seq<char>, Seq<u64>>,
    default: u64,
    ids: Seq<String>,
    recent_a: Seq<String>,
    recent_b: Seq<String>,
)
    ensures
        schedule_priorities(history, default, ids, false, recent_a) == schedule_priorities(
            history,
            default,
            ids,
            false,
            recent_b,
        ),
        forall|i: int|
            0 <= i < ids.len() ==> #[trigger] schedule_priorities(history, default, ids, false, recent_a)[i]
                == estimate_for(history, ids[i]@, default) as u128,
{
    assert(schedule_priorities(history, default, ids, false, recent_a) =~= schedule_priorities(
        history,
        default,
        ids,
        false,
        recent_b,
    ));
}

/// Without `failed_first`, the schedule's order does not depend on the
/// recent failures: the rankings for any two lists of failures are the same.
pub proof fn lemma_plain_schedule_order_ignores_failures(
    history: Map<Seq<char>, Seq<u64>>,
    default: u64,
    ids: Seq<String>,
    recent_a: Seq<String>,
    recent_b: Seq<String>,
    perm_a: Seq<usize>,
    perm_b: Seq<usize>,
)
    requires
        is_ranking(schedule_priorities(history, default, ids, false, recent_a), perm_a),
        is_ranking(schedule_priorities(history, default, ids, false, recent_b), perm_b),
    ensures
        perm_a == perm_b,
{
    lemma_plain_schedule_ignores_failures(history, default, ids, recent_a, recent_b);
    lemma_ranking_unique(schedule_priorities(history, default, ids, false, recent_a), perm_a, perm_b);
}

/// Without `failed_first`, tests run longest estimate first, and tests with
/// equal estimates keep their input order.
pub proof fn lemma_plain_schedule_longest_first(
    history: Map<Seq<char>, Seq<u64>>,
    default: u64,
    ids: Seq<String>,
    recent: Seq<String>,
    perm: Seq<usize>,
    a: int,
    b: int,
)
    requires
        is_ranking(schedule_priorities(history, default, ids, false, recent), perm),
        0 <= a < b < perm.len(),
    ensures
        estimate_for(history, ids[perm[a] as int]@, default) >= estimate_for(history, ids[perm[b] as int]@, default),
        estimate_for(history, ids[perm[a] as int]@, default) == estimate_for(history, ids[perm[b] as int]@, default)
            ==> perm[a] < perm[b],
{
    lemma_plain_schedule_ignores_failures(history, default, ids, recent, recent);
    let keys = schedule_priorities(history, default, ids, false, recent);
    assert(ranks_before(keys, perm[a], perm[b]));
    lemma_estimate_nonneg(history, ids[perm[a] as int]@, default);
    lemma_estimate_nonneg(history, ids[perm[b] as int]@, default);
    lemma_estimate_bound(history, ids[perm[a] as int]@, default);
    lemma_estimate_bound(history, ids[perm[b] as int]@, default);
    assert(keys[perm[a] as int] == estimate_for(history, ids[perm[a] as int]@, default) as u128);
    assert(keys[perm[b] as int] == estimate_for(history, ids[perm[b] as int]@, default) as u128);
}

/// An estimate fits in a `u64`.
proof fn lemma_estimate_bound(history: Map<Seq<char>, Seq<u64>>, id: Seq<char>, default: u64)
    ensures
        estimate_for(history, id, default) <= u64::MAX,
{
    if history.contains_key(id) && history[id].len() > 0 {
        lemma_estimate_within_range(history[id], 0, u64::MAX);
    }
}

/// An estimate is never negative.
proof fn lemma_estimate_nonneg(history: Map<Seq<char>, Seq<u64>>, id: Seq<char>, default: u64)
    ensures
        0 <= estimate_for(history, id, default),
{
    if history.contains_key(id) && history[id].len() > 0 {
        lemma_estimate_within_range(history[id], 0, u64::MAX);
    }
}

/// With `failed_first`, a recently failed test is raised by exactly the
/// boost above its estimate, and any other test keeps its estimate.
pub proof fn lemma_failed_first_boost(
    history: Map<Seq<char>, Seq<u64>>,
    default: u64,
    ids: Seq<String>,
    recent: Seq<String>,
    i: int,
)
    requires
        0 <= i < ids.len(),
        estimate_for(history, ids[i]@, default) + FAILED_FIRST_BOOST <= u64::MAX,
    ensures
        schedule_priorities(history, default, ids, true, recent)[i] == estimate_for(history, ids[i]@, default)
            + if names_contain(recent, ids[i]@) {
            FAILED_FIRST_BOOST as int
        } else {
            0int
        },
{
    lemma_estimate_nonneg(history, ids[i]@, default);
}

/// The name list contains `id`.
pub open spec fn names_contain(names: Seq<String>, id: Seq<char>) -> bool {
    exists|i: int| 0 <= i < names.len() && #[trigger] names[i]@ == id
}

/// `names` contains a string equal to `id`.
fn contains_name(names: &[String], id: &String) -> (r: bool)
    ensures
        r == names_contain(names@, id@),
{
    let mut i: usize = 0;
    while i < names.len()
        invariant
            i <= names@.len(),
            forall|j: int| 0 <= j < i ==> #[trigger] names@[j]@ != id@,
        decreases names@.len() - i,
    {
        if names[i] == *id {
            return true;
        }
        i = i + 1;
    }
    false
}

/// Scheduling priority of each test.
pub open spec fn schedule_priorities(
    history: Map<Seq<char>, Seq<u64>>,
    default: u64,
    ids: Seq<String>,
    failed_first: bool,
    recent: Seq<String>,
) -> Seq<u128> {
    Seq::new(
        ids.len(),
        |i: int|
            (estimate_for(history, ids[i]@, default) + if failed_first && names_contain(
                recent,
                ids[i]@,
            ) {
                FAILED_FIRST_BOOST as int
            } else {
                0
            }) as u128,
    )
}

/// The estimate of each test, as ranking keys.
pub open spec fn estimate_keys(history: Map<Seq<char>, Seq<u64>>, default: u64, ids: Seq<String>) -> Seq<
    u128,
> {
    Seq::new(ids.len(), |i: int| estimate_for(history, ids[i]@, default) as u128)
}

/// Sum of the keys of the first `k` tests in `order`.
pub open spec fn prefix_total(keys: Seq<u128>, order: Seq<usize>, k: nat) -> int
    decreases k,
{
    if k == 0 {
        0
    } else {
        prefix_total(keys, order, (k - 1) as nat) + keys[order[k - 1] as int]
    }
}

/// The first index holding the smallest of `loads`.
pub open spec fn first_min(loads: Seq<int>) -> int
    decreases loads.len(),
{
    if loads.len() <= 1 {
        0
    } else {
        let m = first_min(loads.drop_last());
        if loads.last() < loads[m] {
            loads.len() - 1
        } else {
            m
        }
    }
}

/// Loads and batches (of test indices) after assigning the first `k` tests
/// of `order` to `w` batches, each to the first least-loaded batch.
pub open spec fn lpt_state(keys: Seq<u128>, order: Seq<usize>, w: nat, k: nat) -> (
    Seq<int>,
    Seq<Seq<usize>>,
)
    decreases k,
{
    if k == 0 {
        (Seq::new(w, |q: int| 0int), Seq::new(w, |q: int| Seq::<usize>::empty()))
    } else {
        let (loads, batches) = lpt_state(keys, order, w, (k - 1) as nat);
        let t = order[k - 1];
        let m = first_min(loads);
        (loads.update(m, loads[m] + keys[t as int]), batches.update(m, batches[m].push(t)))
    }
}

/// The batches after assigning all of the first `k` tests.
pub open spec fn lpt_batches(keys: Seq<u128>, order: Seq<usize>, w: nat, k: nat) -> Seq<Seq<usize>> {
    lpt_state(keys, order, w, k).1
}

/// The batches that are not empty, in order.
pub open spec fn nonempty_batches(b: Seq<Seq<usize>>) -> Seq<Seq<usize>> {
    b.filter(|x: Seq<usize>| x.len() > 0)
}

/// Loads as mathematical integers.
pub open spec fn loads_view(l: Seq<u128>) -> Seq<int> {
    l.map_values(|x: u128| x as int)
}

/// The string batches hold the names of the tests of the index batches, and
/// the loads agree.
pub open spec fn batches_agree(
    b: Seq<Vec<String>>,
    st: (Seq<int>, Seq<Seq<usize>>),
    loads: Seq<u128>,
    ids: Seq<String>,
) -> bool {
    &&& b.len() == st.1.len()
    &&& loads.len() == st.0.len()
    &&& forall|q: int| 0 <= q < loads.len() ==> #[trigger] loads[q] as int == st.0[q]
    &&& forall|q: int| 0 <= q < b.len() ==> batch_matches(#[trigger] b[q]@, st.1[q], ids)
}

/// A batch of names holds the names of the tests of an index batch.
pub open spec fn batch_matches(names: Seq<String>, idx: Seq<usize>, ids: Seq<String>) -> bool {
    &&& names.len() == idx.len()
    &&& forall|j: int| 0 <= j < idx.len() ==> #[trigger] names[j]@ == ids[idx[j] as int]@
}

/// Each batch of names matches the corresponding index batch.
pub open spec fn batches_match(r: Seq<Vec<String>>, idx: Seq<Seq<usize>>, ids: Seq<String>) -> bool {
    &&& r.len() == idx.len()
    &&& forall|q: int| 0 <= q < r.len() ==> batch_matches(#[trigger] r[q]@, idx[q], ids)
}

proof fn lemma_nonempty_push(b: Seq<Seq<usize>>, x: Seq<usize>)
    ensures
        nonempty_batches(b.push(x)) == if x.len() > 0 {
            nonempty_batches(b).push(x)
        } else {
            nonempty_batches(b)
        },
{
    b.lemma_filter_push(x, |x: Seq<usize>| x.len() > 0);
}

proof fn lemma_batches_match_push(
    r: Seq<Vec<String>>,
    idx: Seq<Seq<usize>>,
    bt: Vec<String>,
    x: Seq<usize>,
    ids: Seq<String>,
)
    requires
        batches_match(r, idx, ids),
        batch_matches(bt@, x, ids),
    ensures
        batches_match(r.push(bt), idx.push(x), ids),
{
    assert forall|q: int| 0 <= q < r.len() + 1 implies batch_matches(
        #[trigger] r.push(bt)[q]@,
        idx.push(x)[q],
        ids,
    ) by {
        if q < r.len() {
            assert(r.push(bt)[q] == r[q]);
        }
    }
}

/// The first least element of `loads`.
fn first_min_index(loads: &Vec<u128>) -> (m: usize)
    requires
        loads@.len() > 0,
    ensures
        m < loads@.len(),
        m == first_min(loads_view(loads@)),
{
    let mut m: usize = 0;
    let mut i: usize = 1;
    proof {
        assert(loads_view(loads@).subrange(0, 1).len() == 1);
    }
    while i < loads.len()
        invariant
            1 <= i <= loads@.len(),
            m < i,
            m == first_min(loads_view(loads@).subrange(0, i as int)),
        decreases loads@.len() - i,
    {
        proof {
            let s = loads_view(loads@).subrange(0, i + 1);
            assert(s.drop_last() == loads_view(loads@).subrange(0, i as int));
            assert(s.last() == loads@[i as int] as int);
            assert(s[m as int] == loads@[m as int] as int);
        }
        if loads[i] < loads[m] {
            m = i;
        }
        i = i + 1;
    }
    assert(loads_view(loads@).subrange(0, i as int) == loads_view(loads@));
    m
}

proof fn lemma_first_min_in_range(loads: Seq<int>)
    requires
        loads.len() > 0,
    ensures
        0 <= first_min(loads) < loads.len(),
    decreases loads.len(),
{
    if loads.len() > 1 {
        lemma_first_min_in_range(loads.drop_last());
    }
}

/// After `k` assignments each load lies between 0 and the keys of the first
/// `k` tests.
proof fn lemma_lpt_loads_total(keys: Seq<u128>, order: Seq<usize>, w: nat, k: nat)
    requires
        w > 0,
        k <= order.len(),
        forall|i: int| 0 <= i < order.len() ==> order[i] < keys.len(),
    ensures
        lpt_state(keys, order, w, k).0.len() == w,
        lpt_state(keys, order, w, k).1.len() == w,
        forall|q: int| 0 <= q < w ==> 0 <= #[trigger] lpt_state(keys, order, w, k).0[q] <= prefix_total(
            keys,
            order,
            k,
        ),
    decreases k,
{
    if k > 0 {
        lemma_lpt_loads_total(keys, order, w, (k - 1) as nat);
        let (loads, batches) = lpt_state(keys, order, w, (k - 1) as nat);
        lemma_first_min_in_range(loads);
    }
}

proof fn lemma_prefix_total_bound(keys: Seq<u128>, order: Seq<usize>, k: nat)
    requires
        k <= order.len(),
        forall|i: int| 0 <= i < order.len() ==> order[i] < keys.len(),
        forall|i: int| 0 <= i < keys.len() ==> keys[i] <= u64::MAX,
    ensures
        0 <= prefix_total(keys, order, k) <= k * (u64::MAX as int),
    decreases k,
{
    if k > 0 {
        lemma_prefix_total_bound(keys, order, (k - 1) as nat);
    }
}

proof fn lemma_prefix_total_mono(keys: Seq<u128>, order: Seq<usize>, a: nat, b: nat)
    requires
        a <= b,
    ensures
        prefix_total(keys, order, a) <= prefix_total(keys, order, b),
    decreases b,
{
    if a < b {
        lemma_prefix_total_mono(keys, order, a, (b - 1) as nat);
    }
}

/// Runs `estimate` over a stored history.
fn estimate_exec(d: &Vec<u64>) -> (r: u64)
    requires
        1 <= d@.len() <= HISTORY_LEN,
    ensures
        r == estimate(d@),
{
    let n = d.len();
    let mut acc: u128 = 0;
    let mut p: u128 = 1;
    let mut i: usize = n;
    proof {
        assert(d@.subrange(n as int, n as int) =~= Seq::<u64>::empty());
        lemma_pow2_pos(0);
        lemma_pow2_mono(0, HISTORY_LEN as nat);
    }
    while i > 0
        invariant
            i <= n,
            n == d@.len(),
            n <= HISTORY_LEN,
            acc == weighted_sum(d@.subrange(i as int, n as int)),
            p == pow2((n - i) as nat),
            acc <= (p - 1) * (u64::MAX as int),
            p <= pow2(HISTORY_LEN as nat),
        decreases i,
    {
        proof {
            let s = d@.subrange(i - 1, n as int);
            assert(s.subrange(1, s.len() as int) == d@.subrange(i as int, n as int));
            lemma_pow2_pos((n - i) as nat);
            lemma_pow2_mono((n - i + 1) as nat, HISTORY_LEN as nat);
            assert(pow2(HISTORY_LEN as nat) == 1024) by {
                reveal_with_fuel(pow2, 11);
            }
        }
        acc = d[i - 1] as u128 + 2 * acc;
        p = 2 * p;
        i = i - 1;
    }
    assert(d@.subrange(0, n as int) == d@);
    proof {
        lemma_pow2_pos(n as nat);
        lemma_weighted_sum_bound(d@);
        assert(pow2(1) == 2) by {
            assert(pow2(0) == 1);
        }
        lemma_pow2_mono(1, n as nat);
    }
    let q = acc / (p - 1);
    proof {
        let den: int = p - 1;
        let a: int = acc as int;
        assert(den >= 1);
        assert(a / den <= u64::MAX) by (nonlinear_arith)
            requires
                den >= 1,
                0 <= a <= den * (u64::MAX as int),
        ;
    }
    q as u64
}

proof fn lemma_pow2_mono(a: nat, b: nat)
    requires
        a <= b,
    ensures
        pow2(a) <= pow2(b),
    decreases b,
{
    lemma_pow2_pos(b);
    if a < b {
        lemma_pow2_mono(a, (b - 1) as nat);
        lemma_pow2_pos((b - 1) as nat);
    }
}

/// The last `max` durations of `v`.
pub fn keep_last_durations(v: Vec<u64>, max: usize) -> (r: Vec<u64>)
    ensures
        r@ == keep_last(v@, max as nat),
{
    if v.len() <= max {
        return v;
    }
    let start = v.len() - max;
    let mut r: Vec<u64> = Vec::new();
    let mut i = start;
    while i < v.len()
        invariant
            start <= i <= v@.len(),
            start == v@.len() - max,
            r@ == v@.subrange(start as int, i as int),
        decreases v@.len() - i,
    {
        r.push(v[i]);
        i = i + 1;
    }
    r
}

} // verus!

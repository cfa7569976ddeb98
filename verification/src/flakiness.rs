//! Flakiness detection and tracking with an explicit stability state machine.

use vstd::prelude::*;
use vstd::string::*;
use crate::models::{
    FlakinessRecord, StabilityState, TestOutcome, is_failing, outcome_name, outcome_named,
};
use crate::text::string_views;
use crate::table::{Table, entry_keys, entry_values, entry_map, lemma_entry_map_at, derefs, lemma_derefs_push};

verus! {

broadcast use vstd::seq_lib::group_seq_properties;

/// The outcome flips between failing and not failing with respect to the previous one.
pub open spec fn flipped(outcome: TestOutcome, prev: Option<TestOutcome>) -> bool {
    match prev {
        Some(p) => is_failing(p) != is_failing(outcome),
        None => false,
    }
}

/// The state that follows `s` when `outcome` is observed after `prev`.
pub open spec fn next_state(
    s: StabilityState,
    outcome: TestOutcome,
    prev: Option<TestOutcome>,
) -> StabilityState {
    match s {
        StabilityState::Unknown => if outcome == TestOutcome::Passed {
            StabilityState::Stable { consecutive_passes: 1 }
        } else if is_failing(outcome) {
            StabilityState::Unstable { consecutive_failures: 1 }
        } else {
            StabilityState::Unknown
        },
        StabilityState::Stable { consecutive_passes } => if outcome == TestOutcome::Passed {
            StabilityState::Stable { consecutive_passes: (consecutive_passes + 1) as u32 }
        } else if is_failing(outcome) {
            StabilityState::Flaky { streak_count: 1 }
        } else {
            StabilityState::Unknown
        },
        StabilityState::Unstable { consecutive_failures } => if outcome == TestOutcome::Passed {
            StabilityState::Flaky { streak_count: 1 }
        } else if is_failing(outcome) {
            StabilityState::Unstable { consecutive_failures: (consecutive_failures + 1) as u32 }
        } else {
            StabilityState::Unknown
        },
        StabilityState::Flaky { streak_count } => if flipped(outcome, prev) {
            if streak_count + 1 >= 3 {
                StabilityState::ConfirmedFlaky
            } else {
                StabilityState::Flaky { streak_count: (streak_count + 1) as u32 }
            }
        } else if outcome == TestOutcome::Passed {
            StabilityState::Stable { consecutive_passes: 1 }
        } else if is_failing(outcome) {
            StabilityState::Unstable { consecutive_failures: 1 }
        } else {
            StabilityState::Unknown
        },
        StabilityState::ConfirmedFlaky => if outcome == TestOutcome::Passed {
            if prev == Some(TestOutcome::Passed) {
                StabilityState::Stable { consecutive_passes: 2 }
            } else {
                StabilityState::ConfirmedFlaky
            }
        } else if is_failing(outcome) {
            if prev matches Some(p) && is_failing(p) {
                StabilityState::Unstable { consecutive_failures: 2 }
            } else {
                StabilityState::ConfirmedFlaky
            }
        } else {
            StabilityState::ConfirmedFlaky
        },
    }
}

/// The step from `s` does not overflow a counter.
pub open spec fn transition_defined(
    s: StabilityState,
    outcome: TestOutcome,
    prev: Option<TestOutcome>,
) -> bool {
    match s {
        StabilityState::Stable { consecutive_passes } => outcome == TestOutcome::Passed
            ==> consecutive_passes < u32::MAX,
        StabilityState::Unstable { consecutive_failures } => is_failing(outcome)
            ==> consecutive_failures < u32::MAX,
        StabilityState::Flaky { streak_count } => flipped(outcome, prev) ==> streak_count
            < u32::MAX,
        _ => true,
    }
}

impl StabilityState {
    /// Apply an outcome and return the new state.
    ///
    /// The `prev_outcome` is the most recent previous outcome (if any).
    pub fn transition(self, outcome: &TestOutcome, prev_outcome: Option<&TestOutcome>) -> (r:
        StabilityState)
        requires
            transition_defined(
                self,
                *outcome,
                match prev_outcome {
                    Some(p) => Some(*p),
                    None => None,
                },
            ),
        ensures
            r == next_state(
                self,
                *outcome,
                match prev_outcome {
                    Some(p) => Some(*p),
                    None => None,
                },
            ),
    {
        let passed = *outcome == TestOutcome::Passed;
        let failing = outcome.is_failing();
        match self {
            StabilityState::Unknown => if passed {
                StabilityState::Stable { consecutive_passes: 1 }
            } else if failing {
                StabilityState::Unstable { consecutive_failures: 1 }
            } else {
                StabilityState::Unknown
            },
            StabilityState::Stable { consecutive_passes } => if passed {
                StabilityState::Stable { consecutive_passes: consecutive_passes + 1 }
            } else if failing {
                StabilityState::Flaky { streak_count: 1 }
            } else {
                StabilityState::Unknown
            },
            StabilityState::Unstable { consecutive_failures } => if passed {
                StabilityState::Flaky { streak_count: 1 }
            } else if failing {
                StabilityState::Unstable { consecutive_failures: consecutive_failures + 1 }
            } else {
                StabilityState::Unknown
            },
            StabilityState::Flaky { streak_count } => {
                let is_flip = match prev_outcome {
                    Some(prev) => prev.is_failing() != failing,
                    None => false,
                };
                if is_flip {
                    let new_streak = streak_count + 1;
                    if new_streak >= 3 {
                        StabilityState::ConfirmedFlaky
                    } else {
                        StabilityState::Flaky { streak_count: new_streak }
                    }
                } else if passed {
                    StabilityState::Stable { consecutive_passes: 1 }
                } else if failing {
                    StabilityState::Unstable { consecutive_failures: 1 }
                } else {
                    StabilityState::Unknown
                }
            },
            StabilityState::ConfirmedFlaky => if passed {
                let prev_was_pass = match prev_outcome {
                    Some(prev) => *prev == TestOutcome::Passed,
                    None => false,
                };
                if prev_was_pass {
                    StabilityState::Stable { consecutive_passes: 2 }
                } else {
                    StabilityState::ConfirmedFlaky
                }
            } else if failing {
                let prev_was_fail = match prev_outcome {
                    Some(prev) => prev.is_failing(),
                    None => false,
                };
                if prev_was_fail {
                    StabilityState::Unstable { consecutive_failures: 2 }
                } else {
                    StabilityState::ConfirmedFlaky
                }
            } else {
                StabilityState::ConfirmedFlaky
            },
        }
    }
}

/// A confirmed-flaky test that fails again right after a failure is no
/// longer reported as flaky: it becomes unstable with two failures in a row.
pub proof fn lemma_repeated_failure_leaves_confirmed_flaky(outcome: TestOutcome, prev: TestOutcome)
    requires
        outcome == TestOutcome::Failed || outcome == TestOutcome::Error,
        prev == TestOutcome::Failed || prev == TestOutcome::Error,
    ensures
        next_state(StabilityState::ConfirmedFlaky, outcome, Some(prev))
            == (StabilityState::Unstable { consecutive_failures: 2 }),
{
}

/// A confirmed-flaky test that passes right after a pass becomes stable with
/// two passes in a row.
pub proof fn lemma_repeated_pass_leaves_confirmed_flaky()
    ensures
        next_state(StabilityState::ConfirmedFlaky, TestOutcome::Passed, Some(TestOutcome::Passed))
            == (StabilityState::Stable { consecutive_passes: 2 }),
{
}

/// A confirmed-flaky test stays confirmed flaky unless it repeats its last
/// result: a pass after a pass, or a failure after a failure.
pub proof fn lemma_confirmed_flaky_stays_without_repeat(outcome: TestOutcome, prev: Option<TestOutcome>)
    requires
        !(outcome == TestOutcome::Passed && prev == Some(TestOutcome::Passed)),
        !((outcome == TestOutcome::Failed || outcome == TestOutcome::Error) && (prev == Some(
            TestOutcome::Failed,
        ) || prev == Some(TestOutcome::Error))),
    ensures
        next_state(StabilityState::ConfirmedFlaky, outcome, prev) == StabilityState::ConfirmedFlaky,
{
}

/// A pass never makes a test unstable, and a failure never makes it stable.
pub proof fn lemma_outcome_direction(s: StabilityState, outcome: TestOutcome, prev: Option<TestOutcome>)
    ensures
        outcome == TestOutcome::Passed ==> !(next_state(s, outcome, prev) is Unstable),
        (outcome == TestOutcome::Failed || outcome == TestOutcome::Error) ==> !(next_state(
            s,
            outcome,
            prev,
        ) is Stable),
{
}

/// Consecutive results are counted: a pass adds one to a stable run of
/// passes, a failure one to an unstable run of failures.
pub proof fn lemma_runs_are_counted(n: u32, outcome: TestOutcome, prev: Option<TestOutcome>)
    requires
        n < u32::MAX,
    ensures
        next_state(StabilityState::Stable { consecutive_passes: n }, TestOutcome::Passed, prev)
            == (StabilityState::Stable { consecutive_passes: (n + 1) as u32 }),
        (outcome == TestOutcome::Failed || outcome == TestOutcome::Error) ==> next_state(
            StabilityState::Unstable { consecutive_failures: n },
            outcome,
            prev,
        ) == (StabilityState::Unstable { consecutive_failures: (n + 1) as u32 }),
{
}

/// A first change of result turns a stable or unstable test flaky with a
/// streak of one; from a known state, a result that is neither a pass nor a
/// failure (a skip, an expected failure, an unexpected pass) forgets what
/// was known.
pub proof fn lemma_first_flip_and_neutral_outcomes(n: u32, outcome: TestOutcome, prev: Option<TestOutcome>)
    ensures
        (outcome == TestOutcome::Failed || outcome == TestOutcome::Error) ==> next_state(
            StabilityState::Stable { consecutive_passes: n },
            outcome,
            prev,
        ) == (StabilityState::Flaky { streak_count: 1 }),
        next_state(StabilityState::Unstable { consecutive_failures: n }, TestOutcome::Passed, prev)
            == (StabilityState::Flaky { streak_count: 1 }),
        (outcome == TestOutcome::Skipped || outcome == TestOutcome::Xfail || outcome
            == TestOutcome::Xpass) ==> {
            &&& next_state(StabilityState::Unknown, outcome, prev) == StabilityState::Unknown
            &&& next_state(StabilityState::Stable { consecutive_passes: n }, outcome, prev)
                == StabilityState::Unknown
            &&& next_state(StabilityState::Unstable { consecutive_failures: n }, outcome, prev)
                == StabilityState::Unknown
        },
{
}

/// Each flip of a flaky test lengthens its streak, and the third flip
/// confirms it as flaky; a flaky test that does not flip leaves the flaky
/// state.
pub proof fn lemma_flaky_streak(k: u32, outcome: TestOutcome, prev: TestOutcome)
    requires
        k < u32::MAX,
    ensures
        (prev == TestOutcome::Failed || prev == TestOutcome::Error) != (outcome == TestOutcome::Failed
            || outcome == TestOutcome::Error) ==> next_state(
            StabilityState::Flaky { streak_count: k },
            outcome,
            Some(prev),
        ) == (if k >= 2 {
            StabilityState::ConfirmedFlaky
        } else {
            StabilityState::Flaky { streak_count: (k + 1) as u32 }
        }),
        (prev == TestOutcome::Failed || prev == TestOutcome::Error) == (outcome == TestOutcome::Failed
            || outcome == TestOutcome::Error) ==> !(next_state(
            StabilityState::Flaky { streak_count: k },
            outcome,
            Some(prev),
        ) is Flaky) && next_state(StabilityState::Flaky { streak_count: k }, outcome, Some(prev))
            != StabilityState::ConfirmedFlaky,
{
}

/// The plain content of a flakiness record.
pub struct RecordView {
    pub node_id: Seq<char>,
    pub outcomes: Seq<Seq<char>>,
    pub consecutive_failures: u32,
    pub consecutive_passes: u32,
    pub flaky_streak: u32,
    pub total_runs: u32,
    pub last_failure_message: Option<Seq<char>>,
    pub stability: StabilityState,
}

/// The plain content of `r`.
pub open spec fn record_view(r: FlakinessRecord) -> RecordView {
    RecordView {
        node_id: r.node_id@,
        outcomes: string_views(r.outcomes@),
        consecutive_failures: r.consecutive_failures,
        consecutive_passes: r.consecutive_passes,
        flaky_streak: r.flaky_streak,
        total_runs: r.total_runs,
        last_failure_message: match r.last_failure_message {
            Some(m) => Some(m@),
            None => None,
        },
        stability: r.stability,
    }
}

/// The record of a test that has not been run yet.
pub open spec fn fresh_record(id: Seq<char>) -> RecordView {
    RecordView {
        node_id: id,
        outcomes: Seq::empty(),
        consecutive_failures: 0,
        consecutive_passes: 0,
        flaky_streak: 0,
        total_runs: 0,
        last_failure_message: None,
        stability: StabilityState::Unknown,
    }
}

/// The last `max` items of `s` (all of them when there are fewer).
pub open spec fn keep_last<A>(s: Seq<A>, max: nat) -> Seq<A> {
    if s.len() > max {
        s.subrange(s.len() - max, s.len() as int)
    } else {
        s
    }
}

/// The names "failed" and "error".
pub open spec fn is_failing_name(s: Seq<char>) -> bool {
    s == outcome_name(TestOutcome::Failed) || s == outcome_name(TestOutcome::Error)
}

/// The most recent outcome name of a record, if any.
pub open spec fn last_outcome(r: RecordView) -> Option<Seq<char>> {
    if r.outcomes.len() > 0 {
        Some(r.outcomes.last())
    } else {
        None
    }
}

/// The previous outcome as the state machine sees it (unknown names count as none).
pub open spec fn prev_outcome_of(r: RecordView) -> Option<TestOutcome> {
    match last_outcome(r) {
        Some(s) => outcome_named(s),
        None => None,
    }
}

/// The outcome flips between failing and not failing with respect to the
/// last recorded outcome name.
pub open spec fn name_flip(r: RecordView, outcome: TestOutcome) -> bool {
    match last_outcome(r) {
        Some(p) => is_failing_name(p) != is_failing(outcome),
        None => false,
    }
}

/// Recording `outcome` on `r` overflows no counter.
pub open spec fn record_defined(r: RecordView, outcome: TestOutcome) -> bool {
    &&& r.total_runs < u32::MAX
    &&& is_failing(outcome) ==> r.consecutive_failures < u32::MAX
    &&& outcome == TestOutcome::Passed ==> r.consecutive_passes < u32::MAX
    &&& name_flip(r, outcome) ==> r.flaky_streak < u32::MAX
    &&& transition_defined(r.stability, outcome, prev_outcome_of(r))
}

/// The record after `outcome` (with an optional failure message) is recorded,
/// keeping at most `max` outcomes.
pub open spec fn next_record(
    r: RecordView,
    outcome: TestOutcome,
    message: Option<Seq<char>>,
    max: nat,
) -> RecordView {
    let failing = is_failing(outcome);
    let passed = outcome == TestOutcome::Passed;
    let flip = name_flip(r, outcome);
    RecordView {
        node_id: r.node_id,
        outcomes: keep_last(r.outcomes.push(outcome_name(outcome)), max),
        consecutive_failures: if failing {
            (r.consecutive_failures + 1) as u32
        } else {
            0
        },
        consecutive_passes: if passed {
            (r.consecutive_passes + 1) as u32
        } else {
            0
        },
        flaky_streak: if flip {
            (r.flaky_streak + 1) as u32
        } else {
            r.flaky_streak
        },
        total_runs: (r.total_runs + 1) as u32,
        last_failure_message: if failing {
            message
        } else {
            r.last_failure_message
        },
        stability: next_state(r.stability, outcome, prev_outcome_of(r)),
    }
}

/// The plain content of a tracker.
pub struct TrackerView {
    pub records: Map<Seq<char>, RecordView>,
    pub max_outcomes: nat,
    pub storage_path: Option<Seq<char>>,
    pub dirty: bool,
}

/// The record a tracker holds for `id`, or a fresh one.
pub open spec fn record_or_fresh(v: TrackerView, id: Seq<char>) -> RecordView {
    if v.records.contains_key(id) {
        v.records[id]
    } else {
        fresh_record(id)
    }
}

/// Some name in `s` is "failed" or "error".
pub open spec fn any_failing_name(s: Seq<Seq<char>>) -> bool {
    exists|i: int| 0 <= i < s.len() && is_failing_name(#[trigger] s[i])
}

/// Some name in `s` is "passed".
pub open spec fn any_passing_name(s: Seq<Seq<char>>) -> bool {
    exists|i: int| 0 <= i < s.len() && #[trigger] s[i] == outcome_name(TestOutcome::Passed)
}

/// Some outcome of the record is "failed" or "error".
pub open spec fn has_failing_outcome(r: RecordView) -> bool {
    any_failing_name(r.outcomes)
}

/// Some outcome of the record is "passed".
pub open spec fn has_passing_outcome(r: RecordView) -> bool {
    any_passing_name(r.outcomes)
}

/// The ordered records `seq` hold exactly the records of `m`, each under its
/// own test id, with no id twice.
pub open spec fn records_agree(seq: Seq<FlakinessRecord>, m: Map<Seq<char>, RecordView>) -> bool {
    &&& m.dom().finite()
    &&& m.dom().len() == seq.len()
    &&& forall|i: int|
        0 <= i < seq.len() ==> {
            &&& #[trigger] m.contains_key(seq[i].node_id@)
            &&& m[seq[i].node_id@] == record_view(seq[i])
        }
    &&& forall|i: int, j: int|
        0 <= i < j < seq.len() ==> #[trigger] seq[i].node_id@ != #[trigger] seq[j].node_id@
    &&& forall|id: Seq<char>| #[trigger]
        m.contains_key(id) ==> m[id].node_id == id && exists|i: int|
            0 <= i < seq.len() && seq[i].node_id@ == id
}

/// Tracks test flakiness and manages auto-reruns.
#[derive(Debug)]
pub struct FlakinessTracker {
    records: Table<FlakinessRecord>,
    max_outcomes: usize,
    storage_path: Option<String>,
    dirty: bool,
}

impl FlakinessTracker {
    #[verifier::type_invariant]
    spec fn inv(self) -> bool {
        &&& self.records.wf()
        &&& self.max_outcomes == 20
        &&& forall|i: int|
            0 <= i < self.records.entries@.len() ==> #[trigger] self.records.entries@[i].0@
                == self.records.entries@[i].1.node_id@
    }

    /// The records in the tracker's order.
    pub closed spec fn record_seq(&self) -> Seq<FlakinessRecord> {
        entry_values(self.records.entries@)
    }

    /// The plain content of the tracker.
    pub closed spec fn view(&self) -> TrackerView {
        TrackerView {
            records: entry_map(self.records.entries@).map_values(
                |r: FlakinessRecord| record_view(r),
            ),
            max_outcomes: self.max_outcomes as nat,
            storage_path: match self.storage_path {
                Some(p) => Some(p@),
                None => None,
            },
            dirty: self.dirty,
        }
    }

    /// The ordered records and the map of the view hold the same records.
    proof fn lemma_records(&self)
        requires
            self.inv(),
        ensures
            records_agree(self.record_seq(), self.view().records),
            self.view().max_outcomes == 20,
    {
        let e = self.records.entries@;
        let seq = self.record_seq();
        let m = self.view().records;
        assert forall|i: int| 0 <= i < seq.len() implies {
            &&& #[trigger] m.contains_key(seq[i].node_id@)
            &&& m[seq[i].node_id@] == record_view(seq[i])
        } by {
            assert(e[i].0@ == e[i].1.node_id@);
            lemma_entry_map_at(e, i);
        }
        assert forall|i: int, j: int|
            0 <= i < j < seq.len() implies #[trigger] seq[i].node_id@ != #[trigger] seq[j].node_id@ by {
            assert(e[i].0@ == e[i].1.node_id@);
            assert(e[j].0@ == e[j].1.node_id@);
            assert(entry_keys(e)[i] == e[i].0@);
            assert(entry_keys(e)[j] == e[j].0@);
        }
        assert forall|id: Seq<char>| #[trigger] m.contains_key(id) implies m[id].node_id == id
            && exists|i: int| 0 <= i < seq.len() && seq[i].node_id@ == id by {
            let i = choose|i: int| 0 <= i < entry_keys(e).len() && entry_keys(e)[i] == id;
            assert(e[i].0@ == e[i].1.node_id@);
            lemma_entry_map_at(e, i);
            assert(seq[i].node_id@ == id);
        }
        assert(m.dom() =~= entry_keys(e).to_set());
        entry_keys(e).unique_seq_to_set();
    }

    /// Create a new tracker that keeps the last 20 outcomes of each test.
    ///
    /// Records persisted under `storage_path` are read in by the caller and
    /// handed over with `load_records`.
    pub fn new(storage_path: Option<String>) -> (t: FlakinessTracker)
        ensures
            t.view().records == Map::<Seq<char>, RecordView>::empty(),
            t.view().max_outcomes == 20,
            t.view().storage_path == match storage_path {
                Some(p) => Some(p@),
                None => None::<Seq<char>>,
            },
            !t.view().dirty,
            t.record_seq().len() == 0,
            records_agree(t.record_seq(), t.view().records),
    {
        let t = FlakinessTracker {
            records: Table::new(),
            max_outcomes: 20,
            storage_path,
            dirty: false,
        };
        assert(t.view().records =~= Map::<Seq<char>, RecordView>::empty());
        proof {
            use_type_invariant(&t);
            t.lemma_records();
        }
        t
    }

    /// Record a test outcome and update statistics.
    ///
    /// Updates the stability state machine for the test.
    pub fn record_outcome(&mut self, node_id: &str, outcome: TestOutcome, message: Option<&str>)
        requires
            record_defined(record_or_fresh(old(self).view(), node_id@), outcome),
        ensures
            final(self).view() == (TrackerView {
                records: old(self).view().records.insert(
                    node_id@,
                    next_record(
                        record_or_fresh(old(self).view(), node_id@),
                        outcome,
                        match message {
                            Some(m) => Some(m@),
                            None => None,
                        },
                        old(self).view().max_outcomes,
                    ),
                ),
                dirty: true,
                ..old(self).view()
            }),
            records_agree(old(self).record_seq(), old(self).view().records),
            old(self).view().max_outcomes == 20,
            records_agree(final(self).record_seq(), final(self).view().records),
            final(self).view().max_outcomes == 20,
    {
        proof {
            use_type_invariant(&*self);
            self.lemma_records();
        }
        let key = String::from_str(node_id);
        let mut records: Table<FlakinessRecord> = Table::new();
        std::mem::swap(&mut records, &mut self.records);
        let ghost old_entries = records.entries@;
        let (pos, rec) = match records.find(&key) {
            Some(i) => {
                proof {
                    lemma_entry_map_at(old_entries, i as int);
                    assert(old_entries[i as int].0@ == old_entries[i as int].1.node_id@);
                }
                let (_k, r) = records.remove_at(i);
                (i, r)
            },
            None => {
                proof {
                    assert(!entry_map(old_entries).contains_key(key@));
                }
                let r = FlakinessRecord {
                    node_id: String::from_str(node_id),
                    outcomes: Vec::new(),
                    consecutive_failures: 0,
                    consecutive_passes: 0,
                    flaky_streak: 0,
                    total_runs: 0,
                    last_failure_message: None,
                    stability: StabilityState::Unknown,
                };
                assert(record_view(r) == fresh_record(node_id@)) by {
                    assert(string_views(r.outcomes@) =~= Seq::<Seq<char>>::empty());
                }
                (records.len(), r)
            },
        };
        let ghost before = record_view(rec);
        assert(before == record_or_fresh(old(self).view(), node_id@));
        let updated = apply_outcome(rec, outcome, message, self.max_outcomes);
        proof {
            assert(!records.keys().contains(key@)) by {
                if records.keys().contains(key@) {
                    let j = choose|j: int| 0 <= j < records.keys().len() && records.keys()[j] == key@;
                    if j < pos {
                        assert(entry_keys(old_entries)[j] == key@);
                    } else {
                        assert(entry_keys(old_entries)[j + 1] == key@);
                    }
                }
            }
        }
        records.insert_at(pos, key, updated);
        proof {
            let e = records.entries@;
            assert forall|i: int| 0 <= i < e.len() implies #[trigger] e[i].0@ == e[i].1.node_id@ by {
                if i < pos {
                    assert(e[i] == old_entries[i]);
                } else if i > pos {
                    assert(e[i] == old_entries[i]);
                }
            }
        }
        self.records = records;
        self.dirty = true;
        proof {
            assert(self.view().records =~= old(self).view().records.insert(
                node_id@,
                next_record(
                    before,
                    outcome,
                    match message {
                        Some(m) => Some(m@),
                        None => None,
                    },
                    old(self).view().max_outcomes,
                ),
            ));
            use_type_invariant(&*self);
            self.lemma_records();
        }
    }

    /// Get flakiness record for a test.
    pub fn get_record(&self, node_id: &str) -> (r: Option<&FlakinessRecord>)
        ensures
            r matches Some(rec) ==> self.view().records.contains_key(node_id@) && record_view(*rec)
                == self.view().records[node_id@],
            r is None ==> !self.view().records.contains_key(node_id@),
            records_agree(self.record_seq(), self.view().records),
            self.view().max_outcomes == 20,
    {
        proof {
            use_type_invariant(self);
            self.lemma_records();
        }
        let key = String::from_str(node_id);
        match self.records.find(&key) {
            Some(i) => {
                proof {
                    lemma_entry_map_at(self.records.entries@, i as int);
                }
                Some(&self.records.entries[i].1)
            },
            None => None,
        }
    }

    /// Whether recording `outcome` for `node_id` keeps every counter of its
    /// record within `u32` (a record counts at most `u32::MAX` runs).
    pub fn can_record(&self, node_id: &str, outcome: TestOutcome) -> (r: bool)
        ensures
            r == record_defined(record_or_fresh(self.view(), node_id@), outcome),
    {
        match self.get_record(node_id) {
            None => {
                assert(record_or_fresh(self.view(), node_id@) == fresh_record(node_id@));
                true
            },
            Some(rec) => {
                let failing = outcome.is_failing();
                let passed = outcome == TestOutcome::Passed;
                let prev: Option<TestOutcome> = if rec.outcomes.len() > 0 {
                    TestOutcome::named(rec.outcomes[rec.outcomes.len() - 1].as_str())
                } else {
                    None
                };
                assert(prev == prev_outcome_of(record_view(*rec)));
                let step_ok = match rec.stability {
                    StabilityState::Stable { consecutive_passes } => !passed || consecutive_passes
                        < u32::MAX,
                    StabilityState::Unstable { consecutive_failures } => !failing
                        || consecutive_failures < u32::MAX,
                    StabilityState::Flaky { streak_count } => {
                        let flip = match prev {
                            Some(p) => p.is_failing() != failing,
                            None => false,
                        };
                        !flip || streak_count < u32::MAX
                    },
                    _ => true,
                };
                let name_flipped = if rec.outcomes.len() > 0 {
                    is_failing_str(&rec.outcomes[rec.outcomes.len() - 1]) != failing
                } else {
                    false
                };
                assert(name_flipped == name_flip(record_view(*rec), outcome));
                rec.total_runs < u32::MAX && (!failing || rec.consecutive_failures < u32::MAX) && (
                !passed || rec.consecutive_passes < u32::MAX) && (!name_flipped || rec.flaky_streak
                    < u32::MAX) && step_ok
            },
        }
    }

    /// Check if a test is considered flaky.
    pub fn is_flaky(&self, node_id: &str) -> (r: bool)
        ensures
            r == (self.view().records.contains_key(node_id@) && self.view().records[
                node_id@
            ].stability.spec_is_flaky()),
    {
        match self.get_record(node_id) {
            Some(rec) => rec.stability.is_flaky(),
            None => false,
        }
    }

    /// Get the stability state for a test.
    pub fn stability_state(&self, node_id: &str) -> (r: StabilityState)
        ensures
            r == record_or_fresh(self.view(), node_id@).stability,
    {
        match self.get_record(node_id) {
            Some(rec) => rec.stability.copy(),
            None => StabilityState::Unknown,
        }
    }

    /// Internal check for flakiness based on a record: three outcomes or more, a pass and a failure among them, and a flaky streak of two or more.
    #[allow(dead_code)]
    fn check_is_flaky(record: &FlakinessRecord) -> (r: bool)
        ensures
            r == (record.outcomes@.len() >= 3 && has_passing_outcome(record_view(*record))
                && has_failing_outcome(record_view(*record)) && record.flaky_streak >= 2),
    {
        if record.outcomes.len() < 3 {
            return false;
        }
        let has_pass = any_outcome_named(&record.outcomes, false);
        let has_fail = any_outcome_named(&record.outcomes, true);
        has_pass && has_fail && record.flaky_streak >= 2
    }

    /// Get all flaky tests.
    pub fn get_flaky_tests(&self) -> (r: Vec<&FlakinessRecord>)
        ensures
            derefs(r@) == self.record_seq().filter(|rec: FlakinessRecord| rec.stability.spec_is_flaky()),
            records_agree(self.record_seq(), self.view().records),
            self.view().max_outcomes == 20,
    {
        proof {
            use_type_invariant(self);
            self.lemma_records();
        }
        let ghost pred = |rec: FlakinessRecord| rec.stability.spec_is_flaky();
        let ghost vals = self.record_seq();
        let mut r: Vec<&FlakinessRecord> = Vec::new();
        let mut i: usize = 0;
        while i < self.records.entries.len()
            invariant
                vals == entry_values(self.records.entries@),
                pred == (|rec: FlakinessRecord| rec.stability.spec_is_flaky()),
                i <= self.records.entries@.len(),
                derefs(r@) == vals.take(i as int).filter(pred),
            decreases self.records.entries@.len() - i,
        {
            let rec = &self.records.entries[i].1;
            assert(*rec == vals[i as int]);
            proof {
                assert(vals.take(i + 1) == vals.take(i as int).push(vals[i as int]));
                vals.take(i as int).lemma_filter_push(vals[i as int], pred);
            }
            let ghost r0 = r@;
            if rec.stability.is_flaky() {
                proof {
                    lemma_derefs_push(r@, rec);
                }
                r.push(rec);
                assert(derefs(r@) == derefs(r0).push(vals[i as int]));
                assert(pred(vals[i as int]));
            } else {
                assert(!pred(vals[i as int]));
            }
            assert(derefs(r@) == vals.take(i + 1).filter(pred));
            i = i + 1;
        }
        assert(vals.take(i as int) == vals);
        r
    }

    /// Get unstable tests (some failures but not flaky).
    pub fn get_unstable_tests(&self) -> (r: Vec<&FlakinessRecord>)
        ensures
            derefs(r@) == self.record_seq().filter(
                |rec: FlakinessRecord|
                    has_failing_outcome(record_view(rec)) && !rec.stability.spec_is_flaky(),
            ),
            records_agree(self.record_seq(), self.view().records),
            self.view().max_outcomes == 20,
    {
        proof {
            use_type_invariant(self);
            self.lemma_records();
        }
        let ghost pred = |rec: FlakinessRecord|
            has_failing_outcome(record_view(rec)) && !rec.stability.spec_is_flaky();
        let ghost vals = self.record_seq();
        let mut r: Vec<&FlakinessRecord> = Vec::new();
        let mut i: usize = 0;
        while i < self.records.entries.len()
            invariant
                vals == entry_values(self.records.entries@),
                pred == (|rec: FlakinessRecord| has_failing_outcome(record_view(rec)) && !rec.stability.spec_is_flaky()),
                i <= self.records.entries@.len(),
                derefs(r@) == vals.take(i as int).filter(pred),
            decreases self.records.entries@.len() - i,
        {
            let rec = &self.records.entries[i].1;
            assert(*rec == vals[i as int]);
            proof {
                assert(vals.take(i + 1) == vals.take(i as int).push(vals[i as int]));
                vals.take(i as int).lemma_filter_push(vals[i as int], pred);
            }
            if any_outcome_named(&rec.outcomes, true) && !rec.stability.is_flaky() {
                proof {
                    lemma_derefs_push(r@, rec);
                }
                r.push(rec);
            }
            i = i + 1;
        }
        assert(vals.take(i as int) == vals);
        r
    }

    /// Get count of stable tests (neither flaky nor ever failing in the kept history).
    pub fn stable_count(&self) -> (r: usize)
        ensures
            r == self.record_seq().filter(
                |rec: FlakinessRecord|
                    !rec.stability.spec_is_flaky() && !has_failing_outcome(record_view(rec)),
            ).len(),
            records_agree(self.record_seq(), self.view().records),
            self.view().max_outcomes == 20,
    {
        proof {
            use_type_invariant(self);
            self.lemma_records();
        }
        let ghost pred = |rec: FlakinessRecord|
            !rec.stability.spec_is_flaky() && !has_failing_outcome(record_view(rec));
        let ghost vals = self.record_seq();
        let mut count: usize = 0;
        let mut i: usize = 0;
        while i < self.records.entries.len()
            invariant
                vals == entry_values(self.records.entries@),
                pred == (|rec: FlakinessRecord| !rec.stability.spec_is_flaky() && !has_failing_outcome(record_view(rec))),
                i <= self.records.entries@.len(),
                count == vals.take(i as int).filter(pred).len(),
                count <= i,
            decreases self.records.entries@.len() - i,
        {
            let rec = &self.records.entries[i].1;
            assert(*rec == vals[i as int]);
            proof {
                assert(vals.take(i + 1) == vals.take(i as int).push(vals[i as int]));
                vals.take(i as int).lemma_filter_push(vals[i as int], pred);
            }
            if !rec.stability.is_flaky() && !any_outcome_named(&rec.outcomes, true) {
                count = count + 1;
            }
            i = i + 1;
        }
        assert(vals.take(i as int) == vals);
        count
    }

    /// Get total tracked tests.
    pub fn total_tracked(&self) -> (r: usize)
        ensures
            r == self.view().records.dom().len(),
            records_agree(self.record_seq(), self.view().records),
            self.view().max_outcomes == 20,
    {
        proof {
            use_type_invariant(self);
            self.lemma_records();
        }
        self.records.len()
    }

    /// Check if there are unsaved changes.
    pub fn is_dirty(&self) -> (r: bool)
        ensures
            r == self.view().dirty,
    {
        self.dirty
    }

    /// Note that the records were written out.
    pub fn mark_clean(&mut self)
        ensures
            final(self).view() == (TrackerView { dirty: false, ..old(self).view() }),
            final(self).record_seq() == old(self).record_seq(),
            records_agree(final(self).record_seq(), final(self).view().records),
            final(self).view().max_outcomes == 20,
    {
        proof {
            use_type_invariant(&*self);
        }
        self.dirty = false;
        proof {
            use_type_invariant(&*self);
            self.lemma_records();
        }
    }

    /// Where the records are persisted.
    pub fn storage_path(&self) -> (r: Option<&String>)
        ensures
            match r {
                Some(p) => self.view().storage_path == Some(p@),
                None => self.view().storage_path is None,
            },
    {
        match &self.storage_path {
            Some(p) => Some(p),
            None => None,
        }
    }

    /// All records, in the tracker's order.
    pub fn records(&self) -> (r: Vec<&FlakinessRecord>)
        ensures
            derefs(r@) == self.record_seq(),
            records_agree(self.record_seq(), self.view().records),
            self.view().max_outcomes == 20,
    {
        proof {
            use_type_invariant(self);
            self.lemma_records();
        }
        let mut r: Vec<&FlakinessRecord> = Vec::new();
        let mut i: usize = 0;
        while i < self.records.entries.len()
            invariant
                i <= self.records.entries@.len(),
                derefs(r@) == entry_values(self.records.entries@).take(i as int),
            decreases self.records.entries@.len() - i,
        {
            proof {
                lemma_derefs_push(r@, &self.records.entries@[i as int].1);
                assert(entry_values(self.records.entries@).take(i + 1) == entry_values(
                    self.records.entries@,
                ).take(i as int).push(self.records.entries@[i as int].1));
            }
            r.push(&self.records.entries[i].1);
            i = i + 1;
        }
        assert(entry_values(self.records.entries@).take(i as int) == self.record_seq());
        r
    }

    /// Replaces all records by `loaded`; a later record for the same test wins.
    pub fn load_records(&mut self, loaded: Vec<FlakinessRecord>)
        ensures
            final(self).view() == (TrackerView {
                records: loaded@.fold_left(
                    Map::<Seq<char>, RecordView>::empty(),
                    |m: Map<Seq<char>, RecordView>, r: FlakinessRecord|
                        m.insert(r.node_id@, record_view(r)),
                ),
                ..old(self).view()
            }),
            records_agree(final(self).record_seq(), final(self).view().records),
            final(self).view().max_outcomes == 20,
    {
        proof {
            use_type_invariant(&*self);
        }
        let ghost f = |m: Map<Seq<char>, RecordView>, r: FlakinessRecord|
            m.insert(r.node_id@, record_view(r));
        let mut records: Table<FlakinessRecord> = Table::new();
        let mut loaded = loaded;
        let total = loaded.len();
        let ghost all = loaded@;
        proof {
            assert(entry_map(records.entries@).map_values(|r: FlakinessRecord| record_view(r))
                =~= Map::<Seq<char>, RecordView>::empty());
            assert(all.take(0) =~= Seq::<FlakinessRecord>::empty());
        }
        let mut done: usize = 0;
        while loaded.len() > 0
            invariant
                total == all.len(),
                f == (|m: Map<Seq<char>, RecordView>, r: FlakinessRecord|
                    m.insert(r.node_id@, record_view(r))),
                done <= all.len(),
                loaded@ == all.subrange(done as int, all.len() as int),
                records.wf(),
                forall|i: int|
                    0 <= i < records.entries@.len() ==> #[trigger] records.entries@[i].0@
                        == records.entries@[i].1.node_id@,
                entry_map(records.entries@).map_values(|r: FlakinessRecord| record_view(r))
                    == all.take(done as int).fold_left(Map::<Seq<char>, RecordView>::empty(), f),
            decreases loaded@.len(),
        {
            let rec = loaded.remove(0);
            assert(rec == all[done as int]);
            let ghost before = records.entries@;
            let ghost m0 = entry_map(records.entries@);
            let ghost kv = rec.node_id@;
            let ghost rec_copy = rec;
            let key = rec.node_id.clone();
            match records.find(&key) {
                Some(i) => {
                    let _ = records.remove_at(i);
                    proof {
                        assert(!records.keys().contains(key@)) by {
                            if records.keys().contains(key@) {
                                let j = choose|j: int|
                                    0 <= j < records.keys().len() && records.keys()[j]
                                        == key@;
                                if j < i {
                                    assert(entry_keys(before)[j] == key@);
                                } else {
                                    assert(entry_keys(before)[j + 1] == key@);
                                }
                            }
                        }
                    }
                    records.insert_at(i, key, rec);
                    proof {
                        let e = records.entries@;
                        assert forall|k: int| 0 <= k < e.len() implies #[trigger] e[k].0@
                            == e[k].1.node_id@ by {
                            if k < i {
                                assert(e[k] == before[k]);
                            } else if k > i {
                                assert(e[k] == before[k]);
                            }
                        }
                    }
                },
                None => {
                    records.push(key, rec);
                },
            }
            proof {
                assert(entry_map(records.entries@) =~= m0.insert(kv, rec_copy));
                assert(entry_map(records.entries@).map_values(|r: FlakinessRecord| record_view(r))
                    =~= m0.map_values(|r: FlakinessRecord| record_view(r)).insert(kv, record_view(rec_copy)));
                assert(all.take(done + 1).drop_last() == all.take(done as int));
                assert(entry_map(records.entries@).map_values(|r: FlakinessRecord| record_view(r))
                    =~= f(
                    all.take(done as int).fold_left(Map::<Seq<char>, RecordView>::empty(), f),
                    all[done as int],
                ));
            }
            done = done + 1;
        }
        self.records = records;
        assert(all.take(done as int) == all);
        proof {
            use_type_invariant(&*self);
            self.lemma_records();
        }
    }

    /// Clear all records; gives back the file the records were persisted to,
    /// which the caller removes.
    pub fn clear(&mut self) -> (file_to_remove: Option<String>)
        ensures
            final(self).view() == (TrackerView {
                records: Map::<Seq<char>, RecordView>::empty(),
                ..old(self).view()
            }),
            match file_to_remove {
                Some(p) => old(self).view().storage_path == Some(p@),
                None => old(self).view().storage_path is None,
            },
            final(self).record_seq().len() == 0,
            final(self).view().max_outcomes == 20,
    {
        proof {
            use_type_invariant(&*self);
        }
        self.records = Table::new();
        assert(self.view().records =~= Map::<Seq<char>, RecordView>::empty());
        assert(self.record_seq() =~= Seq::<FlakinessRecord>::empty());
        match &self.storage_path {
            Some(p) => Some(p.clone()),
            None => None,
        }
    }
}

/// Each record falls under exactly one of the three filters of the report:
/// flaky, failing without being flaky, or neither.
proof fn lemma_report_filters_partition(s: Seq<FlakinessRecord>)
    ensures
        s.filter(|rec: FlakinessRecord| rec.stability.spec_is_flaky()).len() + s.filter(
            |rec: FlakinessRecord|
                has_failing_outcome(record_view(rec)) && !rec.stability.spec_is_flaky(),
        ).len() + s.filter(
            |rec: FlakinessRecord|
                !rec.stability.spec_is_flaky() && !has_failing_outcome(record_view(rec)),
        ).len() == s.len(),
    decreases s.len(),
{
    let flaky = |rec: FlakinessRecord| rec.stability.spec_is_flaky();
    let unstable = |rec: FlakinessRecord|
        has_failing_outcome(record_view(rec)) && !rec.stability.spec_is_flaky();
    let stable = |rec: FlakinessRecord|
        !rec.stability.spec_is_flaky() && !has_failing_outcome(record_view(rec));
    if s.len() == 0 {
        assert(s.filter(flaky) =~= Seq::<FlakinessRecord>::empty());
        assert(s.filter(unstable) =~= Seq::<FlakinessRecord>::empty());
        assert(s.filter(stable) =~= Seq::<FlakinessRecord>::empty());
    } else {
        let t = s.drop_last();
        lemma_report_filters_partition(t);
        assert(s =~= t.push(s.last()));
        t.lemma_filter_push(s.last(), flaky);
        t.lemma_filter_push(s.last(), unstable);
        t.lemma_filter_push(s.last(), stable);
    }
}

/// Every tracked test is counted exactly once by the report: the stable
/// count, the flaky tests and the unstable tests together make up all the
/// tests tracked.
pub proof fn lemma_report_covers_tracked(t: &FlakinessTracker)
    requires
        records_agree(t.record_seq(), t.view().records),
    ensures
        t.record_seq().filter(
            |rec: FlakinessRecord|
                !rec.stability.spec_is_flaky() && !has_failing_outcome(record_view(rec)),
        ).len() + t.record_seq().filter(|rec: FlakinessRecord| rec.stability.spec_is_flaky()).len()
            + t.record_seq().filter(
            |rec: FlakinessRecord|
                has_failing_outcome(record_view(rec)) && !rec.stability.spec_is_flaky(),
        ).len() == t.view().records.dom().len(),
{
    lemma_report_filters_partition(t.record_seq());
}

/// Some string of `outcomes` is "failed" or "error" (`failing`), or is "passed".
fn any_outcome_named(outcomes: &Vec<String>, failing: bool) -> (r: bool)
    ensures
        failing ==> r == any_failing_name(string_views(outcomes@)),
        !failing ==> r == any_passing_name(string_views(outcomes@)),
{
    let ghost sv = string_views(outcomes@);
    let passed = String::from_str("passed");
    let failed = String::from_str("failed");
    let error = String::from_str("error");
    proof {
        reveal_strlit("passed");
        reveal_strlit("failed");
        reveal_strlit("error");
        assert("passed"@ =~= outcome_name(TestOutcome::Passed));
        assert("failed"@ =~= outcome_name(TestOutcome::Failed));
        assert("error"@ =~= outcome_name(TestOutcome::Error));
    }
    let mut i: usize = 0;
    while i < outcomes.len()
        invariant
            i <= outcomes@.len(),
            passed@ == outcome_name(TestOutcome::Passed),
            failed@ == outcome_name(TestOutcome::Failed),
            error@ == outcome_name(TestOutcome::Error),
            sv == string_views(outcomes@),
            failing ==> forall|j: int| 0 <= j < i ==> !is_failing_name(#[trigger] sv[j]),
            !failing ==> forall|j: int|
                0 <= j < i ==> #[trigger] sv[j] != outcome_name(TestOutcome::Passed),
        decreases outcomes@.len() - i,
    {
        let o = &outcomes[i];
        assert(sv[i as int] == o@);
        if failing {
            if *o == failed || *o == error {
                return true;
            }
        } else {
            if *o == passed {
                return true;
            }
        }
        i = i + 1;
    }
    false
}

/// The last `max` strings of `v`.
fn keep_last_strings(v: Vec<String>, max: usize) -> (r: Vec<String>)
    ensures
        r@ == keep_last(v@, max as nat),
{
    if v.len() <= max {
        return v;
    }
    let start = v.len() - max;
    let mut r: Vec<String> = Vec::new();
    let mut i = start;
    while i < v.len()
        invariant
            start <= i <= v@.len(),
            start == v@.len() - max,
            r@ == v@.subrange(start as int, i as int),
        decreases v@.len() - i,
    {
        r.push(v[i].clone());
        i = i + 1;
    }
    r
}

/// `rec` after recording `outcome`.
fn apply_outcome(
    rec: FlakinessRecord,
    outcome: TestOutcome,
    message: Option<&str>,
    max: usize,
) -> (r: FlakinessRecord)
    requires
        record_defined(record_view(rec), outcome),
    ensures
        r.node_id == rec.node_id,
        record_view(r) == next_record(
            record_view(rec),
            outcome,
            match message {
                Some(m) => Some(m@),
                None => None,
            },
            max as nat,
        ),
{
    let ghost before = record_view(rec);
    let mut rec = rec;
    let prev: Option<String> = if rec.outcomes.len() > 0 {
        Some(rec.outcomes[rec.outcomes.len() - 1].clone())
    } else {
        None
    };
    assert(match prev {
        Some(p) => last_outcome(before) == Some(p@),
        None => last_outcome(before) is None,
    });
    let mut outcomes = rec.outcomes;
    rec.outcomes = Vec::new();
    outcomes.push(outcome.name());
    proof {
        assert(string_views(outcomes@) =~= before.outcomes.push(outcome_name(outcome)));
    }
    let kept = keep_last_strings(outcomes, max);
    proof {
        assert(string_views(kept@) =~= keep_last(before.outcomes.push(outcome_name(outcome)), max as nat));
    }
    rec.outcomes = kept;
    rec.total_runs = rec.total_runs + 1;
    let prev_for_transition: Option<TestOutcome> = match &prev {
        Some(p) => TestOutcome::named(p.as_str()),
        None => None,
    };
    let old_stability = rec.stability.copy();
    let new_stability = match &prev_for_transition {
        Some(p) => old_stability.transition(&outcome, Some(p)),
        None => old_stability.transition(&outcome, None),
    };
    rec.stability = new_stability;
    let failing = outcome.is_failing();
    if failing {
        rec.consecutive_failures = rec.consecutive_failures + 1;
        rec.consecutive_passes = 0;
        rec.last_failure_message = match message {
            Some(m) => Some(String::from_str(m)),
            None => None,
        };
    } else if outcome == TestOutcome::Passed {
        rec.consecutive_passes = rec.consecutive_passes + 1;
        rec.consecutive_failures = 0;
    } else {
        rec.consecutive_failures = 0;
        rec.consecutive_passes = 0;
    }
    match &prev {
        Some(p) => {
            let prev_is_fail = is_failing_str(p);
            if prev_is_fail != failing {
                rec.flaky_streak = rec.flaky_streak + 1;
            }
        },
        None => {},
    }
    rec
}

/// The string is "failed" or "error".
fn is_failing_str(s: &String) -> (r: bool)
    ensures
        r == is_failing_name(s@),
{
    let failed = String::from_str("failed");
    let error = String::from_str("error");
    proof {
        reveal_strlit("failed");
        reveal_strlit("error");
        assert("failed"@ =~= outcome_name(TestOutcome::Failed));
        assert("error"@ =~= outcome_name(TestOutcome::Error));
    }
    *s == failed || *s == error
}

/// How many of the names are "failed" or "error".
pub open spec fn failing_count(s: Seq<Seq<char>>) -> nat
    decreases s.len(),
{
    if s.len() == 0 {
        0
    } else {
        failing_count(s.drop_last()) + if is_failing_name(s.last()) {
            1nat
        } else {
            0nat
        }
    }
}

/// The number of failures and errors among a record's recent outcomes (the
/// numerator of the failure rate a flakiness report gives).
pub fn failing_outcome_count(record: &FlakinessRecord) -> (r: usize)
    ensures
        r == failing_count(string_views(record.outcomes@)),
{
    let ghost sv = string_views(record.outcomes@);
    let mut n: usize = 0;
    let mut i: usize = 0;
    while i < record.outcomes.len()
        invariant
            i <= record.outcomes@.len(),
            sv == string_views(record.outcomes@),
            n == failing_count(sv.take(i as int)),
            n <= i,
        decreases record.outcomes@.len() - i,
    {
        proof {
            let t = sv.take(i + 1);
            assert(t.drop_last() =~= sv.take(i as int));
            assert(t.last() == record.outcomes@[i as int]@);
        }
        if is_failing_str(&record.outcomes[i]) {
            n = n + 1;
        }
        i = i + 1;
    }
    assert(sv.take(i as int) =~= sv);
    n
}

/// What a flakiness report says of a record: flaky when its flaky streak is
/// two or more and one of its recent outcomes passed.
pub fn reported_flaky(record: &FlakinessRecord) -> (r: bool)
    ensures
        r == (record.flaky_streak >= 2 && any_passing_name(string_views(record.outcomes@))),
{
    record.flaky_streak >= 2 && any_outcome_named(&record.outcomes, false)
}

} // verus!

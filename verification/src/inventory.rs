//! The in-memory inventory of test nodes, with selection and ordering.
//!
//! Nodes are kept in the order in which their ids were first added; every
//! listing of the inventory comes in that order.

use vstd::prelude::*;
use vstd::string::*;
use crate::nodes::{TestNode, keyword_match, marker_match};
use crate::ranking::{is_ranking, rank_desc};
use crate::storage::SCHEMA_VERSION;
use crate::table::{
    Table, entry_keys, entry_values, entry_map, lemma_entry_map_at, lemma_entry_map_update, derefs,
    lemma_derefs_push,
};
use crate::text::string_views;

verus! {

/// Metadata about an inventory snapshot.
#[derive(Debug, Clone)]
pub struct InventoryMeta {
    /// Hash of the inventory contents for change detection.
    pub hash: String,
    /// Timestamp when the inventory was collected (Unix epoch ms).
    pub collected_at: u64,
    /// Number of test nodes in the inventory.
    pub node_count: usize,
    /// Schema version used for this inventory.
    pub schema_version: u32,
}

impl Default for InventoryMeta {
    fn default() -> (r: Self)
        ensures
            r.hash@ == Seq::<char>::empty(),
            r.collected_at == 0,
            r.node_count == 0,
            r.schema_version == SCHEMA_VERSION,
    {
        InventoryMeta {
            hash: String::new(),
            collected_at: 0,
            node_count: 0,
            schema_version: SCHEMA_VERSION,
        }
    }
}

/// Whether a node is selected by an optional keyword expression and an
/// optional marker expression (an absent expression selects every node).
pub open spec fn selects(n: TestNode, keyword: Option<Seq<char>>, marker: Option<Seq<char>>) -> bool {
    &&& (keyword matches Some(k) ==> keyword_match(n, k))
    &&& (marker matches Some(m) ==> marker_match(n, m))
}

/// The characters of an optional string slice.
pub open spec fn opt_str_view(o: Option<&str>) -> Option<Seq<char>> {
    match o {
        Some(s) => Some(s@),
        None => None,
    }
}

/// The sort key by duration: the average duration, 0 when unknown.
pub open spec fn duration_key(n: TestNode) -> u128 {
    match n.avg_duration_ms {
        Some(d) => d as u128,
        None => 0,
    }
}

/// One unit of the failure-rate scale: a rate of 1 (every run failed).
pub open spec fn rate_unit() -> int {
    0x1_0000_0000_0000_0000
}

/// The sort key by failure rate: `fail_count / run_count` on a scale of
/// 2^64 per unit, rounded down, and 0 for a node that never ran. Distinct
/// rates of `u32` counts get distinct keys, in the same order.
pub open spec fn rate_key(n: TestNode) -> u128 {
    if n.run_count == 0 {
        0
    } else {
        ((n.fail_count as int * rate_unit()) / (n.run_count as int)) as u128
    }
}

/// The items of `s` at the positions listed in `perm`.
pub open spec fn permuted(s: Seq<TestNode>, perm: Seq<usize>) -> Seq<TestNode> {
    perm.map_values(|p: usize| s[p as int])
}

/// An in-memory inventory of test nodes, indexed by node id.
#[derive(Debug, Clone)]
pub struct Inventory {
    nodes: Table<TestNode>,
    meta: InventoryMeta,
}

impl Inventory {
    /// Ids are distinct and the metadata counts the nodes.
    pub closed spec fn wf(&self) -> bool {
        &&& self.nodes.wf()
        &&& self.meta.node_count == self.nodes.entries@.len()
    }

    /// The nodes by id.
    pub closed spec fn view(&self) -> Map<Seq<char>, TestNode> {
        self.nodes.map()
    }

    /// The ids, in the inventory's order.
    pub closed spec fn id_seq(&self) -> Seq<Seq<char>> {
        self.nodes.keys()
    }

    /// The nodes, in the inventory's order.
    pub closed spec fn node_seq(&self) -> Seq<TestNode> {
        self.nodes.values()
    }

    /// The metadata.
    pub closed spec fn spec_meta(&self) -> InventoryMeta {
        self.meta
    }

    /// The ordered ids and nodes describe the map of the inventory: the id at
    /// each position maps to the node at that position, and nothing else is mapped.
    pub proof fn lemma_seqs_describe_view(&self)
        requires
            self.wf(),
        ensures
            self.id_seq().len() == self.node_seq().len(),
            self.id_seq().no_duplicates(),
            forall|i: int|
                0 <= i < self.node_seq().len() ==> #[trigger] self@.contains_key(self.id_seq()[i])
                    && self@[self.id_seq()[i]] == self.node_seq()[i],
            self@.dom() == self.id_seq().to_set(),
            self@.dom().finite(),
            self@.dom().len() == self.node_seq().len(),
    {
        let e = self.nodes.entries@;
        assert forall|i: int| 0 <= i < self.node_seq().len() implies #[trigger] self@.contains_key(
            self.id_seq()[i],
        ) && self@[self.id_seq()[i]] == self.node_seq()[i] by {
            lemma_entry_map_at(e, i);
        }
        assert(self@.dom() =~= self.id_seq().to_set());
        self.id_seq().unique_seq_to_set();
    }

    /// Create a new empty inventory.
    pub fn new() -> (r: Inventory)
        ensures
            r.wf(),
            r@ == Map::<Seq<char>, TestNode>::empty(),
            r.node_seq() == Seq::<TestNode>::empty(),
            r.spec_meta().hash@ == Seq::<char>::empty(),
            r.spec_meta().collected_at == 0,
            r.spec_meta().node_count == 0,
            r.spec_meta().schema_version == SCHEMA_VERSION,
    {
        Inventory { nodes: Table::new(), meta: InventoryMeta::default() }
    }

    /// Add a test node, replacing the node with the same id if there is one
    /// (which keeps its place in the order).
    pub fn add(&mut self, node: TestNode)
        requires
            old(self).wf(),
        ensures
            final(self).wf(),
            final(self)@ == old(self)@.insert(node.node_id@, node),
            old(self)@.contains_key(node.node_id@) ==> final(self).id_seq() == old(self).id_seq(),
            !old(self)@.contains_key(node.node_id@) ==> {
                &&& final(self).id_seq() == old(self).id_seq().push(node.node_id@)
                &&& final(self).node_seq() == old(self).node_seq().push(node)
            },
            final(self).spec_meta().hash == old(self).spec_meta().hash,
            final(self).spec_meta().collected_at == old(self).spec_meta().collected_at,
            final(self).spec_meta().schema_version == old(self).spec_meta().schema_version,
    {
        let key = node.node_id.clone();
        match self.nodes.find(&key) {
            Some(i) => {
                proof {
                    lemma_entry_map_at(self.nodes.entries@, i as int);
                }
                self.nodes.set_value(i, node);
                assert(self.nodes.keys() =~= old(self).nodes.keys());
            },
            None => {
                self.nodes.push(key, node);
                assert(self.nodes.keys() =~= old(self).nodes.keys().push(node.node_id@));
                assert(self.nodes.values() =~= old(self).nodes.values().push(node));
            },
        }
        self.meta.node_count = self.nodes.len();
    }

    /// Get a test node by ID.
    pub fn get(&self, node_id: &str) -> (r: Option<&TestNode>)
        requires
            self.wf(),
        ensures
            r matches Some(n) ==> self@.contains_key(node_id@) && *n == self@[node_id@],
            r is None ==> !self@.contains_key(node_id@),
    {
        let key = String::from_str(node_id);
        match self.nodes.find(&key) {
            Some(i) => {
                proof {
                    lemma_entry_map_at(self.nodes.entries@, i as int);
                }
                Some(&self.nodes.entries[i].1)
            },
            None => None,
        }
    }

    /// Get a mutable reference to a test node by ID; changing the node
    /// through it changes the node stored under that id.
    pub fn get_mut(&mut self, node_id: &str) -> (r: Option<&mut TestNode>)
        requires
            old(self).wf(),
        ensures
            r is None ==> !old(self)@.contains_key(node_id@) && *final(self) == *old(self),
            r matches Some(n) ==> {
                &&& old(self)@.contains_key(node_id@)
                &&& *n == old(self)@[node_id@]
                &&& final(self).wf()
                &&& final(self)@ == old(self)@.insert(node_id@, *final(n))
                &&& final(self).id_seq() == old(self).id_seq()
                &&& final(self).spec_meta() == old(self).spec_meta()
            },
    {
        let key = String::from_str(node_id);
        match self.nodes.find(&key) {
            Some(i) => {
                let ghost e = self.nodes.entries@;
                proof {
                    lemma_entry_map_at(e, i as int);
                }
                let r = self.nodes.value_mut(i);
                proof {
                    lemma_entry_map_update(e, i as int, *final(r));
                }
                Some(r)
            },
            None => None,
        }
    }

    /// Remove a test node by ID.
    pub fn remove(&mut self, node_id: &str) -> (r: Option<TestNode>)
        requires
            old(self).wf(),
        ensures
            final(self).wf(),
            final(self)@ == old(self)@.remove(node_id@),
            r matches Some(n) ==> old(self)@.contains_key(node_id@) && n == old(self)@[node_id@],
            r is None ==> !old(self)@.contains_key(node_id@) && final(self)@ == old(self)@,
            final(self).spec_meta().hash == old(self).spec_meta().hash,
            final(self).spec_meta().collected_at == old(self).spec_meta().collected_at,
            final(self).spec_meta().schema_version == old(self).spec_meta().schema_version,
    {
        let key = String::from_str(node_id);
        let r = match self.nodes.find(&key) {
            Some(i) => {
                proof {
                    lemma_entry_map_at(self.nodes.entries@, i as int);
                }
                let (_k, n) = self.nodes.remove_at(i);
                Some(n)
            },
            None => {
                assert(old(self)@.remove(node_id@) =~= old(self)@);
                None
            },
        };
        self.meta.node_count = self.nodes.len();
        r
    }

    /// Check if the inventory contains a node.
    pub fn contains(&self, node_id: &str) -> (r: bool)
        requires
            self.wf(),
        ensures
            r == self@.contains_key(node_id@),
    {
        let key = String::from_str(node_id);
        self.nodes.find(&key).is_some()
    }

    /// Get the number of nodes in the inventory.
    pub fn len(&self) -> (r: usize)
        requires
            self.wf(),
        ensures
            r == self@.len(),
            r == self.node_seq().len(),
    {
        proof {
            self.lemma_seqs_describe_view();
        }
        self.nodes.len()
    }

    /// Check if the inventory is empty.
    pub fn is_empty(&self) -> (r: bool)
        requires
            self.wf(),
        ensures
            r == (self@.len() == 0),
    {
        proof {
            self.lemma_seqs_describe_view();
        }
        self.nodes.len() == 0
    }

    /// All nodes, in the inventory's order.
    pub fn iter(&self) -> (r: Vec<&TestNode>)
        ensures
            derefs(r@) == self.node_seq(),
    {
        let mut r: Vec<&TestNode> = Vec::new();
        let mut i: usize = 0;
        while i < self.nodes.entries.len()
            invariant
                i <= self.nodes.entries@.len(),
                derefs(r@) == self.node_seq().take(i as int),
            decreases self.nodes.entries@.len() - i,
        {
            let n = &self.nodes.entries[i].1;
            proof {
                lemma_derefs_push(r@, n);
            }
            r.push(n);
            assert(self.node_seq().take(i + 1) =~= self.node_seq().take(i as int).push(*n));
            i = i + 1;
        }
        assert(self.node_seq().take(i as int) =~= self.node_seq());
        r
    }

    /// All node ids, in the inventory's order.
    pub fn node_ids(&self) -> (r: Vec<&String>)
        ensures
            string_views(derefs(r@)) == self.id_seq(),
    {
        let mut r: Vec<&String> = Vec::new();
        let mut i: usize = 0;
        while i < self.nodes.entries.len()
            invariant
                i <= self.nodes.entries@.len(),
                string_views(derefs(r@)) == self.id_seq().take(i as int),
            decreases self.nodes.entries@.len() - i,
        {
            let k = &self.nodes.entries[i].0;
            proof {
                lemma_derefs_push(r@, k);
            }
            r.push(k);
            assert(string_views(derefs(r@)) =~= string_views(derefs(r@).drop_last()).push(k@));
            assert(derefs(r@).drop_last() =~= derefs(r@.drop_last()));
            assert(self.id_seq().take(i + 1) =~= self.id_seq().take(i as int).push(k@));
            i = i + 1;
        }
        assert(self.id_seq().take(i as int) =~= self.id_seq());
        r
    }

    /// Get the inventory metadata; its node count is the number of nodes.
    pub fn meta(&self) -> (r: &InventoryMeta)
        requires
            self.wf(),
        ensures
            *r == self.spec_meta(),
            r.node_count == self@.len(),
    {
        proof {
            self.lemma_seqs_describe_view();
        }
        &self.meta
    }

    /// Update metadata after collection.
    pub fn update_meta(&mut self, hash: String, collected_at: u64)
        requires
            old(self).wf(),
        ensures
            final(self).wf(),
            final(self)@ == old(self)@,
            final(self).node_seq() == old(self).node_seq(),
            final(self).id_seq() == old(self).id_seq(),
            final(self).spec_meta().hash == hash,
            final(self).spec_meta().collected_at == collected_at,
            final(self).spec_meta().node_count == old(self)@.len(),
            final(self).spec_meta().schema_version == SCHEMA_VERSION,
    {
        proof {
            self.lemma_seqs_describe_view();
        }
        self.meta.hash = hash;
        self.meta.collected_at = collected_at;
        self.meta.node_count = self.nodes.len();
        self.meta.schema_version = SCHEMA_VERSION;
    }

    /// Nodes selected by an optional keyword and an optional marker expression,
    /// in the inventory's order.
    pub fn filter(&self, keyword: Option<&str>, marker: Option<&str>) -> (r: Vec<&TestNode>)
        ensures
            derefs(r@) == self.node_seq().filter(
                |n: TestNode| selects(n, opt_str_view(keyword), opt_str_view(marker)),
            ),
    {
        let ghost pred = |n: TestNode| selects(n, opt_str_view(keyword), opt_str_view(marker));
        let ghost vals = self.node_seq();
        let mut r: Vec<&TestNode> = Vec::new();
        let mut i: usize = 0;
        while i < self.nodes.entries.len()
            invariant
                vals == entry_values(self.nodes.entries@),
                pred == (|n: TestNode| selects(n, opt_str_view(keyword), opt_str_view(marker))),
                i <= self.nodes.entries@.len(),
                derefs(r@) == vals.take(i as int).filter(pred),
            decreases self.nodes.entries@.len() - i,
        {
            let n = &self.nodes.entries[i].1;
            assert(*n == vals[i as int]);
            proof {
                assert(vals.take(i + 1) == vals.take(i as int).push(vals[i as int]));
                vals.take(i as int).lemma_filter_push(vals[i as int], pred);
            }
            let by_keyword = match keyword {
                Some(k) => n.matches_keyword(k),
                None => true,
            };
            let selected = by_keyword && match marker {
                Some(m) => n.matches_marker(m),
                None => true,
            };
            let ghost r0 = r@;
            if selected {
                proof {
                    lemma_derefs_push(r@, n);
                }
                r.push(n);
                assert(derefs(r@) == derefs(r0).push(vals[i as int]));
            }
            assert(derefs(r@) == vals.take(i + 1).filter(pred));
            i = i + 1;
        }
        assert(vals.take(i as int) == vals);
        r
    }

    /// Filter nodes by keyword expression (-k), in the inventory's order.
    pub fn filter_by_keyword(&self, expr: &str) -> (r: Vec<&TestNode>)
        ensures
            derefs(r@) == self.node_seq().filter(|n: TestNode| keyword_match(n, expr@)),
    {
        let r = self.filter(Some(expr), None);
        assert((|n: TestNode| selects(n, opt_str_view(Some(expr)), opt_str_view(None))) =~= (|
            n: TestNode,
        | keyword_match(n, expr@)));
        r
    }

    /// Filter nodes by marker expression (-m), in the inventory's order.
    pub fn filter_by_marker(&self, expr: &str) -> (r: Vec<&TestNode>)
        ensures
            derefs(r@) == self.node_seq().filter(|n: TestNode| marker_match(n, expr@)),
    {
        let r = self.filter(None, Some(expr));
        assert((|n: TestNode| selects(n, opt_str_view(None), opt_str_view(Some(expr)))) =~= (|
            n: TestNode,
        | marker_match(n, expr@)));
        r
    }

    /// Rebuild an inventory from stored parts: the stored metadata (the
    /// default when none was stored) and the stored nodes, added in order; the
    /// node count is then set to the number of nodes.
    pub fn restore(meta: Option<InventoryMeta>, nodes: Vec<TestNode>) -> (r: Inventory)
        ensures
            r.wf(),
            r@ == with_nodes(Map::empty(), nodes@),
            meta matches Some(m) ==> r.spec_meta().hash == m.hash && r.spec_meta().collected_at
                == m.collected_at && r.spec_meta().schema_version == m.schema_version,
            meta is None ==> r.spec_meta().hash@ == Seq::<char>::empty() && r.spec_meta().collected_at
                == 0 && r.spec_meta().schema_version == SCHEMA_VERSION,
            r.spec_meta().node_count == r@.len(),
    {
        let mut inv = Inventory::new();
        match meta {
            Some(m) => {
                inv.meta = m;
                inv.meta.node_count = 0;
            },
            None => {},
        }
        let ghost all = nodes@;
        for n in it: nodes
            invariant
                inv.wf(),
                it.seq() == all,
                inv@ == with_nodes(Map::empty(), all.take(it.index() as int)),
                meta matches Some(m) ==> inv.meta.hash == m.hash && inv.meta.collected_at
                    == m.collected_at && inv.meta.schema_version == m.schema_version,
                meta is None ==> inv.meta.hash@ == Seq::<char>::empty() && inv.meta.collected_at == 0
                    && inv.meta.schema_version == SCHEMA_VERSION,
        {
            proof {
                let t = all.take(it.index() + 1);
                assert(t.drop_last() =~= all.take(it.index() as int));
                assert(t.last() == n);
            }
            inv.add(n);
        }
        assert(all.take(all.len() as int) =~= all);
        proof {
            inv.lemma_seqs_describe_view();
        }
        inv
    }

    /// The nodes at the positions of `perm`.
    fn pick(&self, perm: &Vec<usize>) -> (r: Vec<&TestNode>)
        requires
            forall|i: int| 0 <= i < perm@.len() ==> perm@[i] < self.node_seq().len(),
        ensures
            derefs(r@) == permuted(self.node_seq(), perm@),
    {
        let mut r: Vec<&TestNode> = Vec::new();
        let mut i: usize = 0;
        while i < perm.len()
            invariant
                i <= perm@.len(),
                forall|k: int| 0 <= k < perm@.len() ==> perm@[k] < self.node_seq().len(),
                self.node_seq().len() == self.nodes.entries@.len(),
                derefs(r@) == permuted(self.node_seq(), perm@.take(i as int)),
            decreases perm@.len() - i,
        {
            let n = &self.nodes.entries[perm[i]].1;
            proof {
                lemma_derefs_push(r@, n);
            }
            r.push(n);
            assert(permuted(self.node_seq(), perm@.take(i + 1)) =~= permuted(
                self.node_seq(),
                perm@.take(i as int),
            ).push(*n));
            i = i + 1;
        }
        assert(perm@.take(i as int) =~= perm@);
        r
    }

    /// Nodes by average duration, longest first; nodes of equal duration (an
    /// unknown duration counts as 0) keep the inventory's order.
    pub fn sorted_by_duration(&self) -> (r: Vec<&TestNode>)
        ensures
            exists|perm: Seq<usize>|
                is_ranking(self.node_seq().map_values(|n: TestNode| duration_key(n)), perm)
                    && derefs(r@) == permuted(self.node_seq(), perm),
    {
        let ghost ks = self.node_seq().map_values(|n: TestNode| duration_key(n));
        let mut keys: Vec<u128> = Vec::new();
        let mut i: usize = 0;
        while i < self.nodes.entries.len()
            invariant
                i <= self.nodes.entries@.len(),
                ks == self.node_seq().map_values(|n: TestNode| duration_key(n)),
                keys@ == ks.take(i as int),
            decreases self.nodes.entries@.len() - i,
        {
            let k: u128 = match self.nodes.entries[i].1.avg_duration_ms {
                Some(d) => d as u128,
                None => 0,
            };
            keys.push(k);
            assert(keys@ =~= ks.take(i + 1));
            i = i + 1;
        }
        assert(keys@ =~= ks);
        let perm = rank_desc(&keys);
        let r = self.pick(&perm);
        assert(is_ranking(ks, perm@) && derefs(r@) == permuted(self.node_seq(), perm@));
        r
    }

    /// Nodes by failure rate, highest first; nodes of equal rate (a node that
    /// never ran counts as 0) keep the inventory's order.
    pub fn sorted_by_failure_rate(&self) -> (r: Vec<&TestNode>)
        ensures
            exists|perm: Seq<usize>|
                is_ranking(self.node_seq().map_values(|n: TestNode| rate_key(n)), perm)
                    && derefs(r@) == permuted(self.node_seq(), perm),
    {
        let ghost ks = self.node_seq().map_values(|n: TestNode| rate_key(n));
        let mut keys: Vec<u128> = Vec::new();
        let mut i: usize = 0;
        while i < self.nodes.entries.len()
            invariant
                i <= self.nodes.entries@.len(),
                ks == self.node_seq().map_values(|n: TestNode| rate_key(n)),
                keys@ == ks.take(i as int),
            decreases self.nodes.entries@.len() - i,
        {
            let n = &self.nodes.entries[i].1;
            let k = failure_rate_key(n.fail_count, n.run_count);
            keys.push(k);
            assert(keys@ =~= ks.take(i + 1));
            i = i + 1;
        }
        assert(keys@ =~= ks);
        let perm = rank_desc(&keys);
        let r = self.pick(&perm);
        assert(is_ranking(ks, perm@) && derefs(r@) == permuted(self.node_seq(), perm@));
        r
    }
}

/// The map after adding `nodes` in order to `m`, later nodes replacing
/// earlier ones of the same id.
pub open spec fn with_nodes(m: Map<Seq<char>, TestNode>, nodes: Seq<TestNode>) -> Map<Seq<char>, TestNode>
    decreases nodes.len(),
{
    if nodes.len() == 0 {
        m
    } else {
        with_nodes(m, nodes.drop_last()).insert(nodes.last().node_id@, nodes.last())
    }
}

/// The failure-rate sort key of a node with these counts.
fn failure_rate_key(fail_count: u32, run_count: u32) -> (k: u128)
    ensures
        run_count == 0 ==> k == 0,
        run_count > 0 ==> k == (fail_count as int * rate_unit()) / (run_count as int),
{
    if run_count == 0 {
        0
    } else {
        let scaled: u128 = (fail_count as u128) * 0x1_0000_0000_0000_0000u128;
        proof {
            assert((fail_count as u128) * 0x1_0000_0000_0000_0000u128 <= 0xffff_ffff * 0x1_0000_0000_0000_0000u128) by (nonlinear_arith)
                requires
                    fail_count <= 0xffff_ffff,
            ;
            assert(scaled / (run_count as u128) <= scaled) by (nonlinear_arith)
                requires
                    run_count >= 1,
            ;
        }
        scaled / (run_count as u128)
    }
}

} // verus!

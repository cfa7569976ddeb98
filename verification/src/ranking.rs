//! Stable descending ranking of items by integer keys.

use vstd::prelude::*;

verus! {

/// Item `a` is placed before item `b`: larger key first, ties in input order.
pub open spec fn ranks_before(keys: Seq<u128>, a: usize, b: usize) -> bool {
    keys[a as int] > keys[b as int] || (keys[a as int] == keys[b as int] && a < b)
}

/// `perm` lists every index of `keys` once, larger keys first and equal keys
/// in the order they were given (what a stable descending sort produces).
pub open spec fn is_ranking(keys: Seq<u128>, perm: Seq<usize>) -> bool {
    &&& perm.len() == keys.len()
    &&& forall|i: int| 0 <= i < perm.len() ==> perm[i] < keys.len()
    &&& perm.no_duplicates()
    &&& forall|i: int, j: int| 0 <= i < j < perm.len() ==> ranks_before(keys, perm[i], perm[j])
}

/// The indices of `keys` in stable descending key order.
pub fn rank_desc(keys: &Vec<u128>) -> (perm: Vec<usize>)
    ensures
        is_ranking(keys@, perm@),
{
    let n = keys.len();
    let mut perm: Vec<usize> = Vec::new();
    let mut i: usize = 0;
    while i < n
        invariant
            n == keys@.len(),
            i <= n,
            perm@.len() == i,
            forall|k: int| 0 <= k < perm@.len() ==> perm@[k] < i,
            perm@.no_duplicates(),
            forall|a: int, b: int|
                0 <= a < b < perm@.len() ==> ranks_before(keys@, perm@[a], perm@[b]),
        decreases n - i,
    {
        let mut p: usize = 0;
        while p < perm.len() && keys[perm[p]] >= keys[i]
            invariant
                n == keys@.len(),
                i < n,
                p <= perm@.len(),
                forall|k: int| 0 <= k < perm@.len() ==> perm@[k] < i,
                forall|q: int| 0 <= q < p ==> keys@[perm@[q] as int] >= keys@[i as int],
            decreases perm@.len() - p,
        {
            p = p + 1;
        }
        let ghost old_perm = perm@;
        perm.insert(p, i);
        proof {
            assert(perm@ == old_perm.insert(p as int, i));
            assert forall|a: int, b: int| 0 <= a < b < perm@.len() implies ranks_before(
                keys@,
                perm@[a],
                perm@[b],
            ) by {
                if b < p {
                    assert(perm@[a] == old_perm[a] && perm@[b] == old_perm[b]);
                } else if b == p {
                    assert(perm@[a] == old_perm[a]);
                } else if a == p {
                    assert(perm@[b] == old_perm[b - 1]);
                    assert(keys@[old_perm[p as int] as int] < keys@[i as int]);
                    if b - 1 > p {
                        assert(ranks_before(keys@, old_perm[p as int], old_perm[b - 1]));
                    }
                } else if a < p {
                    assert(perm@[a] == old_perm[a] && perm@[b] == old_perm[b - 1]);
                } else {
                    assert(perm@[a] == old_perm[a - 1] && perm@[b] == old_perm[b - 1]);
                }
            }
            assert forall|x: int, y: int|
                0 <= x < perm@.len() && 0 <= y < perm@.len() && x != y implies perm@[x]
                != perm@[y] by {
                if x < p {
                    assert(perm@[x] == old_perm[x]);
                } else if x > p {
                    assert(perm@[x] == old_perm[x - 1]);
                }
                if y < p {
                    assert(perm@[y] == old_perm[y]);
                } else if y > p {
                    assert(perm@[y] == old_perm[y - 1]);
                }
            }
            assert forall|k: int| 0 <= k < perm@.len() implies perm@[k] < i + 1 by {
                if k < p {
                    assert(perm@[k] == old_perm[k]);
                } else if k > p {
                    assert(perm@[k] == old_perm[k - 1]);
                }
            }
        }
        i = i + 1;
    }
    perm
}

/// A ranking lists every index of its keys.
proof fn lemma_ranking_covers(keys: Seq<u128>, perm: Seq<usize>, x: int)
    requires
        is_ranking(keys, perm),
        0 <= x < keys.len(),
    ensures
        exists|i: int| 0 <= i < perm.len() && perm[i] == x,
{
    let n = keys.len() as int;
    let pi = Seq::new(perm.len(), |i: int| perm[i] as int);
    assert(pi.no_duplicates()) by {
        assert forall|i: int, j: int| 0 <= i < pi.len() && 0 <= j < pi.len() && i != j implies pi[i]
            != pi[j] by {
            assert(perm[i] != perm[j]);
        }
    }
    pi.unique_seq_to_set();
    vstd::seq_lib::seq_to_set_is_finite(pi);
    vstd::set_lib::lemma_int_range(0, n);
    let range = vstd::set_lib::set_int_range(0, n);
    assert(pi.to_set().subset_of(range)) by {
        assert forall|v: int| pi.to_set().contains(v) implies range.contains(v) by {
            assert(pi.contains(v));
            let i = choose|i: int| 0 <= i < pi.len() && pi[i] == v;
            assert(perm[i] < keys.len());
        }
    }
    vstd::set_lib::lemma_subset_equality(pi.to_set(), range);
    assert(range.contains(x));
    assert(pi.to_set().contains(x));
    assert(pi.contains(x));
    let i = choose|i: int| 0 <= i < pi.len() && pi[i] == x;
    assert(perm[i] == x);
}

/// Two rankings of the same keys agree on their first `k` positions.
proof fn lemma_ranking_prefix(keys: Seq<u128>, p: Seq<usize>, q: Seq<usize>, k: int)
    requires
        is_ranking(keys, p),
        is_ranking(keys, q),
        0 <= k <= p.len(),
    ensures
        forall|j: int| 0 <= j < k ==> p[j] == q[j],
    decreases k,
{
    if k > 0 {
        let m = k - 1;
        lemma_ranking_prefix(keys, p, q, m);
        let a = p[m];
        let b = q[m];
        if a != b {
            lemma_ranking_covers(keys, q, a as int);
            lemma_ranking_covers(keys, p, b as int);
            let j = choose|j: int| 0 <= j < q.len() && q[j] == a;
            let jp = choose|j: int| 0 <= j < p.len() && p[j] == b;
            if j < m {
                assert(p[j] == q[j]);
                assert(p[j] == p[m]);
            }
            if jp < m {
                assert(q[jp] == p[jp]);
                assert(q[jp] == q[m]);
            }
            assert(j > m && jp > m);
            assert(ranks_before(keys, p[m], p[jp]));
            assert(ranks_before(keys, q[m], q[j]));
        }
    }
}

/// The ranking of given keys is unique: two rankings of the same keys are
/// the same sequence of indices.
pub proof fn lemma_ranking_unique(keys: Seq<u128>, p: Seq<usize>, q: Seq<usize>)
    requires
        is_ranking(keys, p),
        is_ranking(keys, q),
    ensures
        p == q,
{
    lemma_ranking_prefix(keys, p, q, p.len() as int);
    assert(p =~= q);
}

} // verus!

//! Ranking by count: the order a stable descending sort by count produces.
use vstd::prelude::*;

verus! {

/// Position `i` comes before position `j` in the ranking: a larger key first, and
/// among equal keys the earlier position first (what a stable sort keeps).
pub open spec fn ranks_before(keys: Seq<usize>, i: int, j: int) -> bool {
    keys[i] > keys[j] || (keys[i] == keys[j] && i < j)
}

/// `r` lists every position of `keys` once, in ranking order.
pub open spec fn is_ranking(keys: Seq<usize>, r: Seq<usize>) -> bool {
    &&& r.len() == keys.len()
    &&& forall|a: int| 0 <= a < r.len() ==> r[a] < keys.len()
    &&& forall|a: int, b: int|
        0 <= a < b < r.len() ==> ranks_before(keys, r[a] as int, r[b] as int)
}

/// A ranking lists each position exactly once.
pub proof fn lemma_ranking_is_permutation(keys: Seq<usize>, r: Seq<usize>)
    requires
        is_ranking(keys, r),
        keys.len() <= usize::MAX,
    ensures
        forall|a: int, b: int| 0 <= a < b < r.len() ==> r[a] != r[b],
        forall|i: usize| (i as int) < keys.len() ==> #[trigger] r.contains(i),
{
    assert forall|a: int, b: int| 0 <= a < b < r.len() implies r[a] != r[b] by {
        assert(ranks_before(keys, r[a] as int, r[b] as int));
    }
    let rs = r.to_set();
    let full = Set::new(|x: usize| (x as int) < keys.len());
    assert(r.no_duplicates());
    r.unique_seq_to_set();
    lemma_usize_range_len(keys.len() as nat);
    assert(rs.subset_of(full));
    vstd::set_lib::lemma_subset_equality(rs, full);
    assert forall|i: usize| (i as int) < keys.len() implies #[trigger] r.contains(i) by {
        assert(full.contains(i));
    }
}

proof fn lemma_usize_range_len(n: nat)
    requires
        n <= usize::MAX + 1,
    ensures
        Set::new(|x: usize| (x as int) < n).finite(),
        Set::new(|x: usize| (x as int) < n).len() == n,
    decreases n,
{
    let s = Set::new(|x: usize| (x as int) < n);
    if n == 0 {
        assert(s =~= Set::empty());
    } else {
        let t = Set::new(|x: usize| (x as int) < n - 1);
        lemma_usize_range_len((n - 1) as nat);
        assert(s =~= t.insert((n - 1) as usize));
    }
}

/// Positions of `keys` ordered by descending key, ties in their given order.
pub fn rank_by_count(keys: &Vec<usize>) -> (r: Vec<usize>)
    ensures
        is_ranking(keys@, r@),
{
    let mut r: Vec<usize> = Vec::new();
    let mut i: usize = 0;
    while i < keys.len()
        invariant
            i <= keys.len(),
            r@.len() == i,
            forall|a: int| 0 <= a < r@.len() ==> r@[a] < i,
            forall|a: int, b: int|
                0 <= a < b < r@.len() ==> ranks_before(keys@, r@[a] as int, r@[b] as int),
        decreases keys.len() - i,
    {
        let k = keys[i];
        let mut p: usize = 0;
        while p < r.len() && keys[r[p]] >= k
            invariant
                i < keys.len(),
                k == keys@[i as int],
                p <= r@.len(),
                forall|a: int| 0 <= a < r@.len() ==> r@[a] < i,
                forall|a: int| 0 <= a < p ==> keys@[r@[a] as int] >= k,
            decreases r.len() - p,
        {
            p = p + 1;
        }
        let ghost old_r = r@;
        proof {
            assert forall|a: int| p <= a < old_r.len() implies keys@[old_r[a] as int] < k by {
                if p < old_r.len() {
                    assert(keys@[old_r[p as int] as int] < k);
                    if a > p {
                        assert(ranks_before(keys@, old_r[p as int] as int, old_r[a] as int));
                    }
                }
            }
        }
        r.insert(p, i);
        proof {
            assert forall|a: int, b: int| 0 <= a < b < r@.len() implies ranks_before(
                keys@,
                r@[a] as int,
                r@[b] as int,
            ) by {
                if a < p as int && b < p as int {
                    assert(r@[a] == old_r[a] && r@[b] == old_r[b]);
                } else if a < p as int && b == p as int {
                    assert(r@[a] == old_r[a]);
                } else if a < p as int {
                    assert(r@[a] == old_r[a] && r@[b] == old_r[b - 1]);
                } else if a == p as int {
                    assert(r@[b] == old_r[b - 1]);
                } else {
                    assert(r@[a] == old_r[a - 1] && r@[b] == old_r[b - 1]);
                }
            }
        }
        i = i + 1;
    }
    r
}

} // verus!

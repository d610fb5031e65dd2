//! Ranking by a key, the largest first, with equal keys in their first order.

use vstd::prelude::*;

verus! {

/// The first place at or behind `from` whose entry has a key below `key`; the
/// end of `order` where there is none.
pub open spec fn insert_position(keys: Seq<usize>, order: Seq<int>, key: usize, from: int) -> int
    decreases order.len() - from,
{
    if from < 0 || from >= order.len() {
        order.len() as int
    } else if keys[order[from]] < key {
        from
    } else {
        insert_position(keys, order, key, from + 1)
    }
}

/// The indices of the first `n` keys, ranked: the largest key first, and of
/// two equal keys the one that came first. It is built by placing each index
/// in turn behind every index whose key is not smaller.
pub open spec fn ranked(keys: Seq<usize>, n: int) -> Seq<int>
    decreases n,
{
    if n <= 0 {
        seq![]
    } else {
        let before = ranked(keys, n - 1);
        before.insert(insert_position(keys, before, keys[n - 1], 0), n - 1)
    }
}

/// `order` lists indices below `n`, none twice, with keys that never rise,
/// and equal keys in rising order of their indices.
pub open spec fn is_ranking(keys: Seq<usize>, order: Seq<int>, n: int) -> bool {
    &&& order.len() == n
    &&& forall|i: int| 0 <= i < order.len() ==> 0 <= #[trigger] order[i] < n
    &&& forall|i: int, j: int|
        0 <= i < j < order.len() ==> {
            ||| keys[#[trigger] order[i]] > keys[#[trigger] order[j]]
            ||| (keys[order[i]] == keys[order[j]] && order[i] < order[j])
        }
}

/// The indices of a list as numbers.
pub open spec fn index_views(order: Seq<usize>) -> Seq<int> {
    order.map_values(|i: usize| i as int)
}

/// The place of insertion lies behind every key that is not smaller, and
/// before a key that is.
pub proof fn lemma_insert_position(keys: Seq<usize>, order: Seq<int>, key: usize, from: int)
    requires
        0 <= from <= order.len(),
    ensures
        from <= insert_position(keys, order, key, from) <= order.len(),
        forall|i: int|
            from <= i < insert_position(keys, order, key, from) ==> keys[#[trigger] order[i]]
                >= key,
        insert_position(keys, order, key, from) < order.len() ==> keys[order[insert_position(
            keys,
            order,
            key,
            from,
        )]] < key,
    decreases order.len() - from,
{
    if from < order.len() && !(keys[order[from]] < key) {
        lemma_insert_position(keys, order, key, from + 1);
    }
}

/// What `ranked` builds is a ranking: the keys never rise along it, and equal
/// keys keep their first order.
pub proof fn lemma_ranked_is_ranking(keys: Seq<usize>, n: int)
    requires
        0 <= n <= keys.len(),
    ensures
        is_ranking(keys, ranked(keys, n), n),
    decreases n,
{
    if n > 0 {
        lemma_ranked_is_ranking(keys, n - 1);
        let before = ranked(keys, n - 1);
        let key = keys[n - 1];
        lemma_insert_position(keys, before, key, 0);
        let p = insert_position(keys, before, key, 0);
        let last = n - 1;
        let after = before.insert(p, last);
        assert(after == ranked(keys, n));
        assert forall|i: int| 0 <= i < after.len() implies 0 <= #[trigger] after[i] < n by {
            if i < p {
                assert(after[i] == before[i]);
            } else if i > p {
                assert(after[i] == before[i - 1]);
            }
        }
        assert forall|i: int, j: int| 0 <= i < j < after.len() implies {
            ||| keys[#[trigger] after[i]] > keys[#[trigger] after[j]]
            ||| (keys[after[i]] == keys[after[j]] && after[i] < after[j])
        } by {
            let x = if i < p {
                before[i]
            } else if i == p {
                last
            } else {
                before[i - 1]
            };
            let y = if j < p {
                before[j]
            } else if j == p {
                last
            } else {
                before[j - 1]
            };
            assert(after[i] == x);
            assert(after[j] == y);
            if j < p {
            } else if j == p {
                assert(keys[before[i]] >= key);
                assert(before[i] < n - 1);
            } else if i < p {
                assert(i < j - 1);
            } else if i == p {
                assert(keys[before[p]] < key);
                if j - 1 > p {
                    assert(keys[before[p]] >= keys[before[j - 1]]);
                }
            } else {
                assert(i - 1 < j - 1);
            }
        }
    }
}

/// Ranks the indices of `keys`: the largest key first, equal keys in their
/// first order.
pub fn rank_descending(keys: &[usize]) -> (order: Vec<usize>)
    ensures
        index_views(order@) == ranked(keys@, keys@.len() as int),
        is_ranking(keys@, index_views(order@), keys@.len() as int),
        order@.len() == keys@.len(),
        forall|i: int| 0 <= i < order@.len() ==> #[trigger] order@[i] < keys@.len(),
{
    let mut order: Vec<usize> = Vec::new();
    let mut i: usize = 0;
    assert(index_views(order@) =~= ranked(keys@, 0));
    while i < keys.len()
        invariant
            i <= keys.len(),
            index_views(order@) == ranked(keys@, i as int),
            is_ranking(keys@, index_views(order@), i as int),
        decreases keys.len() - i,
    {
        let key = keys[i];
        let mut p: usize = 0;
        while p < order.len() && keys[order[p]] >= key
            invariant
                p <= order.len(),
                i < keys.len(),
                key == keys@[i as int],
                is_ranking(keys@, index_views(order@), i as int),
                insert_position(keys@, index_views(order@), key, 0) == insert_position(
                    keys@,
                    index_views(order@),
                    key,
                    p as int,
                ),
            decreases order.len() - p,
        {
            assert(index_views(order@)[p as int] == order@[p as int]);
            p += 1;
        }
        proof {
            if p < order.len() {
                assert(index_views(order@)[p as int] == order@[p as int]);
            }
        }
        let ghost before = index_views(order@);
        order.insert(p, i);
        proof {
            assert(index_views(order@) =~= before.insert(p as int, i as int));
            lemma_ranked_is_ranking(keys@, i + 1);
        }
        i += 1;
    }
    proof {
        assert forall|i: int| 0 <= i < order@.len() implies #[trigger] order@[i] < keys@.len() by {
            assert(index_views(order@)[i] == order@[i]);
        }
    }
    order
}

} // verus!

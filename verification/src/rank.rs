//! Stable ordering of items by a numeric score, highest first.
use vstd::prelude::*;

verus! {

/// Where `x` goes in `t`: before the first item with a lower score than `x`.
pub open spec fn insert_pos<T>(t: Seq<T>, x: T, key: spec_fn(T) -> int) -> int
    decreases t.len(),
{
    if t.len() == 0 {
        0
    } else if key(t[0]) < key(x) {
        0
    } else {
        1 + insert_pos(t.skip(1), x, key)
    }
}

/// The items ordered by score, highest first; items with equal scores keep their order.
pub open spec fn rank_desc<T>(s: Seq<T>, key: spec_fn(T) -> int) -> Seq<T>
    decreases s.len(),
{
    if s.len() == 0 {
        Seq::empty()
    } else {
        let t = rank_desc(s.drop_last(), key);
        t.insert(insert_pos(t, s.last(), key), s.last())
    }
}

/// Scores never increase along the sequence.
pub open spec fn is_desc<T>(s: Seq<T>, key: spec_fn(T) -> int) -> bool {
    forall|i: int, j: int| 0 <= i < j < s.len() ==> key(s[i]) >= key(s[j])
}

pub proof fn lemma_insert_pos_bounds<T>(t: Seq<T>, x: T, key: spec_fn(T) -> int)
    ensures
        0 <= insert_pos(t, x, key) <= t.len(),
        forall|j: int| 0 <= j < insert_pos(t, x, key) ==> key(t[j]) >= key(x),
        insert_pos(t, x, key) < t.len() ==> key(t[insert_pos(t, x, key)]) < key(x),
    decreases t.len(),
{
    if t.len() > 0 && key(t[0]) >= key(x) {
        lemma_insert_pos_bounds(t.skip(1), x, key);
        assert forall|j: int| 0 < j < t.len() implies t[j] == t.skip(1)[j - 1] by {}
    }
}

proof fn lemma_insert_pos_at<T>(t: Seq<T>, x: T, key: spec_fn(T) -> int, p: int)
    requires
        0 <= p <= t.len(),
        forall|j: int| 0 <= j < p ==> key(t[j]) >= key(x),
        p < t.len() ==> key(t[p]) < key(x),
    ensures
        insert_pos(t, x, key) == p,
    decreases p,
{
    if p > 0 {
        assert forall|j: int| 0 <= j < p - 1 implies key(t.skip(1)[j]) >= key(x) by {
            assert(t.skip(1)[j] == t[j + 1]);
        }
        if p < t.len() {
            assert(t.skip(1)[p - 1] == t[p]);
        }
        lemma_insert_pos_at(t.skip(1), x, key, p - 1);
    }
}

/// Orders items by their scores, highest first, keeping the order of equal scores.
/// `keys[i]` is the score of `items[i]`.
pub fn rank_by_keys<T>(items: Vec<T>, keys: Vec<i128>, Ghost(key): Ghost<spec_fn(T) -> int>) -> (r:
    Vec<T>)
    requires
        keys@.len() == items@.len(),
        forall|i: int| 0 <= i < items@.len() ==> keys@[i] as int == key(items@[i]),
    ensures
        r@ == rank_desc(items@, key),
{
    let ghost all = items@;
    let mut items = items;
    let mut keys = keys;
    let mut r: Vec<T> = Vec::new();
    let mut rk: Vec<i128> = Vec::new();
    let ghost mut i: int = 0;
    while items.len() > 0
        invariant
            0 <= i <= all.len(),
            items@ == all.skip(i),
            keys@.len() == items@.len(),
            forall|j: int| 0 <= j < items@.len() ==> keys@[j] as int == key(items@[j]),
            r@ == rank_desc(all.take(i), key),
            rk@.len() == r@.len(),
            forall|j: int| 0 <= j < r@.len() ==> rk@[j] as int == key(r@[j]),
        decreases items.len(),
    {
        let x = items.remove(0);
        let k = keys.remove(0);
        let mut p: usize = 0;
        while p < rk.len() && rk[p] >= k
            invariant
                p <= rk@.len() == r@.len(),
                forall|j: int| 0 <= j < p ==> key(r@[j]) >= key(x),
                forall|j: int| 0 <= j < r@.len() ==> rk@[j] as int == key(r@[j]),
                k as int == key(x),
            decreases rk.len() - p,
        {
            p = p + 1;
        }
        proof {
            lemma_insert_pos_at(r@, x, key, p as int);
            assert(all.take(i + 1).drop_last() =~= all.take(i));
            assert(all.take(i + 1).last() == x);
            assert(all.skip(i + 1) =~= all.skip(i).skip(1));
        }
        let ghost before = r@;
        let ghost before_k = rk@;
        r.insert(p, x);
        rk.insert(p, k);
        proof {
            assert forall|j: int| 0 <= j < r@.len() implies rk@[j] as int == key(r@[j]) by {
                if j < p {
                    assert(r@[j] == before[j] && rk@[j] == before_k[j]);
                } else if j > p {
                    assert(r@[j] == before[j - 1] && rk@[j] == before_k[j - 1]);
                }
            }
            i = i + 1;
        }
    }
    assert(all.take(i) =~= all);
    r
}

/// Ranking puts scores in non-increasing order.
pub proof fn lemma_rank_desc_sorted<T>(s: Seq<T>, key: spec_fn(T) -> int)
    ensures
        is_desc(rank_desc(s, key), key),
        rank_desc(s, key).len() == s.len(),
    decreases s.len(),
{
    if s.len() > 0 {
        let t = rank_desc(s.drop_last(), key);
        lemma_rank_desc_sorted(s.drop_last(), key);
        let x = s.last();
        let p = insert_pos(t, x, key);
        lemma_insert_pos_bounds(t, x, key);
        let u = t.insert(p, x);
        assert forall|i: int, j: int| 0 <= i < j < u.len() implies key(u[i]) >= key(u[j]) by {
            if j < p {
                assert(u[i] == t[i] && u[j] == t[j]);
            } else if j == p {
                assert(u[j] == x && u[i] == t[i]);
            } else if i < p {
                assert(u[i] == t[i] && u[j] == t[j - 1]);
                assert(key(t[i]) >= key(x));
                assert(key(t[p]) < key(x));
                assert(key(t[p]) >= key(t[j - 1]));
            } else if i == p {
                assert(u[i] == x && u[j] == t[j - 1]);
                assert(key(t[p]) >= key(t[j - 1]));
            } else {
                assert(u[i] == t[i - 1] && u[j] == t[j - 1]);
            }
        }
    }
}

/// Ranking neither adds nor drops items: the result holds the same items, as often.
pub proof fn lemma_rank_desc_permutation<T>(s: Seq<T>, key: spec_fn(T) -> int)
    ensures
        rank_desc(s, key).to_multiset() == s.to_multiset(),
    decreases s.len(),
{
    broadcast use vstd::seq_lib::group_to_multiset_ensures;
    if s.len() == 0 {
        assert(rank_desc(s, key) =~= s);
    } else {
        let t = rank_desc(s.drop_last(), key);
        lemma_rank_desc_permutation(s.drop_last(), key);
        let x = s.last();
        let p = insert_pos(t, x, key);
        lemma_insert_pos_bounds(t, x, key);
        let u = t.insert(p, x);
        assert(u =~= t.take(p) + seq![x] + t.skip(p));
        assert(t =~= t.take(p) + t.skip(p));
        vstd::seq_lib::lemma_multiset_commutative(t.take(p), seq![x]);
        vstd::seq_lib::lemma_multiset_commutative(t.take(p) + seq![x], t.skip(p));
        vstd::seq_lib::lemma_multiset_commutative(t.take(p), t.skip(p));
        assert(s =~= s.drop_last().push(x));
    }
}

} // verus!

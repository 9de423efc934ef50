//! A small map from string keys to values that keeps its entries in insertion order.
use vstd::prelude::*;
use crate::text::str_eq;

verus! {

/// Entries `(key, value)` in the order they were first inserted. A list made by
/// [`KeyedList::new`], [`KeyedList::insert`] and [`KeyedList::remove`] holds each key at
/// most once (see [`KeyedList::wf`]).
pub struct KeyedList<V> {
    pub entries: Vec<(String, V)>,
}

/// A map from strings to strings.
pub type StringMap = KeyedList<String>;

/// Position of the first entry with the given key, or -1.
pub open spec fn key_index<V>(s: Seq<(String, V)>, key: Seq<char>) -> int
    decreases s.len(),
{
    if s.len() == 0 {
        -1
    } else if s[0].0@ == key {
        0
    } else {
        let r = key_index(s.skip(1), key);
        if r < 0 {
            -1
        } else {
            r + 1
        }
    }
}

/// Entries after setting `key` to `value`: the first entry with that key gets the new
/// value (and key), or a new entry is added at the end.
pub open spec fn assoc_insert<V>(s: Seq<(String, V)>, key: String, value: V) -> Seq<(String, V)> {
    let i = key_index(s, key@);
    if i >= 0 {
        s.update(i, (key, value))
    } else {
        s.push((key, value))
    }
}

/// The value of the first entry with `key`.
pub open spec fn assoc_get<V>(s: Seq<(String, V)>, key: Seq<char>) -> Option<V> {
    let i = key_index(s, key);
    if i >= 0 {
        Some(s[i].1)
    } else {
        None
    }
}

/// No key occurs twice.
pub open spec fn keys_unique<V>(s: Seq<(String, V)>) -> bool {
    forall|i: int, j: int| 0 <= i < j < s.len() ==> (#[trigger] s[i]).0@ != (#[trigger] s[j]).0@
}

/// Entries whose key is not `key`.
pub open spec fn key_other_than<V>(key: Seq<char>) -> spec_fn((String, V)) -> bool {
    |e: (String, V)| e.0@ != key
}

/// Entries without any entry whose key is `key`.
pub open spec fn assoc_remove<V>(s: Seq<(String, V)>, key: Seq<char>) -> Seq<(String, V)> {
    s.filter(key_other_than(key))
}

pub proof fn lemma_key_index_bounds<V>(s: Seq<(String, V)>, key: Seq<char>)
    ensures
        -1 <= key_index(s, key) < s.len(),
        key_index(s, key) >= 0 ==> s[key_index(s, key)].0@ == key,
        forall|j: int| 0 <= j < key_index(s, key) ==> s[j].0@ != key,
        key_index(s, key) < 0 ==> forall|j: int| 0 <= j < s.len() ==> s[j].0@ != key,
    decreases s.len(),
{
    if s.len() > 0 && s[0].0@ != key {
        lemma_key_index_bounds(s.skip(1), key);
        assert forall|j: int| 0 < j < s.len() implies s[j] == s.skip(1)[j - 1] by {}
    }
}

proof fn lemma_key_index_found<V>(s: Seq<(String, V)>, key: Seq<char>, i: int)
    requires
        0 <= i < s.len(),
        s[i].0@ == key,
        forall|j: int| 0 <= j < i ==> s[j].0@ != key,
    ensures
        key_index(s, key) == i,
    decreases i,
{
    if i > 0 {
        assert forall|j: int| 0 <= j < i - 1 implies s.skip(1)[j].0@ != key by {
            assert(s.skip(1)[j] == s[j + 1]);
        }
        lemma_key_index_found(s.skip(1), key, i - 1);
    }
}

proof fn lemma_key_index_absent<V>(s: Seq<(String, V)>, key: Seq<char>)
    requires
        forall|j: int| 0 <= j < s.len() ==> s[j].0@ != key,
    ensures
        key_index(s, key) == -1,
    decreases s.len(),
{
    if s.len() > 0 {
        assert forall|j: int| 0 <= j < s.len() - 1 implies s.skip(1)[j].0@ != key by {
            assert(s.skip(1)[j] == s[j + 1]);
        }
        lemma_key_index_absent(s.skip(1), key);
    }
}

impl<V> View for KeyedList<V> {
    type V = Seq<(String, V)>;

    open spec fn view(&self) -> Seq<(String, V)> {
        self.entries@
    }
}

impl<V> KeyedList<V> {
    /// Each key occurs once.
    pub open spec fn wf(&self) -> bool {
        keys_unique(self@)
    }

    /// An empty list.
    pub fn new() -> (m: Self)
        ensures
            m@.len() == 0,
            m.wf(),
    {
        KeyedList { entries: Vec::new() }
    }

    /// Number of entries.
    pub fn len(&self) -> (n: usize)
        ensures
            n == self@.len(),
    {
        self.entries.len()
    }

    /// Whether there are no entries.
    pub fn is_empty(&self) -> (b: bool)
        ensures
            b == (self@.len() == 0),
    {
        self.entries.len() == 0
    }

    /// Position of the first entry with the key.
    pub fn position(&self, key: &str) -> (r: Option<usize>)
        ensures
            r is Some <==> key_index(self@, key@) >= 0,
            r matches Some(i) ==> i == key_index(self@, key@) && i < self@.len(),
    {
        let mut i: usize = 0;
        while i < self.entries.len()
            invariant
                i <= self.entries.len(),
                forall|j: int| 0 <= j < i ==> self@[j].0@ != key@,
            decreases self.entries.len() - i,
        {
            if str_eq(self.entries[i].0.as_str(), key) {
                proof {
                    lemma_key_index_found(self@, key@, i as int);
                }
                return Some(i);
            }
            i = i + 1;
        }
        proof {
            lemma_key_index_absent(self@, key@);
        }
        None
    }

    /// The value of the first entry with the key.
    pub fn get(&self, key: &str) -> (r: Option<&V>)
        ensures
            r matches Some(v) ==> assoc_get(self@, key@) == Some(*v),
            r is None ==> assoc_get(self@, key@) is None,
    {
        match self.position(key) {
            Some(i) => Some(&self.entries[i].1),
            None => None,
        }
    }

    /// Whether some entry has the key.
    pub fn contains_key(&self, key: &str) -> (b: bool)
        ensures
            b == (key_index(self@, key@) >= 0),
    {
        self.position(key).is_some()
    }

    /// Sets `key` to `value` (see [`assoc_insert`]).
    pub fn insert(&mut self, key: String, value: V)
        ensures
            final(self)@ == assoc_insert(old(self)@, key, value),
            old(self).wf() ==> final(self).wf(),
    {
        proof {
            lemma_insert_keeps_unique(self@, key, value);
        }
        match self.position(key.as_str()) {
            Some(i) => {
                self.entries.set(i, (key, value));
            },
            None => {
                self.entries.push((key, value));
            },
        }
    }

    /// Removes every entry with the key; returns whether one was there.
    pub fn remove(&mut self, key: &str) -> (found: bool)
        ensures
            final(self)@ == assoc_remove(old(self)@, key@),
            found == (key_index(old(self)@, key@) >= 0),
            old(self).wf() ==> final(self).wf(),
    {
        proof {
            if keys_unique(self@) {
                lemma_filter_keeps_unique(self@, key_other_than::<V>(key@));
            }
        }
        let ghost old_s = self@;
        let found = self.position(key).is_some();
        let mut rest: Vec<(String, V)> = Vec::new();
        std::mem::swap(&mut rest, &mut self.entries);
        let ghost pred = key_other_than::<V>(key@);
        let mut kept: Vec<(String, V)> = Vec::new();
        let ghost mut i: int = 0;
        assert(old_s.take(0).filter(pred) =~= Seq::<(String, V)>::empty());
        while rest.len() > 0
            invariant
                0 <= i <= old_s.len(),
                rest@ == old_s.skip(i),
                kept@ == old_s.take(i).filter(pred),
                pred == key_other_than::<V>(key@),
            decreases rest.len(),
        {
            let e = rest.remove(0);
            proof {
                assert(old_s.take(i + 1) =~= old_s.take(i).push(e));
                lemma_filter_push(old_s.take(i), pred, e);
                assert(old_s.skip(i + 1) =~= old_s.skip(i).skip(1));
            }
            if !str_eq(e.0.as_str(), key) {
                kept.push(e);
            }
            proof {
                i = i + 1;
            }
        }
        assert(old_s.take(i) =~= old_s);
        self.entries = kept;
        found
    }
}

/// Setting a key keeps every key once.
pub proof fn lemma_insert_keeps_unique<V>(s: Seq<(String, V)>, key: String, value: V)
    ensures
        keys_unique(s) ==> keys_unique(assoc_insert(s, key, value)),
{
    lemma_key_index_bounds(s, key@);
    if keys_unique(s) {
        let t = assoc_insert(s, key, value);
        let i = key_index(s, key@);
        assert forall|a: int, b: int| 0 <= a < b < t.len() implies (#[trigger] t[a]).0@ != (#[trigger] t[b]).0@ by {
            if i >= 0 {
                assert(t[a].0@ == s[a].0@ && t[b].0@ == s[b].0@);
            } else {
                if b < s.len() {
                    assert(t[a] == s[a] && t[b] == s[b]);
                } else {
                    assert(t[a] == s[a]);
                }
            }
        }
    }
}

/// Dropping entries keeps every key once.
proof fn lemma_filter_keeps_unique<V>(s: Seq<(String, V)>, pred: spec_fn((String, V)) -> bool)
    requires
        keys_unique(s),
    ensures
        keys_unique(s.filter(pred)),
    decreases s.len(),
{
    if s.len() > 0 {
        let r = s.drop_last();
        let e = s.last();
        assert(keys_unique(r)) by {
            assert forall|a: int, b: int| 0 <= a < b < r.len() implies (#[trigger] r[a]).0@ != (#[trigger] r[b]).0@ by {
                assert(r[a] == s[a] && r[b] == s[b]);
            }
        }
        lemma_filter_keeps_unique(r, pred);
        assert(s =~= r.push(e));
        lemma_filter_push(r, pred, e);
        if pred(e) {
            let f = r.filter(pred);
            let g = f.push(e);
            assert forall|a: int, b: int| 0 <= a < b < g.len() implies (#[trigger] g[a]).0@ != (#[trigger] g[b]).0@ by {
                if b == f.len() {
                    assert(f.contains(f[a]));
                    r.lemma_filter_contains_rev(pred, f[a]);
                    let k = choose|k: int| 0 <= k < r.len() && r[k] == f[a];
                    assert(s[k] == f[a]);
                    assert(s[s.len() - 1] == e);
                } else {
                    assert(g[a] == f[a] && g[b] == f[b]);
                }
            }
        }
    }
}

/// In a list where each key occurs once, an entry's key reads back that entry's value.
pub proof fn lemma_unique_get<V>(s: Seq<(String, V)>, i: int)
    requires
        keys_unique(s),
        0 <= i < s.len(),
    ensures
        assoc_get(s, s[i].0@) == Some(s[i].1),
{
    lemma_key_index_bounds(s, s[i].0@);
    let k = key_index(s, s[i].0@);
    if k != i {
        if k < i {
            assert(s[k].0@ != s[i].0@);
        }
    }
}

pub proof fn lemma_filter_push<A>(s: Seq<A>, pred: spec_fn(A) -> bool, e: A)
    ensures
        pred(e) ==> s.push(e).filter(pred) == s.filter(pred).push(e),
        !pred(e) ==> s.push(e).filter(pred) == s.filter(pred),
{
    reveal(Seq::filter);
    assert(s.push(e).drop_last() =~= s);
}

/// The texts of string pairs.
pub open spec fn pairs_view(s: Seq<(String, String)>) -> Seq<(Seq<char>, Seq<char>)> {
    s.map_values(|e: (String, String)| (e.0@, e.1@))
}

/// Position of the first pair with the given key, or -1.
pub open spec fn pair_index(s: Seq<(Seq<char>, Seq<char>)>, key: Seq<char>) -> int
    decreases s.len(),
{
    if s.len() == 0 {
        -1
    } else if s[0].0 == key {
        0
    } else {
        let r = pair_index(s.skip(1), key);
        if r < 0 {
            -1
        } else {
            r + 1
        }
    }
}

/// Pairs after setting `key` to `value` (the first pair with the key is replaced, or a
/// pair is added at the end).
pub open spec fn pair_set(s: Seq<(Seq<char>, Seq<char>)>, key: Seq<char>, value: Seq<char>) -> Seq<
    (Seq<char>, Seq<char>),
> {
    let i = pair_index(s, key);
    if i >= 0 {
        s.update(i, (key, value))
    } else {
        s.push((key, value))
    }
}

pub proof fn lemma_pair_index_view(s: Seq<(String, String)>, key: Seq<char>)
    ensures
        pair_index(pairs_view(s), key) == key_index(s, key),
    decreases s.len(),
{
    if s.len() > 0 {
        assert(pairs_view(s).skip(1) =~= pairs_view(s.skip(1)));
        lemma_pair_index_view(s.skip(1), key);
    }
}

pub proof fn lemma_pairs_insert(s: Seq<(String, String)>, key: String, value: String)
    ensures
        pairs_view(assoc_insert(s, key, value)) == pair_set(pairs_view(s), key@, value@),
{
    lemma_pair_index_view(s, key@);
    lemma_key_index_bounds(s, key@);
    let i = key_index(s, key@);
    if i >= 0 {
        assert(pairs_view(s.update(i, (key, value))) =~= pairs_view(s).update(i, (key@, value@)));
    } else {
        assert(pairs_view(s.push((key, value))) =~= pairs_view(s).push((key@, value@)));
    }
}

proof fn lemma_key_index_push<V>(s: Seq<(String, V)>, e: (String, V), key: Seq<char>)
    ensures
        key_index(s, key) >= 0 ==> key_index(s.push(e), key) == key_index(s, key),
        key_index(s, key) < 0 && e.0@ == key ==> key_index(s.push(e), key) == s.len(),
        key_index(s, key) < 0 && e.0@ != key ==> key_index(s.push(e), key) == -1,
{
    let t = s.push(e);
    lemma_key_index_bounds(s, key);
    let i = key_index(s, key);
    if i >= 0 {
        assert forall|j: int| 0 <= j < i implies t[j].0@ != key by {
            assert(t[j] == s[j]);
        }
        assert(t[i] == s[i]);
        lemma_key_index_found(t, key, i);
    } else if e.0@ == key {
        assert forall|j: int| 0 <= j < s.len() implies t[j].0@ != key by {
            assert(t[j] == s[j]);
        }
        lemma_key_index_found(t, key, s.len() as int);
    } else {
        assert forall|j: int| 0 <= j < t.len() implies t[j].0@ != key by {
            if j < s.len() {
                assert(t[j] == s[j]);
            }
        }
        lemma_key_index_absent(t, key);
    }
}

/// A read gives back what a write stored: after setting `key` to `value`, the value of
/// `key` is `value`.
pub proof fn lemma_get_after_insert<V>(s: Seq<(String, V)>, key: String, value: V)
    ensures
        assoc_get(assoc_insert(s, key, value), key@) == Some(value),
{
    lemma_key_index_bounds(s, key@);
    let i = key_index(s, key@);
    if i >= 0 {
        let t = s.update(i, (key, value));
        assert forall|j: int| 0 <= j < i implies t[j].0@ != key@ by {
            assert(t[j] == s[j]);
        }
        lemma_key_index_found(t, key@, i);
    } else {
        lemma_key_index_push(s, (key, value), key@);
    }
}

/// Setting a key leaves the value of every other key unchanged.
pub proof fn lemma_insert_keeps_others<V>(s: Seq<(String, V)>, key: String, value: V, other: Seq<char>)
    requires
        other != key@,
    ensures
        assoc_get(assoc_insert(s, key, value), other) == assoc_get(s, other),
{
    lemma_key_index_bounds(s, key@);
    lemma_key_index_bounds(s, other);
    let i = key_index(s, key@);
    if i >= 0 {
        let t = s.update(i, (key, value));
        let o = key_index(s, other);
        if o >= 0 {
            assert(o != i);
            assert forall|j: int| 0 <= j < o implies t[j].0@ != other by {
                if j != i {
                    assert(t[j] == s[j]);
                }
            }
            assert(t[o] == s[o]);
            lemma_key_index_found(t, other, o);
        } else {
            assert forall|j: int| 0 <= j < t.len() implies t[j].0@ != other by {
                if j != i {
                    assert(t[j] == s[j]);
                }
            }
            lemma_key_index_absent(t, other);
        }
    } else {
        lemma_key_index_push(s, (key, value), other);
        if key_index(s, other) >= 0 {
            assert(s.push((key, value))[key_index(s, other)] == s[key_index(s, other)]);
        }
    }
}

/// Setting a key already there keeps the number of entries; a new key adds one.
pub proof fn lemma_insert_len<V>(s: Seq<(String, V)>, key: String, value: V)
    ensures
        assoc_insert(s, key, value).len() == s.len() + (if key_index(s, key@) >= 0 {
            0int
        } else {
            1int
        }),
{
    lemma_key_index_bounds(s, key@);
}

/// After a key is removed it has no value, and every other key keeps its value.
pub proof fn lemma_get_after_remove<V>(s: Seq<(String, V)>, key: Seq<char>, other: Seq<char>)
    ensures
        assoc_get(assoc_remove(s, key), key) is None,
        other != key ==> assoc_get(assoc_remove(s, key), other) == assoc_get(s, other),
    decreases s.len(),
{
    let pred = key_other_than::<V>(key);
    if s.len() == 0 {
        assert(s.filter(pred) =~= Seq::<(String, V)>::empty());
    } else {
        let e = s.last();
        lemma_get_after_remove(s.drop_last(), key, other);
        assert(s =~= s.drop_last().push(e));
        lemma_filter_push(s.drop_last(), pred, e);
        let f = s.drop_last().filter(pred);
        lemma_key_index_push(s.drop_last(), e, other);
        lemma_key_index_bounds(s.drop_last(), other);
        if e.0@ != key {
            lemma_key_index_push(f, e, key);
            lemma_key_index_push(f, e, other);
            lemma_key_index_bounds(f, other);
            if key_index(f, other) >= 0 {
                assert(f.push(e)[key_index(f, other)] == f[key_index(f, other)]);
            }
            if key_index(s.drop_last(), other) >= 0 {
                assert(s.drop_last().push(e)[key_index(s.drop_last(), other)] == s.drop_last()[key_index(
                    s.drop_last(),
                    other,
                )]);
            }
        } else {
            if key_index(s.drop_last(), other) >= 0 {
                assert(s.drop_last().push(e)[key_index(s.drop_last(), other)] == s.drop_last()[key_index(
                    s.drop_last(),
                    other,
                )]);
            }
        }
    }
}

proof fn lemma_pair_index_bounds(s: Seq<(Seq<char>, Seq<char>)>, key: Seq<char>)
    ensures
        -1 <= pair_index(s, key) < s.len(),
        pair_index(s, key) >= 0 ==> s[pair_index(s, key)].0 == key,
        pair_index(s, key) < 0 ==> forall|j: int| 0 <= j < s.len() ==> s[j].0 != key,
    decreases s.len(),
{
    if s.len() > 0 && s[0].0 != key {
        lemma_pair_index_bounds(s.skip(1), key);
        assert forall|j: int| 0 < j < s.len() implies s[j] == s.skip(1)[j - 1] by {}
    }
}

proof fn lemma_pair_index_found(s: Seq<(Seq<char>, Seq<char>)>, key: Seq<char>, i: int)
    requires
        0 <= i < s.len(),
        s[i].0 == key,
        forall|j: int| 0 <= j < i ==> s[j].0 != key,
    ensures
        pair_index(s, key) == i,
    decreases i,
{
    if i > 0 {
        assert forall|j: int| 0 <= j < i - 1 implies s.skip(1)[j].0 != key by {
            assert(s.skip(1)[j] == s[j + 1]);
        }
        lemma_pair_index_found(s.skip(1), key, i - 1);
    }
}

proof fn lemma_pair_index_before(s: Seq<(Seq<char>, Seq<char>)>, key: Seq<char>)
    ensures
        forall|j: int| 0 <= j < pair_index(s, key) ==> s[j].0 != key,
    decreases s.len(),
{
    if s.len() > 0 && s[0].0 != key {
        let r = s.skip(1);
        lemma_pair_index_before(r, key);
        lemma_pair_index_bounds(r, key);
        assert forall|j: int| 0 <= j < pair_index(s, key) implies s[j].0 != key by {
            if j > 0 {
                assert(s[j] == r[j - 1]);
                assert(j - 1 < pair_index(r, key));
            }
        }
    }
}

/// After setting a key among pairs, the key reads back the value set.
pub proof fn lemma_pair_set_get(s: Seq<(Seq<char>, Seq<char>)>, key: Seq<char>, value: Seq<char>)
    ensures
        pair_index(pair_set(s, key, value), key) >= 0,
        pair_set(s, key, value)[pair_index(pair_set(s, key, value), key)] == (key, value),
{
    lemma_pair_index_bounds(s, key);
    lemma_pair_index_before(s, key);
    let i = pair_index(s, key);
    let t = pair_set(s, key, value);
    if i >= 0 {
        assert forall|j: int| 0 <= j < i implies t[j].0 != key by {
            assert(t[j] == s[j]);
        }
        lemma_pair_index_found(t, key, i);
    } else {
        assert forall|j: int| 0 <= j < s.len() implies t[j].0 != key by {
            assert(t[j] == s[j]);
        }
        lemma_pair_index_found(t, key, s.len() as int);
    }
}

} // verus!

//! A map with text keys, kept in the order of its keys.

use vstd::prelude::*;

use crate::text::{
    lemma_less_irreflexive, lemma_less_total, lemma_less_transitive, less_text, text_eq, text_less,
};
use crate::views::{group_views, views};

verus! {

/// The keys stand in order, and none occurs twice.
pub open spec fn keys_ordered<X>(s: Seq<(Seq<char>, X)>) -> bool {
    forall|i: int, j: int| 0 <= i < j < s.len() ==> text_less(#[trigger] s[i].0, #[trigger] s[j].0)
}

/// How many entries stand before the key.
pub open spec fn key_rank<X>(s: Seq<(Seq<char>, X)>, k: Seq<char>) -> int
    decreases s.len(),
{
    if s.len() > 0 && text_less(s[0].0, k) {
        1 + key_rank(s.skip(1), k)
    } else {
        0
    }
}

/// The map has an entry for the key.
pub open spec fn has_key<X>(s: Seq<(Seq<char>, X)>, k: Seq<char>) -> bool {
    key_rank(s, k) < s.len() && s[key_rank(s, k)].0 == k
}

/// What the map holds for the key.
pub open spec fn map_get<X>(s: Seq<(Seq<char>, X)>, k: Seq<char>) -> Option<X> {
    if has_key(s, k) {
        Some(s[key_rank(s, k)].1)
    } else {
        None
    }
}

/// The map after `x` has been put under the key, in place of what was there.
pub open spec fn map_put<X>(s: Seq<(Seq<char>, X)>, k: Seq<char>, x: X) -> Seq<(Seq<char>, X)> {
    if has_key(s, k) {
        s.update(key_rank(s, k), (k, x))
    } else {
        s.insert(key_rank(s, k), (k, x))
    }
}

/// The map without an entry for the key.
pub open spec fn map_del<X>(s: Seq<(Seq<char>, X)>, k: Seq<char>) -> Seq<(Seq<char>, X)> {
    if has_key(s, k) {
        s.remove(key_rank(s, k))
    } else {
        s
    }
}

/// Every entry before the key's place has a smaller key, and the entry at that place
/// does not.
pub proof fn lemma_rank<X>(s: Seq<(Seq<char>, X)>, k: Seq<char>)
    ensures
        0 <= key_rank(s, k) <= s.len(),
        forall|i: int| 0 <= i < key_rank(s, k) ==> text_less(#[trigger] s[i].0, k),
        key_rank(s, k) < s.len() ==> !text_less(s[key_rank(s, k)].0, k),
    decreases s.len(),
{
    if s.len() > 0 && text_less(s[0].0, k) {
        let rest = s.skip(1);
        lemma_rank(rest, k);
        assert forall|i: int| 0 <= i < key_rank(s, k) implies text_less(#[trigger] s[i].0, k) by {
            if i > 0 {
                assert(s[i] == rest[i - 1]);
            }
        }
        if key_rank(s, k) < s.len() {
            assert(s[key_rank(s, k)] == rest[key_rank(rest, k)]);
        }
    }
}

/// The place of a key is the only one with smaller keys before it and none smaller
/// at it.
proof fn lemma_rank_unique<X>(s: Seq<(Seq<char>, X)>, k: Seq<char>, p: int)
    requires
        0 <= p <= s.len(),
        forall|i: int| 0 <= i < p ==> text_less(#[trigger] s[i].0, k),
        p < s.len() ==> !text_less(s[p].0, k),
    ensures
        key_rank(s, k) == p,
{
    lemma_rank(s, k);
    let r = key_rank(s, k);
    if r < p {
        assert(text_less(s[r].0, k));
    }
    if p < r {
        assert(text_less(s[p].0, k));
    }
}

/// In an ordered map the entry at `i` is found under its key.
pub proof fn lemma_rank_of_entry<X>(s: Seq<(Seq<char>, X)>, i: int)
    requires
        keys_ordered(s),
        0 <= i < s.len(),
    ensures
        key_rank(s, s[i].0) == i,
        map_get(s, s[i].0) == Some(s[i].1),
{
    lemma_less_irreflexive(s[i].0);
    lemma_rank_unique(s, s[i].0, i);
}

/// Putting an entry keeps the order.
pub proof fn lemma_put_ordered<X>(s: Seq<(Seq<char>, X)>, k: Seq<char>, x: X)
    requires
        keys_ordered(s),
    ensures
        keys_ordered(map_put(s, k, x)),
{
    lemma_rank(s, k);
    let p = key_rank(s, k);
    let t = map_put(s, k, x);
    if !has_key(s, k) {
        assert forall|i: int, j: int| 0 <= i < j < t.len() implies text_less(
            #[trigger] t[i].0,
            #[trigger] t[j].0,
        ) by {
            if j == p {
                assert(t[i] == s[i]);
            } else if i == p {
                assert(t[j] == s[j - 1]);
                lemma_less_total(s[p].0, k);
                if j - 1 > p {
                    lemma_less_transitive(k, s[p].0, s[j - 1].0);
                }
            } else {
                let a = if i < p { i } else { i - 1 };
                let b = if j < p { j } else { j - 1 };
                assert(t[i] == s[a] && t[j] == s[b]);
            }
        }
    }
}

/// Taking an entry out keeps the order.
pub proof fn lemma_del_ordered<X>(s: Seq<(Seq<char>, X)>, k: Seq<char>)
    requires
        keys_ordered(s),
    ensures
        keys_ordered(map_del(s, k)),
{
    lemma_rank(s, k);
    let t = map_del(s, k);
    let p = key_rank(s, k);
    if has_key(s, k) {
        assert forall|i: int, j: int| 0 <= i < j < t.len() implies text_less(
            #[trigger] t[i].0,
            #[trigger] t[j].0,
        ) by {
            let a = if i < p { i } else { i + 1 };
            let b = if j < p { j } else { j + 1 };
            assert(t[i] == s[a] && t[j] == s[b]);
        }
    }
}

/// What was put under a key is found there, and every other key is as it was.
pub proof fn law_get_after_put<X>(s: Seq<(Seq<char>, X)>, k: Seq<char>, x: X, other: Seq<char>)
    requires
        keys_ordered(s),
    ensures
        map_get(map_put(s, k, x), k) == Some(x),
        other != k ==> map_get(map_put(s, k, x), other) == map_get(s, other),
{
    let t = map_put(s, k, x);
    let p = key_rank(s, k);
    lemma_rank(s, k);
    lemma_put_ordered(s, k, x);
    assert(t[p] == (k, x));
    lemma_rank_of_entry(t, p);
    if other != k {
        if has_key(s, other) {
            let q = key_rank(s, other);
            lemma_rank(s, other);
            let q2 = if has_key(s, k) || q < p { q } else { q + 1 };
            assert(t[q2] == s[q]);
            lemma_rank_of_entry(t, q2);
        } else if has_key(t, other) {
            let q2 = key_rank(t, other);
            lemma_rank(t, other);
            assert(q2 != p);
            let q = if has_key(s, k) || q2 < p { q2 } else { q2 - 1 };
            assert(t[q2] == s[q]);
            lemma_rank_of_entry(s, q);
        }
    }
}

/// A deleted key is not found, and every other key is as it was.
pub proof fn law_get_after_del<X>(s: Seq<(Seq<char>, X)>, k: Seq<char>, other: Seq<char>)
    requires
        keys_ordered(s),
    ensures
        map_get(map_del(s, k), k) is None,
        other != k ==> map_get(map_del(s, k), other) == map_get(s, other),
{
    let t = map_del(s, k);
    let p = key_rank(s, k);
    lemma_rank(s, k);
    lemma_del_ordered(s, k);
    if has_key(t, k) {
        let q = key_rank(t, k);
        lemma_rank(t, k);
        let q2 = if !has_key(s, k) || q < p { q } else { q + 1 };
        assert(t[q] == s[q2]);
        lemma_rank_of_entry(s, q2);
    }
    if other != k {
        if has_key(s, other) {
            let q = key_rank(s, other);
            lemma_rank(s, other);
            let q2 = if !has_key(s, k) || q < p { q } else { q - 1 };
            assert(t[q2] == s[q]);
            lemma_rank_of_entry(t, q2);
        } else if has_key(t, other) {
            let q2 = key_rank(t, other);
            lemma_rank(t, other);
            let q = if !has_key(s, k) || q2 < p { q2 } else { q2 + 1 };
            assert(t[q2] == s[q]);
            lemma_rank_of_entry(s, q);
        }
    }
}

/// A map from text to values.
#[derive(Debug)]
pub struct TextMap<V> {
    entries: Vec<(String, V)>,
}

impl<V: View> View for TextMap<V> {
    type V = Seq<(Seq<char>, V::V)>;

    closed spec fn view(&self) -> Seq<(Seq<char>, V::V)> {
        views(self.entries@)
    }
}

impl<V: View> TextMap<V> {
    pub fn new() -> (r: Self)
        ensures
            r@ == Seq::<(Seq<char>, V::V)>::empty(),
    {
        broadcast use group_views;

        TextMap { entries: Vec::new() }
    }

    /// Number of entries.
    pub fn len(&self) -> (r: usize)
        ensures
            r == self@.len(),
    {
        self.entries.len()
    }

    /// The key's place: how many entries stand before it.
    pub fn place(&self, key: &str) -> (r: usize)
        ensures
            r == key_rank(self@, key@),
            r <= self@.len(),
    {
        let mut i: usize = 0;
        assert(self@.skip(0) =~= self@);
        while i < self.entries.len() && less_text(self.entries[i].0.as_str(), key)
            invariant
                i <= self.entries@.len(),
                self@.len() == self.entries@.len(),
                key_rank(self@, key@) == i + key_rank(self@.skip(i as int), key@),
            decreases self.entries@.len() - i,
        {
            assert(self@.skip(i as int).skip(1) =~= self@.skip(i + 1));
            assert(self@.skip(i as int)[0].0 == self.entries@[i as int].0@);
            i += 1;
        }
        if i < self.entries.len() {
            assert(self@.skip(i as int)[0].0 == self.entries@[i as int].0@);
        }
        i
    }

    /// The key's place, where the map has an entry for it.
    pub fn find(&self, key: &str) -> (r: Option<usize>)
        ensures
            match r {
                Some(p) => has_key(self@, key@) && p == key_rank(self@, key@) && p < self@.len(),
                None => !has_key(self@, key@),
            },
    {
        let p = self.place(key);
        if p < self.entries.len() && text_eq(self.entries[p].0.as_str(), key) {
            Some(p)
        } else {
            None
        }
    }

    /// The key of the entry at `i`.
    pub fn key_at(&self, i: usize) -> (r: &String)
        requires
            i < self@.len(),
        ensures
            r@ == self@[i as int].0,
    {
        &self.entries[i].0
    }

    /// The value of the entry at `i`.
    pub fn value_at(&self, i: usize) -> (r: &V)
        requires
            i < self@.len(),
        ensures
            r@ == self@[i as int].1,
    {
        &self.entries[i].1
    }

    /// The value of the entry at `i`, for a change in place.
    pub fn value_mut(&mut self, i: usize) -> (r: &mut V)
        requires
            i < old(self)@.len(),
        ensures
            r@ == old(self)@[i as int].1,
            final(self)@ == old(self)@.update(i as int, (old(self)@[i as int].0, final(r)@)),
    {
        &mut self.entries[i].1
    }

    /// The value under the key.
    pub fn get(&self, key: &str) -> (r: Option<&V>)
        ensures
            match r {
                Some(v) => map_get(self@, key@) == Some(v@),
                None => map_get(self@, key@) is None,
            },
    {
        match self.find(key) {
            Some(p) => Some(&self.entries[p].1),
            None => None,
        }
    }

    /// Put a value under the key, in place of what was there.
    pub fn put(&mut self, key: String, value: V)
        ensures
            final(self)@ == map_put(old(self)@, key@, value@),
            keys_ordered(old(self)@) ==> keys_ordered(final(self)@),
    {
        broadcast use group_views;

        proof {
            if keys_ordered(self@) {
                lemma_put_ordered(self@, key@, value@);
            }
        }
        let p = self.place(key.as_str());
        if p < self.entries.len() && text_eq(self.entries[p].0.as_str(), key.as_str()) {
            self.entries[p] = (key, value);
        } else {
            self.entries.insert(p, (key, value));
        }
    }

    /// Take out the entry at `i`.
    pub fn remove_at(&mut self, i: usize)
        requires
            i < old(self)@.len(),
        ensures
            final(self)@ == old(self)@.remove(i as int),
    {
        broadcast use group_views;

        self.entries.remove(i);
    }

    /// Take out the entry for the key, where there is one.
    pub fn remove(&mut self, key: &str)
        ensures
            final(self)@ == map_del(old(self)@, key@),
            keys_ordered(old(self)@) ==> keys_ordered(final(self)@),
    {
        proof {
            if keys_ordered(self@) {
                lemma_del_ordered(self@, key@);
            }
        }
        match self.find(key) {
            Some(p) => self.remove_at(p),
            None => {},
        }
    }
}

} // verus!

//! Secondary indexes: sets of identifiers filed under a key.

use crate::ids::{ascending, clone_ids, texts, Id};
use crate::text::{text_less, text_less_irreflexive, text_less_total, text_less_transitive};
use vstd::prelude::*;

verus! {

/// What an index can file identifiers under.
pub trait Key: View + Sized {
    /// Whether both keys stand for the same value.
    fn same(&self, other: &Self) -> (r: bool)
        ensures
            r == (self@ == other@),
    ;

    /// Another key for the same value.
    fn copy(&self) -> (r: Self)
        ensures
            r@ == self@,
    ;
}

impl Key for Id {
    fn same(&self, other: &Self) -> (r: bool) {
        self.text == other.text
    }

    fn copy(&self) -> (r: Self) {
        self.clone()
    }
}

impl Key for String {
    fn same(&self, other: &Self) -> (r: bool) {
        *self == *other
    }

    fn copy(&self) -> (r: Self) {
        self.clone()
    }
}

/// The position at which the identifier stands, or would stand, in an ascending list.
fn position(ids: &Vec<Id>, id: &Id) -> (p: usize)
    requires
        ascending(texts(ids@)),
    ensures
        p <= ids@.len(),
        forall|i: int| 0 <= i < p ==> text_less(#[trigger] texts(ids@)[i], id@),
        forall|i: int| p <= i < ids@.len() ==> !text_less(#[trigger] texts(ids@)[i], id@),
{
    let mut low: usize = 0;
    let mut high: usize = ids.len();
    while low < high
        invariant
            low <= high <= ids@.len(),
            ascending(texts(ids@)),
            forall|i: int| 0 <= i < low ==> text_less(#[trigger] texts(ids@)[i], id@),
            forall|i: int| high <= i < ids@.len() ==> !text_less(#[trigger] texts(ids@)[i], id@),
        decreases high - low,
    {
        let middle: usize = low + (high - low) / 2;
        assert(texts(ids@)[middle as int] == ids@[middle as int]@);
        if ids[middle].precedes(id) {
            assert forall|i: int| 0 <= i < middle + 1 implies text_less(#[trigger] texts(ids@)[i], id@) by {
                if low <= i < middle {
                    text_less_transitive(texts(ids@)[i], texts(ids@)[middle as int], id@);
                }
            }
            low = middle + 1;
        } else {
            assert forall|i: int| middle <= i < ids@.len() implies !text_less(#[trigger] texts(ids@)[i], id@) by {
                if middle < i < high && text_less(texts(ids@)[i], id@) {
                    text_less_transitive(texts(ids@)[middle as int], texts(ids@)[i], id@);
                }
            }
            high = middle;
        }
    }
    low
}

/// Adds the identifier to an ascending list, unless it is there.
pub fn insert_id(ids: &mut Vec<Id>, id: Id)
    requires
        ascending(texts(old(ids)@)),
    ensures
        ascending(texts(final(ids)@)),
        forall|t: Seq<char>| #[trigger]
            texts(final(ids)@).contains(t) <==> texts(old(ids)@).contains(t) || t == id@,
{
    let p = position(ids, &id);
    let ghost before = ids@;
    if p < ids.len() && ids[p].same(&id) {
        assert(texts(before)[p as int] == id@);
        return;
    }
    proof {
        assert forall|i: int| p <= i < before.len() implies text_less(id@, #[trigger] texts(before)[i]) by {
            text_less_total(texts(before)[i], id@);
            if i > p {
                assert(text_less(texts(before)[p as int], texts(before)[i]));
                if texts(before)[i] == id@ {
                    assert(!text_less(texts(before)[p as int], id@));
                }
            } else {
                assert(texts(before)[i] == before[i]@);
            }
        }
    }
    let ghost t = id@;
    ids.insert(p, id);
    proof {
        let after = texts(ids@);
        assert(after =~= texts(before).insert(p as int, t));
        assert forall|i: int, j: int| 0 <= i < j < after.len() implies text_less(#[trigger] after[i], #[trigger] after[j]) by {
            let i0 = if i < p { i } else { i - 1 };
            let j0 = if j < p { j } else { j - 1 };
            if i != p && j != p {
                assert(after[i] == texts(before)[i0]);
                assert(after[j] == texts(before)[j0]);
            } else if i == p {
                assert(after[j] == texts(before)[j0]);
            } else {
                assert(after[i] == texts(before)[i0]);
            }
        }
        assert forall|u: Seq<char>| #[trigger] after.contains(u) <==> texts(before).contains(u) || u == t by {
            if texts(before).contains(u) {
                let i = texts(before).index_of(u);
                if i < p {
                    assert(after[i] == u);
                } else {
                    assert(after[i + 1] == u);
                }
            }
            assert(after[p as int] == t);
        }
    }
}

/// Takes the identifier out of an ascending list, if it is there.
pub fn remove_id(ids: &mut Vec<Id>, id: &Id)
    requires
        ascending(texts(old(ids)@)),
    ensures
        ascending(texts(final(ids)@)),
        forall|t: Seq<char>| #[trigger]
            texts(final(ids)@).contains(t) <==> texts(old(ids)@).contains(t) && t != id@,
{
    let p = position(ids, id);
    let ghost before = ids@;
    let ghost t = id@;
    if p < ids.len() && ids[p].same(id) {
        let _ = ids.remove(p);
        proof {
            let after = texts(ids@);
            assert(after =~= texts(before).remove(p as int));
            assert(texts(before)[p as int] == t);
            assert forall|u: Seq<char>| #[trigger] after.contains(u) <==> texts(before).contains(u) && u != t by {
                if texts(before).contains(u) && u != t {
                    let i = texts(before).index_of(u);
                    if i < p {
                        assert(after[i] == u);
                    } else {
                        assert(after[i - 1] == u);
                    }
                }
                if after.contains(u) {
                    let i = after.index_of(u);
                    let i0 = if i < p { i } else { i + 1 };
                    assert(texts(before)[i0] == u);
                    if i0 < p {
                        text_less_irreflexive(t);
                    } else {
                        assert(text_less(texts(before)[p as int], texts(before)[i0]));
                        text_less_irreflexive(t);
                    }
                }
            }
        }
    } else {
        assert forall|i: int| 0 <= i < before.len() implies #[trigger] texts(before)[i] != t by {
            text_less_irreflexive(t);
            if i == p {
                assert(texts(before)[i] == before[i]@);
            } else if i > p {
                assert(text_less(texts(before)[p as int], texts(before)[i]));
            }
        }
    }
}

/// The identifiers filed under one key.
pub struct Bucket<K> {
    pub key: K,
    pub ids: Vec<Id>,
}

/// Identifiers filed under keys. An identifier may stand under several keys,
/// and under each of them at most once.
pub struct Index<K> {
    pub buckets: Vec<Bucket<K>>,
}

impl<K: Key> Index<K> {
    /// Whether the identifier is filed under the key.
    pub open spec fn has(&self, key: K::V, id: Seq<char>) -> bool {
        exists|b: int| 0 <= b < self.buckets@.len() && #[trigger] self.at(b, key, id)
    }

    /// Whether the bucket at that position files the identifier under the key.
    pub open spec fn at(&self, b: int, key: K::V, id: Seq<char>) -> bool {
        self.buckets@[b].key@ == key && texts(self.buckets@[b].ids@).contains(id)
    }

    /// No key has two buckets, and every bucket is in ascending order.
    pub open spec fn wf(&self) -> bool {
        &&& forall|b: int, c: int| 0 <= b < c < self.buckets@.len() ==> (#[trigger] self.buckets@[b]).key@ != (#[trigger] self.buckets@[c]).key@
        &&& forall|b: int| 0 <= b < self.buckets@.len() ==> ascending(texts((#[trigger] self.buckets@[b]).ids@))
    }

    /// An index without entries.
    pub fn new() -> (r: Self)
        ensures
            r.wf(),
            forall|k: K::V, id: Seq<char>| !#[trigger] r.has(k, id),
    {
        Index { buckets: Vec::new() }
    }

    fn find(&self, key: &K) -> (r: Option<usize>)
        requires
            self.wf(),
        ensures
            match r {
                Some(b) => b < self.buckets@.len() && self.buckets@[b as int].key@ == key@,
                None => forall|b: int| 0 <= b < self.buckets@.len() ==> (#[trigger] self.buckets@[b]).key@ != key@,
            },
    {
        let mut b: usize = 0;
        while b < self.buckets.len()
            invariant
                b <= self.buckets@.len(),
                forall|c: int| 0 <= c < b ==> (#[trigger] self.buckets@[c]).key@ != key@,
            decreases self.buckets@.len() - b,
        {
            if self.buckets[b].key.same(key) {
                return Some(b);
            }
            b += 1;
        }
        None
    }

    /// Files the identifier under the key.
    pub fn insert(&mut self, key: K, id: Id)
        requires
            old(self).wf(),
        ensures
            final(self).wf(),
            forall|k: K::V, i: Seq<char>| #[trigger]
                final(self).has(k, i) <==> old(self).has(k, i) || (k == key@ && i == id@),
    {
        let ghost before = *self;
        let ghost kv = key@;
        let ghost t = id@;
        match self.find(&key) {
            Some(b) => {
                insert_id(&mut self.buckets[b].ids, id);
                proof {
                    assert forall|k: K::V, i: Seq<char>| #[trigger] self.has(k, i) <==> before.has(k, i) || (k == kv && i == t) by {
                        if before.has(k, i) {
                            let c = choose|c: int| 0 <= c < before.buckets@.len() && #[trigger] before.at(c, k, i);
                            assert(self.at(c, k, i));
                        }
                        if k == kv && i == t {
                            assert(self.at(b as int, k, i));
                        }
                        if self.has(k, i) {
                            let c = choose|c: int| 0 <= c < self.buckets@.len() && #[trigger] self.at(c, k, i);
                            if c == b {
                                if i != t {
                                    assert(before.at(c, k, i));
                                }
                            } else {
                                assert(before.at(c, k, i));
                            }
                        }
                    }
                }
            },
            None => {
                let mut ids: Vec<Id> = Vec::new();
                ids.push(id);
                self.buckets.push(Bucket { key, ids });
                proof {
                    let last = before.buckets@.len() as int;
                    assert(texts(self.buckets@[last].ids@) =~= seq![t]);
                    assert forall|k: K::V, i: Seq<char>| #[trigger] self.has(k, i) <==> before.has(k, i) || (k == kv && i == t) by {
                        if before.has(k, i) {
                            let c = choose|c: int| 0 <= c < before.buckets@.len() && #[trigger] before.at(c, k, i);
                            assert(self.at(c, k, i));
                        }
                        if k == kv && i == t {
                            assert(texts(self.buckets@[last].ids@)[0] == t);
                            assert(self.at(last, k, i));
                        }
                        if self.has(k, i) {
                            let c = choose|c: int| 0 <= c < self.buckets@.len() && #[trigger] self.at(c, k, i);
                            if c < last {
                                assert(before.at(c, k, i));
                            }
                        }
                    }
                }
            },
        }
    }

    /// The identifiers filed under the key, in ascending order.
    pub fn ids(&self, key: &K) -> (r: Vec<Id>)
        requires
            self.wf(),
        ensures
            ascending(texts(r@)),
            forall|id: Seq<char>| #[trigger] texts(r@).contains(id) <==> self.has(key@, id),
    {
        match self.find(key) {
            Some(b) => {
                let r = clone_ids(&self.buckets[b].ids);
                assert forall|id: Seq<char>| #[trigger] texts(r@).contains(id) <==> self.has(key@, id) by {
                    if texts(r@).contains(id) {
                        assert(self.at(b as int, key@, id));
                    }
                }
                r
            },
            None => {
                let r: Vec<Id> = Vec::new();
                assert forall|id: Seq<char>| #[trigger] texts(r@).contains(id) <==> self.has(key@, id) by {
                }
                r
            },
        }
    }
}

/// Takes the identifier from under the key; a key left without identifiers is dropped.
pub fn remove_from_index<K: Key>(index: &mut Index<K>, key: &K, id: &Id)
    requires
        old(index).wf(),
    ensures
        final(index).wf(),
        forall|k: K::V, i: Seq<char>| #[trigger]
            final(index).has(k, i) <==> old(index).has(k, i) && !(k == key@ && i == id@),
{
    let ghost before = *index;
    if let Some(b) = index.find(key) {
        remove_id(&mut index.buckets[b].ids, id);
        let ghost middle = *index;
        proof {
            assert forall|k: K::V, i: Seq<char>| #[trigger] middle.has(k, i) <==> before.has(k, i) && !(k == key@ && i == id@) by {
                if before.has(k, i) && !(k == key@ && i == id@) {
                    let c = choose|c: int| 0 <= c < before.buckets@.len() && #[trigger] before.at(c, k, i);
                    assert(middle.at(c, k, i));
                }
                if middle.has(k, i) {
                    let c = choose|c: int| 0 <= c < middle.buckets@.len() && #[trigger] middle.at(c, k, i);
                    assert(before.at(c, k, i));
                }
            }
        }
        if index.buckets[b].ids.len() == 0 {
            let _ = index.buckets.remove(b);
            proof {
                assert forall|k: K::V, i: Seq<char>| #[trigger] index.has(k, i) <==> middle.has(k, i) by {
                    if middle.has(k, i) {
                        let c = choose|c: int| 0 <= c < middle.buckets@.len() && #[trigger] middle.at(c, k, i);
                        if c < b {
                            assert(index.at(c, k, i));
                        } else {
                            assert(index.at(c - 1, k, i));
                        }
                    }
                    if index.has(k, i) {
                        let c = choose|c: int| 0 <= c < index.buckets@.len() && #[trigger] index.at(c, k, i);
                        if c < b {
                            assert(middle.at(c, k, i));
                        } else {
                            assert(middle.at(c + 1, k, i));
                        }
                    }
                }
            }
        }
    } else {
        proof {
            assert forall|k: K::V, i: Seq<char>| #[trigger] index.has(k, i) implies !(k == key@ && i == id@) by {
                let c = choose|c: int| 0 <= c < index.buckets@.len() && #[trigger] index.at(c, k, i);
            }
        }
    }
}

/// What a list of keys stands for.
pub open spec fn key_views<K: Key>(keys: Seq<K>) -> Seq<K::V> {
    keys.map_values(|k: K| k@)
}

proof fn longer_prefix<K: Key>(keys: Seq<K>, i: int)
    requires
        0 <= i < keys.len(),
    ensures
        forall|v: K::V| #[trigger]
            key_views(keys).take(i + 1).contains(v) <==> key_views(keys).take(i).contains(v) || v == keys[i]@,
{
    let shorter = key_views(keys).take(i);
    let longer = key_views(keys).take(i + 1);
    assert(longer =~= shorter.push(keys[i]@));
    assert forall|v: K::V| #[trigger] longer.contains(v) <==> shorter.contains(v) || v == keys[i]@ by {
        if shorter.contains(v) {
            assert(longer[shorter.index_of(v)] == v);
        }
        assert(longer[i] == keys[i]@);
    }
}

/// Files the identifier under each of the keys.
pub fn insert_under_all<K: Key>(index: &mut Index<K>, keys: &Vec<K>, id: &Id)
    requires
        old(index).wf(),
    ensures
        final(index).wf(),
        forall|k: K::V, i: Seq<char>| #[trigger]
            final(index).has(k, i) <==> old(index).has(k, i) || (i == id@ && key_views(keys@).contains(k)),
{
    let ghost before = *index;
    let mut n: usize = 0;
    assert(key_views(keys@).take(0) =~= Seq::<K::V>::empty());
    while n < keys.len()
        invariant
            n <= keys@.len(),
            index.wf(),
            forall|k: K::V, i: Seq<char>| #[trigger]
                index.has(k, i) <==> before.has(k, i) || (i == id@ && key_views(keys@).take(n as int).contains(k)),
        decreases keys@.len() - n,
    {
        index.insert(keys[n].copy(), id.clone());
        proof {
            longer_prefix(keys@, n as int);
        }
        n += 1;
    }
    assert(key_views(keys@).take(keys@.len() as int) =~= key_views(keys@));
}

/// Takes the identifier from under each of the keys.
pub fn remove_under_all<K: Key>(index: &mut Index<K>, keys: &Vec<K>, id: &Id)
    requires
        old(index).wf(),
    ensures
        final(index).wf(),
        forall|k: K::V, i: Seq<char>| #[trigger]
            final(index).has(k, i) <==> old(index).has(k, i) && !(i == id@ && key_views(keys@).contains(k)),
{
    let ghost before = *index;
    let mut n: usize = 0;
    assert(key_views(keys@).take(0) =~= Seq::<K::V>::empty());
    while n < keys.len()
        invariant
            n <= keys@.len(),
            index.wf(),
            forall|k: K::V, i: Seq<char>| #[trigger]
                index.has(k, i) <==> before.has(k, i) && !(i == id@ && key_views(keys@).take(n as int).contains(k)),
        decreases keys@.len() - n,
    {
        remove_from_index(index, &keys[n], id);
        proof {
            longer_prefix(keys@, n as int);
        }
        n += 1;
    }
    assert(key_views(keys@).take(keys@.len() as int) =~= key_views(keys@));
}

} // verus!

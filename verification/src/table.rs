//! Keyed records: a map from identifiers to values, walked in insertion order.

use crate::ids::{ascending, texts, Id};
use crate::index::{Index, Key};
use crate::text::{text_less, text_less_antisymmetric, text_less_irreflexive};
use vstd::hash_map::StringHashMap;
use vstd::prelude::*;

verus! {

broadcast use vstd::hash_map::group_hash_map_axioms;

/// A record and the identifier it is kept under.
pub struct Entry<V> {
    pub id: Id,
    pub value: V,
}

/// A map from identifiers to values.
#[verifier::reject_recursive_types(V)]
pub struct Table<V> {
    pub entries: Vec<Entry<V>>,
    pub slots: StringHashMap<usize>,
}

impl<V> View for Table<V> {
    type V = Map<Seq<char>, V>;

    open spec fn view(&self) -> Map<Seq<char>, V> {
        Map::new(
            |t: Seq<char>| self.slots@.contains_key(t),
            |t: Seq<char>| self.entries@[self.slots@[t] as int].value,
        )
    }
}

impl<V> Table<V> {
    /// Every entry has a slot of its own, and every slot leads to its entry.
    pub open spec fn wf(&self) -> bool {
        &&& forall|t: Seq<char>| #[trigger]
            self.slots@.contains_key(t) ==> {
                &&& self.slots@[t] < self.entries@.len()
                &&& self.entries@[self.slots@[t] as int].id@ == t
            }
        &&& forall|i: int|
            0 <= i < self.entries@.len() ==> {
                &&& self.slots@.contains_key((#[trigger] self.entries@[i]).id@)
                &&& self.slots@[self.entries@[i].id@] == i
            }
    }

    /// The identifiers in the order in which they were first inserted.
    pub open spec fn order(&self) -> Seq<Seq<char>> {
        Seq::new(self.entries@.len(), |i: int| self.entries@[i].id@)
    }

    /// The order lists every identifier of the table once.
    pub proof fn order_is_domain(&self)
        requires
            self.wf(),
        ensures
            self.order().no_duplicates(),
            forall|t: Seq<char>| #[trigger] self.order().contains(t) <==> self@.contains_key(t),
            self.order().len() == self@.len(),
            self@.dom().finite(),
    {
        assert forall|t: Seq<char>| #[trigger] self.order().contains(t) <==> self@.contains_key(t) by {
            if self@.contains_key(t) {
                assert(self.order()[self.slots@[t] as int] == t);
            }
            if self.order().contains(t) {
                let i = self.order().index_of(t);
                assert(self.entries@[i].id@ == t);
            }
        }
        assert forall|i: int, j: int| 0 <= i < j < self.order().len() implies self.order()[i] != self.order()[j] by {
            assert(self.entries@[i].id@ == self.order()[i]);
            assert(self.entries@[j].id@ == self.order()[j]);
        }
        self.order().unique_seq_to_set();
        assert(self@.dom() =~= self.order().to_set());
        vstd::seq_lib::seq_to_set_is_finite(self.order());
    }

    /// A table without records.
    pub fn new() -> (r: Self)
        ensures
            r.wf(),
            r@ == Map::<Seq<char>, V>::empty(),
            r.entries@.len() == 0,
    {
        let r = Table { entries: Vec::new(), slots: StringHashMap::new() };
        assert(r@ =~= Map::<Seq<char>, V>::empty());
        r
    }

    /// The number of records.
    pub fn len(&self) -> (r: usize)
        requires
            self.wf(),
        ensures
            r == self@.len(),
            r == self.entries@.len(),
    {
        proof {
            self.order_is_domain();
        }
        self.entries.len()
    }

    /// Whether there is a record under the identifier.
    pub fn contains(&self, id: &Id) -> (r: bool)
        requires
            self.wf(),
        ensures
            r == self@.contains_key(id@),
    {
        self.slots.contains_key(id.as_str())
    }

    /// The record under the identifier.
    pub fn get(&self, id: &Id) -> (r: Option<&V>)
        requires
            self.wf(),
        ensures
            match r {
                Some(v) => self@.contains_key(id@) && *v == self@[id@],
                None => !self@.contains_key(id@),
            },
    {
        match self.slots.get(id.as_str()) {
            Some(i) => Some(&self.entries[*i].value),
            None => None,
        }
    }

    /// The position of the record under the identifier.
    pub fn slot(&self, id: &Id) -> (r: Option<usize>)
        requires
            self.wf(),
        ensures
            match r {
                Some(i) => {
                    &&& i < self.entries@.len()
                    &&& self@.contains_key(id@)
                    &&& self.entries@[i as int].id@ == id@
                    &&& self.entries@[i as int].value == self@[id@]
                },
                None => !self@.contains_key(id@),
            },
    {
        match self.slots.get(id.as_str()) {
            Some(i) => Some(*i),
            None => None,
        }
    }

    /// Puts the record under the identifier, in place of one that is there.
    pub fn insert(&mut self, id: Id, value: V)
        requires
            old(self).wf(),
        ensures
            final(self).wf(),
            final(self)@ == old(self)@.insert(id@, value),
            old(self)@.contains_key(id@) ==> final(self).order() == old(self).order(),
            !old(self)@.contains_key(id@) ==> final(self).order() == old(self).order().push(id@),
    {
        let ghost before = *self;
        match self.slot(&id) {
            Some(i) => {
                self.entries[i].value = value;
                proof {
                    assert forall|t: Seq<char>| #[trigger] self.slots@.contains_key(t) implies {
                        &&& self.slots@[t] < self.entries@.len()
                        &&& self.entries@[self.slots@[t] as int].id@ == t
                    } by {
                        assert(before.slots@.contains_key(t));
                    }
                    assert forall|j: int| 0 <= j < self.entries@.len() implies {
                        &&& self.slots@.contains_key((#[trigger] self.entries@[j]).id@)
                        &&& self.slots@[self.entries@[j].id@] == j
                    } by {
                        assert(before.entries@[j].id@ == self.entries@[j].id@);
                    }
                    assert(self@ =~= before@.insert(id@, value));
                    assert(self.order() =~= before.order());
                }
            },
            None => {
                let at: usize = self.entries.len();
                self.slots.insert(id.text.clone(), at);
                let ghost t = id@;
                self.entries.push(Entry { id, value });
                proof {
                    assert forall|u: Seq<char>| #[trigger] self.slots@.contains_key(u) implies {
                        &&& self.slots@[u] < self.entries@.len()
                        &&& self.entries@[self.slots@[u] as int].id@ == u
                    } by {
                        if u != t {
                            assert(before.slots@.contains_key(u));
                        }
                    }
                    assert forall|j: int| 0 <= j < self.entries@.len() implies {
                        &&& self.slots@.contains_key((#[trigger] self.entries@[j]).id@)
                        &&& self.slots@[self.entries@[j].id@] == j
                    } by {
                        if j < at {
                            assert(before.entries@[j].id@ == self.entries@[j].id@);
                            assert(before.slots@.contains_key(before.entries@[j].id@));
                        }
                    }
                    assert forall|u: Seq<char>| #[trigger] before@.contains_key(u) implies self@[u] == before@[u] by {
                        assert(before.slots@.contains_key(u));
                    }
                    assert(self@ =~= before@.insert(t, value));
                    assert(self.order() =~= before.order().push(t));
                }
            },
        }
    }

    /// Gives access to the record at the position.
    pub fn at_mut(&mut self, i: usize) -> (r: &mut V)
        requires
            old(self).wf(),
            i < old(self).entries@.len(),
        ensures
            *r == old(self).entries@[i as int].value,
            final(self).wf(),
            final(self)@ == old(self)@.insert(old(self).entries@[i as int].id@, *final(r)),
            final(self).order() == old(self).order(),
    {
        let ghost before = *self;
        let r = &mut self.entries[i].value;
        proof {
            assert(before.slots@.contains_key(before.entries@[i as int].id@));
        }
        r
    }
}

/// What a list of borrowed records stands for.
pub open spec fn views<V: View>(records: Seq<&V>) -> Seq<V::V> {
    records.map_values(|v: &V| v@)
}

/// What a map of records stands for.
pub open spec fn map_views<V: View>(records: Map<Seq<char>, V>) -> Map<Seq<char>, V::V> {
    records.map_values(|v: V| v@)
}

/// The list holds the records with the wanted identifiers, each once, in ascending
/// order of the identifiers.
pub open spec fn lists<M>(list: Seq<M>, records: Map<Seq<char>, M>, wanted: Set<Seq<char>>) -> bool {
    exists|ids: Seq<Seq<char>>| #[trigger] lists_in_order(list, records, wanted, ids)
}

/// The list holds the records with the given identifiers, in their order, and these
/// are the wanted ones.
pub open spec fn lists_in_order<M>(
    list: Seq<M>,
    records: Map<Seq<char>, M>,
    wanted: Set<Seq<char>>,
    ids: Seq<Seq<char>>,
) -> bool {
    &&& ascending(ids)
    &&& forall|t: Seq<char>| #[trigger] ids.contains(t) <==> wanted.contains(t)
    &&& list.len() == ids.len()
    &&& forall|i: int| 0 <= i < ids.len() ==> #[trigger] list[i] == records[ids[i]]
}

/// The records of the table whose identifiers the index files under the key.
pub fn filed<'a, V: View, K: Key>(table: &'a Table<V>, index: &Index<K>, key: &K) -> (r: Vec<&'a V>)
    requires
        table.wf(),
        index.wf(),
        forall|t: Seq<char>| #[trigger] index.has(key@, t) ==> table@.contains_key(t),
    ensures
        lists(
            views(r@),
            map_views(table@),
            Set::new(|t: Seq<char>| index.has(key@, t)),
        ),
{
    let ids = index.ids(key);
    let r = picked(table, &ids);
    proof {
        let wanted = Set::new(|t: Seq<char>| index.has(key@, t));
        assert(lists_in_order(views(r@), map_views(table@), wanted, texts(ids@)));
    }
    r
}

/// The records of the table with the given identifiers.
pub fn picked<'a, V: View>(table: &'a Table<V>, ids: &Vec<Id>) -> (r: Vec<&'a V>)
    requires
        table.wf(),
        forall|t: Seq<char>| #[trigger] texts(ids@).contains(t) ==> table@.contains_key(t),
    ensures
        r@.len() == ids@.len(),
        forall|i: int| 0 <= i < r@.len() ==> #[trigger] views(r@)[i] == map_views(table@)[texts(ids@)[i]],
{
    let mut r: Vec<&'a V> = Vec::new();
    let mut i: usize = 0;
    while i < ids.len()
        invariant
            i <= ids@.len(),
            r@.len() == i,
            table.wf(),
            forall|t: Seq<char>| #[trigger] texts(ids@).contains(t) ==> table@.contains_key(t),
            forall|j: int| 0 <= j < i ==> (#[trigger] r@[j])@ == table@[ids@[j]@]@,
        decreases ids@.len() - i,
    {
        proof {
            assert(texts(ids@)[i as int] == ids@[i as int]@);
            assert(texts(ids@).contains(ids@[i as int]@));
        }
        match table.get(&ids[i]) {
            Some(v) => r.push(v),
            None => {},
        }
        i += 1;
    }
    proof {
        assert forall|j: int| 0 <= j < r@.len() implies #[trigger] views(r@)[j] == map_views(table@)[texts(ids@)[j]] by {
            assert(texts(ids@)[j] == ids@[j]@);
            assert(texts(ids@).contains(ids@[j]@));
            assert(r@[j]@ == table@[ids@[j]@]@);
        }
    }
    r
}

/// All records of the table, in insertion order.
pub fn all_records<'a, V: View>(table: &'a Table<V>) -> (r: Vec<&'a V>)
    requires
        table.wf(),
    ensures
        r@.len() == table@.len(),
        r@.len() == table.order().len(),
        table.order().no_duplicates(),
        forall|t: Seq<char>| #[trigger] table.order().contains(t) <==> table@.contains_key(t),
        forall|i: int| 0 <= i < r@.len() ==> #[trigger] views(r@)[i] == map_views(table@)[table.order()[i]],
{
    proof {
        table.order_is_domain();
    }
    let mut r: Vec<&'a V> = Vec::new();
    let mut i: usize = 0;
    while i < table.entries.len()
        invariant
            i <= table.entries@.len(),
            r@.len() == i,
            forall|j: int| 0 <= j < i ==> *(#[trigger] r@[j]) == table.entries@[j].value,
        decreases table.entries@.len() - i,
    {
        r.push(&table.entries[i].value);
        i += 1;
    }
    proof {
        assert forall|j: int| 0 <= j < r@.len() implies #[trigger] views(r@)[j] == map_views(table@)[table.order()[j]] by {
            assert(table.order()[j] == table.entries@[j].id@);
            assert(table.slots@.contains_key(table.entries@[j].id@));
            assert(*r@[j] == table.entries@[j].value);
        }
    }
    r
}

/// The texts of a set in ascending order, for a set that can be listed.
pub open spec fn in_order(wanted: Set<Seq<char>>) -> Seq<Seq<char>> {
    choose|ids: Seq<Seq<char>>| #[trigger] orders(ids, wanted)
}

/// The list holds the texts of the set, in ascending order.
pub open spec fn orders(ids: Seq<Seq<char>>, wanted: Set<Seq<char>>) -> bool {
    ascending(ids) && forall|t: Seq<char>| #[trigger] ids.contains(t) <==> wanted.contains(t)
}

/// The records with the wanted identifiers, in ascending order of the identifiers.
pub open spec fn listing<M>(records: Map<Seq<char>, M>, wanted: Set<Seq<char>>) -> Seq<M> {
    in_order(wanted).map_values(|t: Seq<char>| records[t])
}

/// Texts can be put in ascending order in one way only.
pub proof fn law_order_is_unique(one: Seq<Seq<char>>, other: Seq<Seq<char>>)
    requires
        ascending(one),
        ascending(other),
        forall|t: Seq<char>| #[trigger] one.contains(t) <==> other.contains(t),
    ensures
        one == other,
    decreases one.len(),
{
    if one.len() == 0 {
        if other.len() > 0 {
            assert(other.contains(other[0]));
            assert(one.contains(other[0]));
        }
        assert(one =~= other);
    } else {
        assert(one.contains(one[0]));
        assert(other.contains(one[0]));
        let j = other.index_of(one[0]);
        assert(other.contains(other[0]));
        assert(one.contains(other[0]));
        let i = one.index_of(other[0]);
        if j > 0 {
            assert(text_less(other[0], other[j]));
            if i > 0 {
                assert(text_less(one[0], one[i]));
                text_less_antisymmetric(one[0], other[0]);
            } else {
                text_less_irreflexive(one[0]);
            }
        }
        assert(one[0] == other[0]);
        let a = one.skip(1);
        let b = other.skip(1);
        assert forall|t: Seq<char>| #[trigger] a.contains(t) <==> b.contains(t) by {
            if a.contains(t) {
                let x = a.index_of(t);
                assert(one[x + 1] == t);
                assert(text_less(one[0], one[x + 1]));
                text_less_irreflexive(one[0]);
                assert(one.contains(t));
                let y = other.index_of(t);
                assert(b[y - 1] == t);
            }
            if b.contains(t) {
                let x = b.index_of(t);
                assert(other[x + 1] == t);
                assert(text_less(other[0], other[x + 1]));
                text_less_irreflexive(other[0]);
                assert(other.contains(t));
                assert(one.contains(t));
                let y = one.index_of(t);
                assert(a[y - 1] == t);
            }
        }
        assert forall|x: int, y: int| 0 <= x < y < a.len() implies text_less(#[trigger] a[x], #[trigger] a[y]) by {
            assert(text_less(one[x + 1], one[y + 1]));
        }
        assert forall|x: int, y: int| 0 <= x < y < b.len() implies text_less(#[trigger] b[x], #[trigger] b[y]) by {
            assert(text_less(other[x + 1], other[y + 1]));
        }
        law_order_is_unique(a, b);
        assert(one =~= seq![one[0]] + a);
        assert(other =~= seq![other[0]] + b);
    }
}

/// A list of the wanted records is the only one.
pub proof fn law_listing_is_unique<M>(list: Seq<M>, records: Map<Seq<char>, M>, wanted: Set<Seq<char>>)
    requires
        lists(list, records, wanted),
    ensures
        orders(in_order(wanted), wanted),
        list == listing(records, wanted),
{
    let ids = choose|ids: Seq<Seq<char>>| #[trigger] lists_in_order(list, records, wanted, ids);
    assert(orders(ids, wanted));
    let chosen = in_order(wanted);
    assert forall|t: Seq<char>| #[trigger] ids.contains(t) <==> chosen.contains(t) by {
        assert(ids.contains(t) <==> wanted.contains(t));
        assert(chosen.contains(t) <==> wanted.contains(t));
    }
    law_order_is_unique(ids, chosen);
    assert(list =~= listing(records, wanted));
}

} // verus!

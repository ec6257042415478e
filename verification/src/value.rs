//! Property values and property maps.

use crate::number::Number;
use crate::text::{str_same, string_texts};
use vstd::prelude::*;

verus! {

/// A property value.
#[derive(Debug, PartialEq)]
pub enum Value {
    Bool(bool),
    Int(i64),
    Float(Number),
    String(String),
    List(Vec<Value>),
}

/// What a property value stands for.
pub enum ValueModel {
    Bool(bool),
    Int(int),
    Float(Number),
    Text(Seq<char>),
    List(Seq<ValueModel>),
}

/// What the value stands for.
pub open spec fn value_model(value: Value) -> ValueModel
    decreases value,
{
    match value {
        Value::Bool(b) => ValueModel::Bool(b),
        Value::Int(n) => ValueModel::Int(n as int),
        Value::Float(x) => ValueModel::Float(x),
        Value::String(s) => ValueModel::Text(s@),
        Value::List(items) => ValueModel::List(
            Seq::new(
                items@.len(),
                |i: int|
                    if 0 <= i < items@.len() {
                        value_model(items@[i])
                    } else {
                        arbitrary()
                    },
            ),
        ),
    }
}

impl View for Value {
    type V = ValueModel;

    open spec fn view(&self) -> ValueModel {
        value_model(*self)
    }
}

/// Equality of values: of the same sort and equal, floats as numbers, lists item by item.
pub open spec fn values_equal(a: ValueModel, b: ValueModel) -> bool
    decreases a,
{
    match (a, b) {
        (ValueModel::Bool(x), ValueModel::Bool(y)) => x == y,
        (ValueModel::Int(x), ValueModel::Int(y)) => x == y,
        (ValueModel::Float(x), ValueModel::Float(y)) => x.equal(y),
        (ValueModel::Text(x), ValueModel::Text(y)) => x == y,
        (ValueModel::List(x), ValueModel::List(y)) => {
            &&& x.len() == y.len()
            &&& forall|i: int| 0 <= i < x.len() ==> values_equal(#[trigger] x[i], y[i])
        },
        _ => false,
    }
}

/// Copies a value.
pub fn clone_value(value: &Value) -> (r: Value)
    ensures
        r@ == value@,
    decreases value,
{
    match value {
        Value::Bool(b) => Value::Bool(*b),
        Value::Int(n) => Value::Int(*n),
        Value::Float(x) => Value::Float(*x),
        Value::String(s) => Value::String(s.clone()),
        Value::List(items) => {
            let mut copies: Vec<Value> = Vec::new();
            let mut i: usize = 0;
            while i < items.len()
                invariant
                    i <= items@.len(),
                    copies@.len() == i,
                    *value == Value::List(*items),
                    forall|j: int| 0 <= j < i ==> (#[trigger] copies@[j])@ == items@[j]@,
                decreases items@.len() - i,
            {
                assert(decreases_to!(*value => value->List_0));
                let copy = clone_value(&items[i]);
                copies.push(copy);
                i += 1;
            }
            let r = Value::List(copies);
            assert(r@->List_0 =~= value@->List_0);
            r
        },
    }
}

impl Clone for Value {
    fn clone(&self) -> (r: Self)
        ensures
            r@ == self@,
    {
        clone_value(self)
    }
}

impl Value {
    /// Whether both values are of the same sort and equal.
    pub fn equals(&self, other: &Value) -> (r: bool)
        ensures
            r == values_equal(self@, other@),
        decreases self,
    {
        match (self, other) {
            (Value::Bool(x), Value::Bool(y)) => *x == *y,
            (Value::Int(x), Value::Int(y)) => *x == *y,
            (Value::Float(x), Value::Float(y)) => x.same(*y),
            (Value::String(x), Value::String(y)) => *x == *y,
            (Value::List(xs), Value::List(ys)) => {
                if xs.len() != ys.len() {
                    return false;
                }
                let mut i: usize = 0;
                while i < xs.len()
                    invariant
                        i <= xs@.len(),
                        xs@.len() == ys@.len(),
                        *self == Value::List(*xs),
                        *other == Value::List(*ys),
                        forall|j: int| 0 <= j < i ==> values_equal((#[trigger] xs@[j])@, ys@[j]@),
                    decreases xs@.len() - i,
                {
                    if !xs[i].equals(&ys[i]) {
                        assert(self@->List_0[i as int] == xs@[i as int]@);
                        assert(other@->List_0[i as int] == ys@[i as int]@);
                        return false;
                    }
                    i += 1;
                }
                assert forall|j: int| 0 <= j < xs@.len() implies values_equal(
                    #[trigger] self@->List_0[j],
                    other@->List_0[j],
                ) by {
                    assert(self@->List_0[j] == xs@[j]@);
                    assert(other@->List_0[j] == ys@[j]@);
                }
                true
            },
            _ => false,
        }
    }
}

/// Property names with their values; no name occurs twice.
#[derive(Debug, PartialEq)]
pub struct Properties {
    entries: Vec<(String, Value)>,
}

/// What a list of named values stands for.
pub closed spec fn entries_map(entries: Seq<(String, Value)>) -> Map<Seq<char>, ValueModel> {
    Map::new(
        |k: Seq<char>| exists|i: int| 0 <= i < entries.len() && (#[trigger] entries[i]).0@ == k,
        |k: Seq<char>|
            {
                let i = choose|i: int| 0 <= i < entries.len() && (#[trigger] entries[i]).0@ == k;
                entries[i].1@
            },
    )
}

impl View for Properties {
    type V = Map<Seq<char>, ValueModel>;

    closed spec fn view(&self) -> Map<Seq<char>, ValueModel> {
        entries_map(self.entries@)
    }
}

/// The properties after the changes: each name whose new value is not equal to the
/// one it had takes the new value.
pub open spec fn changed_properties(
    before: Map<Seq<char>, ValueModel>,
    changes: Map<Seq<char>, ValueModel>,
) -> Map<Seq<char>, ValueModel> {
    Map::new(
        |k: Seq<char>| before.contains_key(k) || changes.contains_key(k),
        |k: Seq<char>|
            if changes_name(before, changes, k) {
                changes[k]
            } else {
                before[k]
            },
    )
}

/// Whether the changes give the name a value not equal to the one it had.
pub open spec fn changes_name(
    before: Map<Seq<char>, ValueModel>,
    changes: Map<Seq<char>, ValueModel>,
    k: Seq<char>,
) -> bool {
    changes.contains_key(k) && !(before.contains_key(k) && values_equal(before[k], changes[k]))
}

/// Whether the changes give any name a value not equal to the one it had.
pub open spec fn changes_something(
    before: Map<Seq<char>, ValueModel>,
    changes: Map<Seq<char>, ValueModel>,
) -> bool {
    exists|k: Seq<char>| #[trigger] changes_name(before, changes, k)
}

spec fn distinct_names(entries: Seq<(String, Value)>) -> bool {
    forall|i: int, j: int|
        0 <= i < j < entries.len() ==> (#[trigger] entries[i]).0@ != (#[trigger] entries[j]).0@
}

proof fn entry_in_map(entries: Seq<(String, Value)>, i: int)
    requires
        distinct_names(entries),
        0 <= i < entries.len(),
    ensures
        entries_map(entries).contains_key(entries[i].0@),
        entries_map(entries)[entries[i].0@] == entries[i].1@,
{
    let k = entries[i].0@;
    let j = choose|j: int| 0 <= j < entries.len() && (#[trigger] entries[j]).0@ == k;
    assert(entries[i].0@ == k);
    assert(entries_map(entries).contains_key(k));
}

impl Properties {
    #[verifier::type_invariant]
    spec fn names_are_distinct(self) -> bool {
        distinct_names(self.entries@)
    }

    /// The names in the order in which they were first set.
    pub closed spec fn names(&self) -> Seq<Seq<char>> {
        Seq::new(self.entries@.len(), |i: int| self.entries@[i].0@)
    }

    /// No properties.
    pub fn new() -> (r: Self)
        ensures
            r@ == Map::<Seq<char>, ValueModel>::empty(),
    {
        let r = Properties { entries: Vec::new() };
        assert(r@ =~= Map::<Seq<char>, ValueModel>::empty());
        r
    }

    /// The number of properties. The names number them, each once.
    pub fn len(&self) -> (r: usize)
        ensures
            r == self.names().len(),
            self.names().no_duplicates(),
            forall|k: Seq<char>| #[trigger] self.names().contains(k) <==> self@.contains_key(k),
    {
        proof {
            use_type_invariant(self);
            let e = self.entries@;
            assert forall|k: Seq<char>| #[trigger] self.names().contains(k) <==> self@.contains_key(k) by {
                if self.names().contains(k) {
                    let i = self.names().index_of(k);
                    entry_in_map(e, i);
                }
                if self@.contains_key(k) {
                    let i = choose|i: int| 0 <= i < e.len() && (#[trigger] e[i]).0@ == k;
                    assert(self.names()[i] == k);
                }
            }
            assert forall|i: int, j: int| 0 <= i < j < self.names().len() implies self.names()[i] != self.names()[j] by {
                assert(e[i].0@ == self.names()[i]);
                assert(e[j].0@ == self.names()[j]);
            }
        }
        self.entries.len()
    }

    /// The name at a position.
    pub fn name_at(&self, i: usize) -> (r: &String)
        requires
            i < self.names().len(),
        ensures
            r@ == self.names()[i as int],
    {
        &self.entries[i].0
    }

    /// The value at a position.
    pub fn value_at(&self, i: usize) -> (r: &Value)
        requires
            i < self.names().len(),
        ensures
            self@.contains_key(self.names()[i as int]),
            r@ == self@[self.names()[i as int]],
    {
        proof {
            use_type_invariant(self);
            entry_in_map(self.entries@, i as int);
        }
        &self.entries[i].1
    }

    fn find(&self, name: &str) -> (r: Option<usize>)
        ensures
            match r {
                Some(i) => {
                    &&& i < self.entries@.len()
                    &&& self.entries@[i as int].0@ == name@
                    &&& self@.contains_key(name@)
                    &&& self@[name@] == self.entries@[i as int].1@
                },
                None => {
                    &&& !self@.contains_key(name@)
                    &&& forall|i: int| 0 <= i < self.entries@.len() ==> (#[trigger] self.entries@[i]).0@ != name@
                },
            },
    {
        proof {
            use_type_invariant(self);
        }
        let mut i: usize = 0;
        while i < self.entries.len()
            invariant
                i <= self.entries@.len(),
                distinct_names(self.entries@),
                forall|j: int| 0 <= j < i ==> (#[trigger] self.entries@[j]).0@ != name@,
            decreases self.entries@.len() - i,
        {
            if str_same(self.entries[i].0.as_str(), name) {
                proof {
                    entry_in_map(self.entries@, i as int);
                }
                return Some(i);
            }
            i += 1;
        }
        None
    }

    /// The value of a property.
    pub fn get(&self, name: &str) -> (r: Option<&Value>)
        ensures
            match r {
                Some(v) => self@.contains_key(name@) && v@ == self@[name@],
                None => !self@.contains_key(name@),
            },
    {
        match self.find(name) {
            Some(i) => Some(&self.entries[i].1),
            None => None,
        }
    }

    /// Sets a property.
    pub fn set(&mut self, name: String, value: Value)
        ensures
            final(self)@ == old(self)@.insert(name@, value@),
    {
        proof {
            use_type_invariant(&*self);
        }
        let ghost before = self.entries@;
        let ghost k = name@;
        let ghost v = value@;
        let found = self.find(name.as_str());
        let mut taken = Properties::new();
        std::mem::swap(self, &mut taken);
        let mut entries = taken.entries;
        match found {
            Some(i) => {
                let ghost entry = (name, value);
                assert forall|a: int, b: int| 0 <= a < b < before.len() implies (#[trigger] before.update(
                    i as int,
                    entry,
                )[a]).0@ != (#[trigger] before.update(i as int, entry)[b]).0@ by {
                    assert(before[a].0@ != before[b].0@);
                }
                entries.set(i, (name, value));
                proof {
                    let after = entries@;
                    assert forall|u: Seq<char>| #[trigger] entries_map(after).contains_key(u) <==> entries_map(
                        before,
                    ).insert(k, v).contains_key(u) by {
                        if entries_map(after).contains_key(u) {
                            let j = choose|j: int| 0 <= j < after.len() && (#[trigger] after[j]).0@ == u;
                            assert(before[j].0@ == u);
                        }
                        if entries_map(before).contains_key(u) {
                            let j = choose|j: int| 0 <= j < before.len() && (#[trigger] before[j]).0@ == u;
                            assert(after[j].0@ == u);
                        }
                        assert(after[i as int].0@ == k);
                    }
                    assert forall|u: Seq<char>| #[trigger] entries_map(after).contains_key(u) implies entries_map(
                        after,
                    )[u] == entries_map(before).insert(k, v)[u] by {
                        let j = choose|j: int| 0 <= j < after.len() && (#[trigger] after[j]).0@ == u;
                        entry_in_map(after, j);
                        entry_in_map(before, j);
                        assert(before[j].0@ == u);
                        if u == k {
                            assert(after[i as int].0@ == k);
                            assert(j == i);
                        }
                    }
                    assert(entries_map(after) =~= entries_map(before).insert(k, v));
                }
            },
            None => {
                let ghost entry = (name, value);
                assert forall|a: int, b: int| 0 <= a < b < before.push(entry).len() implies (#[trigger] before.push(
                    entry,
                )[a]).0@ != (#[trigger] before.push(entry)[b]).0@ by {
                    if b < before.len() {
                        assert(before[a].0@ != before[b].0@);
                    } else {
                        assert(before[a].0@ != k);
                    }
                }
                entries.push((name, value));
                proof {
                    let after = entries@;
                    let last = before.len() as int;
                    assert forall|u: Seq<char>| #[trigger] entries_map(after).contains_key(u) <==> entries_map(
                        before,
                    ).insert(k, v).contains_key(u) by {
                        if entries_map(after).contains_key(u) {
                            let j = choose|j: int| 0 <= j < after.len() && (#[trigger] after[j]).0@ == u;
                            if j < last {
                                assert(before[j].0@ == u);
                            }
                        }
                        if entries_map(before).contains_key(u) {
                            let j = choose|j: int| 0 <= j < before.len() && (#[trigger] before[j]).0@ == u;
                            assert(after[j].0@ == u);
                        }
                        assert(after[last].0@ == k);
                    }
                    assert forall|u: Seq<char>| #[trigger] entries_map(after).contains_key(u) implies entries_map(
                        after,
                    )[u] == entries_map(before).insert(k, v)[u] by {
                        let j = choose|j: int| 0 <= j < after.len() && (#[trigger] after[j]).0@ == u;
                        entry_in_map(after, j);
                        if j < last {
                            entry_in_map(before, j);
                            assert(before[j].0@ == u);
                        }
                    }
                    assert(entries_map(after) =~= entries_map(before).insert(k, v));
                }
            },
        }
        *self = Properties { entries };
    }

    /// The properties given by a list of names and values; of a name that occurs
    /// twice the last value counts.
    pub fn from_pairs(pairs: Vec<(String, Value)>) -> (r: Self)
        ensures
            r@ == pairs_map(pairs@),
    {
        let mut r = Properties::new();
        let mut rest = pairs;
        let mut reversed: Vec<(String, Value)> = Vec::new();
        let ghost all = rest@;
        assert(all.take(rest@.len() as int) =~= all);
        while rest.len() > 0
            invariant
                rest@.len() + reversed@.len() == all.len(),
                rest@ == all.take(rest@.len() as int),
                forall|i: int| 0 <= i < reversed@.len() ==> #[trigger] reversed@[i] == all[all.len() - 1 - i],
            decreases rest@.len(),
        {
            let ghost n = rest@.len() as int;
            let pair = rest.pop().unwrap();
            assert(all.take(n).subrange(0, n - 1) =~= all.take(n - 1));
            reversed.push(pair);
        }
        assert(all.take(0) =~= Seq::<(String, Value)>::empty());
        while reversed.len() > 0
            invariant
                reversed@.len() <= all.len(),
                forall|i: int| 0 <= i < reversed@.len() ==> #[trigger] reversed@[i] == all[all.len() - 1 - i],
                r@ == pairs_map(all.take(all.len() - reversed@.len())),
            decreases reversed@.len(),
        {
            let ghost done = all.len() - reversed@.len();
            let (name, value) = reversed.pop().unwrap();
            r.set(name, value);
            assert(all.take(done + 1).drop_last() =~= all.take(done));
        }
        assert(all.take(all.len() as int) =~= all);
        r
    }

    /// Applies changes; says whether any property changed.
    pub fn apply(&mut self, changes: &Properties) -> (r: bool)
        ensures
            final(self)@ == changed_properties(old(self)@, changes@),
            r == changes_something(old(self)@, changes@),
    {
        let ghost before = self@;
        let n: usize = changes.len();
        let mut changed: bool = false;
        let mut i: usize = 0;
        assert(self@ =~= partly_changed(before, changes@, changes.names(), 0));
        while i < n
            invariant
                i <= n,
                n == changes.names().len(),
                changes.names().no_duplicates(),
                forall|k: Seq<char>| #[trigger] changes.names().contains(k) <==> changes@.contains_key(k),
                self@ == partly_changed(before, changes@, changes.names(), i as int),
                changed == exists|j: int| 0 <= j < i && changes_name(before, changes@, #[trigger] changes.names()[j]),
            decreases n - i,
        {
            let name = changes.name_at(i);
            let value = changes.value_at(i);
            let ghost k = changes.names()[i as int];
            let ghost middle = self@;
            proof {
                assert forall|j: int| 0 <= j < i implies #[trigger] changes.names()[j] != k by {
                }
                assert(middle.contains_key(k) == before.contains_key(k));
                assert(before.contains_key(k) ==> middle[k] == before[k]);
                assert(changes.names().contains(k));
            }
            let differs = match self.get(name.as_str()) {
                Some(v) => !v.equals(value),
                None => true,
            };
            assert(differs == changes_name(before, changes@, k));
            if differs {
                self.set(name.clone(), value.clone());
                changed = true;
            }
            i += 1;
            proof {
                assert(self@ =~= partly_changed(before, changes@, changes.names(), i as int)) by {
                    assert forall|u: Seq<char>| #![auto] self@.contains_key(u) <==> partly_changed(
                        before,
                        changes@,
                        changes.names(),
                        i as int,
                    ).contains_key(u) by {
                        if before.contains_key(u) || u == k {
                        }
                    }
                }
            }
        }
        proof {
            assert(self@ =~= changed_properties(before, changes@)) by {
                assert forall|u: Seq<char>| changes@.contains_key(u) implies #[trigger] named_before(changes.names(), n as int, u) by {
                    assert(changes.names().contains(u));
                    let j = changes.names().index_of(u);
                    assert(changes.names()[j] == u);
                }
            }
            if changes_something(before, changes@) {
                let u = choose|u: Seq<char>| #[trigger] changes_name(before, changes@, u);
                assert(changes.names().contains(u));
                let j = changes.names().index_of(u);
                assert(changes_name(before, changes@, changes.names()[j]));
            }
        }
        changed
    }
}

spec fn named_before(names: Seq<Seq<char>>, n: int, k: Seq<char>) -> bool {
    exists|j: int| 0 <= j < n && #[trigger] names[j] == k
}

spec fn partly_changed(
    before: Map<Seq<char>, ValueModel>,
    changes: Map<Seq<char>, ValueModel>,
    names: Seq<Seq<char>>,
    n: int,
) -> Map<Seq<char>, ValueModel> {
    Map::new(
        |k: Seq<char>| before.contains_key(k) || (changes.contains_key(k) && named_before(names, n, k)),
        |k: Seq<char>|
            if changes_name(before, changes, k) && named_before(names, n, k) {
                changes[k]
            } else {
                before[k]
            },
    )
}

/// What a list of named values stands for, later values taking the place of earlier ones.
pub open spec fn pairs_map(pairs: Seq<(String, Value)>) -> Map<Seq<char>, ValueModel>
    decreases pairs.len(),
{
    if pairs.len() == 0 {
        Map::empty()
    } else {
        pairs_map(pairs.drop_last()).insert(pairs.last().0@, pairs.last().1@)
    }
}

impl Clone for Properties {
    fn clone(&self) -> (r: Self)
        ensures
            r@ == self@,
    {
        let mut r = Properties::new();
        let n: usize = self.len();
        let mut i: usize = 0;
        assert(r@ =~= self@.restrict(self.names().take(0).to_set()));
        while i < n
            invariant
                i <= n,
                n == self.names().len(),
                forall|k: Seq<char>| #[trigger] self.names().contains(k) <==> self@.contains_key(k),
                r@ == self@.restrict(self.names().take(i as int).to_set()),
            decreases n - i,
        {
            let name = self.name_at(i);
            let value = self.value_at(i);
            r.set(name.clone(), value.clone());
            proof {
                let k = self.names()[i as int];
                assert(self.names().take(i + 1) =~= self.names().take(i as int).push(k));
                let shorter = self.names().take(i as int);
                assert forall|u: Seq<char>| #[trigger] shorter.push(k).contains(u) <==> shorter.contains(u) || u == k by {
                    if shorter.contains(u) {
                        let j = shorter.index_of(u);
                        assert(shorter.push(k)[j] == u);
                    }
                    assert(shorter.push(k)[i as int] == k);
                }
                assert(self.names().take(i + 1).to_set() =~= self.names().take(i as int).to_set().insert(k));
                assert(r@ =~= self@.restrict(self.names().take(i + 1).to_set()));
            }
            i += 1;
        }
        proof {
            assert(self.names().take(n as int) =~= self.names());
            assert(r@ =~= self@) by {
                assert forall|k: Seq<char>| #[trigger] self@.contains_key(k) implies r@.contains_key(k) by {
                    assert(self.names().contains(k));
                }
            }
        }
        r
    }
}

/// What a list of texts stands for.
pub open spec fn text_values(texts: Seq<Seq<char>>) -> ValueModel {
    ValueModel::List(texts.map_values(|t: Seq<char>| ValueModel::Text(t)))
}

/// The list of strings as a value.
pub fn text_list(list: &Vec<String>) -> (r: Value)
    ensures
        r@ == text_values(string_texts(list@)),
{
    let mut items: Vec<Value> = Vec::new();
    let mut i: usize = 0;
    while i < list.len()
        invariant
            i <= list@.len(),
            items@.len() == i,
            forall|j: int| 0 <= j < i ==> (#[trigger] items@[j])@ == ValueModel::Text(list@[j]@),
        decreases list@.len() - i,
    {
        items.push(Value::String(list[i].clone()));
        i += 1;
    }
    let r = Value::List(items);
    assert(r@->List_0 =~= text_values(string_texts(list@))->List_0);
    r
}

/// The string as a value.
pub fn text_value(text: &str) -> (r: Value)
    ensures
        r@ == ValueModel::Text(text@),
{
    Value::String(text.to_owned())
}

} // verus!

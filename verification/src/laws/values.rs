//! Laws of property values: when two are equal, and what changes do to properties.

use crate::number::{Number, INFINITE, SIGN};
use crate::value::{changed_properties, changes_something, values_equal, ValueModel};
use vstd::prelude::*;

verus! {

/// A value without any float in it.
pub open spec fn float_free(value: ValueModel) -> bool
    decreases value,
{
    match value {
        ValueModel::Float(_) => false,
        ValueModel::List(items) => forall|i: int| 0 <= i < items.len() ==> float_free(#[trigger] items[i]),
        _ => true,
    }
}

/// A value without floats equals itself and nothing else.
pub proof fn law_equality_without_floats_is_identity(a: ValueModel, b: ValueModel)
    requires
        float_free(a),
    ensures
        values_equal(a, b) <==> a == b,
        values_equal(b, a) <==> a == b,
    decreases a,
{
    if let ValueModel::List(x) = a {
        if let ValueModel::List(y) = b {
            if x.len() == y.len() {
                assert forall|i: int| 0 <= i < x.len() implies (values_equal(#[trigger] x[i], y[i]) <==> x[i] == y[i]) && (
                values_equal(y[i], x[i]) <==> x[i] == y[i]) by {
                    law_equality_without_floats_is_identity(x[i], y[i]);
                }
                if values_equal(a, b) {
                    assert(x =~= y);
                }
                if values_equal(b, a) {
                    assert forall|i: int| 0 <= i < x.len() implies x[i] == y[i] by {
                        assert(values_equal(y[i], x[i]));
                    }
                    assert(x =~= y);
                }
            }
        }
    }
}

/// Floats are equal as numbers: what is not a number equals nothing, the two zeros are equal,
/// and any other float equals itself alone.
pub proof fn law_floats_are_equal_as_numbers(x: Number, y: Number)
    ensures
        values_equal(ValueModel::Float(x), ValueModel::Float(y)) <==> {
            &&& x.bits as int % SIGN as int <= INFINITE
            &&& y.bits as int % SIGN as int <= INFINITE
            &&& x.bits == y.bits || (x.bits as int % SIGN as int == 0 && y.bits as int % SIGN as int == 0)
        },
{
}

/// Numbers are in order: of two that are neither equal nor one of them no number, exactly one
/// is below the other; what is negative is below what is not, and negation turns the order.
pub proof fn law_numbers_are_ordered(x: Number, y: Number)
    ensures
        !(x.below(y) && y.below(x)),
        !(x.below(y) && x.equal(y)),
        x.below(y) || y.below(x) || x.equal(y) <==> x.bits as int % SIGN as int <= INFINITE && y.bits as int
            % SIGN as int <= INFINITE,
        x.bits < y.bits <= INFINITE ==> x.below(y),
        x.bits > y.bits >= SIGN && x.bits <= SIGN + INFINITE ==> x.below(y),
        SIGN < x.bits <= SIGN + INFINITE && y.bits <= INFINITE ==> x.below(y),
{
}

/// The values that changes give are taken: afterwards a name of the changes has the value that
/// they give it, or one that is equal to it and that it had before; other names keep their
/// values, and no other names come up. Something changes exactly where a name takes a value
/// that is not equal to the one it had.
pub proof fn law_changes_are_taken(
    before: Map<Seq<char>, ValueModel>,
    changes: Map<Seq<char>, ValueModel>,
    k: Seq<char>,
)
    ensures
        changed_properties(before, changes).contains_key(k) <==> before.contains_key(k) || changes.contains_key(k),
        changes.contains_key(k) && !before.contains_key(k) ==> changed_properties(before, changes)[k] == changes[k],
        changes.contains_key(k) && before.contains_key(k) && !values_equal(before[k], changes[k])
            ==> changed_properties(before, changes)[k] == changes[k],
        changes.contains_key(k) && before.contains_key(k) && values_equal(before[k], changes[k])
            ==> changed_properties(before, changes)[k] == before[k],
        before.contains_key(k) && !changes.contains_key(k) ==> changed_properties(before, changes)[k] == before[k],
        changes_something(before, changes) <==> exists|n: Seq<char>| #[trigger]
            changes.contains_key(n) && !(before.contains_key(n) && values_equal(before[n], changes[n])),
        !changes_something(before, changes) ==> changed_properties(before, changes) == before,
{
    if changes_something(before, changes) {
        let n = choose|n: Seq<char>| #[trigger] crate::value::changes_name(before, changes, n);
        assert(changes.contains_key(n));
    } else {
        assert forall|n: Seq<char>| #[trigger] changes.contains_key(n) implies before.contains_key(n) && values_equal(
            before[n],
            changes[n],
        ) by {
            assert(!crate::value::changes_name(before, changes, n));
        }
        assert(changed_properties(before, changes) =~= before);
    }
    if exists|n: Seq<char>| #[trigger]
        changes.contains_key(n) && !(before.contains_key(n) && values_equal(before[n], changes[n])) {
        let n = choose|n: Seq<char>| #[trigger]
            changes.contains_key(n) && !(before.contains_key(n) && values_equal(before[n], changes[n]));
        assert(crate::value::changes_name(before, changes, n));
    }
}

} // verus!

//! Laws of ordered listings: every finite set of texts has one, and it holds just the set.

use crate::ids::ascending;
use crate::table::{in_order, listing, orders};
use crate::text::{text_less, text_less_total, text_less_transitive};
use vstd::prelude::*;

verus! {

/// Texts are ordered by the first character in which they differ, and a text stands before
/// those that start with it.
pub proof fn law_the_first_difference_decides(a: Seq<char>, b: Seq<char>, n: int)
    requires
        0 <= n <= a.len(),
        n < b.len(),
        a.take(n) == b.take(n),
    ensures
        n == a.len() ==> text_less(a, b) && !text_less(b, a),
        n < a.len() && (a[n] as u32) < (b[n] as u32) ==> text_less(a, b) && !text_less(b, a),
    decreases n,
{
    if n > 0 {
        assert(a.take(n)[0] == a[0]);
        assert(b.take(n)[0] == b[0]);
        assert forall|i: int| 0 <= i < n - 1 implies a.skip(1)[i] == b.skip(1)[i] by {
            assert(a.take(n)[i + 1] == a[i + 1]);
            assert(b.take(n)[i + 1] == b[i + 1]);
        }
        assert(a.skip(1).take(n - 1) =~= b.skip(1).take(n - 1));
        law_the_first_difference_decides(a.skip(1), b.skip(1), n - 1);
    }
}

proof fn insert_in_order(ids: Seq<Seq<char>>, t: Seq<char>) -> (r: Seq<Seq<char>>)
    requires
        ascending(ids),
        !ids.contains(t),
    ensures
        ascending(r),
        forall|u: Seq<char>| #[trigger] r.contains(u) <==> ids.contains(u) || u == t,
    decreases ids.len(),
{
    if ids.len() == 0 {
        let r = seq![t];
        assert(r[0] == t);
        r
    } else if text_less(ids.last(), t) {
        let r = ids.push(t);
        assert forall|i: int, j: int| 0 <= i < j < r.len() implies text_less(#[trigger] r[i], #[trigger] r[j]) by {
            if j == ids.len() && i < ids.len() - 1 {
                assert(text_less(ids[i], ids[ids.len() - 1]));
                text_less_transitive(ids[i], ids.last(), t);
            }
        }
        assert forall|u: Seq<char>| #[trigger] r.contains(u) <==> ids.contains(u) || u == t by {
            if ids.contains(u) {
                assert(r[ids.index_of(u)] == u);
            }
            assert(r[ids.len() as int] == t);
        }
        r
    } else {
        let last = ids.last();
        let fewer = ids.drop_last();
        assert forall|i: int, j: int| 0 <= i < j < fewer.len() implies text_less(#[trigger] fewer[i], #[trigger] fewer[j]) by {
            assert(text_less(ids[i], ids[j]));
        }
        if fewer.contains(t) {
            assert(ids[fewer.index_of(t)] == t);
        }
        let s = insert_in_order(fewer, t);
        let r = s.push(last);
        assert(ids[ids.len() - 1] == last);
        text_less_total(t, last);
        assert(text_less(t, last));
        assert forall|i: int, j: int| 0 <= i < j < r.len() implies text_less(#[trigger] r[i], #[trigger] r[j]) by {
            if j == s.len() {
                assert(s.contains(s[i]));
                if s[i] != t {
                    let k = fewer.index_of(s[i]);
                    assert(text_less(ids[k], ids[ids.len() - 1]));
                }
            } else {
                assert(text_less(s[i], s[j]));
            }
        }
        assert forall|u: Seq<char>| #[trigger] r.contains(u) <==> ids.contains(u) || u == t by {
            if r.contains(u) {
                let k = r.index_of(u);
                if k < s.len() {
                    assert(s.contains(u));
                    if u != t {
                        assert(ids[fewer.index_of(u)] == u);
                    }
                }
            }
            if ids.contains(u) {
                let k = ids.index_of(u);
                if k < fewer.len() {
                    assert(fewer[k] == u);
                    assert(s.contains(u));
                    assert(r[s.index_of(u)] == u);
                } else {
                    assert(r[s.len() as int] == u);
                }
            }
            if u == t {
                assert(s.contains(t));
                assert(r[s.index_of(t)] == t);
            }
        }
        r
    }
}

proof fn some_order(wanted: Set<Seq<char>>) -> (r: Seq<Seq<char>>)
    requires
        wanted.finite(),
    ensures
        orders(r, wanted),
    decreases wanted.len(),
{
    if wanted.len() == 0 {
        assert forall|t: Seq<char>| !wanted.contains(t) by {
            if wanted.contains(t) {
                assert(wanted.remove(t).len() + 1 == wanted.len());
            }
        }
        Seq::empty()
    } else {
        let t = wanted.choose();
        let rest = some_order(wanted.remove(t));
        let r = insert_in_order(rest, t);
        assert forall|u: Seq<char>| #[trigger] r.contains(u) <==> wanted.contains(u) by {
        }
        r
    }
}

/// Every finite set of texts can be put in ascending order, and then lists each of them once. A
/// listing of records has as many as there are wanted, and holds just these.
pub proof fn law_finite_sets_have_an_order<M>(records: Map<Seq<char>, M>, wanted: Set<Seq<char>>)
    requires
        wanted.finite(),
    ensures
        orders(in_order(wanted), wanted),
        in_order(wanted).no_duplicates(),
        in_order(wanted).len() == wanted.len(),
        listing(records, wanted).len() == wanted.len(),
        forall|i: int| 0 <= i < listing(records, wanted).len() ==> #[trigger] listing(records, wanted)[i] == records[in_order(
            wanted,
        )[i]],
        forall|t: Seq<char>| #[trigger] wanted.contains(t) ==> listing(records, wanted).contains(records[t]),
{
    let some = some_order(wanted);
    let ids = in_order(wanted);
    assert(orders(ids, wanted));
    assert forall|i: int, j: int| 0 <= i < j < ids.len() implies ids[i] != ids[j] by {
        assert(text_less(ids[i], ids[j]));
        crate::text::text_less_irreflexive(ids[i]);
    }
    ids.unique_seq_to_set();
    assert forall|t: Seq<char>| #[trigger] ids.to_set().contains(t) <==> wanted.contains(t) by {
        assert(ids.contains(t) <==> wanted.contains(t));
    }
    assert(ids.to_set() =~= wanted);
    assert forall|t: Seq<char>| #[trigger] wanted.contains(t) implies listing(records, wanted).contains(records[t]) by {
        assert(ids.contains(t));
        let i = ids.index_of(t);
        assert(listing(records, wanted)[i] == records[t]);
    }
}

} // verus!

//! Laws of the texts that hashes are taken of: different batches give different texts, and a
//! digest differs wherever the hash does.

use crate::commit::{CommitBatchModel, EventCommitRecordModel, MetadataEntryModel};
use crate::commit_ledger::{
    commit_material, digest, event_material, events_material, hex_digit, hex_text, json_char, json_chars, json_optional,
    json_text, note_material, notes_material, text_hash,
};
use crate::text::{decimal_text, digit_char};
use vstd::prelude::*;

verus! {

proof fn same_front<A>(front: Seq<A>, one: Seq<A>, other: Seq<A>)
    requires
        front + one == front + other,
    ensures
        one == other,
{
    assert(one.len() == (front + one).len() - front.len());
    assert forall|i: int| 0 <= i < one.len() implies one[i] == other[i] by {
        assert((front + one)[front.len() + i] == one[i]);
        assert((front + other)[front.len() + i] == other[i]);
    }
    assert(one =~= other);
}

proof fn same_fronts<A>(a: Seq<A>, b: Seq<A>, x: Seq<A>, y: Seq<A>)
    requires
        a + x == b + y,
        a.len() == b.len(),
    ensures
        a == b,
        x == y,
{
    assert forall|i: int| 0 <= i < a.len() implies a[i] == b[i] by {
        assert((a + x)[i] == a[i]);
        assert((b + y)[i] == b[i]);
    }
    assert(a =~= b);
    same_front(a, x, y);
}

/// Whether the character is a decimal digit.
pub open spec fn is_digit(c: char) -> bool {
    '0' as u32 <= c as u32 <= '9' as u32
}

proof fn digits_differ(a: nat, b: nat)
    requires
        a < 10,
        b < 10,
    ensures
        digit_char(a) == digit_char(b) <==> a == b,
        is_digit(digit_char(a)),
{
}

proof fn hex_digits_differ(a: nat, b: nat)
    requires
        a < 16,
        b < 16,
    ensures
        hex_digit(a) == hex_digit(b) <==> a == b,
{
}

proof fn decimals_are_digits(n: nat)
    ensures
        decimal_text(n).len() > 0,
        forall|i: int| 0 <= i < decimal_text(n).len() ==> is_digit(#[trigger] decimal_text(n)[i]),
    decreases n,
{
    if n < 10 {
        digits_differ(n, n);
    } else {
        decimals_are_digits(n / 10);
        digits_differ(n % 10, n % 10);
    }
}

/// The decimal texts of two numbers differ.
pub proof fn law_decimal_texts_differ(n: nat, m: nat)
    ensures
        decimal_text(n) == decimal_text(m) <==> n == m,
    decreases n,
{
    if decimal_text(n) == decimal_text(m) {
        decimals_are_digits(n);
        decimals_are_digits(m);
        if n < 10 && m < 10 {
            digits_differ(n, m);
            assert(decimal_text(n)[0] == decimal_text(m)[0]);
        } else if n < 10 {
            decimals_are_digits(m / 10);
            assert(decimal_text(m).len() >= 2);
            assert(false);
        } else if m < 10 {
            decimals_are_digits(n / 10);
            assert(decimal_text(n).len() >= 2);
            assert(false);
        } else {
            let a = decimal_text(n / 10);
            let b = decimal_text(m / 10);
            assert(a =~= decimal_text(n).drop_last());
            assert(b =~= decimal_text(m).drop_last());
            law_decimal_texts_differ(n / 10, m / 10);
            digits_differ(n % 10, m % 10);
            assert(decimal_text(n).last() == decimal_text(m).last());
        }
    }
}

/// The decimal text of a number is its digits: the last one is the rest by ten, and what stands
/// before it is the text of the tenth part.
pub proof fn law_decimal_texts_are_digits(n: nat)
    ensures
        decimal_text(n).len() > 0,
        forall|i: int| 0 <= i < decimal_text(n).len() ==> '0' as u32 <= (#[trigger] decimal_text(n)[i]) as u32 <= '9' as u32,
        decimal_text(n).last() as u32 == '0' as u32 + n % 10,
        n >= 10 ==> decimal_text(n).drop_last() == decimal_text(n / 10),
        n < 10 ==> decimal_text(n).len() == 1,
{
    decimals_are_digits(n);
    if n >= 10 {
        assert(decimal_text(n).drop_last() =~= decimal_text(n / 10));
    }
}

proof fn decimals_end(n: nat, m: nat, x: Seq<char>, y: Seq<char>)
    requires
        decimal_text(n) + x == decimal_text(m) + y,
        x.len() > 0,
        y.len() > 0,
        !is_digit(x[0]),
        !is_digit(y[0]),
    ensures
        n == m,
        x == y,
{
    decimals_are_digits(n);
    decimals_are_digits(m);
    let a = decimal_text(n);
    let b = decimal_text(m);
    if a.len() < b.len() {
        assert((a + x)[a.len() as int] == x[0]);
        assert((b + y)[a.len() as int] == b[a.len() as int]);
        assert(is_digit(b[a.len() as int]));
    }
    if b.len() < a.len() {
        assert((b + y)[b.len() as int] == y[0]);
        assert((a + x)[b.len() as int] == a[b.len() as int]);
        assert(is_digit(a[b.len() as int]));
    }
    same_fronts(a, b, x, y);
    law_decimal_texts_differ(n, m);
}

proof fn json_head(text: Seq<char>)
    requires
        text.len() > 0,
    ensures
        json_chars(text) == json_char(text[0]) + json_chars(text.skip(1)),
    decreases text.len(),
{
    if text.len() == 1 {
        assert(text.drop_last() =~= Seq::<char>::empty());
        assert(text.skip(1) =~= Seq::<char>::empty());
        assert(json_chars(text.drop_last()) =~= Seq::<char>::empty());
        assert(json_chars(text) =~= json_char(text[0]) + json_chars(text.skip(1)));
    } else {
        json_head(text.drop_last());
        assert(text.drop_last().skip(1) =~= text.skip(1).drop_last());
        assert(text.skip(1).last() == text.last());
        assert(json_chars(text) =~= json_char(text[0]) + json_chars(text.skip(1)));
    }
}

proof fn escapes_have_two_digits(c: char)
    requires
        (c as int) < 32,
    ensures
        hex_text(c as nat, 2) == seq![hex_digit((c as nat) / 16), hex_digit((c as nat) % 16)],
{
    reveal_with_fuel(hex_text, 3);
    assert(hex_text(c as nat, 2) =~= seq![hex_digit((c as nat) / 16), hex_digit((c as nat) % 16)]);
}

proof fn json_codes_differ(a: char, b: char, x: Seq<char>, y: Seq<char>)
    requires
        json_char(a) + x == json_char(b) + y,
    ensures
        a == b,
        x == y,
        json_char(a).len() > 0,
        json_char(a)[0] != '"',
{
    let u = json_char(a) + x;
    let v = json_char(b) + y;
    if (a as int) < 32 {
        escapes_have_two_digits(a);
    }
    if (b as int) < 32 {
        escapes_have_two_digits(b);
    }
    if (a as int) < 32 && (b as int) < 32 {
        hex_digits_differ((a as nat) / 16, (b as nat) / 16);
        hex_digits_differ((a as nat) % 16, (b as nat) % 16);
    }
    assert(u[0] == json_char(a)[0]);
    assert(v[0] == json_char(b)[0]);
    if json_char(a).len() > 1 && json_char(b).len() > 1 {
        assert(u[1] == json_char(a)[1]);
        assert(v[1] == json_char(b)[1]);
        if json_char(a).len() == 6 && json_char(b).len() == 6 {
            assert(u[4] == json_char(a)[4] && u[5] == json_char(a)[5]);
            assert(v[4] == json_char(b)[4] && v[5] == json_char(b)[5]);
        }
    }
    same_front(json_char(a), x, y);
}

proof fn json_starts(c: char)
    ensures
        json_char(c).len() > 0,
        json_char(c)[0] != '"',
{
    json_codes_differ(c, c, Seq::empty(), Seq::empty());
}

proof fn json_chars_end(a: Seq<char>, b: Seq<char>, x: Seq<char>, y: Seq<char>)
    requires
        json_chars(a) + (seq!['"'] + x) == json_chars(b) + (seq!['"'] + y),
    ensures
        a == b,
        x == y,
    decreases a.len(),
{
    let u = json_chars(a) + (seq!['"'] + x);
    let v = json_chars(b) + (seq!['"'] + y);
    if a.len() == 0 {
        assert(u[0] == '"');
        if b.len() > 0 {
            json_head(b);
            json_starts(b[0]);
            assert(v[0] == json_char(b[0])[0]);
        }
        assert(a =~= b);
        same_front(json_chars(a), seq!['"'] + x, seq!['"'] + y);
        same_front(seq!['"'], x, y);
    } else {
        json_head(a);
        json_starts(a[0]);
        assert(u[0] == json_char(a[0])[0]);
        if b.len() == 0 {
            assert(v[0] == '"');
        } else {
            json_head(b);
            let p = json_chars(a.skip(1)) + (seq!['"'] + x);
            let q = json_chars(b.skip(1)) + (seq!['"'] + y);
            assert(u =~= json_char(a[0]) + p);
            assert(v =~= json_char(b[0]) + q);
            json_codes_differ(a[0], b[0], p, q);
            json_chars_end(a.skip(1), b.skip(1), x, y);
            assert(a =~= seq![a[0]] + a.skip(1));
            assert(b =~= seq![b[0]] + b.skip(1));
        }
    }
}

proof fn json_ends(a: Seq<char>, b: Seq<char>, x: Seq<char>, y: Seq<char>)
    requires
        json_text(a) + x == json_text(b) + y,
    ensures
        a == b,
        x == y,
{
    assert(json_text(a) + x =~= seq!['"'] + (json_chars(a) + (seq!['"'] + x)));
    assert(json_text(b) + y =~= seq!['"'] + (json_chars(b) + (seq!['"'] + y)));
    same_front(seq!['"'], json_chars(a) + (seq!['"'] + x), json_chars(b) + (seq!['"'] + y));
    json_chars_end(a, b, x, y);
}

/// The JSON strings of two texts differ, and each starts and ends with quotes.
pub proof fn law_json_texts_differ(a: Seq<char>, b: Seq<char>)
    ensures
        json_text(a) == json_text(b) <==> a == b,
        json_text(a)[0] == '"',
        json_text(a).last() == '"',
{
    if json_text(a) == json_text(b) {
        json_ends(a, b, Seq::empty(), Seq::empty());
    }
}

proof fn json_optional_ends(a: Option<Seq<char>>, b: Option<Seq<char>>, x: Seq<char>, y: Seq<char>)
    requires
        json_optional(a) + x == json_optional(b) + y,
    ensures
        a == b,
        x == y,
{
    reveal_strlit("null");
    let u = json_optional(a) + x;
    let v = json_optional(b) + y;
    assert(u[0] == json_optional(a)[0]);
    assert(v[0] == json_optional(b)[0]);
    match (a, b) {
        (Some(s), Some(t)) => {
            json_ends(s, t, x, y);
        },
        (None, None) => {
            same_front("null"@, x, y);
        },
        _ => {},
    }
}

proof fn group(a: Seq<char>, b: Seq<char>, c: Seq<char>)
    ensures
        (a + b) + c == a + (b + c),
{
    assert((a + b) + c =~= a + (b + c));
}

proof fn group_twelve(p0: Seq<char>, p1: Seq<char>, p2: Seq<char>, p3: Seq<char>, p4: Seq<char>, p5: Seq<char>, p6: Seq<char>, p7: Seq<char>, p8: Seq<char>, p9: Seq<char>, p10: Seq<char>, p11: Seq<char>)
    ensures
        p0 + p1 + p2 + p3 + p4 + p5 + p6 + p7 + p8 + p9 + p10 + p11 == p0 + (p1 + (p2 + (p3 + (p4 + (p5 + (p6 + (p7 + (p8 + (p9 + (p10 + p11)))))))))),
{
    let q1 = p0 + p1;
    let q2 = q1 + p2;
    let q3 = q2 + p3;
    let q4 = q3 + p4;
    let q5 = q4 + p5;
    let q6 = q5 + p6;
    let q7 = q6 + p7;
    let q8 = q7 + p8;
    let q9 = q8 + p9;
    let q10 = q9 + p10;
    let s11 = p11;
    let s10 = p10 + s11;
    let s9 = p9 + s10;
    let s8 = p8 + s9;
    let s7 = p7 + s8;
    let s6 = p6 + s7;
    let s5 = p5 + s6;
    let s4 = p4 + s5;
    let s3 = p3 + s4;
    let s2 = p2 + s3;
    let s1 = p1 + s2;
    group(q9, p10, s11);
    group(q8, p9, s10);
    group(q7, p8, s9);
    group(q6, p7, s8);
    group(q5, p6, s7);
    group(q4, p5, s6);
    group(q3, p4, s5);
    group(q2, p3, s4);
    group(q1, p2, s3);
    group(p0, p1, s2);
}

proof fn event_ends(a: EventCommitRecordModel, b: EventCommitRecordModel, x: Seq<char>, y: Seq<char>)
    requires
        event_material(a) + x == event_material(b) + y,
    ensures
        a == b,
        x == y,
{
    reveal_strlit(",\"cascade_breadth_index\":");
    reveal_strlit("}");
    let l1 = "{\"event_id\":"@;
    let l2 = ",\"event_hash\":"@;
    let l3 = ",\"cascade_id\":"@;
    let l4 = ",\"cascade_depth\":"@;
    let l5 = ",\"cascade_breadth_index\":"@;
    let l6 = "}"@;
    let a6 = l6 + x;
    let b6 = l6 + y;
    let a5 = l5 + (decimal_text(a.cascade_breadth_index as nat) + a6);
    let b5 = l5 + (decimal_text(b.cascade_breadth_index as nat) + b6);
    let a4 = l4 + (decimal_text(a.cascade_depth as nat) + a5);
    let b4 = l4 + (decimal_text(b.cascade_depth as nat) + b5);
    let a3 = l3 + (json_text(a.cascade_id) + a4);
    let b3 = l3 + (json_text(b.cascade_id) + b4);
    let a2 = l2 + (json_text(a.event_hash) + a3);
    let b2 = l2 + (json_text(b.event_hash) + b3);
    group_twelve(
        l1,
        json_text(a.event_id),
        l2,
        json_text(a.event_hash),
        l3,
        json_text(a.cascade_id),
        l4,
        decimal_text(a.cascade_depth as nat),
        l5,
        decimal_text(a.cascade_breadth_index as nat),
        l6,
        x,
    );
    group_twelve(
        l1,
        json_text(b.event_id),
        l2,
        json_text(b.event_hash),
        l3,
        json_text(b.cascade_id),
        l4,
        decimal_text(b.cascade_depth as nat),
        l5,
        decimal_text(b.cascade_breadth_index as nat),
        l6,
        y,
    );
    assert(event_material(a) + x == l1 + (json_text(a.event_id) + a2));
    assert(event_material(b) + y == l1 + (json_text(b.event_id) + b2));
    same_front(l1, json_text(a.event_id) + a2, json_text(b.event_id) + b2);
    json_ends(a.event_id, b.event_id, a2, b2);
    same_front(l2, json_text(a.event_hash) + a3, json_text(b.event_hash) + b3);
    json_ends(a.event_hash, b.event_hash, a3, b3);
    same_front(l3, json_text(a.cascade_id) + a4, json_text(b.cascade_id) + b4);
    json_ends(a.cascade_id, b.cascade_id, a4, b4);
    same_front(l4, decimal_text(a.cascade_depth as nat) + a5, decimal_text(b.cascade_depth as nat) + b5);
    decimals_end(a.cascade_depth as nat, b.cascade_depth as nat, a5, b5);
    same_front(l5, decimal_text(a.cascade_breadth_index as nat) + a6, decimal_text(b.cascade_breadth_index as nat) + b6);
    decimals_end(a.cascade_breadth_index as nat, b.cascade_breadth_index as nat, a6, b6);
    same_front(l6, x, y);
}

proof fn events_head(records: Seq<EventCommitRecordModel>)
    requires
        records.len() >= 2,
    ensures
        events_material(records) == event_material(records[0]) + (","@ + events_material(records.skip(1))),
    decreases records.len(),
{
    let fewer = records.drop_last();
    let rest = records.skip(1);
    assert(rest.last() == records.last());
    assert(rest.drop_last() =~= fewer.skip(1));
    if records.len() == 2 {
        assert(fewer.len() == 1);
        assert(events_material(fewer) == event_material(records[0]));
        assert(events_material(rest) == event_material(rest[0]));
        assert(events_material(records) =~= event_material(records[0]) + (","@ + events_material(rest)));
    } else {
        events_head(fewer);
        assert(events_material(rest) == events_material(rest.drop_last()) + ","@ + event_material(rest.last()));
        assert(events_material(records) =~= event_material(records[0]) + (","@ + events_material(rest)));
    }
}

proof fn events_end(a: Seq<EventCommitRecordModel>, b: Seq<EventCommitRecordModel>, x: Seq<char>, y: Seq<char>)
    requires
        events_material(a) + (seq![']'] + x) == events_material(b) + (seq![']'] + y),
    ensures
        a == b,
        x == y,
    decreases a.len(),
{
    reveal_strlit("{\"event_id\":");
    reveal_strlit(",");
    let u = events_material(a) + (seq![']'] + x);
    let v = events_material(b) + (seq![']'] + y);
    if a.len() > 1 {
        events_head(a);
        assert(u =~= event_material(a[0]) + (","@ + (events_material(a.skip(1)) + (seq![']'] + x))));
    }
    if b.len() > 1 {
        events_head(b);
        assert(v =~= event_material(b[0]) + (","@ + (events_material(b.skip(1)) + (seq![']'] + y))));
    }
    if a.len() == 0 {
        assert(u[0] == ']');
        if b.len() > 0 {
            assert(v[0] == '{');
        }
        assert(a =~= b);
        same_front(events_material(a), seq![']'] + x, seq![']'] + y);
        same_front(seq![']'], x, y);
    } else if b.len() == 0 {
        assert(v[0] == ']');
        assert(u[0] == '{');
    } else {
        let p = if a.len() > 1 {
            ","@ + (events_material(a.skip(1)) + (seq![']'] + x))
        } else {
            seq![']'] + x
        };
        let q = if b.len() > 1 {
            ","@ + (events_material(b.skip(1)) + (seq![']'] + y))
        } else {
            seq![']'] + y
        };
        assert(u == event_material(a[0]) + p);
        assert(v == event_material(b[0]) + q);
        event_ends(a[0], b[0], p, q);
        assert(p[0] == q[0]);
        if a.len() > 1 {
            assert(b.len() > 1);
            same_front(
                ","@,
                events_material(a.skip(1)) + (seq![']'] + x),
                events_material(b.skip(1)) + (seq![']'] + y),
            );
            events_end(a.skip(1), b.skip(1), x, y);
            assert(a =~= seq![a[0]] + a.skip(1));
            assert(b =~= seq![b[0]] + b.skip(1));
        } else {
            assert(b.len() == 1);
            same_front(seq![']'], x, y);
            assert(a =~= b);
        }
    }
}

proof fn note_ends(a: MetadataEntryModel, b: MetadataEntryModel, x: Seq<char>, y: Seq<char>)
    requires
        note_material(a) + x == note_material(b) + y,
    ensures
        a == b,
        x == y,
{
    let a2 = ","@ + (json_text(a.value) + ("]"@ + x));
    let b2 = ","@ + (json_text(b.value) + ("]"@ + y));
    assert(note_material(a) + x =~= "["@ + (json_text(a.key) + a2));
    assert(note_material(b) + y =~= "["@ + (json_text(b.key) + b2));
    same_front("["@, json_text(a.key) + a2, json_text(b.key) + b2);
    json_ends(a.key, b.key, a2, b2);
    same_front(","@, json_text(a.value) + ("]"@ + x), json_text(b.value) + ("]"@ + y));
    json_ends(a.value, b.value, "]"@ + x, "]"@ + y);
    same_front("]"@, x, y);
}

proof fn notes_head(entries: Seq<MetadataEntryModel>)
    requires
        entries.len() >= 2,
    ensures
        notes_material(entries) == note_material(entries[0]) + (","@ + notes_material(entries.skip(1))),
    decreases entries.len(),
{
    let fewer = entries.drop_last();
    let rest = entries.skip(1);
    assert(rest.last() == entries.last());
    assert(rest.drop_last() =~= fewer.skip(1));
    if entries.len() == 2 {
        assert(notes_material(fewer) == note_material(entries[0]));
        assert(notes_material(rest) == note_material(rest[0]));
        assert(notes_material(entries) =~= note_material(entries[0]) + (","@ + notes_material(rest)));
    } else {
        notes_head(fewer);
        assert(notes_material(rest) == notes_material(rest.drop_last()) + ","@ + note_material(rest.last()));
        assert(notes_material(entries) =~= note_material(entries[0]) + (","@ + notes_material(rest)));
    }
}

proof fn notes_end(a: Seq<MetadataEntryModel>, b: Seq<MetadataEntryModel>, x: Seq<char>, y: Seq<char>)
    requires
        notes_material(a) + (seq![']'] + x) == notes_material(b) + (seq![']'] + y),
    ensures
        a == b,
        x == y,
    decreases a.len(),
{
    reveal_strlit("[");
    reveal_strlit(",");
    let u = notes_material(a) + (seq![']'] + x);
    let v = notes_material(b) + (seq![']'] + y);
    if a.len() > 1 {
        notes_head(a);
        assert(u =~= note_material(a[0]) + (","@ + (notes_material(a.skip(1)) + (seq![']'] + x))));
    }
    if b.len() > 1 {
        notes_head(b);
        assert(v =~= note_material(b[0]) + (","@ + (notes_material(b.skip(1)) + (seq![']'] + y))));
    }
    if a.len() == 0 {
        assert(u[0] == ']');
        if b.len() > 0 {
            assert(v[0] == '[');
        }
        assert(a =~= b);
        same_front(notes_material(a), seq![']'] + x, seq![']'] + y);
        same_front(seq![']'], x, y);
    } else if b.len() == 0 {
        assert(v[0] == ']');
        assert(u[0] == '[');
    } else {
        let p = if a.len() > 1 {
            ","@ + (notes_material(a.skip(1)) + (seq![']'] + x))
        } else {
            seq![']'] + x
        };
        let q = if b.len() > 1 {
            ","@ + (notes_material(b.skip(1)) + (seq![']'] + y))
        } else {
            seq![']'] + y
        };
        assert(u == note_material(a[0]) + p);
        assert(v == note_material(b[0]) + q);
        note_ends(a[0], b[0], p, q);
        assert(p[0] == q[0]);
        if a.len() > 1 {
            assert(b.len() > 1);
            same_front(
                ","@,
                notes_material(a.skip(1)) + (seq![']'] + x),
                notes_material(b.skip(1)) + (seq![']'] + y),
            );
            notes_end(a.skip(1), b.skip(1), x, y);
            assert(a =~= seq![a[0]] + a.skip(1));
            assert(b =~= seq![b[0]] + b.skip(1));
        } else {
            assert(b.len() == 1);
            same_front(seq![']'], x, y);
            assert(a =~= b);
        }
    }
}

proof fn group_fifteen(p0: Seq<char>, p1: Seq<char>, p2: Seq<char>, p3: Seq<char>, p4: Seq<char>, p5: Seq<char>, p6: Seq<char>, p7: Seq<char>, p8: Seq<char>, p9: Seq<char>, p10: Seq<char>, p11: Seq<char>, p12: Seq<char>, p13: Seq<char>, p14: Seq<char>)
    ensures
        p0 + p1 + p2 + p3 + p4 + p5 + p6 + p7 + p8 + p9 + p10 + p11 + p12 + p13 + p14 == p0 + (p1 + (p2 + (p3 + (p4 + (p5 + (p6 + (p7 + (p8 + (p9 + (p10 + (p11 + (p12 + (p13 + p14))))))))))))),
{
    let q1 = p0 + p1;
    let q2 = q1 + p2;
    let q3 = q2 + p3;
    let q4 = q3 + p4;
    let q5 = q4 + p5;
    let q6 = q5 + p6;
    let q7 = q6 + p7;
    let q8 = q7 + p8;
    let q9 = q8 + p9;
    let q10 = q9 + p10;
    let q11 = q10 + p11;
    let q12 = q11 + p12;
    let q13 = q12 + p13;
    let s14 = p14;
    let s13 = p13 + s14;
    let s12 = p12 + s13;
    let s11 = p11 + s12;
    let s10 = p10 + s11;
    let s9 = p9 + s10;
    let s8 = p8 + s9;
    let s7 = p7 + s8;
    let s6 = p6 + s7;
    let s5 = p5 + s6;
    let s4 = p4 + s5;
    let s3 = p3 + s4;
    let s2 = p2 + s3;
    let s1 = p1 + s2;
    group(q12, p13, s14);
    group(q11, p12, s13);
    group(q10, p11, s12);
    group(q9, p10, s11);
    group(q8, p9, s10);
    group(q7, p8, s9);
    group(q6, p7, s8);
    group(q5, p6, s7);
    group(q4, p5, s6);
    group(q3, p4, s5);
    group(q2, p3, s4);
    group(q1, p2, s3);
    group(p0, p1, s2);
}

/// The text that the hash of a batch is taken of tells batches apart: where it is the same, so are
/// the identifier, the tenant, the sequence number, the hash before, the idempotency key, what is
/// recorded of every event, and the notes.
pub proof fn law_materials_tell_batches_apart(a: CommitBatchModel, b: CommitBatchModel)
    requires
        commit_material(a) == commit_material(b),
    ensures
        a.id == b.id,
        a.tenant_id == b.tenant_id,
        a.sequence == b.sequence,
        a.previous_hash == b.previous_hash,
        a.idempotency_key == b.idempotency_key,
        a.event_records == b.event_records,
        a.metadata == b.metadata,
{
    reveal_strlit("],\"metadata\":[");
    reveal_strlit("]}");
    reveal_strlit(",\"previous_hash\":");
    let l1 = "{\"id\":"@;
    let l2 = ",\"tenant_id\":"@;
    let l3 = ",\"sequence\":"@;
    let l4 = ",\"previous_hash\":"@;
    let l5 = ",\"idempotency_key\":"@;
    let l6 = ",\"event_records\":["@;
    let l7 = "],\"metadata\":["@;
    let l8 = "]}"@;
    let m7 = l7.skip(1);
    let m8 = l8.skip(1);
    assert(l7 =~= seq![']'] + m7);
    assert(l8 =~= seq![']'] + m8);
    let a8 = notes_material(a.metadata) + l8;
    let b8 = notes_material(b.metadata) + l8;
    let a7 = events_material(a.event_records) + (l7 + a8);
    let b7 = events_material(b.event_records) + (l7 + b8);
    group(seq![']'], m7, a8);
    group(seq![']'], m7, b8);
    let a6 = l6 + a7;
    let b6 = l6 + b7;
    let a5 = l5 + (json_optional(a.idempotency_key) + a6);
    let b5 = l5 + (json_optional(b.idempotency_key) + b6);
    let a4 = l4 + (json_optional(a.previous_hash) + a5);
    let b4 = l4 + (json_optional(b.previous_hash) + b5);
    let a3 = l3 + (decimal_text(a.sequence as nat) + a4);
    let b3 = l3 + (decimal_text(b.sequence as nat) + b4);
    let a2 = l2 + (json_optional(a.tenant_id) + a3);
    let b2 = l2 + (json_optional(b.tenant_id) + b3);
    group_fifteen(
        l1,
        json_text(a.id),
        l2,
        json_optional(a.tenant_id),
        l3,
        decimal_text(a.sequence as nat),
        l4,
        json_optional(a.previous_hash),
        l5,
        json_optional(a.idempotency_key),
        l6,
        events_material(a.event_records),
        l7,
        notes_material(a.metadata),
        l8,
    );
    group_fifteen(
        l1,
        json_text(b.id),
        l2,
        json_optional(b.tenant_id),
        l3,
        decimal_text(b.sequence as nat),
        l4,
        json_optional(b.previous_hash),
        l5,
        json_optional(b.idempotency_key),
        l6,
        events_material(b.event_records),
        l7,
        notes_material(b.metadata),
        l8,
    );
    assert(commit_material(a) == l1 + (json_text(a.id) + a2));
    assert(commit_material(b) == l1 + (json_text(b.id) + b2));
    same_front(l1, json_text(a.id) + a2, json_text(b.id) + b2);
    json_ends(a.id, b.id, a2, b2);
    same_front(l2, json_optional(a.tenant_id) + a3, json_optional(b.tenant_id) + b3);
    json_optional_ends(a.tenant_id, b.tenant_id, a3, b3);
    same_front(l3, decimal_text(a.sequence as nat) + a4, decimal_text(b.sequence as nat) + b4);
    decimals_end(a.sequence as nat, b.sequence as nat, a4, b4);
    same_front(l4, json_optional(a.previous_hash) + a5, json_optional(b.previous_hash) + b5);
    json_optional_ends(a.previous_hash, b.previous_hash, a5, b5);
    same_front(l5, json_optional(a.idempotency_key) + a6, json_optional(b.idempotency_key) + b6);
    json_optional_ends(a.idempotency_key, b.idempotency_key, a6, b6);
    same_front(l6, a7, b7);
    events_end(a.event_records, b.event_records, m7 + a8, m7 + b8);
    same_front(m7, a8, b8);
    notes_end(a.metadata, b.metadata, m8, m8);
}

proof fn hex_texts_differ(n: nat, m: nat, width: nat)
    requires
        n < crate::number::two_to(4 * width),
        m < crate::number::two_to(4 * width),
        hex_text(n, width) == hex_text(m, width),
    ensures
        n == m,
    decreases width,
{
    assert(crate::number::two_to(0) == 1);
    if width > 0 {
        let w = (width - 1) as nat;
        crate::number::two_to_sum(4, 4 * w);
        reveal_with_fuel(crate::number::two_to, 5);
        assert(crate::number::two_to(4) == 16);
        assert(n / 16 < crate::number::two_to(4 * w)) by (nonlinear_arith)
            requires
                n < 16 * crate::number::two_to(4 * w),
        ;
        assert(m / 16 < crate::number::two_to(4 * w)) by (nonlinear_arith)
            requires
                m < 16 * crate::number::two_to(4 * w),
        ;
        assert(hex_text(n, width).drop_last() =~= hex_text(n / 16, w));
        assert(hex_text(m, width).drop_last() =~= hex_text(m / 16, w));
        assert(hex_text(n, width).last() == hex_digit(n % 16));
        assert(hex_text(m, width).last() == hex_digit(m % 16));
        hex_texts_differ(n / 16, m / 16, w);
        hex_digits_differ(n % 16, m % 16);
        assert(n == 16 * (n / 16) + n % 16);
        assert(m == 16 * (m / 16) + m % 16);
    } else {
        assert(4 * width == 0);
    }
}

/// A digest tells hashes apart: two texts have one digest exactly where they have one hash.
pub proof fn law_digests_tell_hashes_apart(a: Seq<char>, b: Seq<char>)
    ensures
        digest(a) == digest(b) <==> text_hash(a) == text_hash(b),
{
    if digest(a) == digest(b) {
        same_front("engine-v0:"@, hex_text(text_hash(a) as nat, 16), hex_text(text_hash(b) as nat, 16));
        crate::number::two_to_wide_values();
        hex_texts_differ(text_hash(a) as nat, text_hash(b) as nat, 16);
    }
}

} // verus!

//! Laws of texts: how lists and numbers are written.

use crate::text::{decimal_text, joined, signed_text};
use crate::time::{whole_seconds, Timestamp};
use vstd::prelude::*;

verus! {

/// A text joined to others stands behind them, with the separator in between; alone it stands
/// without one.
pub proof fn law_texts_are_joined_by_the_separator(list: Seq<Seq<char>>, text: Seq<char>, separator: Seq<char>)
    ensures
        joined(Seq::empty(), separator) == Seq::<char>::empty(),
        joined(seq![text], separator) == text,
        list.len() > 0 ==> joined(list.push(text), separator) == joined(list, separator) + separator + text,
        list.len() > 0 ==> joined(list.push(text), separator).len() == joined(list, separator).len() + separator.len()
            + text.len(),
{
    assert(list.push(text).drop_last() =~= list);
}

/// A number below zero is written as the one above zero with a sign in front.
pub proof fn law_numbers_below_zero_have_a_sign(n: nat)
    ensures
        signed_text(n as int) == decimal_text(n),
        n > 0 ==> signed_text(-(n as int)) == seq!['-'] + decimal_text(n),
{
}

/// Seconds are cut towards zero: as many lie between two times as between the same times in the
/// other order, and what is less than a second is none.
pub proof fn law_seconds_are_cut_towards_zero(n: nat)
    ensures
        whole_seconds(-(n as int)) == -whole_seconds(n as int),
        whole_seconds(n as int) * 1_000_000_000 <= n < (whole_seconds(n as int) + 1) * 1_000_000_000,
        n < 1_000_000_000 ==> whole_seconds(n as int) == 0,
{
}

/// Times are ordered by their seconds and then by what is less than a second.
pub proof fn law_times_are_ordered(one: Timestamp, other: Timestamp)
    requires
        one.nanos < 1_000_000_000,
        other.nanos < 1_000_000_000,
    ensures
        one.total_nanos() < other.total_nanos() <==> one.seconds < other.seconds || (one.seconds == other.seconds
            && one.nanos < other.nanos),
        one.total_nanos() == other.total_nanos() <==> one == other,
        0 <= one.hour_of_day() < 24,
        one.seconds + 86_400 == other.seconds ==> one.hour_of_day() == other.hour_of_day(),
        one.seconds + 3_600 == other.seconds ==> other.hour_of_day() == (one.hour_of_day() + 1) % 24,
{
}

} // verus!

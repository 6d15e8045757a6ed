//! The calendar, and what a timestamp has to look like.
use crate::time::{
    civil_days, civil_seconds, digits_at, digits_end, epoch, instant, is_digit_byte, is_fraction,
    number_at, offset_forms_are_read, offset_seconds, offset_start, two_digits,
    utc_forms_are_read, well_formed_civil,
};
use vstd::prelude::*;
use vstd::utf8::encode_utf8;

verus! {

/// How many days a month has.
pub open spec fn length_of_month(y: int, m: int) -> int {
    if m == 2 {
        if (y % 4 == 0 && y % 100 != 0) || y % 400 == 0 {
            29
        } else {
            28
        }
    } else if m == 4 || m == 6 || m == 9 || m == 11 {
        30
    } else {
        31
    }
}

/// Days are counted one by one from the first of 1970: each day is one more than the day before,
/// over the ends of months and of years.
pub proof fn days_are_counted_one_by_one(y: int, m: int, d: int)
    ensures
        civil_days(1970, 1, 1) == 0,
        civil_days(y, m, d + 1) == civil_days(y, m, d) + 1,
        1 <= m < 12 ==> civil_days(y, m + 1, 1) == civil_days(y, m, length_of_month(y, m)) + 1,
        civil_days(y + 1, 1, 1) == civil_days(y, 12, 31) + 1,
{
    assert(civil_days(1970, 1, 1) == 0);
    let z = y - 1;
    assert(y / 4 == z / 4 + (if y % 4 == 0 {
        1int
    } else {
        0
    }));
    assert(y / 100 == z / 100 + (if y % 100 == 0 {
        1int
    } else {
        0
    }));
    assert(y / 400 == z / 400 + (if y % 400 == 0 {
        1int
    } else {
        0
    }));
    assert(y % 400 == 0 ==> y % 100 == 0);
    assert(y % 100 == 0 ==> y % 4 == 0);
}

/// The digits of a timestamp, read as numbers, and the seconds they come to.
pub proof fn timestamps_are_read_by_place(b: Seq<u8>)
    requires
        b.len() >= 19,
    ensures
        ({
            let two = |i: int| 10 * (b[i] - 48) + (b[i + 1] - 48);
            let y = 1000 * (b[0] - 48) + 100 * (b[1] - 48) + 10 * (b[2] - 48) + (b[3] - 48);
            &&& number_at(b, 0, 4) == y
            &&& number_at(b, 5, 7) == two(5) && number_at(b, 8, 10) == two(8)
            &&& number_at(b, 11, 13) == two(11) && number_at(b, 14, 16) == two(14)
            &&& number_at(b, 17, 19) == two(17)
            &&& civil_seconds(b) == civil_days(y, two(5), two(8)) * 86400 + two(11) * 3600 + two(14)
                * 60 + two(17)
        }),
{
    reveal_with_fuel(number_at, 5);
}

/// What has no date and time of day, in digits at their places, with hyphens and colons between
/// them and within their ranges, is no timestamp.
pub proof fn no_timestamp_without_a_civil_time(b: Seq<u8>)
    requires
        epoch(b) is Some,
    ensures
        b.len() >= 19,
        b[4] == 0x2d && b[7] == 0x2d && b[13] == 0x3a && b[16] == 0x3a,
        b[10] == 0x54 || b[10] == 0x74 || b[10] == 0x20,
        forall|i: int|
            0 <= i < 19 && i != 4 && i != 7 && i != 10 && i != 13 && i != 16 ==> 0x30 <= (
            #[trigger] b[i]) <= 0x39,
        1 <= number_at(b, 5, 7) <= 12,
        1 <= number_at(b, 8, 10) <= 31,
        number_at(b, 11, 13) <= 23,
        number_at(b, 14, 16) <= 59,
        number_at(b, 17, 19) <= 60,
{
    assert forall|i: int|
        0 <= i < 19 && i != 4 && i != 7 && i != 10 && i != 13 && i != 16 implies 0x30 <= (
    #[trigger] b[i]) <= 0x39 by {
        assert(is_digit_byte(b[i]));
    }
}

/// What has them is a civil time, whatever follows.
pub proof fn civil_times_are_what_looks_like_one(b: Seq<u8>)
    requires
        b.len() >= 19,
        b[4] == 0x2d && b[7] == 0x2d && b[13] == 0x3a && b[16] == 0x3a,
        b[10] == 0x54 || b[10] == 0x74 || b[10] == 0x20,
        forall|i: int|
            0 <= i < 19 && i != 4 && i != 7 && i != 10 && i != 13 && i != 16 ==> 0x30 <= (
            #[trigger] b[i]) <= 0x39,
        1 <= number_at(b, 5, 7) <= 12,
        1 <= number_at(b, 8, 10) <= 31,
        number_at(b, 11, 13) <= 23,
        number_at(b, 14, 16) <= 59,
        number_at(b, 17, 19) <= 60,
    ensures
        well_formed_civil(b),
{
}

proof fn digits_run_to_their_end(b: Seq<u8>, i: int)
    requires
        0 <= i <= b.len(),
    ensures
        i <= digits_end(b, i) <= b.len(),
        digits_at(b, i, digits_end(b, i)),
        digits_end(b, i) < b.len() ==> !is_digit_byte(b[digits_end(b, i)]),
    decreases b.len() - i,
{
    if i < b.len() && is_digit_byte(b[i]) {
        digits_run_to_their_end(b, i + 1);
    }
}

/// What follows a civil time is a fraction or nothing, and then nothing, a `Z` or `z`, or a sign
/// and an offset in digits that is less than a day: hours alone, hours and minutes, or the two
/// with a colon between. Anything else is no timestamp.
pub proof fn no_timestamp_with_another_tail(b: Seq<u8>)
    requires
        epoch(b) is Some,
    ensures
        ({
            let at = offset_start(b)->0;
            let t = b.skip(at);
            let digit = |i: int| 0x30 <= t[i] <= 0x39;
            &&& 19 <= at <= b.len()
            &&& is_fraction(b.subrange(19, at))
            &&& t.len() == 0 || (t.len() == 1 && (t[0] == 0x5a || t[0] == 0x7a)) || ((t[0] == 0x2b
                || t[0] == 0x2d) && digit(1) && digit(2) && 10 * (t[1] - 48) + (t[2] - 48) <= 23
                && (t.len() == 3 || (t.len() == 5 && digit(3) && digit(4) && t[3] <= 0x35) || (
            t.len() == 6 && t[3] == 0x3a && digit(4) && digit(5) && t[4] <= 0x35)))
        }),
{
    if b.len() > 19 && (b[19] == 46 || b[19] == 44) {
        digits_run_to_their_end(b, 20);
        let at = digits_end(b, 20);
        let f = b.subrange(19, at);
        assert forall|i: int| 1 <= i < f.len() implies is_digit_byte(#[trigger] f[i]) by {
            assert(is_digit_byte(b[19 + i]));
        }
    }
    let at = offset_start(b)->0;
    let t = b.skip(at);
    assert(forall|i: int| 0 <= i < t.len() ==> t[i] == b[at + i]);
    assert(offset_seconds(b, at) is Some);
    if t.len() > 1 {
        assert(t[0] == b[at] && t[1] == b[at + 1]);
    }
    if t.len() >= 3 {
        assert(t[2] == b[at + 2]);
    }
    if t.len() == 5 {
        assert(t[3] == b[at + 3] && t[4] == b[at + 4]);
    }
    if t.len() == 6 {
        assert(t[3] == b[at + 3] && t[4] == b[at + 4] && t[5] == b[at + 5]);
    }
}

/// A text is read by its bytes, to the second and on either side of the epoch: as UTC where its
/// clock time stands alone or before a `Z`, and else by the offset it is written with.
pub proof fn texts_are_read_by_their_bytes(text: Seq<char>, civil: Seq<u8>, fraction: Seq<u8>)
    requires
        civil.len() == 19,
        well_formed_civil(civil),
        is_fraction(fraction),
    ensures
        encode_utf8(text) == civil + fraction ==> instant(text) == Some(civil_seconds(civil)),
        encode_utf8(text) == civil + fraction + seq![90u8] ==> instant(text) == Some(
            civil_seconds(civil),
        ),
        forall|h: int, m: int|
            0 <= h <= 23 && 0 <= m <= 59 && encode_utf8(text) == #[trigger] (civil + fraction + (
            seq![43u8] + two_digits(h) + seq![58u8] + two_digits(m))) ==> instant(text) == Some(
                civil_seconds(civil) - h * 3600 - m * 60,
            ),
        epoch(encode_utf8(text)) is None <==> instant(text) is None,
{
    utc_forms_are_read(civil, fraction);
    assert forall|h: int, m: int|
        0 <= h <= 23 && 0 <= m <= 59 && encode_utf8(text) == #[trigger] (civil + fraction + (
        seq![43u8] + two_digits(h) + seq![58u8] + two_digits(m))) implies instant(text) == Some(
        civil_seconds(civil) - h * 3600 - m * 60,
    ) by {
        offset_forms_are_read(civil, fraction, 43, h, m);
    }
}

} // verus!

//! Timestamps: civil dates, epoch seconds and the comparison of two renderings of an instant.
use crate::text::same;
use vstd::prelude::*;
use vstd::string::StringSliceAdditionalSpecFns;
use vstd::utf8::encode_utf8;

verus! {

/// A leap year of the proleptic Gregorian calendar.
pub open spec fn is_leap(y: int) -> bool {
    y % 4 == 0 && (y % 100 != 0 || y % 400 == 0)
}

/// Days between the first day of year 1 and the first day of year `y`.
pub open spec fn days_before_year(y: int) -> int {
    365 * (y - 1) + (y - 1) / 4 - (y - 1) / 100 + (y - 1) / 400
}

/// Days of a year before its month `m`.
pub open spec fn days_before_month(y: int, m: int) -> int {
    let feb: int = if is_leap(y) { 29 } else { 28 };
    if m == 1 { 0 }
    else if m == 2 { 31 }
    else if m == 3 { 31 + feb }
    else if m == 4 { 62 + feb }
    else if m == 5 { 92 + feb }
    else if m == 6 { 123 + feb }
    else if m == 7 { 153 + feb }
    else if m == 8 { 184 + feb }
    else if m == 9 { 215 + feb }
    else if m == 10 { 245 + feb }
    else if m == 11 { 276 + feb }
    else { 306 + feb }
}

/// Days from 1970-01-01 to a civil date.
pub open spec fn civil_days(y: int, m: int, d: int) -> int {
    days_before_year(y) + days_before_month(y, m) + d - 1 - 719162
}

/// An ASCII digit, as a byte.
pub open spec fn is_digit_byte(b: u8) -> bool {
    48 <= b <= 57
}

/// The digits at `lo..hi`.
pub open spec fn digits_at(b: Seq<u8>, lo: int, hi: int) -> bool {
    forall|i: int| lo <= i < hi ==> is_digit_byte(#[trigger] b[i])
}

/// The number the digits at `lo..hi` write.
pub open spec fn number_at(b: Seq<u8>, lo: int, hi: int) -> int
    decreases hi - lo,
{
    if hi <= lo {
        0
    } else {
        10 * number_at(b, lo, hi - 1) + (b[hi - 1] - 48)
    }
}

/// The first position from `i` on that holds no digit.
pub open spec fn digits_end(b: Seq<u8>, i: int) -> int
    decreases b.len() - i,
{
    if i < b.len() && is_digit_byte(b[i]) {
        digits_end(b, i + 1)
    } else {
        i
    }
}

/// A date and a time of day of the right shape and within their ranges. Each month takes up
/// to 31 days, and the second 60 is a leap second.
pub open spec fn well_formed_civil(b: Seq<u8>) -> bool {
    &&& b.len() >= 19
    &&& b[4] == 45 && b[7] == 45 && b[13] == 58 && b[16] == 58
    &&& b[10] == 84 || b[10] == 116 || b[10] == 32
    &&& digits_at(b, 0, 4) && digits_at(b, 5, 7) && digits_at(b, 8, 10)
    &&& digits_at(b, 11, 13) && digits_at(b, 14, 16) && digits_at(b, 17, 19)
    &&& 1 <= number_at(b, 5, 7) <= 12
    &&& 1 <= number_at(b, 8, 10) <= 31
    &&& number_at(b, 11, 13) <= 23
    &&& number_at(b, 14, 16) <= 59
    &&& number_at(b, 17, 19) <= 60
}

/// Epoch seconds of the civil part, read as UTC.
pub open spec fn civil_seconds(b: Seq<u8>) -> int {
    civil_days(number_at(b, 0, 4), number_at(b, 5, 7), number_at(b, 8, 10)) * 86400 + number_at(
        b,
        11,
        13,
    ) * 3600 + number_at(b, 14, 16) * 60 + number_at(b, 17, 19)
}

/// Where the offset begins: after an optional fraction, which needs at least one digit.
pub open spec fn offset_start(b: Seq<u8>) -> Option<int> {
    if b.len() > 19 && (b[19] == 46 || b[19] == 44) {
        if digits_end(b, 20) > 20 {
            Some(digits_end(b, 20))
        } else {
            None
        }
    } else {
        Some(19)
    }
}

/// A number of two digits.
pub open spec fn two_chars(b: Seq<u8>, at: int) -> Option<int> {
    if is_digit_byte(b[at]) && is_digit_byte(b[at + 1]) {
        Some(10 * (b[at] - 48) + (b[at + 1] - 48))
    } else {
        None
    }
}

/// Seconds of an hour and minute offset, if both are in range.
pub open spec fn hours_minutes(h: Option<int>, m: Option<int>) -> Option<int> {
    match (h, m) {
        (Some(h), Some(m)) => if h <= 23 && m <= 59 {
            Some(h * 3600 + m * 60)
        } else {
            None
        },
        _ => None,
    }
}

/// The offset from UTC written at `at`, in seconds: nothing, `Z`, `+HH:MM`, `+HHMM` or `+HH`,
/// with either sign.
pub open spec fn offset_seconds(b: Seq<u8>, at: int) -> Option<int> {
    let n = b.len() - at;
    if n == 0 {
        Some(0)
    } else if n == 1 && (b[at] == 90 || b[at] == 122) {
        Some(0)
    } else if b[at] == 43 || b[at] == 45 {
        let magnitude = if n == 6 && b[at + 3] == 58 {
            hours_minutes(two_chars(b, at + 1), two_chars(b, at + 4))
        } else if n == 5 {
            hours_minutes(two_chars(b, at + 1), two_chars(b, at + 3))
        } else if n == 3 {
            hours_minutes(two_chars(b, at + 1), Some(0))
        } else {
            None
        };
        match magnitude {
            Some(s) => Some(if b[at] == 43 { s } else { -s }),
            None => None,
        }
    } else {
        None
    }
}

/// The instant a timestamp denotes, in epoch seconds.
pub open spec fn epoch(b: Seq<u8>) -> Option<int> {
    if !well_formed_civil(b) {
        None
    } else {
        match offset_start(b) {
            None => None,
            Some(at) => match offset_seconds(b, at) {
                None => None,
                Some(off) => Some(civil_seconds(b) - off),
            },
        }
    }
}

/// The instant a text denotes, read as the bytes of its UTF-8 form.
pub open spec fn instant(text: Seq<char>) -> Option<int> {
    epoch(encode_utf8(text))
}

/// Whether two timestamps denote the same moment, or are the same text where either is not
/// one.
pub open spec fn same_moment(a: Seq<char>, b: Seq<char>) -> bool {
    match (instant(a), instant(b)) {
        (Some(x), Some(y)) => x == y,
        _ => a == b,
    }
}

proof fn fours_step(y: int)
    ensures
        y / 4 == (y - 1) / 4 + (if y % 4 == 0 {
            1int
        } else {
            0
        }),
{
}

proof fn hundreds_step(y: int)
    ensures
        y / 100 == (y - 1) / 100 + (if y % 100 == 0 {
            1int
        } else {
            0
        }),
        y % 100 == 0 ==> y % 4 == 0,
{
}

proof fn eras_step(y: int)
    ensures
        y / 400 == (y - 1) / 400 + (if y % 400 == 0 {
            1int
        } else {
            0
        }),
        y % 400 == 0 ==> y % 100 == 0,
{
}

/// A leap year has one leap day more behind it at its end than at its beginning.
proof fn leap_days_add_up(y: int)
    ensures
        y / 4 - y / 100 + y / 400 == (y - 1) / 4 - (y - 1) / 100 + (y - 1) / 400 + (if is_leap(y) {
            1int
        } else {
            0
        }),
{
    fours_step(y);
    hundreds_step(y);
    eras_step(y);
}

/// Days of whole eras and of the years into one.
proof fn eras_add_up(z: int, e: int, o: int)
    requires
        e == z / 400,
        o == z - e * 400,
    ensures
        0 <= o < 400,
        e * 146_097 + o * 365 + o / 4 - o / 100 == 365 * z + z / 4 - z / 100 + z / 400,
{
    assert(0 <= o < 400);
    assert(z / 4 == 100 * e + o / 4);
    assert(z / 100 == 4 * e + o / 100);
}

/// Days of the months since March, month by month.
proof fn months_add_up(y: int, m: int)
    requires
        1 <= m <= 12,
    ensures
        m > 2 ==> (153 * ((m + 9) % 12) + 2) / 5 == days_before_month(y, m) - (if is_leap(y) {
            60int
        } else {
            59
        }),
        m <= 2 ==> (153 * ((m + 9) % 12) + 2) / 5 == days_before_month(y, m) + 306,
{
    assert(m == 1 || m == 2 || m == 3 || m == 4 || m == 5 || m == 6 || m == 7 || m == 8 || m == 9
        || m == 10 || m == 11 || m == 12);
}

/// A civil date by eras of 400 years that begin in March.
proof fn civil_days_by_eras(y: int, m: int, d: int, z: int, e: int, o: int)
    requires
        1 <= m <= 12,
        z == (if m <= 2 {
            y - 1
        } else {
            y
        }),
        e == z / 400,
        o == z - e * 400,
    ensures
        0 <= o < 400,
        e * 146_097 + (o * 365 + o / 4 - o / 100 + ((153 * ((m + 9) % 12) + 2) / 5 + d - 1))
            - 719_468 == civil_days(y, m, d),
{
    eras_add_up(z, e, o);
    leap_days_add_up(y);
    months_add_up(y, m);
}

/// The era of a year, by a division that rounds toward zero.
proof fn eras_round_down(z: int, base: int)
    requires
        base == (if z >= 0 {
            z
        } else {
            z - 399
        }),
    ensures
        z >= 0 ==> base / 400 == z / 400,
        z < 0 ==> -((-base) / 400) == z / 400,
{
}

/// Days from 1970-01-01 to a proleptic-Gregorian date, by eras of 400 years.
pub fn days_from_civil(y: i64, m: i64, d: i64) -> (r: i64)
    requires
        1 <= m <= 12,
        i64::MIN <= civil_days(y as int, m as int, d as int) <= i64::MAX,
    ensures
        r == civil_days(y as int, m as int, d as int),
{
    let z: i128 = if m <= 2 {
        y as i128 - 1
    } else {
        y as i128
    };
    let era: i128 = era_of(z);
    let yoe: i128 = z - era * 400;
    let mp: i128 = (m as i128 + 9) % 12;
    proof {
        civil_days_by_eras(y as int, m as int, d as int, z as int, era as int, yoe as int);
    }
    let doy: i128 = (153 * mp + 2) / 5 + d as i128 - 1;
    let doe: i128 = yoe * 365 + yoe / 4 - yoe / 100 + doy;
    (era * 146_097 + doe - 719_468) as i64
}

/// The era of 400 years that a year lies in.
fn era_of(z: i128) -> (r: i128)
    requires
        i64::MIN - 1 <= z <= i64::MAX,
    ensures
        r == z as int / 400,
{
    let base: i128 = if z >= 0 {
        z
    } else {
        z - 399
    };
    proof {
        eras_round_down(z as int, base as int);
    }
    base / 400
}

/// The number written by the digits at `lo..hi`, if digits they are.
fn number(b: &[u8], lo: usize, hi: usize) -> (r: Option<i64>)
    requires
        lo < hi <= b@.len(),
        hi - lo <= 4,
    ensures
        r is Some <==> digits_at(b@, lo as int, hi as int),
        r is Some ==> r->0 == number_at(b@, lo as int, hi as int) && 0 <= r->0 < 10_000,
{
    let mut n: i64 = 0;
    let ghost mut cap: int = 1;
    for i in lo..hi
        invariant
            lo < hi <= b@.len(),
            hi - lo <= 4,
            digits_at(b@, lo as int, i as int),
            n == number_at(b@, lo as int, i as int),
            0 <= n < cap,
            cap == if i - lo == 0 { 1int } else if i - lo == 1 { 10 } else if i - lo == 2 { 100 } else if i - lo == 3 { 1000 } else { 10_000 },
    {
        let c: u8 = b[i];
        if c < 48 || c > 57 {
            assert(!is_digit_byte(b@[i as int]));
            return None;
        }
        n = 10 * n + (c - 48) as i64;
        proof {
            cap = 10 * cap;
        }
    }
    Some(n)
}

/// The number of two digits at `at`.
fn two(b: &[u8], at: usize) -> (r: Option<i64>)
    requires
        at + 2 <= b@.len(),
    ensures
        r is Some <==> two_chars(b@, at as int) is Some,
        r is Some ==> r->0 == two_chars(b@, at as int)->0 && 0 <= r->0 <= 99,
{
    let x: u8 = b[at];
    let y: u8 = b[at + 1];
    if x < 48 || x > 57 || y < 48 || y > 57 {
        return None;
    }
    Some(10 * (x - 48) as i64 + (y - 48) as i64)
}

/// The offset written at `at`.
fn offset(b: &[u8], at: usize) -> (r: Option<i64>)
    requires
        at <= b@.len(),
    ensures
        r is Some <==> offset_seconds(b@, at as int) is Some,
        r is Some ==> r->0 == offset_seconds(b@, at as int)->0 && -100_000 <= r->0 <= 100_000,
{
    let n: usize = b.len() - at;
    if n == 0 {
        return Some(0);
    }
    let lead: u8 = b[at];
    if n == 1 && (lead == 90 || lead == 122) {
        return Some(0);
    }
    if lead != 43 && lead != 45 {
        return None;
    }
    let parts: (Option<i64>, Option<i64>) = if n == 6 && b[at + 3] == 58 {
        (two(b, at + 1), two(b, at + 4))
    } else if n == 5 {
        (two(b, at + 1), two(b, at + 3))
    } else if n == 3 {
        (two(b, at + 1), Some(0))
    } else {
        return None;
    };
    match parts {
        (Some(h), Some(m)) => {
            if h <= 23 && m <= 59 {
                let s: i64 = h * 3600 + m * 60;
                if lead == 43 {
                    Some(s)
                } else {
                    Some(-s)
                }
            } else {
                None
            }
        },
        _ => None,
    }
}

/// Reads an RFC 3339 timestamp as epoch seconds; `None` where the shape is not recognised.
///
/// It takes `YYYY-MM-DDTHH:MM:SS`, an optional fraction (dropped) and an optional `Z` or
/// offset. A timestamp without an offset is read as UTC.
pub fn parse_rfc3339_epoch(s: &str) -> (r: Option<i64>)
    ensures
        r is Some <==> instant(s@) is Some,
        r is Some ==> r->0 == instant(s@)->0,
{
    let b: &[u8] = s.as_bytes();
    if b.len() < 19 {
        return None;
    }
    if b[4] != 45 || b[7] != 45 || b[13] != 58 || b[16] != 58 {
        return None;
    }
    if b[10] != 84 && b[10] != 116 && b[10] != 32 {
        return None;
    }
    let year: i64 = match number(b, 0, 4) {
        Some(n) => n,
        None => return None,
    };
    let month: i64 = match number(b, 5, 7) {
        Some(n) => n,
        None => return None,
    };
    let day: i64 = match number(b, 8, 10) {
        Some(n) => n,
        None => return None,
    };
    let hour: i64 = match number(b, 11, 13) {
        Some(n) => n,
        None => return None,
    };
    let minute: i64 = match number(b, 14, 16) {
        Some(n) => n,
        None => return None,
    };
    let second: i64 = match number(b, 17, 19) {
        Some(n) => n,
        None => return None,
    };
    if month < 1 || month > 12 || day < 1 || day > 31 {
        return None;
    }
    if hour > 23 || minute > 59 || second > 60 {
        return None;
    }
    assert(well_formed_civil(b@));
    let mut at: usize = 19;
    if b.len() > 19 && (b[19] == 46 || b[19] == 44) {
        at = 20;
        while at < b.len() && 48 <= b[at] && b[at] <= 57
            invariant
                20 <= at <= b@.len(),
                digits_end(b@, 20) == digits_end(b@, at as int),
            decreases b@.len() - at,
        {
            at = at + 1;
        }
        assert(digits_end(b@, 20) == at);
        if at == 20 {
            return None;
        }
    }
    match offset(b, at) {
        None => None,
        Some(off) => {
            assert(-800_000 <= civil_days(year as int, month as int, day as int) <= 10_000_000);
            let days: i64 = days_from_civil(year, month, day);
            Some(days * 86_400 + hour * 3_600 + minute * 60 + second - off)
        },
    }
}

/// Whether two `created` timestamps denote the same moment.
///
/// Two readable timestamps are compared as instants, so another rendering of the same moment
/// is no change. Where either is unreadable the texts themselves are compared.
pub fn created_matches(a: &str, b: &str) -> (r: bool)
    ensures
        r == same_moment(a@, b@),
{
    match (parse_rfc3339_epoch(a), parse_rfc3339_epoch(b)) {
        (Some(x), Some(y)) => x == y,
        _ => same(a, b),
    }
}

/// The comparison of moments is an equivalence: reflexive, symmetric and transitive.
pub proof fn same_moment_is_an_equivalence(a: Seq<char>, b: Seq<char>, c: Seq<char>)
    ensures
        same_moment(a, a),
        same_moment(a, b) == same_moment(b, a),
        same_moment(a, b) && same_moment(b, c) ==> same_moment(a, c),
{
}

/// Two digits that write a number.
pub open spec fn two_digits(n: int) -> Seq<u8> {
    seq![(48 + n / 10) as u8, (48 + n % 10) as u8]
}

/// A fraction of a second as it may be written: nothing, or a point or comma and digits.
pub open spec fn is_fraction(f: Seq<u8>) -> bool {
    f.len() == 0 || (f.len() >= 2 && (f[0] == 46 || f[0] == 44) && digits_at(f, 1, f.len() as int))
}

proof fn digits_run_on(b: Seq<u8>, i: int, end: int)
    requires
        0 <= i <= end <= b.len(),
        digits_at(b, i, end),
        end < b.len() ==> !is_digit_byte(b[end]),
    ensures
        digits_end(b, i) == end,
    decreases end - i,
{
    if i < end {
        assert(is_digit_byte(b[i]));
        digits_run_on(b, i + 1, end);
    }
}

/// A civil time, a fraction and what follows are read as such: the offset begins after the
/// fraction.
proof fn parts_are_found(civil: Seq<u8>, fraction: Seq<u8>, tail: Seq<u8>)
    requires
        civil.len() == 19,
        well_formed_civil(civil),
        is_fraction(fraction),
        tail.len() > 0 ==> !is_digit_byte(tail[0]) && tail[0] != 46 && tail[0] != 44,
    ensures
        ({
            let b = civil + fraction + tail;
            &&& well_formed_civil(b)
            &&& civil_seconds(b) == civil_seconds(civil)
            &&& offset_start(b) == Some(19 + fraction.len() as int)
        }),
{
    let b = civil + fraction + tail;
    let end = 19 + fraction.len() as int;
    assert(forall|i: int| 0 <= i < 19 ==> b[i] == civil[i]);
    reveal_with_fuel(number_at, 5);
    if fraction.len() > 0 {
        assert(b[19] == fraction[0]);
        assert forall|i: int| 20 <= i < end implies is_digit_byte(#[trigger] b[i]) by {
            assert(b[i] == fraction[i - 19]);
        }
        if tail.len() > 0 {
            assert(b[end] == tail[0]);
        }
        digits_run_on(b, 20, end);
    } else if tail.len() > 0 {
        assert(b[19] == tail[0]);
    }
}

proof fn two_digits_read_back(b: Seq<u8>, at: int, n: int)
    requires
        0 <= at,
        at + 2 <= b.len(),
        0 <= n <= 99,
        b[at] == two_digits(n)[0],
        b[at + 1] == two_digits(n)[1],
    ensures
        two_chars(b, at) == Some(n),
{
}

proof fn signed_offsets_are_read(stem: Seq<u8>, sign: u8, h: int, m: int)
    requires
        sign == 43 || sign == 45,
        0 <= h <= 23,
        0 <= m <= 59,
    ensures
        ({
            let off = if sign == 43 {
                h * 3600 + m * 60
            } else {
                -(h * 3600 + m * 60)
            };
            let at = stem.len() as int;
            &&& offset_seconds(
                stem + (seq![sign] + two_digits(h) + seq![58u8] + two_digits(m)),
                at,
            ) == Some(off)
            &&& offset_seconds(stem + (seq![sign] + two_digits(h) + two_digits(m)), at) == Some(off)
            &&& m == 0 ==> offset_seconds(stem + (seq![sign] + two_digits(h)), at) == Some(off)
        }),
{
    let at = stem.len() as int;
    let long = stem + (seq![sign] + two_digits(h) + seq![58u8] + two_digits(m));
    assert(long[at] == sign);
    assert(long[at + 3] == 58);
    two_digits_read_back(long, at + 1, h);
    two_digits_read_back(long, at + 4, m);
    let plain = stem + (seq![sign] + two_digits(h) + two_digits(m));
    assert(plain[at] == sign);
    two_digits_read_back(plain, at + 1, h);
    two_digits_read_back(plain, at + 3, m);
    let short = stem + (seq![sign] + two_digits(h));
    assert(short[at] == sign);
    two_digits_read_back(short, at + 1, h);
}

/// A civil time is moved by the offset that follows it.
proof fn tails_are_read(civil: Seq<u8>, fraction: Seq<u8>, tail: Seq<u8>, off: int)
    requires
        civil.len() == 19,
        well_formed_civil(civil),
        is_fraction(fraction),
        tail.len() > 0 ==> !is_digit_byte(tail[0]) && tail[0] != 46 && tail[0] != 44,
        offset_seconds(civil + fraction + tail, 19 + fraction.len() as int) == Some(off),
    ensures
        epoch(civil + fraction + tail) == Some(civil_seconds(civil) - off),
{
    parts_are_found(civil, fraction, tail);
}

/// A civil time, with a fraction or without, is moved by the offset written after it: `+HH:MM`,
/// `+HHMM` and bare hours are taken away, and those with a minus are added.
pub proof fn offset_forms_are_read(civil: Seq<u8>, fraction: Seq<u8>, sign: u8, h: int, m: int)
    requires
        civil.len() == 19,
        well_formed_civil(civil),
        is_fraction(fraction),
        sign == 43 || sign == 45,
        0 <= h <= 23,
        0 <= m <= 59,
    ensures
        ({
            let stem = civil + fraction;
            let utc = civil_seconds(civil);
            let off = if sign == 43 {
                h * 3600 + m * 60
            } else {
                -(h * 3600 + m * 60)
            };
            let hours = if sign == 43 {
                h * 3600
            } else {
                -(h * 3600)
            };
            &&& epoch(stem + (seq![sign] + two_digits(h) + seq![58u8] + two_digits(m))) == Some(
                utc - off,
            )
            &&& epoch(stem + (seq![sign] + two_digits(h) + two_digits(m))) == Some(utc - off)
            &&& epoch(stem + (seq![sign] + two_digits(h))) == Some(utc - hours)
        }),
{
    let stem = civil + fraction;
    let off = if sign == 43 {
        h * 3600 + m * 60
    } else {
        -(h * 3600 + m * 60)
    };
    let hours = if sign == 43 {
        h * 3600
    } else {
        -(h * 3600)
    };
    signed_offsets_are_read(stem, sign, h, m);
    signed_offsets_are_read(stem, sign, h, 0);
    let long = seq![sign] + two_digits(h) + seq![58u8] + two_digits(m);
    let plain = seq![sign] + two_digits(h) + two_digits(m);
    let short = seq![sign] + two_digits(h);
    assert(long[0] == sign && plain[0] == sign && short[0] == sign);
    tails_are_read(civil, fraction, long, off);
    tails_are_read(civil, fraction, plain, off);
    tails_are_read(civil, fraction, short, hours);
}

/// A civil time, with a fraction or without, is read as UTC where it stands alone or before a
/// `Z` or `z`.
pub proof fn utc_forms_are_read(civil: Seq<u8>, fraction: Seq<u8>)
    requires
        civil.len() == 19,
        well_formed_civil(civil),
        is_fraction(fraction),
    ensures
        epoch(civil + fraction) == Some(civil_seconds(civil)),
        epoch(civil + fraction + seq![90u8]) == Some(civil_seconds(civil)),
        epoch(civil + fraction + seq![122u8]) == Some(civil_seconds(civil)),
{
    let stem = civil + fraction;
    let at = stem.len() as int;
    assert(stem + Seq::<u8>::empty() =~= stem);
    tails_are_read(civil, fraction, Seq::empty(), 0);
    assert((stem + seq![90u8])[at] == 90);
    tails_are_read(civil, fraction, seq![90u8], 0);
    assert((stem + seq![122u8])[at] == 122);
    tails_are_read(civil, fraction, seq![122u8], 0);
}

/// Writing the same clock time with an offset moves the instant by exactly that offset, and
/// a fraction moves nothing.
pub proof fn an_offset_shifts_the_instant(b: Seq<u8>, c: Seq<u8>)
    requires
        epoch(b) is Some,
        epoch(c) is Some,
        b.take(19) == c.take(19),
    ensures
        epoch(b)->0 + offset_seconds(b, offset_start(b)->0)->0 == epoch(c)->0 + offset_seconds(
            c,
            offset_start(c)->0,
        )->0,
{
    assert(forall|i: int| 0 <= i < 19 ==> b[i] == b.take(19)[i]);
    assert(forall|i: int| 0 <= i < 19 ==> c[i] == c.take(19)[i]);
    assert(forall|i: int| 0 <= i < 19 ==> b[i] == c[i]);
    reveal_with_fuel(number_at, 5);
    assert(civil_seconds(b) == civil_seconds(c));
}

} // verus!

//! Calendar time: the wall clock, and the minute that a segment's name opens with.
use crate::text::{before, before_from, decimal, digit, push_decimal};
use crate::time::{civil_days, days_before_year, is_leap};
use vstd::prelude::*;

verus! {

/// A moment of the system's clock.
#[verifier::external_type_specification]
#[verifier::external_body]
pub struct ExSystemTime(std::time::SystemTime);

/// `SystemTime::now`: the system's wall clock. It may be set to any moment and may jump, so
/// nothing is claimed of what it gives.
pub assume_specification[ std::time::SystemTime::now ]() -> (r: std::time::SystemTime);

/// `SystemTime::duration_since` the Unix epoch; none for a moment before it. What moment the
/// argument holds cannot be seen, so nothing is claimed of the result.
#[verifier::external_body]
fn since_epoch(at: std::time::SystemTime) -> (r: Option<std::time::Duration>) {
    match at.duration_since(std::time::UNIX_EPOCH) {
        Ok(d) => Some(d),
        Err(_) => None,
    }
}

/// `Duration::as_secs`: the whole seconds of a span. How long the argument is cannot be seen,
/// so nothing is claimed of the result.
pub assume_specification[ std::time::Duration::as_secs ](d: &std::time::Duration) -> (r: u64);

/// Seconds since the epoch, or zero where the clock stands before it.
pub fn unix_or_zero(since: Option<u64>) -> (r: u64)
    ensures
        r == (match since {
            Some(n) => n,
            None => 0,
        }),
{
    match since {
        Some(n) => n,
        None => 0,
    }
}

/// Calendar now, in epoch seconds. What the clock says depends on the machine alone.
pub fn now_unix() -> (r: u64) {
    let since: Option<u64> = match since_epoch(std::time::SystemTime::now()) {
        Some(d) => Some(d.as_secs()),
        None => None,
    };
    unix_or_zero(since)
}

/// Days of a month.
pub open spec fn month_days(y: int, m: int) -> int {
    if m == 2 {
        if is_leap(y) {
            29
        } else {
            28
        }
    } else if m == 4 || m == 6 || m == 9 || m == 11 {
        30
    } else {
        31
    }
}

/// A date of the calendar.
pub open spec fn is_date(y: int, m: int, d: int) -> bool {
    1 <= m <= 12 && 1 <= d <= month_days(y, m)
}

/// A number below a hundred, in two digits.
pub open spec fn two(n: int) -> Seq<char> {
    seq![digit((n / 10) as nat), digit((n % 10) as nat)]
}

/// A year: four digits, or a sign and at least four where four will not do.
pub open spec fn year_text(y: int) -> Seq<char> {
    if 0 <= y <= 9999 {
        two(y / 100) + two(y % 100)
    } else if y > 9999 {
        seq!['+'] + decimal(y as nat)
    } else if y >= -9999 {
        seq!['-'] + two(-y / 100) + two(-y % 100)
    } else {
        seq!['-'] + decimal((-y) as nat)
    }
}

/// A date and a time of day as `YYYYMMDD-HHMM`.
pub open spec fn minute_text(y: int, m: int, d: int, h: int, mi: int) -> Seq<char> {
    year_text(y) + two(m) + two(d) + seq!['-'] + two(h) + two(mi)
}

/// A text that spells the minute of a moment, in seconds since the epoch, as
/// `YYYYMMDD-HHMM`.
pub open spec fn spells(text: Seq<char>, at: int) -> bool {
    exists|y: int, m: int, d: int|
        #[trigger] is_date(y, m, d) && civil_days(y, m, d) == at / 86400 && text == minute_text(
            y,
            m,
            d,
            at % 86400 / 3600,
            at % 3600 / 60,
        )
}

/// A moment, in seconds since the epoch, between the first and the last year of chrono's
/// calendar.
pub open spec fn in_calendar(at: int) -> bool {
    civil_days(-262143, 1, 1) * 86400 <= at < civil_days(262143, 1, 1) * 86400
}

/// `chrono::DateTime::from_timestamp`, `with_timezone` to the machine's own zone and
/// `format`: the local minute of a moment as `YYYYMMDD-HHMM`. There is one exactly for a
/// moment inside chrono's calendar. Which it is depends on the machine's zone: it is claimed
/// to spell the moment moved by some offset of less than a day. A machine set to a zone that is a
/// day or more off at the moment, which chrono cannot hold, makes the call panic.
#[verifier::external_body]
fn local_minute(at: i64) -> (r: Option<String>)
    ensures
        r is Some <==> in_calendar(at as int),
        r is Some ==> exists|offset: int|
            -86400 < offset < 86400 && #[trigger] spells(r->0@, at + offset),
{
    match chrono::DateTime::from_timestamp(at, 0) {
        Some(utc) => Some(
            utc.with_timezone(&chrono::Local).format("%Y%m%d-%H%M").to_string(),
        ),
        None => None,
    }
}

/// The 64 bits of a moment, read as a signed number.
pub open spec fn signed(at_unix: u64) -> int {
    if at_unix <= i64::MAX {
        at_unix as int
    } else {
        at_unix - 0x1_0000_0000_0000_0000
    }
}

/// A stamp: the local minute, or the bare number of seconds where there is none.
pub fn minute_or_epoch(local: Option<String>, at_unix: u64) -> (r: String)
    ensures
        r@ == (match local {
            Some(s) => s@,
            None => "epoch-"@ + decimal(at_unix as nat),
        }),
{
    match local {
        Some(s) => s,
        None => {
            let mut out: String = "epoch-".to_owned();
            push_decimal(&mut out, at_unix);
            out
        },
    }
}

/// The local `YYYYMMDD-HHMM` that a segment's name opens with, from epoch seconds.
pub fn stamp(at_unix: u64) -> (r: String)
    ensures
        !in_calendar(signed(at_unix)) ==> r@ == "epoch-"@ + decimal(at_unix as nat),
        in_calendar(signed(at_unix)) ==> exists|offset: int|
            -86400 < offset < 86400 && #[trigger] spells(r@, signed(at_unix) + offset),
{
    let at: i64 = if at_unix <= 0x7fff_ffff_ffff_ffff {
        at_unix as i64
    } else {
        -((0xffff_ffff_ffff_ffff - at_unix) as i64) - 1
    };
    assert(at == signed(at_unix));
    let local: Option<String> = local_minute(at);
    minute_or_epoch(local, at_unix)
}

proof fn years_only_grow(y: int, z: int)
    requires
        y < z,
    ensures
        days_before_year(y) + 365 + (if is_leap(y) {
            1int
        } else {
            0
        }) <= days_before_year(z),
{
    let a = y - 1;
    let b = z - 1;
    assert(days_before_year(y + 1) == days_before_year(y) + 365 + (if is_leap(y) {
        1int
    } else {
        0
    })) by {
        assert((a + 1) / 4 - a / 4 == if (a + 1) % 4 == 0 {
            1int
        } else {
            0
        });
        assert((a + 1) / 100 - a / 100 == if (a + 1) % 100 == 0 {
            1int
        } else {
            0
        });
        assert((a + 1) / 400 - a / 400 == if (a + 1) % 400 == 0 {
            1int
        } else {
            0
        });
        assert((a + 1) % 100 == 0 ==> (a + 1) % 4 == 0);
        assert((a + 1) % 400 == 0 ==> (a + 1) % 100 == 0);
    }
    let k = b - (a + 1);
    assert(k >= 0);
    assert(b / 4 >= (a + 1) / 4);
    assert(b / 400 >= (a + 1) / 400);
    assert(b / 100 - (a + 1) / 100 <= k);
}

/// A later date is more days after the epoch.
pub proof fn dates_count_up(y: int, m: int, d: int, z: int, n: int, e: int)
    requires
        is_date(y, m, d),
        is_date(z, n, e),
        y < z || (y == z && (m < n || (m == n && d < e))),
    ensures
        civil_days(y, m, d) < civil_days(z, n, e),
{
    if y < z {
        years_only_grow(y, z);
    }
}

proof fn before_at(a: Seq<char>, b: Seq<char>, from: int, i: int)
    requires
        0 <= from <= i < a.len(),
        a.len() == b.len(),
        forall|j: int| from <= j < i ==> a[j] == b[j],
        a[i] < b[i],
    ensures
        before_from(a, b, from),
    decreases i - from,
{
    if from < i {
        assert(a[from] == b[from]);
        before_at(a, b, from + 1, i);
    }
}

/// Thirteen characters that hold a minute, two digits to each number and a hyphen between date
/// and time.
spec fn holds_minute(t: Seq<char>, c: int, y: int, m: int, d: int, h: int, mi: int) -> bool {
    &&& t.len() == 13
    &&& t.subrange(0, 2) == two(c)
    &&& t.subrange(2, 4) == two(y)
    &&& t.subrange(4, 6) == two(m)
    &&& t.subrange(6, 8) == two(d)
    &&& t[8] == '-'
    &&& t.subrange(9, 11) == two(h)
    &&& t.subrange(11, 13) == two(mi)
}

proof fn minutes_spread(y: int, m: int, d: int, h: int, mi: int)
    requires
        0 <= y <= 9999,
    ensures
        holds_minute(minute_text(y, m, d, h, mi), y / 100, y % 100, m, d, h, mi),
{
    let t = minute_text(y, m, d, h, mi);
    assert(t.subrange(0, 2) =~= two(y / 100));
    assert(t.subrange(2, 4) =~= two(y % 100));
    assert(t.subrange(4, 6) =~= two(m));
    assert(t.subrange(6, 8) =~= two(d));
    assert(t.subrange(9, 11) =~= two(h));
    assert(t.subrange(11, 13) =~= two(mi));
}

/// Two texts that agree as far as `at` read there, digit for digit, what their pairs say.
proof fn pairs_agree(a: Seq<char>, b: Seq<char>, at: int, n: int)
    requires
        a.len() == b.len(),
        0 <= at,
        at + 2 <= a.len(),
        forall|j: int| 0 <= j < at ==> a[j] == b[j],
        a.subrange(at, at + 2) == two(n),
        b.subrange(at, at + 2) == two(n),
    ensures
        forall|j: int| 0 <= j < at + 2 ==> a[j] == b[j],
{
    assert(a[at] == a.subrange(at, at + 2)[0] && a[at + 1] == a.subrange(at, at + 2)[1]);
    assert(b[at] == b.subrange(at, at + 2)[0] && b[at + 1] == b.subrange(at, at + 2)[1]);
}

proof fn pairs_decide(a: Seq<char>, b: Seq<char>, at: int, n: int, k: int)
    requires
        a.len() == b.len(),
        0 <= at,
        at + 2 <= a.len(),
        forall|j: int| 0 <= j < at ==> a[j] == b[j],
        a.subrange(at, at + 2) == two(n),
        b.subrange(at, at + 2) == two(k),
        0 <= n < k < 100,
    ensures
        before(a, b),
{
    assert(a[at] == a.subrange(at, at + 2)[0] && a[at + 1] == a.subrange(at, at + 2)[1]);
    assert(b[at] == b.subrange(at, at + 2)[0] && b[at + 1] == b.subrange(at, at + 2)[1]);
    if n / 10 < k / 10 {
        before_at(a, b, 0, at);
    } else {
        assert(n / 10 == k / 10 && n % 10 < k % 10);
        before_at(a, b, 0, at + 1);
    }
}

proof fn later_times_read_later(
    a: Seq<char>,
    b: Seq<char>,
    c: int,
    y: int,
    m: int,
    d: int,
    h: int,
    mi: int,
    g: int,
    mj: int,
)
    requires
        holds_minute(a, c, y, m, d, h, mi),
        holds_minute(b, c, y, m, d, g, mj),
        forall|j: int| 0 <= j < 8 ==> a[j] == b[j],
        0 <= h < 24 && 0 <= g < 24 && 0 <= mi < 60 && 0 <= mj < 60,
        h < g || (h == g && mi < mj),
    ensures
        before(a, b),
{
    assert forall|j: int| 0 <= j < 9 implies a[j] == b[j] by {}
    if h < g {
        pairs_decide(a, b, 9, h, g);
    } else {
        pairs_agree(a, b, 9, h);
        pairs_decide(a, b, 11, mi, mj);
    }
}

proof fn later_dates_read_later(
    a: Seq<char>,
    b: Seq<char>,
    at: (int, int, int, int, int, int),
    then: (int, int, int, int, int, int),
)
    requires
        holds_minute(a, at.0, at.1, at.2, at.3, at.4, at.5),
        holds_minute(b, then.0, then.1, then.2, then.3, then.4, then.5),
        0 <= at.0 < 100 && 0 <= then.0 < 100 && 0 <= at.1 < 100 && 0 <= then.1 < 100,
        0 < at.2 <= 12 && 0 < then.2 <= 12 && 0 < at.3 <= 31 && 0 < then.3 <= 31,
        0 <= at.4 < 24 && 0 <= then.4 < 24 && 0 <= at.5 < 60 && 0 <= then.5 < 60,
        at.0 < then.0 || (at.0 == then.0 && (at.1 < then.1 || (at.1 == then.1 && (at.2 < then.2 || (
        at.2 == then.2 && (at.3 < then.3 || (at.3 == then.3 && (at.4 < then.4 || (at.4 == then.4
            && at.5 < then.5))))))))),
    ensures
        before(a, b),
{
    if at.0 < then.0 {
        pairs_decide(a, b, 0, at.0, then.0);
    } else {
        pairs_agree(a, b, 0, at.0);
        if at.1 < then.1 {
            pairs_decide(a, b, 2, at.1, then.1);
        } else {
            pairs_agree(a, b, 2, at.1);
            if at.2 < then.2 {
                pairs_decide(a, b, 4, at.2, then.2);
            } else {
                pairs_agree(a, b, 4, at.2);
                if at.3 < then.3 {
                    pairs_decide(a, b, 6, at.3, then.3);
                } else {
                    pairs_agree(a, b, 6, at.3);
                    later_times_read_later(
                        a,
                        b,
                        at.0,
                        at.1,
                        at.2,
                        at.3,
                        at.4,
                        at.5,
                        then.4,
                        then.5,
                    );
                }
            }
        }
    }
}

proof fn later_minutes_read_later(
    y: int,
    m: int,
    d: int,
    h: int,
    mi: int,
    z: int,
    n: int,
    e: int,
    g: int,
    mj: int,
)
    requires
        0 <= y <= 9999 && 0 <= z <= 9999,
        is_date(y, m, d) && is_date(z, n, e),
        0 <= h < 24 && 0 <= g < 24 && 0 <= mi < 60 && 0 <= mj < 60,
        y < z || (y == z && (m < n || (m == n && (d < e || (d == e && (h < g || (h == g && mi
            < mj))))))),
    ensures
        before(minute_text(y, m, d, h, mi), minute_text(z, n, e, g, mj)),
{
    minutes_spread(y, m, d, h, mi);
    minutes_spread(z, n, e, g, mj);
    assert(y < z ==> y / 100 < z / 100 || (y / 100 == z / 100 && y % 100 < z % 100));
    later_dates_read_later(
        minute_text(y, m, d, h, mi),
        minute_text(z, n, e, g, mj),
        (y / 100, y % 100, m, d, h, mi),
        (z / 100, z % 100, n, e, g, mj),
    );
}

proof fn moments_order(at: int, then: int)
    requires
        at <= then,
    ensures
        at / 86400 <= then / 86400,
        at / 86400 == then / 86400 ==> at % 86400 / 3600 <= then % 86400 / 3600,
        at / 86400 == then / 86400 && at % 86400 / 3600 == then % 86400 / 3600 ==> at % 3600 / 60
            <= then % 3600 / 60,
        at / 60 == then / 60 ==> at / 86400 == then / 86400 && at % 86400 / 3600 == then % 86400
            / 3600 && at % 3600 / 60 == then % 3600 / 60,
{
    assert(at % 3600 == at % 86400 % 3600);
    assert(then % 3600 == then % 86400 % 3600);
    assert(at / 60 / 60 == at / 3600 && then / 60 / 60 == then / 3600);
    assert(at / 3600 / 24 == at / 86400 && then / 3600 / 24 == then / 86400);
    assert(at % 86400 / 3600 == at / 3600 % 24 && then % 86400 / 3600 == then / 3600 % 24);
    assert(at % 3600 / 60 == at / 60 % 60 && then % 3600 / 60 == then / 60 % 60);
}

/// A moment in a year that four digits write.
pub open spec fn in_four_digit_year(at: int) -> bool {
    civil_days(0, 1, 1) <= at / 86400 < civil_days(10000, 1, 1)
}

proof fn four_digits_write_the_year(y: int, m: int, d: int, at: int)
    requires
        is_date(y, m, d),
        civil_days(y, m, d) == at / 86400,
        in_four_digit_year(at),
    ensures
        0 <= y <= 9999,
{
    if y < 0 {
        dates_count_up(y, m, d, 0, 1, 1);
    }
    if y > 10000 {
        dates_count_up(10000, 1, 1, y, m, d);
    }
    if y == 10000 && (m > 1 || d > 1) {
        dates_count_up(10000, 1, 1, y, m, d);
    }
}

/// Stamps sort as the moments do: in one zone, the later of two moments never has the smaller
/// stamp, and moments of one minute share theirs. Left out are years that four digits do not
/// write, from 10000 on: their stamps begin with a sign.
pub proof fn stamps_sort_by_time(a: Seq<char>, at: int, b: Seq<char>, then: int)
    requires
        spells(a, at),
        spells(b, then),
        at <= then,
        in_four_digit_year(at),
        in_four_digit_year(then),
    ensures
        a == b || before(a, b),
        at / 60 == then / 60 ==> a == b,
{
    let (y, m, d) = choose|y: int, m: int, d: int|
        #[trigger] is_date(y, m, d) && civil_days(y, m, d) == at / 86400 && a == minute_text(
            y,
            m,
            d,
            at % 86400 / 3600,
            at % 3600 / 60,
        );
    let (z, n, e) = choose|y: int, m: int, d: int|
        #[trigger] is_date(y, m, d) && civil_days(y, m, d) == then / 86400 && b == minute_text(
            y,
            m,
            d,
            then % 86400 / 3600,
            then % 3600 / 60,
        );
    let (h, mi) = (at % 86400 / 3600, at % 3600 / 60);
    let (g, mj) = (then % 86400 / 3600, then % 3600 / 60);
    four_digits_write_the_year(y, m, d, at);
    four_digits_write_the_year(z, n, e, then);
    moments_order(at, then);
    if z < y || (z == y && (n < m || (n == m && e < d))) {
        dates_count_up(z, n, e, y, m, d);
    }
    if y < z || (y == z && (m < n || (m == n && d < e))) {
        dates_count_up(y, m, d, z, n, e);
        later_minutes_read_later(y, m, d, h, mi, z, n, e, g, mj);
    } else if h < g || mi < mj {
        later_minutes_read_later(y, m, d, h, mi, z, n, e, g, mj);
    }
}

proof fn four_digits_make_a_year(y: int)
    requires
        0 <= y <= 9999,
    ensures
        year_text(y) == seq![
            digit((y / 1000) as nat),
            digit((y / 100 % 10) as nat),
            digit((y / 10 % 10) as nat),
            digit((y % 10) as nat),
        ],
{
    assert(y / 100 / 10 == y / 1000);
    assert(y % 100 / 10 == y / 10 % 10);
    assert(y % 100 % 10 == y % 10);
    assert(year_text(y) == two(y / 100) + two(y % 100));
    assert(two(y / 100) + two(y % 100) =~= seq![
        digit((y / 1000) as nat),
        digit((y / 100 % 10) as nat),
        digit((y / 10 % 10) as nat),
        digit((y % 10) as nat),
    ]);
}

/// A year of up to four digits is written in four, one beyond them with a sign in front, and one
/// before the year zero with a minus.
#[verifier::spinoff_prover]
#[verifier::rlimit(40)]
pub proof fn years_are_written_in_four_digits(y: int)
    ensures
        0 <= y <= 9999 ==> year_text(y) == seq![
            digit((y / 1000) as nat),
            digit((y / 100 % 10) as nat),
            digit((y / 10 % 10) as nat),
            digit((y % 10) as nat),
        ],
        y > 9999 ==> year_text(y) == seq!['+'] + decimal(y as nat),
        -9999 <= y < 0 ==> year_text(y) == seq!['-'] + year_text(-y),
        y < -9999 ==> year_text(y) == seq!['-'] + decimal((-y) as nat),
{
    if 0 <= y <= 9999 {
        four_digits_make_a_year(y);
    } else if -9999 <= y < 0 {
        assert(year_text(y) =~= seq!['-'] + year_text(-y));
    }
}

/// A minute is written year first, then month, day, a hyphen, hour and minute, two digits each.
pub proof fn minutes_are_written_out(y: int, m: int, d: int, h: int, mi: int)
    requires
        0 <= y <= 9999,
    ensures
        minute_text(y, m, d, h, mi) == seq![
            digit((y / 1000) as nat),
            digit((y / 100 % 10) as nat),
            digit((y / 10 % 10) as nat),
            digit((y % 10) as nat),
            digit((m / 10) as nat),
            digit((m % 10) as nat),
            digit((d / 10) as nat),
            digit((d % 10) as nat),
            '-',
            digit((h / 10) as nat),
            digit((h % 10) as nat),
            digit((mi / 10) as nat),
            digit((mi % 10) as nat),
        ],
{
    four_digits_make_a_year(y);
}

} // verus!

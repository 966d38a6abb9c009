//! Calendar arithmetic and the text of log lines.

use vstd::prelude::*;
use crate::text::{decimal, push_char, push_padded, zero_padded};

verus! {

/// Gregorian leap-year rule.
pub open spec fn is_leap_year(y: int) -> bool {
    y % 4 == 0 && (y % 100 != 0 || y % 400 == 0)
}

/// Number of days in month `m` (1-based) of year `y`.
pub open spec fn days_in_month(y: int, m: int) -> int {
    if m == 2 {
        if is_leap_year(y) { 29 } else { 28 }
    } else if m == 4 || m == 6 || m == 9 || m == 11 {
        30
    } else {
        31
    }
}

/// A real day of the proleptic Gregorian calendar.
pub open spec fn valid_date(y: int, m: int, d: int) -> bool {
    1 <= m <= 12 && 1 <= d <= days_in_month(y, m)
}

/// Leap years counted up to `y` (relative; the difference of two values counts the
/// leap years between them).
pub open spec fn leaps_through(y: int) -> int {
    y / 4 - y / 100 + y / 400
}

/// Days from 1970-01-01 to January 1st of year `y`.
pub open spec fn days_before_year(y: int) -> int {
    365 * (y - 1970) + leaps_through(y - 1) - leaps_through(1969)
}

/// Days from January 1st of year `y` to the first of month `m`.
pub open spec fn days_before_month(y: int, m: int) -> int {
    let common: int = if m == 1 { 0 } else if m == 2 { 31 } else if m == 3 { 59 } else if m == 4 { 90 }
        else if m == 5 { 120 } else if m == 6 { 151 } else if m == 7 { 181 } else if m == 8 { 212 }
        else if m == 9 { 243 } else if m == 10 { 273 } else if m == 11 { 304 } else { 334 };
    common + if m > 2 && is_leap_year(y) { 1int } else { 0int }
}

/// Days from 1970-01-01 to the date `y-m-d` (negative before the epoch).
pub open spec fn days_from_civil(y: int, m: int, d: int) -> int {
    days_before_year(y) + days_before_month(y, m) + d - 1
}

/// The date that lies `z` days after 1970-01-01.
pub open spec fn civil_date(z: int) -> (int, int, int) {
    choose|t: (int, int, int)| valid_date(t.0, t.1, t.2) && days_from_civil(t.0, t.1, t.2) == z
}

// ---- proofs ----------------------------------------------------------------

/// Days from 0000-03-01 to March 1st of year `ym`.
spec fn march_year_start(ym: int) -> int {
    365 * ym + leaps_through(ym)
}

/// Day of the March-based year on which month index `mp` (0 = March) begins.
spec fn march_month_start(mp: int) -> int {
    (153 * mp + 2) / 5
}

proof fn lemma_leap_step(y: int)
    ensures
        leaps_through(y) - leaps_through(y - 1) == if is_leap_year(y) { 1int } else { 0int },
{
}

proof fn lemma_leaps_era(e: int, r: int)
    requires 0 <= r < 400,
    ensures leaps_through(400 * e + r) == 97 * e + r / 4 - r / 100,
{
    assert((400 * e + r) / 4 == 100 * e + r / 4);
    assert((400 * e + r) / 100 == 4 * e + r / 100);
    assert((400 * e + r) / 400 == e);
}

proof fn lemma_march_form(y: int, m: int, d: int)
    requires valid_date(y, m, d),
    ensures ({
        let ym = if m <= 2 { y - 1 } else { y };
        let mp = if m <= 2 { m + 9 } else { m - 3 };
        days_from_civil(y, m, d) + 719468 == march_year_start(ym) + march_month_start(mp) + d - 1
    }),
{
    lemma_leap_step(y);
}


/// Hinnant's year-of-era formula finds the March-based year that holds day `doe`
/// of a 400-year era.
proof fn lemma_year_of_era(doe: u64)
    requires doe <= 146096,
    ensures ({
        let yoe = ((doe - doe / 1460 + doe / 36524 - doe / 146096) / 365) as u64;
        &&& yoe <= 399
        &&& 365 * yoe + yoe / 4 - yoe / 100 <= doe
        &&& doe < 365 * yoe + yoe / 4 - yoe / 100 + 365
            + (if (yoe + 1) % 4 == 0 && ((yoe + 1) % 100 != 0 || (yoe + 1) % 400 == 0) { 1u64 } else { 0u64 })
    }),
{
    assert({
        let yoe = ((doe - doe / 1460 + doe / 36524 - doe / 146096) / 365) as u64;
        &&& yoe <= 399
        &&& 365 * yoe + yoe / 4 - yoe / 100 <= doe
        &&& doe < 365 * yoe + yoe / 4 - yoe / 100 + 365
            + (if (yoe + 1) % 4 == 0 && ((yoe + 1) % 100 != 0 || (yoe + 1) % 400 == 0) { 1u64 } else { 0u64 })
    }) by (bit_vector)
        requires doe <= 146096;
}

/// The month and day that Hinnant's formulas give for day `doy` of a March-based year.
proof fn lemma_month_of_year(doy: u64)
    requires doy <= 365,
    ensures ({
        let mp = (5 * doy + 2) / 153;
        let d = doy - (153 * mp + 2) / 5 + 1;
        &&& mp <= 11
        &&& 1 <= d
        &&& d <= (if mp == 11 { 29u64 } else if mp == 1 || mp == 3 || mp == 6 || mp == 8 { 30u64 } else { 31u64 })
        &&& (mp == 11 && d == 29 ==> doy == 365)
    }),
{
    assert({
        let mp = (5 * doy + 2) / 153;
        let d = doy - (153 * mp + 2) / 5 + 1;
        &&& mp <= 11
        &&& 1 <= d
        &&& d <= (if mp == 11 { 29u64 } else if mp == 1 || mp == 3 || mp == 6 || mp == 8 { 30u64 } else { 31u64 })
        &&& (mp == 11 && d == 29 ==> doy == 365)
    }) by (bit_vector)
        requires doy <= 365;
}

proof fn lemma_leap_shift(e: int, k: int)
    ensures is_leap_year(400 * e + k) == is_leap_year(k),
{
    assert((400 * e + k) % 4 == k % 4);
    assert((400 * e + k) % 100 == k % 100);
    assert((400 * e + k) % 400 == k % 400);
}

/// Assembles the date from the quantities that Hinnant's algorithm computes.
proof fn lemma_assemble(zp: int, era: int, yoe: int, doy: int, mp: int, d: int)
    requires
        zp == era * 146097 + 365 * yoe + yoe / 4 - yoe / 100 + doy,
        0 <= yoe <= 399,
        0 <= doy,
        doy < 365 + if is_leap_year(yoe + 1) { 1int } else { 0int },
        0 <= mp <= 11,
        march_month_start(mp) + d - 1 == doy,
        1 <= d,
        d <= (if mp == 11 { 29int } else if mp == 1 || mp == 3 || mp == 6 || mp == 8 { 30int } else { 31int }),
        mp == 11 && d == 29 ==> doy == 365,
    ensures ({
        let ym = 400 * era + yoe;
        let m = if mp < 10 { mp + 3 } else { mp - 9 };
        let y = if m <= 2 { ym + 1 } else { ym };
        &&& valid_date(y, m, d)
        &&& days_from_civil(y, m, d) + 719468 == zp
    }),
{
    let ym = 400 * era + yoe;
    let m = if mp < 10 { mp + 3 } else { mp - 9 };
    let y = if m <= 2 { ym + 1 } else { ym };
    lemma_leaps_era(era, yoe);
    lemma_leap_shift(era, yoe + 1);
    assert(march_year_start(ym) == era * 146097 + 365 * yoe + yoe / 4 - yoe / 100);
    if mp == 11 && d == 29 {
        assert(is_leap_year(yoe + 1));
        assert(y == 400 * era + yoe + 1);
    }
    assert(valid_date(y, m, d));
    lemma_march_form(y, m, d);
}

proof fn lemma_march_year_step(ym: int)
    ensures march_year_start(ym + 1) - march_year_start(ym) == 365 + if is_leap_year(ym + 1) { 1int } else { 0int },
{
    lemma_leap_step(ym + 1);
}

proof fn lemma_march_year_monotone(a: int, b: int)
    requires a < b,
    ensures march_year_start(a + 1) <= march_year_start(b),
{
    if b > a + 1 {
        let k = b - a - 1;
        assert(b / 4 >= (a + 1) / 4);
        assert(b / 400 >= (a + 1) / 400);
        assert(b / 100 <= (a + 1) / 100 + k / 100 + 1);
    }
}

/// The offset of a day inside its March-based year separates the days of that year.
proof fn lemma_offset_in_year(mp1: u64, d1: u64, mp2: u64, d2: u64)
    requires
        mp1 <= 11, 1 <= d1,
        d1 <= (if mp1 == 11 { 29u64 } else if mp1 == 1 || mp1 == 3 || mp1 == 6 || mp1 == 8 { 30u64 } else { 31u64 }),
        mp2 <= 11, 1 <= d2,
        d2 <= (if mp2 == 11 { 29u64 } else if mp2 == 1 || mp2 == 3 || mp2 == 6 || mp2 == 8 { 30u64 } else { 31u64 }),
        (153 * mp1 + 2) / 5 + d1 == (153 * mp2 + 2) / 5 + d2,
    ensures
        mp1 == mp2 && d1 == d2,
{
    assert(mp1 == mp2 && d1 == d2) by (bit_vector)
        requires
            mp1 <= 11, 1 <= d1,
            d1 <= (if mp1 == 11 { 29u64 } else if mp1 == 1 || mp1 == 3 || mp1 == 6 || mp1 == 8 { 30u64 } else { 31u64 }),
            mp2 <= 11, 1 <= d2,
            d2 <= (if mp2 == 11 { 29u64 } else if mp2 == 1 || mp2 == 3 || mp2 == 6 || mp2 == 8 { 30u64 } else { 31u64 }),
            (153 * mp1 + 2) / 5 + d1 == (153 * mp2 + 2) / 5 + d2;
}

proof fn lemma_offset_bound(mp: u64, d: u64)
    requires
        mp <= 11, 1 <= d,
        d <= (if mp == 11 { 29u64 } else if mp == 1 || mp == 3 || mp == 6 || mp == 8 { 30u64 } else { 31u64 }),
    ensures
        (153 * mp + 2) / 5 + d - 1 <= 365,
        (153 * mp + 2) / 5 + d - 1 == 365 ==> mp == 11 && d == 29,
{
    assert((153 * mp + 2) / 5 + d - 1 <= 365 && ((153 * mp + 2) / 5 + d - 1 == 365 ==> mp == 11 && d == 29))
        by (bit_vector)
        requires
            mp <= 11, 1 <= d,
            d <= (if mp == 11 { 29u64 } else if mp == 1 || mp == 3 || mp == 6 || mp == 8 { 30u64 } else { 31u64 });
}

spec fn march_month_len(mp: int) -> int {
    if mp == 11 { 29 } else if mp == 1 || mp == 3 || mp == 6 || mp == 8 { 30 } else { 31 }
}

/// Two real dates with the same day number are the same date.
proof fn lemma_days_from_civil_injective(y1: int, m1: int, d1: int, y2: int, m2: int, d2: int)
    requires
        valid_date(y1, m1, d1),
        valid_date(y2, m2, d2),
        days_from_civil(y1, m1, d1) == days_from_civil(y2, m2, d2),
    ensures
        y1 == y2 && m1 == m2 && d1 == d2,
{
    let ym1 = if m1 <= 2 { y1 - 1 } else { y1 };
    let mp1 = if m1 <= 2 { m1 + 9 } else { m1 - 3 };
    let ym2 = if m2 <= 2 { y2 - 1 } else { y2 };
    let mp2 = if m2 <= 2 { m2 + 9 } else { m2 - 3 };
    lemma_march_form(y1, m1, d1);
    lemma_march_form(y2, m2, d2);
    assert(d1 <= march_month_len(mp1));
    assert(d2 <= march_month_len(mp2));
    lemma_offset_bound(mp1 as u64, d1 as u64);
    lemma_offset_bound(mp2 as u64, d2 as u64);
    let off1 = march_month_start(mp1) + d1 - 1;
    let off2 = march_month_start(mp2) + d2 - 1;
    assert(off1 < 365 + if is_leap_year(ym1 + 1) { 1int } else { 0int });
    assert(off2 < 365 + if is_leap_year(ym2 + 1) { 1int } else { 0int });
    if ym1 < ym2 {
        lemma_march_year_step(ym1);
        lemma_march_year_monotone(ym1, ym2);
        assert(false);
    }
    if ym2 < ym1 {
        lemma_march_year_step(ym2);
        lemma_march_year_monotone(ym2, ym1);
        assert(false);
    }
    lemma_offset_in_year(mp1 as u64, d1 as u64, mp2 as u64, d2 as u64);
}

/// Every day number names exactly one date: `civil_date` inverts `days_from_civil`.
pub proof fn lemma_civil_date_roundtrip(y: int, m: int, d: int)
    requires
        valid_date(y, m, d),
    ensures
        civil_date(days_from_civil(y, m, d)) == (y, m, d),
{
    let z = days_from_civil(y, m, d);
    let t = civil_date(z);
    assert(valid_date(y, m, d) && days_from_civil(y, m, d) == z);
    assert(exists|t: (int, int, int)| valid_date(t.0, t.1, t.2) && days_from_civil(t.0, t.1, t.2) == z) by {
        let w = (y, m, d);
        assert(valid_date(w.0, w.1, w.2) && days_from_civil(w.0, w.1, w.2) == z);
    }
    lemma_days_from_civil_injective(t.0, t.1, t.2, y, m, d);
}

/// Days since 1970-01-01 -> (year, month, day), proleptic Gregorian, UTC.
pub fn civil_from_days(z: i64) -> (r: (i64, u32, u32))
    requires
        z <= i64::MAX - 719468,
    ensures
        valid_date(r.0 as int, r.1 as int, r.2 as int),
        days_from_civil(r.0 as int, r.1 as int, r.2 as int) == z,
        (r.0 as int, r.1 as int, r.2 as int) == civil_date(z as int),
{
    let z = z + 719468;
    let era = if z >= 0 { z } else { z - 146096 } / 146097;
    assert(era == z as int / 146097);
    let doe = (z - era * 146097) as u64;
    proof { lemma_year_of_era(doe); }
    let yoe = (doe - doe / 1460 + doe / 36524 - doe / 146096) / 365;
    let y = yoe as i64 + era * 400;
    let doy = doe - (365 * yoe + yoe / 4 - yoe / 100);
    proof { lemma_month_of_year(doy); }
    let mp = (5 * doy + 2) / 153;
    let d = (doy - (153 * mp + 2) / 5 + 1) as u32;
    let m = if mp < 10 { mp + 3 } else { mp - 9 } as u32;
    let year = if m <= 2 { y + 1 } else { y };
    proof {
        assert(is_leap_year(yoe + 1) <==> ((yoe + 1) % 4 == 0 && ((yoe + 1) % 100 != 0 || (yoe + 1) % 400 == 0)));
        lemma_assemble(z as int, era as int, yoe as int, doy as int, mp as int, d as int);
        lemma_civil_date_roundtrip(year as int, m as int, d as int);
    }
    (year, m, d)
}


/// A day number on or after the epoch names a date in 1970 or later.
proof fn lemma_year_from_epoch(y: int, m: int, d: int)
    requires
        valid_date(y, m, d),
        days_from_civil(y, m, d) >= 0,
    ensures
        y >= 1970,
{
    if y <= 1969 {
        let ym = if m <= 2 { y - 1 } else { y };
        let mp = if m <= 2 { m + 9 } else { m - 3 };
        lemma_march_form(y, m, d);
        assert(d <= march_month_len(mp));
        lemma_offset_bound(mp as u64, d as u64);
        lemma_march_year_step(ym);
        assert(march_year_start(1969) == 719162);
        if ym < 1969 {
            lemma_march_year_monotone(ym, 1969);
        }
    }
}

/// `{:02}`-style two-digit field.
spec fn two_digits(n: int) -> Seq<char> {
    zero_padded(decimal(n as nat), 2)
}

/// The UTC timestamp `YYYY-MM-DD hh:mm:ss` of `secs` seconds after the epoch.
pub open spec fn timestamp_text(secs: nat) -> Seq<char> {
    let date = civil_date((secs / 86400) as int);
    let rem = secs % 86400;
    zero_padded(decimal(date.0 as nat), 4) + seq!['-'] + zero_padded(decimal(date.1 as nat), 2)
        + seq!['-'] + zero_padded(decimal(date.2 as nat), 2) + seq![' ']
        + zero_padded(decimal(rem / 3600), 2) + seq![':']
        + zero_padded(decimal((rem % 3600) / 60), 2) + seq![':']
        + zero_padded(decimal(rem % 60), 2)
}

/// Formats `secs` (seconds since 1970-01-01 UTC) as `YYYY-MM-DD hh:mm:ss`.
pub fn ts_utc(secs: u64) -> (r: String)
    ensures
        r@ == timestamp_text(secs as nat),
        civil_date((secs / 86400) as int).0 >= 1970,
{
    let days = (secs / 86400) as i64;
    let rem = secs % 86400;
    let (y, m, d) = civil_from_days(days);
    proof { lemma_year_from_epoch(y as int, m as int, d as int); }
    let mut s = String::new();
    push_padded(&mut s, y as u64, 4);
    push_char(&mut s, '-');
    push_padded(&mut s, m as u64, 2);
    push_char(&mut s, '-');
    push_padded(&mut s, d as u64, 2);
    push_char(&mut s, ' ');
    push_padded(&mut s, rem / 3600, 2);
    push_char(&mut s, ':');
    push_padded(&mut s, (rem % 3600) / 60, 2);
    push_char(&mut s, ':');
    push_padded(&mut s, rem % 60, 2);
    assert(s@ =~= timestamp_text(secs as nat));
    s
}

/// Size at which the log file is rotated (1 MiB).
pub const MAX_LOG_BYTES: u64 = 1048576;

/// Whether a log file of `size` bytes is due for rotation.
pub fn needs_rotation(size: u64) -> (r: bool)
    ensures
        r == (size >= MAX_LOG_BYTES),
{
    size >= MAX_LOG_BYTES
}

/// Path of the single rotated log file: the log path with `.1` appended.
pub fn rotated_path(path: &str) -> (r: String)
    ensures
        r@ == path@ + seq!['.', '1'],
{
    let mut s = String::new();
    s.append(path);
    push_char(&mut s, '.');
    push_char(&mut s, '1');
    assert(s@ =~= path@ + seq!['.', '1']);
    s
}

/// One log line: `<timestamp> <level> <message>` and a newline.
pub fn log_line(ts: &str, level: &str, msg: &str) -> (r: String)
    ensures
        r@ == ts@ + seq![' '] + level@ + seq![' '] + msg@ + seq!['\n'],
{
    let mut s = String::new();
    s.append(ts);
    push_char(&mut s, ' ');
    s.append(level);
    push_char(&mut s, ' ');
    s.append(msg);
    push_char(&mut s, '\n');
    assert(s@ =~= ts@ + seq![' '] + level@ + seq![' '] + msg@ + seq!['\n']);
    s
}

} // verus!

//! Civil-calendar arithmetic: conversion of a Gregorian date and
//! time-of-day with a UTC offset into milliseconds since the Unix epoch.
use vstd::prelude::*;
use vstd::string::{StringExecFns};

verus! {

/// A year divisible by 4 is a leap year, except century years not
/// divisible by 400.
pub open spec fn spec_is_leap_year(y: int) -> bool {
    (y % 4 == 0 && y % 100 != 0) || y % 400 == 0
}

/// Number of days in month `m` of year `y`.
pub open spec fn spec_days_in_month(y: int, m: int) -> int
    recommends
        1 <= m <= 12,
{
    if m == 2 {
        if spec_is_leap_year(y) {
            29
        } else {
            28
        }
    } else if m == 4 || m == 6 || m == 9 || m == 11 {
        30
    } else {
        31
    }
}

/// Days from 1970-01-01 to the civil date y-m-d (negative for earlier
/// dates), by era decomposition of the proleptic Gregorian calendar.
pub open spec fn spec_days_from_civil(y: int, m: int, d: int) -> int
    recommends
        1 <= y,
        1 <= m <= 12,
        1 <= d <= spec_days_in_month(y, m),
{
    let yy = if m <= 2 {
        y - 1
    } else {
        y
    };
    let era = yy / 400;
    let yoe = yy - era * 400;
    let mp = if m > 2 {
        m - 3
    } else {
        m + 9
    };
    let doy = (153 * mp + 2) / 5 + d - 1;
    let doe = yoe * 365 + yoe / 4 - yoe / 100 + doy;
    era * 146097 + doe - 719468
}

/// Milliseconds since the Unix epoch of the instant y-m-d h:mi:s in a
/// zone `offset_secs` east of UTC.
pub open spec fn spec_epoch_millis(
    y: int,
    m: int,
    d: int,
    h: int,
    mi: int,
    s: int,
    offset_secs: int,
) -> int {
    (spec_days_from_civil(y, m, d) * 86400 + h * 3600 + mi * 60 + s - offset_secs) * 1000
}

/// Month number of a three-letter English month abbreviation, or 0 if
/// the letters name no month.
pub open spec fn spec_month_num(a: char, b: char, c: char) -> int {
    if a == 'J' && b == 'a' && c == 'n' {
        1
    } else if a == 'F' && b == 'e' && c == 'b' {
        2
    } else if a == 'M' && b == 'a' && c == 'r' {
        3
    } else if a == 'A' && b == 'p' && c == 'r' {
        4
    } else if a == 'M' && b == 'a' && c == 'y' {
        5
    } else if a == 'J' && b == 'u' && c == 'n' {
        6
    } else if a == 'J' && b == 'u' && c == 'l' {
        7
    } else if a == 'A' && b == 'u' && c == 'g' {
        8
    } else if a == 'S' && b == 'e' && c == 'p' {
        9
    } else if a == 'O' && b == 'c' && c == 't' {
        10
    } else if a == 'N' && b == 'o' && c == 'v' {
        11
    } else if a == 'D' && b == 'e' && c == 'c' {
        12
    } else {
        0
    }
}

pub fn month_num(a: char, b: char, c: char) -> (r: i64)
    ensures
        r == spec_month_num(a, b, c),
        0 <= r <= 12,
{
    if a == 'J' && b == 'a' && c == 'n' {
        1
    } else if a == 'F' && b == 'e' && c == 'b' {
        2
    } else if a == 'M' && b == 'a' && c == 'r' {
        3
    } else if a == 'A' && b == 'p' && c == 'r' {
        4
    } else if a == 'M' && b == 'a' && c == 'y' {
        5
    } else if a == 'J' && b == 'u' && c == 'n' {
        6
    } else if a == 'J' && b == 'u' && c == 'l' {
        7
    } else if a == 'A' && b == 'u' && c == 'g' {
        8
    } else if a == 'S' && b == 'e' && c == 'p' {
        9
    } else if a == 'O' && b == 'c' && c == 't' {
        10
    } else if a == 'N' && b == 'o' && c == 'v' {
        11
    } else if a == 'D' && b == 'e' && c == 'c' {
        12
    } else {
        0
    }
}

#[verifier::rlimit(50)]
pub fn is_leap_year(y: i64) -> (r: bool)
    ensures
        r == spec_is_leap_year(y as int),
{
    (y % 4 == 0 && y % 100 != 0) || y % 400 == 0
}

pub fn days_in_month(y: i64, m: i64) -> (r: i64)
    requires
        1 <= m <= 12,
    ensures
        r == spec_days_in_month(y as int, m as int),
{
    if m == 2 {
        if is_leap_year(y) {
            29
        } else {
            28
        }
    } else if m == 4 || m == 6 || m == 9 || m == 11 {
        30
    } else {
        31
    }
}

pub fn days_from_civil(y: i64, m: i64, d: i64) -> (r: i64)
    requires
        1 <= y <= 9999,
        1 <= m <= 12,
        1 <= d <= 31,
    ensures
        r == spec_days_from_civil(y as int, m as int, d as int),
        -719469 <= r <= 2933000,
{
    let yy: i64 = if m <= 2 {
        y - 1
    } else {
        y
    };
    let era: i64 = yy / 400;
    assert(0 <= era <= 24);
    let yoe: i64 = yy - era * 400;
    assert(0 <= yoe <= 399);
    let mp: i64 = if m > 2 {
        m - 3
    } else {
        m + 9
    };
    let doy: i64 = (153 * mp + 2) / 5 + d - 1;
    assert(0 <= doy <= 367);
    let doe: i64 = yoe * 365 + yoe / 4 - yoe / 100 + doy;
    assert(0 <= doe <= 146463);
    era * 146097 + doe - 719468
}

/// Civil date of the day `z` days after 1970-01-01, by the inverse
/// era decomposition; the first component is the year, then month and
/// day.
pub open spec fn spec_civil_of_days(z0: int) -> (int, int, int)
    recommends
        z0 >= -719468,
{
    let z = z0 + 719468;
    let era = z / 146097;
    let doe = z - era * 146097;
    let yoe = (doe - doe / 1460 + doe / 36524 - doe / 146096) / 365;
    let doy = doe - (365 * yoe + yoe / 4 - yoe / 100);
    let mp = (5 * doy + 2) / 153;
    let d = doy - (153 * mp + 2) / 5 + 1;
    let m = if mp < 10 {
        mp + 3
    } else {
        mp - 9
    };
    let y = if m <= 2 {
        yoe + era * 400 + 1
    } else {
        yoe + era * 400
    };
    (y, m, d)
}

/// Civil date and time-of-day, in UTC, of the instant `ms`
/// milliseconds after the Unix epoch: year, month, day, hour, minute,
/// second.
pub open spec fn spec_civil_of_millis(ms: int) -> (int, int, int, int, int, int) {
    let days = ms / 86400000;
    let rem = ms % 86400000;
    let date = spec_civil_of_days(days);
    (date.0, date.1, date.2, rem / 3600000, (rem % 3600000) / 60000, (rem % 60000) / 1000)
}

/// The civil date `z` days after 1970-01-01.
pub fn civil_of_days(z0: i64) -> (r: (i64, i64, i64))
    requires
        -719468 <= z0 <= 5000000,
    ensures
        (r.0 as int, r.1 as int, r.2 as int) == spec_civil_of_days(z0 as int),
        0 <= r.0 <= 20000,
        1 <= r.1 <= 12,
        1 <= r.2 <= 31,
{
    let z: i64 = z0 + 719468;
    let era: i64 = z / 146097;
    assert(0 <= era <= 40);
    let doe: i64 = z - era * 146097;
    assert(0 <= doe <= 146096);
    let yoe: i64 = (doe - doe / 1460 + doe / 36524 - doe / 146096) / 365;
    assert(0 <= yoe <= 399);
    let doy: i64 = doe - (365 * yoe + yoe / 4 - yoe / 100);
    assert(0 <= doy <= 365);
    let mp: i64 = (5 * doy + 2) / 153;
    assert(0 <= mp <= 11);
    let d: i64 = doy - (153 * mp + 2) / 5 + 1;
    assert(1 <= d <= 31);
    let m: i64 = if mp < 10 {
        mp + 3
    } else {
        mp - 9
    };
    let y: i64 = if m <= 2 {
        yoe + era * 400 + 1
    } else {
        yoe + era * 400
    };
    (y, m, d)
}

/// The civil date and time-of-day, in UTC, of the instant `ms`
/// milliseconds after the epoch. Defined from the first day of year
/// 1 on.
pub fn civil_of_millis(ms: i64) -> (r: (i64, i64, i64, i64, i64, i64))
    requires
        -62135596800000 <= ms <= 250000000000000,
    ensures
        (r.0 as int, r.1 as int, r.2 as int, r.3 as int, r.4 as int, r.5 as int)
            == spec_civil_of_millis(ms as int),
        0 <= r.0 <= 20000,
        1 <= r.1 <= 12,
        1 <= r.2 <= 31,
        0 <= r.3 <= 23,
        0 <= r.4 <= 59,
        0 <= r.5 <= 59,
{
    let mut days: i64 = ms / 86400000;
    let mut rem: i64 = ms % 86400000;
    if rem < 0 {
        days = days - 1;
        rem = rem + 86400000;
    }
    assert(days == ms as int / 86400000 && rem == ms as int % 86400000);
    let date = civil_of_days(days);
    let h: i64 = rem / 3600000;
    let mi: i64 = (rem % 3600000) / 60000;
    let se: i64 = (rem % 60000) / 1000;
    (date.0, date.1, date.2, h, mi, se)
}

/// `v` as two digits, zero-padded.
pub open spec fn spec_pad2(v: int) -> Seq<char>
    recommends
        0 <= v <= 99,
{
    if v < 10 {
        "0"@ + crate::scan::spec_dec_string(v)
    } else {
        crate::scan::spec_dec_string(v)
    }
}

/// `v` as at least four digits, zero-padded.
pub open spec fn spec_pad4(v: int) -> Seq<char>
    recommends
        0 <= v,
{
    if v < 10 {
        "000"@ + crate::scan::spec_dec_string(v)
    } else if v < 100 {
        "00"@ + crate::scan::spec_dec_string(v)
    } else if v < 1000 {
        "0"@ + crate::scan::spec_dec_string(v)
    } else {
        crate::scan::spec_dec_string(v)
    }
}

/// The instant `ms` rendered `YYYY-MM-DDThh:mm:ssZ`.
pub open spec fn spec_time_text(ms: int) -> Seq<char> {
    let c = spec_civil_of_millis(ms);
    spec_pad4(c.0) + "-"@ + spec_pad2(c.1) + "-"@ + spec_pad2(c.2) + "T"@ + spec_pad2(c.3) + ":"@
        + spec_pad2(c.4) + ":"@ + spec_pad2(c.5) + "Z"@
}

fn pad2(v: i64) -> (s: String)
    requires
        0 <= v <= 99,
    ensures
        s@ == spec_pad2(v as int),
{
    if v < 10 {
        let mut s = String::from_str("0");
        s.append(crate::scan::u32_to_string(v as u32).as_str());
        s
    } else {
        crate::scan::u32_to_string(v as u32)
    }
}

fn pad4(v: i64) -> (s: String)
    requires
        0 <= v <= 100000,
    ensures
        s@ == spec_pad4(v as int),
{
    let digits = crate::scan::u32_to_string(v as u32);
    let mut s: String;
    if v < 10 {
        s = String::from_str("000");
    } else if v < 100 {
        s = String::from_str("00");
    } else if v < 1000 {
        s = String::from_str("0");
    } else {
        s = String::new();
    }
    s.append(digits.as_str());
    proof {
        assert(s@ =~= spec_pad4(v as int));
    }
    s
}

/// Renders the instant `ms` as `YYYY-MM-DDThh:mm:ssZ`.
pub fn time_text(ms: i64) -> (s: String)
    requires
        -62135596800000 <= ms <= 250000000000000,
    ensures
        s@ == spec_time_text(ms as int),
{
    let c = civil_of_millis(ms);
    assert(0 <= c.0 <= 100000);
    let mut s = pad4(c.0);
    s.append("-");
    s.append(pad2(c.1).as_str());
    s.append("-");
    s.append(pad2(c.2).as_str());
    s.append("T");
    s.append(pad2(c.3).as_str());
    s.append(":");
    s.append(pad2(c.4).as_str());
    s.append(":");
    s.append(pad2(c.5).as_str());
    s.append("Z");
    proof {
        assert(s@ =~= spec_time_text(ms as int));
    }
    s
}

/// Epoch milliseconds of a civil date and time-of-day, `offset_secs`
/// east of UTC.
pub fn epoch_millis(y: i64, m: i64, d: i64, h: i64, mi: i64, s: i64, offset_secs: i64) -> (r: i64)
    requires
        1 <= y <= 9999,
        1 <= m <= 12,
        1 <= d <= 31,
        0 <= h <= 23,
        0 <= mi <= 59,
        0 <= s <= 59,
        -86400 <= offset_secs <= 86400,
    ensures
        r == spec_epoch_millis(y as int, m as int, d as int, h as int, mi as int, s as int, offset_secs as int),
{
    let days: i64 = days_from_civil(y, m, d);
    (days * 86400 + h * 3600 + mi * 60 + s - offset_secs) * 1000
}

} // verus!

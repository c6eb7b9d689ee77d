//! Dates from Unix time, in UTC, on the proleptic Gregorian calendar.

use vstd::prelude::*;

use crate::text::{decimal, decimal_text, push_char, push_str};

use vstd::arithmetic::div_mod::{lemma_fundamental_div_mod, lemma_hoist_over_denominator, lemma_mod_multiples_vanish};

verus! {

/// Whether a year has a leap day.
pub open spec fn is_leap(year: int) -> bool {
    year % 4 == 0 && (year % 100 != 0 || year % 400 == 0)
}

/// Days in a month of a year.
pub open spec fn month_length(year: int, month: int) -> int {
    if month == 2 {
        if is_leap(year) { 29 } else { 28 }
    } else if month == 4 || month == 6 || month == 9 || month == 11 {
        30
    } else {
        31
    }
}

/// Days in the months of a year before the given one.
pub open spec fn days_before_month(year: int, month: int) -> int
    decreases month,
{
    if month <= 1 {
        0
    } else {
        days_before_month(year, month - 1) + month_length(year, month - 1)
    }
}

/// Leap years among the years `0 .. year`, for a year from 0 on.
pub open spec fn leaps_before(year: int) -> int {
    (year + 3) / 4 - (year + 99) / 100 + (year + 399) / 400
}

/// Days in the years `0 .. year`, for a year from 0 on.
pub open spec fn days_before_year(year: int) -> int {
    365 * year + leaps_before(year)
}

/// Days from 1970-01-01 to a date.
pub open spec fn days_from_civil(year: int, month: int, day: int) -> int {
    days_before_year(year) + days_before_month(year, month) + day - 1 - days_before_year(1970)
}

/// Whether a month and day exist in a year.
pub open spec fn valid_date(year: int, month: int, day: int) -> bool {
    1 <= month <= 12 && 1 <= day <= month_length(year, month)
}

spec fn table_before(year: int, month: int) -> int {
    (if month == 1 { 0int } else if month == 2 { 31int } else if month == 3 { 59 } else if month == 4 { 90 }
    else if month == 5 { 120 } else if month == 6 { 151 } else if month == 7 { 181 } else if month == 8 { 212 }
    else if month == 9 { 243 } else if month == 10 { 273 } else if month == 11 { 304 } else { 334 })
        + if month > 2 && is_leap(year) { 1int } else { 0int }
}

proof fn lemma_table(year: int, month: int)
    requires
        1 <= month <= 12,
    ensures
        days_before_month(year, month) == table_before(year, month),
{
    reveal_with_fuel(days_before_month, 13);
}

#[verifier::rlimit(50)]
/// Where a day of a 400-year era falls: its year of the era, counted from
/// March, and its day of that year.
proof fn lemma_year_of_era(doe: u64)
    requires
        doe < 146097,
    ensures
        doe / 1460 + doe / 146096 <= doe,
        ({
            let yoe = (doe - doe / 1460 + doe / 36524 - doe / 146096) / 365;
            let doy = doe - (365 * yoe + yoe / 4 - yoe / 100);
            &&& yoe < 400
            &&& 365 * yoe + yoe / 4 - yoe / 100 <= doe
            &&& doy <= 365
            &&& doy == 365 ==> (yoe + 1) % 4 == 0 && ((yoe + 1) % 100 != 0 || (yoe + 1) % 400 == 0)
        }),
{
    assert(doe / 1460 + doe / 146096 <= doe) by (bit_vector)
        requires
            doe < 146097,
    ;
    assert((doe - doe / 1460 + doe / 36524 - doe / 146096) / 365 < 400) by (bit_vector)
        requires
            doe < 146097,
    ;
    assert({
        let yoe = (doe - doe / 1460 + doe / 36524 - doe / 146096) / 365;
        365 * yoe + yoe / 4 - yoe / 100 <= doe
    }) by (bit_vector)
        requires
            doe < 146097,
    ;
    assert({
        let yoe = (doe - doe / 1460 + doe / 36524 - doe / 146096) / 365;
        doe - (365 * yoe + yoe / 4 - yoe / 100) <= 365
    }) by (bit_vector)
        requires
            doe < 146097,
    ;
    assert({
        let yoe = (doe - doe / 1460 + doe / 36524 - doe / 146096) / 365;
        let doy = doe - (365 * yoe + yoe / 4 - yoe / 100);
        doy == 365 ==> (yoe + 1) % 4 == 0 && ((yoe + 1) % 100 != 0 || (yoe + 1) % 400 == 0)
    }) by (bit_vector)
        requires
            doe < 146097,
    ;
}

/// The month and day of a day of a year counted from March.
proof fn lemma_month_of_year(doy: u64)
    requires
        doy <= 365,
    ensures
        ({
            let mp = (5 * doy + 2) / 153;
            let start = (153 * mp + 2) / 5;
            &&& mp <= 11
            &&& start <= doy
            &&& mp == 0 ==> start == 0 && doy - start < 31
            &&& mp == 1 ==> start == 31 && doy - start < 30
            &&& mp == 2 ==> start == 61 && doy - start < 31
            &&& mp == 3 ==> start == 92 && doy - start < 30
            &&& mp == 4 ==> start == 122 && doy - start < 31
            &&& mp == 5 ==> start == 153 && doy - start < 31
            &&& mp == 6 ==> start == 184 && doy - start < 30
            &&& mp == 7 ==> start == 214 && doy - start < 31
            &&& mp == 8 ==> start == 245 && doy - start < 30
            &&& mp == 9 ==> start == 275 && doy - start < 31
            &&& mp == 10 ==> start == 306 && doy - start < 31
            &&& mp == 11 ==> start == 337 && doy - start < 29
        }),
{
    assert({
        let mp = (5 * doy + 2) / 153;
        let start = (153 * mp + 2) / 5;
        &&& mp <= 11
        &&& start <= doy
        &&& mp == 0 ==> start == 0 && doy - start < 31
        &&& mp == 1 ==> start == 31 && doy - start < 30
        &&& mp == 2 ==> start == 61 && doy - start < 31
        &&& mp == 3 ==> start == 92 && doy - start < 30
        &&& mp == 4 ==> start == 122 && doy - start < 31
        &&& mp == 5 ==> start == 153 && doy - start < 31
        &&& mp == 6 ==> start == 184 && doy - start < 30
        &&& mp == 7 ==> start == 214 && doy - start < 31
        &&& mp == 8 ==> start == 245 && doy - start < 30
        &&& mp == 9 ==> start == 275 && doy - start < 31
        &&& mp == 10 ==> start == 306 && doy - start < 31
        &&& mp == 11 ==> start == 337 && doy - start < 29
    }) by (bit_vector)
        requires
            doy <= 365,
    ;
}

/// Where the years of an era start, counted from March and from January.
proof fn lemma_year_starts(yoe: u64)
    requires
        yoe < 400,
    ensures
        365 * yoe + (yoe + 3) / 4 - (yoe + 99) / 100 + (yoe + 399) / 400 + (if yoe % 4 == 0 && (yoe % 100 != 0 || yoe % 400 == 0) { 1int } else { 0int })
            == 365 * yoe + yoe / 4 - yoe / 100 + 1,
        365 * (yoe + 1) + (yoe + 4) / 4 - (yoe + 100) / 100 + (yoe + 400) / 400 == 365 * yoe + yoe / 4 - yoe / 100 + 366,
{
    assert(365 * yoe + (yoe + 3) / 4 - (yoe + 99) / 100 + (yoe + 399) / 400 + (if yoe % 4 == 0 && (yoe % 100 != 0 || yoe % 400 == 0) { 1int } else { 0int })
            == 365 * yoe + yoe / 4 - yoe / 100 + 1) by (bit_vector)
        requires
            yoe < 400,
    ;
    assert(365 * (yoe + 1) + (yoe + 4) / 4 - (yoe + 100) / 100 + (yoe + 400) / 400 == 365 * yoe + yoe / 4 - yoe / 100 + 366) by (bit_vector)
        requires
            yoe < 400,
    ;
}

/// A whole number of 400-year eras shifts the days before a year by as many
/// times 146097 and keeps its leap day.
proof fn lemma_eras(era: int, year: int)
    requires
        era >= 0,
        year >= 0,
    ensures
        days_before_year(400 * era + year) == 146097 * era + days_before_year(year),
        is_leap(400 * era + year) == is_leap(year),
{
    lemma_hoist_over_denominator(year + 3, 100 * era, 4);
    lemma_hoist_over_denominator(year + 99, 4 * era, 100);
    lemma_hoist_over_denominator(year + 399, era, 400);
    assert(year + 3 + 100 * era * 4 == 400 * era + year + 3);
    assert(year + 99 + 4 * era * 100 == 400 * era + year + 99);
    assert(year + 399 + era * 400 == 400 * era + year + 399);
    lemma_mod_multiples_vanish(100 * era, year, 4);
    lemma_mod_multiples_vanish(4 * era, year, 100);
    lemma_mod_multiples_vanish(era, year, 400);
    assert(4 * (100 * era) + year == 400 * era + year);
    assert(100 * (4 * era) + year == 400 * era + year);
}

/// The date a day of an era names, counted from March 1 of its first year:
/// the year of the era, the month and the day.
pub open spec fn era_date(doe: int) -> (int, int, int) {
    let yoe = (doe - doe / 1460 + doe / 36524 - doe / 146096) / 365;
    let doy = doe - (365 * yoe + yoe / 4 - yoe / 100);
    let mp = (5 * doy + 2) / 153;
    let day = doy - (153 * mp + 2) / 5 + 1;
    let month = if mp < 10 { mp + 3 } else { mp - 9 };
    (yoe + if month <= 2 { 1int } else { 0int }, month, day)
}

/// Each day of an era names a date that exists, and that date lies as many
/// days after March 1 of year 0 as the day's number.
proof fn lemma_era_date(doe: u64)
    requires
        doe < 146097,
    ensures
        valid_date(era_date(doe as int).0, era_date(doe as int).1, era_date(doe as int).2),
        era_date(doe as int).0 <= 400,
        days_before_year(era_date(doe as int).0) + days_before_month(era_date(doe as int).0, era_date(doe as int).1)
            + era_date(doe as int).2 - 1 == doe + 60,
{
    lemma_year_of_era(doe);
    let yoe = (doe - doe / 1460 + doe / 36524 - doe / 146096) / 365;
    let doy = doe - (365 * yoe + yoe / 4 - yoe / 100);
    assert(0 <= doy <= 365);
    lemma_month_of_year(doy as u64);
    lemma_year_starts(yoe as u64);
    let (y, month, day) = era_date(doe as int);
    lemma_table(y, month);
}

/// The date of a day counted from 1970-01-01, by 400-year eras counted from
/// 0000-03-01.
pub open spec fn civil_of(days: int) -> (int, int, int) {
    let z = days + 719468;
    let (y, m, d) = era_date(z % 146097);
    (400 * (z / 146097) + y, m, d)
}

/// The date of a Unix timestamp, in UTC: year, month from 1, day from 1.
///
/// The day count since 1970-01-01 is split into 400-year eras of 146097
/// days, counted from a March so that the leap day ends each year.
pub fn civil_date(unix: u64) -> (r: (i64, u32, u32))
    ensures
        r.0 >= 1970,
        valid_date(r.0 as int, r.1 as int, r.2 as int),
        days_from_civil(r.0 as int, r.1 as int, r.2 as int) == unix / 86400,
        (r.0 as int, r.1 as int, r.2 as int) == civil_of((unix / 86400) as int),
{
    let days: u64 = unix / 86400;
    let z: u64 = days + 719468;
    let era: u64 = z / 146097;
    let doe: u64 = z % 146097;
    proof {
        lemma_year_of_era(doe);
        lemma_era_date(doe);
    }
    let yoe: u64 = (doe - doe / 1460 + doe / 36524 - doe / 146096) / 365;
    let doy: u64 = doe - (365 * yoe + yoe / 4 - yoe / 100);
    proof {
        lemma_month_of_year(doy);
    }
    let mp: u64 = (5 * doy + 2) / 153;
    let day: u64 = doy - (153 * mp + 2) / 5 + 1;
    let month: u64 = if mp < 10 { mp + 3 } else { mp - 9 };
    let shift: u64 = if month <= 2 { 1 } else { 0 };
    let year: u64 = yoe + shift + era * 400;
    proof {
        let y0 = yoe + shift;
        assert(era_date(doe as int) == (y0 as int, month as int, day as int));
        lemma_fundamental_div_mod(z as int, 146097);
        lemma_eras(era as int, y0 as int);
        assert(year == 400 * era + y0);
        assert(days_before_month(year as int, month as int) == days_before_month(y0 as int, month as int)) by {
            lemma_table(year as int, month as int);
            lemma_table(y0 as int, month as int);
        }
        assert(days_before_year(1970) == 719528);
        assert(era >= 4) by {
            assert(z >= 719468);
        }
    }
    (year as i64, month as u32, day as u32)
}

/// `n` in decimal, with zeros in front up to `width` digits.
pub open spec fn padded(n: nat, width: nat) -> Seq<char> {
    let digits = decimal(n);
    if digits.len() >= width {
        digits
    } else {
        Seq::new((width - digits.len()) as nat, |i: int| '0') + digits
    }
}

/// Appends `n` in decimal, zero-padded to `width` digits.
fn push_padded(out: &mut String, n: u64, width: usize)
    ensures
        final(out)@ == old(out)@ + padded(n as nat, width as nat),
{
    let digits = decimal_text(n);
    let mut k: usize = digits.unicode_len();
    let ghost start = out@;
    while k < width
        invariant
            digits@ == decimal(n as nat),
            digits@.len() <= k <= width || (k == digits@.len() && k >= width),
            out@ == start + Seq::new((k - digits@.len()) as nat, |i: int| '0'),
        decreases width - k,
    {
        push_char(out, '0');
        assert(out@ =~= start + Seq::new((k + 1 - digits@.len()) as nat, |i: int| '0'));
        k = k + 1;
    }
    push_str(out, digits.as_str());
    assert(out@ =~= old(out)@ + padded(n as nat, width as nat));
}

/// `YYYY-MM-DD` of a date.
pub open spec fn date_chars(date: (int, int, int)) -> Seq<char> {
    padded(date.0 as nat, 4) + "-"@ + padded(date.1 as nat, 2) + "-"@ + padded(date.2 as nat, 2)
}

/// The day of a Unix timestamp as `YYYY-MM-DD`, in UTC.
pub fn date_text(unix: u64) -> (r: String)
    ensures
        r@ == date_chars(civil_of((unix / 86400) as int)),
{
    let (year, month, day) = civil_date(unix);
    let mut out = String::new();
    push_padded(&mut out, year as u64, 4);
    push_str(&mut out, "-");
    push_padded(&mut out, month as u64, 2);
    push_str(&mut out, "-");
    push_padded(&mut out, day as u64, 2);
    out
}

/// `YYYY-MM-DDTHH:MM:SSZ` of a timestamp: RFC 3339 in UTC, to the second.
pub open spec fn timestamp_chars(unix: nat) -> Seq<char> {
    let seconds = unix % 86400;
    date_chars(civil_of((unix / 86400) as int)) + "T"@ + padded(seconds / 3600, 2) + ":"@ + padded(seconds % 3600 / 60, 2) + ":"@
        + padded(seconds % 60, 2) + "Z"@
}

/// A Unix timestamp as RFC 3339 in UTC, to the second: `2026-09-21T10:31:07Z`.
pub fn timestamp_text(unix: u64) -> (r: String)
    ensures
        r@ == timestamp_chars(unix as nat),
{
    let mut out = date_text(unix);
    let seconds = unix % 86400;
    push_str(&mut out, "T");
    push_padded(&mut out, seconds / 3600, 2);
    push_str(&mut out, ":");
    push_padded(&mut out, seconds % 3600 / 60, 2);
    push_str(&mut out, ":");
    push_padded(&mut out, seconds % 60, 2);
    push_str(&mut out, "Z");
    out
}

/// The year of a Unix timestamp, two digits: 26 for 2026.
pub fn year_of_century(unix: u64) -> (r: u32)
    ensures
        r == civil_of((unix / 86400) as int).0 % 100,
{
    let (year, _, _) = civil_date(unix);
    (year % 100) as u32
}

} // verus!

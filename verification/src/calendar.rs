//! Civil (proleptic Gregorian, UTC) calendar arithmetic on unix timestamps.
//!
//! Instants are unix timestamps in whole seconds. The supported civil range
//! is 1970-01-01T00:00:00 through 9999-12-31T23:59:59; every advancement
//! function falls back to its unmodified anchor when the anchor or the
//! advanced instant leaves this range, so advancement never fails and never
//! panics.

use vstd::prelude::*;

verus! {

/// First year of the supported civil range (the unix epoch year).
pub const EPOCH_YEAR: u64 = 1970;

/// Last year of the supported civil range.
pub const MAX_YEAR: u64 = 9999;

/// Seconds in one civil day.
pub const SECS_PER_DAY: u64 = 86400;

/// A civil date with a time of day, in UTC.
///
/// `sod` is the second of the day, `0 ..= 86399`.
#[derive(Clone, Copy, PartialEq, Eq, Structural, Debug)]
pub struct CivilDateTime {
    pub year: u64,
    pub month: u64,
    pub day: u64,
    pub sod: u64,
}

/// Gregorian leap-year rule.
pub open spec fn is_leap_year(y: int) -> bool {
    y % 4 == 0 && (y % 100 != 0 || y % 400 == 0)
}

/// Number of days in month `m` (1-based) of year `y`.
pub open spec fn days_in_month(y: int, m: int) -> int {
    if m == 2 {
        if is_leap_year(y) {
            29
        } else {
            28
        }
    } else if m == 4 || m == 6 || m == 9 || m == 11 {
        30
    } else {
        31
    }
}

/// Number of days in year `y`.
pub open spec fn days_in_year(y: int) -> int {
    if is_leap_year(y) {
        366
    } else {
        365
    }
}

/// Days of year `y` that precede the first day of month `m`.
pub open spec fn days_before_month(y: int, m: int) -> int
    decreases m,
{
    if m <= 1 {
        0
    } else {
        days_before_month(y, m - 1) + days_in_month(y, m - 1)
    }
}

/// Days between 1970-01-01 and the first day of year `y` (zero for the
/// epoch year and before).
pub open spec fn days_before_year(y: int) -> int
    decreases y,
{
    if y <= EPOCH_YEAR {
        0
    } else {
        days_before_year(y - 1) + days_in_year(y - 1)
    }
}

/// Day number of a civil date, counted from 1970-01-01 as day zero.
pub open spec fn date_to_days(y: int, m: int, d: int) -> int {
    days_before_year(y) + days_before_month(y, m) + (d - 1)
}

/// Well-formedness of a civil date-time: a real calendar date at or after
/// the epoch, with a valid second of day.
pub open spec fn civil_wf(c: CivilDateTime) -> bool {
    &&& EPOCH_YEAR <= c.year
    &&& 1 <= c.month <= 12
    &&& 1 <= c.day <= days_in_month(c.year as int, c.month as int)
    &&& c.sod < SECS_PER_DAY
}

/// The unix timestamp of a civil date-time.
pub open spec fn to_secs(c: CivilDateTime) -> int {
    date_to_days(c.year as int, c.month as int, c.day as int) * (SECS_PER_DAY as int) + c.sod
}

/// Walks years forward from `y`, consuming `n` days; returns the reached
/// year and the days left inside it.
pub open spec fn split_years(y: int, n: int) -> (int, int)
    decreases n,
{
    if n < days_in_year(y) || n < 0 {
        (y, n)
    } else {
        split_years(y + 1, n - days_in_year(y))
    }
}

/// Walks months of year `y` forward from `m`, consuming `n` days; returns
/// the reached month and the days left inside it.
pub open spec fn split_months(y: int, m: int, n: int) -> (int, int)
    decreases 12 - m,
{
    if m >= 12 || n < days_in_month(y, m) || n < 0 {
        (m, n)
    } else {
        split_months(y, m + 1, n - days_in_month(y, m))
    }
}

/// The civil date-time of a unix timestamp (meaningful for `ts >= 0`).
pub open spec fn civil_of(ts: int) -> CivilDateTime {
    let days = ts / (SECS_PER_DAY as int);
    let sod = ts % (SECS_PER_DAY as int);
    let yr = split_years(EPOCH_YEAR as int, days);
    let mo = split_months(yr.0, 1, yr.1);
    CivilDateTime { year: yr.0 as u64, month: mo.0 as u64, day: (mo.1 + 1) as u64, sod: sod as u64 }
}

/// Whether a timestamp lies in the supported civil range.
pub open spec fn in_supported_range(ts: int) -> bool {
    0 <= ts && civil_of(ts).year <= MAX_YEAR
}

/// `days_before_month` is the sum of the month lengths before `m`, so the
/// whole year sums to `days_in_year`.
pub proof fn lemma_year_months(y: int)
    ensures
        days_before_month(y, 13) == days_in_year(y),
{
    reveal_with_fuel(days_before_month, 14);
}

/// `days_before_month` is nonnegative.
pub proof fn lemma_dbm_nonneg(y: int, m: int)
    ensures
        0 <= days_before_month(y, m),
    decreases m,
{
    if m > 1 {
        lemma_dbm_nonneg(y, m - 1);
    }
}

/// `days_before_month` is monotone in `m`.
pub proof fn lemma_dbm_mono(y: int, m1: int, m2: int)
    requires
        m1 <= m2,
    ensures
        days_before_month(y, m1) <= days_before_month(y, m2),
    decreases m2 - m1,
{
    if m1 < m2 {
        lemma_dbm_mono(y, m1, m2 - 1);
    }
}

/// Bounds on `days_before_year` relative to the number of elapsed years.
pub proof fn lemma_dby_bounds(y: int)
    requires
        y >= EPOCH_YEAR,
    ensures
        365 * (y - EPOCH_YEAR) <= days_before_year(y) <= 366 * (y - EPOCH_YEAR),
    decreases y,
{
    if y > EPOCH_YEAR {
        lemma_dby_bounds(y - 1);
    }
}

/// `days_before_year` is monotone.
pub proof fn lemma_dby_mono(y1: int, y2: int)
    requires
        EPOCH_YEAR <= y1 <= y2,
    ensures
        days_before_year(y1) <= days_before_year(y2),
        y1 < y2 ==> days_before_year(y1) + days_in_year(y1) <= days_before_year(y2),
    decreases y2 - y1,
{
    if y1 < y2 {
        lemma_dby_mono(y1 + 1, y2);
    }
}

/// What the year walk computes: it lands in the year that contains day `n`,
/// and conserves the day count.
pub proof fn lemma_split_years(y: int, n: int)
    requires
        EPOCH_YEAR <= y,
        0 <= n,
    ensures
        ({
            let (y2, n2) = split_years(y, n);
            &&& y <= y2
            &&& 0 <= n2 < days_in_year(y2)
            &&& days_before_year(y2) - days_before_year(y) + n2 == n
        }),
    decreases n,
{
    if !(n < days_in_year(y)) {
        lemma_split_years(y + 1, n - days_in_year(y));
    }
}

/// What the month walk computes, for a day count that stays inside year `y`.
pub proof fn lemma_split_months(y: int, m: int, n: int)
    requires
        1 <= m <= 12,
        0 <= n,
        days_before_month(y, m) + n < days_before_month(y, 13),
    ensures
        ({
            let (m2, n2) = split_months(y, m, n);
            &&& m <= m2 <= 12
            &&& 0 <= n2 < days_in_month(y, m2)
            &&& days_before_month(y, m2) + n2 == days_before_month(y, m) + n
        }),
    decreases 12 - m,
{
    if m == 12 {
        assert(days_before_month(y, 13) == days_before_month(y, 12) + days_in_month(y, 12));
    } else {
        if !(n < days_in_month(y, m)) {
            lemma_split_months(y, m + 1, n - days_in_month(y, m));
        } else {
            lemma_dbm_mono(y, m + 1, 13);
        }
    }
}

/// The year walk started lower finds the year of a given date.
pub proof fn lemma_split_years_locate(y: int, yy: int, r: int)
    requires
        EPOCH_YEAR <= y <= yy,
        0 <= r < days_in_year(yy),
    ensures
        split_years(y, days_before_year(yy) - days_before_year(y) + r) == (yy, r),
    decreases yy - y,
{
    if y == yy {
    } else {
        lemma_dby_mono(y + 1, yy);
        lemma_split_years_locate(y + 1, yy, r);
    }
}

/// The month walk started lower finds the month of a given date.
pub proof fn lemma_split_months_locate(y: int, m: int, mm: int, r: int)
    requires
        1 <= m <= mm <= 12,
        0 <= r < days_in_month(y, mm),
    ensures
        split_months(y, m, days_before_month(y, mm) - days_before_month(y, m) + r) == (mm, r),
    decreases mm - m,
{
    if m == mm {
    } else {
        lemma_dbm_mono(y, m + 1, mm);
        lemma_split_months_locate(y, m + 1, mm, r);
    }
}

/// For a nonnegative timestamp, `civil_of` yields a well-formed date-time
/// that converts back to the same timestamp.
pub proof fn lemma_civil_of_inverse(ts: int)
    requires
        0 <= ts <= i64::MAX,
    ensures
        civil_wf(civil_of(ts)),
        to_secs(civil_of(ts)) == ts,
        date_to_days(
            civil_of(ts).year as int,
            civil_of(ts).month as int,
            civil_of(ts).day as int,
        ) == ts / (SECS_PER_DAY as int),
        civil_of(ts).year as int == split_years(EPOCH_YEAR as int, ts / (SECS_PER_DAY as int)).0,
{
    let days = ts / (SECS_PER_DAY as int);
    let sod = ts % (SECS_PER_DAY as int);
    vstd::arithmetic::div_mod::lemma_fundamental_div_mod(ts, SECS_PER_DAY as int);
    vstd::arithmetic::div_mod::lemma_mod_bound(ts, SECS_PER_DAY as int);
    vstd::arithmetic::div_mod::lemma_div_pos_is_pos(ts, SECS_PER_DAY as int);
    assert(days <= ts) by (nonlinear_arith)
        requires
            ts >= 0,
            days == ts / (SECS_PER_DAY as int),
    ;
    lemma_split_years(EPOCH_YEAR as int, days);
    let (yy, yd) = split_years(EPOCH_YEAR as int, days);
    lemma_year_months(yy);
    lemma_split_months(yy, 1, yd);
    let (mm, md) = split_months(yy, 1, yd);
    lemma_dby_bounds(yy);
    assert(yy < 0x1_0000_0000_0000_0000);
    assert(days * (SECS_PER_DAY as int) == date_to_days(yy, mm, md + 1) * (SECS_PER_DAY as int));
}

/// A well-formed civil date-time is recovered exactly from its timestamp.
pub proof fn lemma_to_secs_inverse(c: CivilDateTime)
    requires
        civil_wf(c),
    ensures
        0 <= to_secs(c),
        civil_of(to_secs(c)) == c,
{
    let y = c.year as int;
    let m = c.month as int;
    let d = c.day as int;
    lemma_dby_bounds(y);
    lemma_dbm_nonneg(y, m);
    lemma_dbm_mono(y, m + 1, 13);
    lemma_year_months(y);
    let days = date_to_days(y, m, d);
    assert(0 <= days);
    let ts = to_secs(c);
    vstd::arithmetic::div_mod::lemma_fundamental_div_mod_converse(
        ts,
        SECS_PER_DAY as int,
        days,
        c.sod as int,
    );
    assert(days_before_month(y, m) + (d - 1) < days_in_year(y));
    lemma_split_years_locate(EPOCH_YEAR as int, y, days_before_month(y, m) + (d - 1));
    lemma_split_months_locate(y, 1, m, d - 1);
}

/// Every supported timestamp is below 254 billion seconds (year 9999 ends
/// well before that), which bounds all advancement arithmetic.
pub proof fn lemma_supported_bound(ts: int)
    requires
        in_supported_range(ts),
        ts <= i64::MAX,
    ensures
        ts < 254_000_000_000,
{
    lemma_civil_of_inverse(ts);
    let c = civil_of(ts);
    let y = c.year as int;
    let m = c.month as int;
    lemma_dby_bounds(y);
    lemma_dbm_mono(y, m, 13);
    lemma_year_months(y);
    let days = date_to_days(y, m, c.day as int);
    assert(days <= 2939010);
    assert(days * (SECS_PER_DAY as int) <= 2939010 * (SECS_PER_DAY as int)) by (nonlinear_arith)
        requires
            days <= 2939010,
    ;
}

/// The supported range is one contiguous interval from the epoch: any
/// nonnegative timestamp below a supported one is supported too.
pub proof fn lemma_supported_prefix(x: int, y: int)
    requires
        0 <= x <= y <= i64::MAX,
        in_supported_range(y),
    ensures
        in_supported_range(x),
{
    lemma_civil_of_inverse(x);
    lemma_civil_of_inverse(y);
    let cx = civil_of(x);
    let cy = civil_of(y);
    if cx.year > cy.year {
        let days_x = date_to_days(cx.year as int, cx.month as int, cx.day as int);
        let days_y = date_to_days(cy.year as int, cy.month as int, cy.day as int);
        lemma_dbm_nonneg(cx.year as int, cx.month as int);
        lemma_dby_mono(cy.year as int + 1, cx.year as int);
        lemma_dbm_mono(cy.year as int, cy.month as int + 1, 13);
        lemma_year_months(cy.year as int);
        assert(days_y < days_before_year(cy.year as int + 1));
        assert(days_x >= days_before_year(cx.year as int));
        assert(days_y < days_x);
        assert((days_y + 1) * (SECS_PER_DAY as int) <= days_x * (SECS_PER_DAY as int));
        assert(false);
    }
}

/// The civil date-time one calendar day later, same time of day.
pub open spec fn next_day(c: CivilDateTime) -> CivilDateTime {
    if c.day < days_in_month(c.year as int, c.month as int) {
        CivilDateTime { day: (c.day + 1) as u64, ..c }
    } else if c.month < 12 {
        CivilDateTime { month: (c.month + 1) as u64, day: 1, ..c }
    } else {
        CivilDateTime { year: (c.year + 1) as u64, month: 1, day: 1, ..c }
    }
}

/// The civil date-time `k` calendar days later, same time of day.
pub open spec fn plus_days(c: CivilDateTime, k: nat) -> CivilDateTime
    decreases k,
{
    if k == 0 {
        c
    } else {
        next_day(plus_days(c, (k - 1) as nat))
    }
}

/// Advancing one calendar day adds one to the day number and exactly one
/// day's worth of seconds.
pub proof fn lemma_next_day(c: CivilDateTime)
    requires
        civil_wf(c),
        c.year < 0xffff_ffff_ffff_ffff,
    ensures
        civil_wf(next_day(c)),
        to_secs(next_day(c)) == to_secs(c) + SECS_PER_DAY,
        next_day(c).sod == c.sod,
        next_day(c).year >= c.year,
{
    let y = c.year as int;
    let m = c.month as int;
    if c.day < days_in_month(y, m) {
    } else if c.month < 12 {
        assert(days_before_month(y, m + 1) == days_before_month(y, m) + days_in_month(y, m));
    } else {
        lemma_year_months(y);
        assert(days_before_month(y, 13) == days_before_month(y, 12) + days_in_month(y, 12));
        assert(days_before_year(y + 1) == days_before_year(y) + days_in_year(y));
    }
}

/// Advancing `k` calendar days adds exactly `k * 86400` seconds and keeps
/// the time of day. The year stays below 2^64 whenever the result is a
/// supported instant, so the bound is taken as a premise.
pub proof fn lemma_plus_days(c: CivilDateTime, k: nat)
    requires
        civil_wf(c),
        c.year + k < 0xffff_ffff_ffff_ffff,
    ensures
        civil_wf(plus_days(c, k)),
        to_secs(plus_days(c, k)) == to_secs(c) + k * SECS_PER_DAY,
        plus_days(c, k).sod == c.sod,
        c.year <= plus_days(c, k).year <= c.year + k,
    decreases k,
{
    if k > 0 {
        lemma_plus_days(c, (k - 1) as nat);
        lemma_next_day(plus_days(c, (k - 1) as nat));
        assert(k * SECS_PER_DAY == (k - 1) * SECS_PER_DAY + SECS_PER_DAY) by (nonlinear_arith);
    }
}

/// Calendar-month addition with end-of-month clamping: the date advances by
/// `k` months; when the day of month does not exist in the target month, it
/// clamps to that month's last day. Time of day is unchanged.
pub open spec fn months_later(c: CivilDateTime, k: int) -> CivilDateTime {
    let total = (c.year as int) * 12 + (c.month as int - 1) + k;
    let y2 = total / 12;
    let m2 = total % 12 + 1;
    let d2 = if c.day as int <= days_in_month(y2, m2) {
        c.day as int
    } else {
        days_in_month(y2, m2)
    };
    CivilDateTime { year: y2 as u64, month: m2 as u64, day: d2 as u64, sod: c.sod }
}

/// Month addition lands on a well-formed date and advances the month count
/// by exactly `k`, clamping only the day of month.
pub proof fn lemma_months_later(c: CivilDateTime, k: int)
    requires
        civil_wf(c),
        0 <= k,
        (c.year as int) * 12 + (c.month as int - 1) + k < 0xffff_ffff_ffff_ffff,
    ensures
        civil_wf(months_later(c, k)),
        (months_later(c, k).year as int) * 12 + (months_later(c, k).month as int - 1) == (
        c.year as int) * 12 + (c.month as int - 1) + k,
        months_later(c, k).day == if c.day as int <= days_in_month(
            months_later(c, k).year as int,
            months_later(c, k).month as int,
        ) {
            c.day as int
        } else {
            days_in_month(months_later(c, k).year as int, months_later(c, k).month as int)
        },
        months_later(c, k).sod == c.sod,
{
    let total = (c.year as int) * 12 + (c.month as int - 1) + k;
    vstd::arithmetic::div_mod::lemma_fundamental_div_mod(total, 12);
    vstd::arithmetic::div_mod::lemma_mod_bound(total, 12);
    vstd::arithmetic::div_mod::lemma_div_is_ordered(EPOCH_YEAR as int * 12, total, 12);
    assert(EPOCH_YEAR as int * 12 / 12 == EPOCH_YEAR) by (nonlinear_arith);
}

/// Month addition with clamping, executable; `None` when the result leaves
/// the supported range.
pub fn months_later_x(c: &CivilDateTime, k: u64) -> (r: Option<CivilDateTime>)
    requires
        civil_wf(*c),
        c.year <= MAX_YEAR,
        k <= 0xc_0000_0000,
    ensures
        months_later(*c, k as int).year <= MAX_YEAR ==> r == Some(months_later(*c, k as int)),
        months_later(*c, k as int).year > MAX_YEAR ==> r is None,
{
    proof {
        lemma_months_later(*c, k as int);
    }
    let total: u64 = c.year * 12 + (c.month - 1) + k;
    let y2: u64 = total / 12;
    let m2: u64 = total % 12 + 1;
    if y2 > MAX_YEAR {
        return None;
    }
    let dim = days_in_month_x(y2, m2);
    let d2: u64 = if c.day <= dim {
        c.day
    } else {
        dim
    };
    Some(CivilDateTime { year: y2, month: m2, day: d2, sod: c.sod })
}

/// Days in month `m` of year `y`, executable.
pub fn days_in_month_x(y: u64, m: u64) -> (r: u64)
    requires
        1 <= m <= 12,
    ensures
        r == days_in_month(y as int, m as int),
{
    if m == 2 {
        if (y % 4 == 0 && y % 100 != 0) || y % 400 == 0 {
            29
        } else {
            28
        }
    } else if m == 4 || m == 6 || m == 9 || m == 11 {
        30
    } else {
        31
    }
}

/// Days in year `y`, executable.
pub fn days_in_year_x(y: u64) -> (r: u64)
    ensures
        r == days_in_year(y as int),
{
    if (y % 4 == 0 && y % 100 != 0) || y % 400 == 0 {
        366
    } else {
        365
    }
}

/// Converts a unix timestamp to its civil date-time, or `None` when the
/// timestamp lies outside the supported range.
pub fn secs_to_civil(ts: i64) -> (r: Option<CivilDateTime>)
    ensures
        r is Some <==> in_supported_range(ts as int),
        r is Some ==> r == Some(civil_of(ts as int)),
{
    if ts < 0 {
        return None;
    }
    let total: u64 = ts as u64;
    let days: u64 = total / SECS_PER_DAY;
    let sod: u64 = total % SECS_PER_DAY;
    proof {
        lemma_civil_of_inverse(ts as int);
    }
    let ghost split_y = split_years(EPOCH_YEAR as int, days as int);
    let mut y: u64 = EPOCH_YEAR;
    let mut rem: u64 = days;
    loop
        invariant
            EPOCH_YEAR <= y <= MAX_YEAR,
            rem <= days,
            split_years(y as int, rem as int) == split_y,
            split_y == split_years(EPOCH_YEAR as int, days as int),
            days == (ts as int) / (SECS_PER_DAY as int),
            civil_of(ts as int).year as int == split_y.0,
            0 <= ts,
        ensures
            EPOCH_YEAR <= y <= MAX_YEAR,
            rem < days_in_year(y as int),
            (y as int, rem as int) == split_y,
        decreases rem,
    {
        let diy = days_in_year_x(y);
        if rem < diy {
            break;
        }
        if y >= MAX_YEAR {
            proof {
                assert(split_years(y as int, rem as int) == split_years(
                    y as int + 1,
                    rem as int - days_in_year(y as int),
                ));
                lemma_split_years(y as int + 1, rem as int - days_in_year(y as int));
            }
            return None;
        }
        rem = rem - diy;
        y = y + 1;
    }
    proof {
        lemma_year_months(y as int);
        lemma_split_months((y as int), 1, rem as int);
    }
    let ghost split_m = split_months(y as int, 1, rem as int);
    let mut m: u64 = 1;
    let mut mrem: u64 = rem;
    loop
        invariant
            1 <= m <= 12,
            mrem <= rem,
            rem < days_in_year(y as int),
            split_months(y as int, m as int, mrem as int) == split_m,
            split_m == split_months(y as int, 1, rem as int),
            EPOCH_YEAR <= y <= MAX_YEAR,
        ensures
            1 <= m <= 12,
            mrem < days_in_month(y as int, m as int),
            (m as int, mrem as int) == split_m,
        decreases 12 - m,
    {
        let dim = days_in_month_x(y, m);
        if mrem < dim || m >= 12 {
            proof {
                lemma_year_months(y as int);
                lemma_split_months(y as int, 1, rem as int);
            }
            break;
        }
        mrem = mrem - dim;
        m = m + 1;
    }
    Some(CivilDateTime { year: y, month: m, day: mrem + 1, sod })
}

/// Converts a well-formed civil date-time in the supported range back to a
/// unix timestamp.
pub fn civil_to_secs(c: &CivilDateTime) -> (r: i64)
    requires
        civil_wf(*c),
        c.year <= MAX_YEAR,
    ensures
        r == to_secs(*c),
        in_supported_range(r as int),
{
    proof {
        lemma_to_secs_inverse(*c);
        lemma_dby_bounds(c.year as int);
        lemma_dbm_nonneg(c.year as int, c.month as int);
        lemma_dbm_mono(c.year as int, c.month as int, 13);
        lemma_year_months(c.year as int);
    }
    let mut y: u64 = EPOCH_YEAR;
    let mut days: u64 = 0;
    while y < c.year
        invariant
            EPOCH_YEAR <= y <= c.year <= MAX_YEAR,
            days == days_before_year(y as int),
            days <= 366 * (y - EPOCH_YEAR),
        decreases c.year - y,
    {
        proof {
            lemma_dby_bounds(y as int + 1);
        }
        days = days + days_in_year_x(y);
        y = y + 1;
    }
    let mut m: u64 = 1;
    while m < c.month
        invariant
            1 <= m <= c.month,
            civil_wf(*c),
            c.year <= MAX_YEAR,
            days == days_before_year(c.year as int) + days_before_month(c.year as int, m as int),
            days <= 366 * (MAX_YEAR - EPOCH_YEAR) + 366,
        decreases c.month - m,
    {
        proof {
            lemma_dbm_mono(c.year as int, m as int + 1, 13);
            lemma_year_months(c.year as int);
            lemma_dby_bounds(c.year as int);
        }
        days = days + days_in_month_x(c.year, m);
        m = m + 1;
    }
    let days_total: u64 = days + (c.day - 1);
    let secs: u64 = days_total * SECS_PER_DAY + c.sod;
    proof {
        lemma_dby_bounds(c.year as int);
        lemma_dbm_nonneg(c.year as int, c.month as int);
        assert(days_total * SECS_PER_DAY <= 2940000 * SECS_PER_DAY) by (nonlinear_arith)
            requires
                days_total <= 2940000,
        ;
        lemma_civil_of_inverse(to_secs(*c));
    }
    secs as i64
}

} // verus!

//! Repeat policy: maps an anchor instant and an occurrence index to the next
//! due instant, for a closed set of interval kinds.

use vstd::prelude::*;

use crate::calendar::civil_of;
use crate::calendar::date_to_days;
use crate::calendar::days_in_month;
use crate::calendar::lemma_plus_days;
use crate::calendar::lemma_to_secs_inverse;
use crate::calendar::plus_days;
use crate::calendar::CivilDateTime;
use crate::calendar::civil_to_secs;
use crate::calendar::civil_wf;
use crate::calendar::in_supported_range;
use crate::calendar::lemma_civil_of_inverse;
use crate::calendar::lemma_months_later;
use crate::calendar::lemma_supported_bound;
use crate::calendar::months_later;
use crate::calendar::months_later_x;
use crate::calendar::secs_to_civil;
use crate::calendar::to_secs;
use crate::calendar::MAX_YEAR;
use crate::calendar::SECS_PER_DAY;

verus! {

/// Possible times between repeats. `FiveMinutesly` is a short granularity
/// kept for exercising the scheduler quickly.
#[derive(Clone, Copy, PartialEq, Eq, Structural, Debug, Hash)]
pub enum Interval {
    FiveMinutesly,
    Hourly,
    Daily,
    Weekly,
    Monthly,
    Yearly,
}

/// An interval together with the count of occurrences already fired.
///
/// Identity in the reminder store considers only the interval, never the
/// index; the index is advanced by the scheduler after each fire.
#[derive(Clone, Copy, PartialEq, Eq, Structural, Debug)]
pub struct Repeat {
    pub interval: Interval,
    pub index: u32,
}

/// Seconds-level advancement with the range fallback: out-of-range results
/// leave the anchor unmodified.
pub open spec fn add_secs_spec(anchor: i64, delta: int) -> int {
    if in_supported_range(anchor + delta) {
        anchor + delta
    } else {
        anchor as int
    }
}

/// Month-level advancement with the range fallback.
pub open spec fn add_months_spec(anchor: i64, k: int) -> int {
    let c2 = months_later(civil_of(anchor as int), k);
    if c2.year <= MAX_YEAR {
        to_secs(c2)
    } else {
        anchor as int
    }
}

/// The instant `index` repeat-units after `anchor`.
///
/// Anchors outside the supported civil range are returned unmodified, as is
/// any advanced instant that would leave the range. The hourly kind applies
/// no offset at all — the observed behavior of the scheduler this models,
/// kept deliberately rather than silently corrected.
pub open spec fn next_spec(interval: Interval, index: u32, anchor: i64) -> int {
    if !in_supported_range(anchor as int) {
        anchor as int
    } else {
        match interval {
            Interval::FiveMinutesly => add_secs_spec(anchor, 300 * (index as int)),
            Interval::Hourly => anchor as int,
            Interval::Daily => add_secs_spec(anchor, (SECS_PER_DAY as int) * (index as int)),
            Interval::Weekly => add_secs_spec(anchor, 7 * (SECS_PER_DAY as int) * (index as int)),
            Interval::Monthly => add_months_spec(anchor, index as int),
            Interval::Yearly => add_months_spec(anchor, 12 * (index as int)),
        }
    }
}

/// Seconds-level advancement, executable.
fn add_secs_x(anchor: i64, delta: i64) -> (r: i64)
    requires
        in_supported_range(anchor as int),
        0 <= delta < 0x10_0000_0000_0000,
    ensures
        r == add_secs_spec(anchor, delta as int),
{
    proof {
        lemma_supported_bound(anchor as int);
    }
    let cand: i64 = anchor + delta;
    if secs_to_civil(cand).is_some() {
        cand
    } else {
        anchor
    }
}

impl Repeat {
    /// A fresh repeat policy that has not fired yet.
    pub fn new(interval: Interval) -> (r: Self)
        ensures
            r.interval == interval,
            r.index == 0,
    {
        Self { interval, index: 0 }
    }

    /// Increases the internal index that keeps track of how many times a
    /// timer has repeated.
    pub fn increment_index(&mut self)
        requires
            old(self).index < u32::MAX,
        ensures
            final(self).interval == old(self).interval,
            final(self).index == old(self).index + 1,
    {
        self.index = self.index + 1;
    }

    /// Retrieves the next due instant, accounting for repeats, from an
    /// initial anchor instant.
    pub fn next(&self, timestamp: i64) -> (r: i64)
        ensures
            r == next_spec(self.interval, self.index, timestamp),
    {
        let c = match secs_to_civil(timestamp) {
            Some(c) => c,
            None => {
                return timestamp;
            },
        };
        proof {
            lemma_civil_of_inverse(timestamp as int);
        }
        match self.interval {
            Interval::FiveMinutesly => add_secs_x(timestamp, 300 * (self.index as i64)),
            Interval::Hourly => timestamp,
            Interval::Daily => add_secs_x(timestamp, 86400 * (self.index as i64)),
            Interval::Weekly => add_secs_x(timestamp, 604800 * (self.index as i64)),
            Interval::Monthly => self.months_next(&c, self.index as u64, timestamp),
            Interval::Yearly => self.months_next(&c, 12 * (self.index as u64), timestamp),
        }
    }

    /// Month-granularity advancement shared by the monthly and yearly kinds.
    fn months_next(&self, c: &CivilDateTime, k: u64, anchor: i64) -> (r: i64)
        requires
            *c == civil_of(anchor as int),
            civil_wf(*c),
            c.year <= MAX_YEAR,
            in_supported_range(anchor as int),
            to_secs(*c) == anchor,
            k <= 0xc_0000_0000,
        ensures
            r == add_months_spec(anchor, k as int),
    {
        proof {
            lemma_months_later(*c, k as int);
        }
        match months_later_x(c, k) {
            Some(c2) => civil_to_secs(&c2),
            None => anchor,
        }
    }
}

/// Law: the zeroth occurrence is the anchor instant itself, for every
/// interval kind.
pub proof fn lemma_next_zero(interval: Interval, anchor: i64)
    ensures
        next_spec(interval, 0, anchor) == anchor,
{
    if in_supported_range(anchor as int) {
        lemma_civil_of_inverse(anchor as int);
        let c = civil_of(anchor as int);
        let total = (c.year as int) * 12 + (c.month as int - 1);
        vstd::arithmetic::div_mod::lemma_fundamental_div_mod_converse(
            total,
            12,
            c.year as int,
            c.month as int - 1,
        );
        lemma_months_later(c, 0);
    }
}

/// Law: daily advancement by `k` adds exactly `k` calendar days, crossing
/// month and year boundaries, keeping the time of day.
pub proof fn lemma_daily_adds_calendar_days(c: CivilDateTime, k: u32, anchor: i64)
    requires
        civil_wf(c),
        to_secs(c) == anchor,
        in_supported_range(anchor as int),
        in_supported_range(anchor + (SECS_PER_DAY as int) * k),
    ensures
        next_spec(Interval::Daily, k, anchor) == to_secs(plus_days(c, k as nat)),
        date_to_days(
            plus_days(c, k as nat).year as int,
            plus_days(c, k as nat).month as int,
            plus_days(c, k as nat).day as int,
        ) == date_to_days(c.year as int, c.month as int, c.day as int) + k,
        plus_days(c, k as nat).sod == c.sod,
        civil_of(next_spec(Interval::Daily, k, anchor) as int) == plus_days(c, k as nat),
{
    lemma_to_secs_inverse(c);
    lemma_supported_bound(anchor as int);
    lemma_plus_days(c, k as nat);
    lemma_to_secs_inverse(plus_days(c, k as nat));
    assert(k * (SECS_PER_DAY as int) == (SECS_PER_DAY as int) * k);
}

/// Law: weekly advancement by `k` adds exactly `7 k` calendar days.
pub proof fn lemma_weekly_adds_calendar_days(c: CivilDateTime, k: u32, anchor: i64)
    requires
        civil_wf(c),
        to_secs(c) == anchor,
        in_supported_range(anchor as int),
        in_supported_range(anchor + 7 * (SECS_PER_DAY as int) * k),
    ensures
        next_spec(Interval::Weekly, k, anchor) == to_secs(plus_days(c, 7 * k as nat)),
        plus_days(c, 7 * k as nat).sod == c.sod,
{
    lemma_to_secs_inverse(c);
    lemma_supported_bound(anchor as int);
    lemma_plus_days(c, 7 * k as nat);
    lemma_to_secs_inverse(plus_days(c, 7 * k as nat));
    assert((7 * k) * (SECS_PER_DAY as int) == 7 * (SECS_PER_DAY as int) * k) by (nonlinear_arith);
}

/// Law: monthly advancement uses calendar-month semantics — the month count
/// advances by exactly `k` — with an end-of-month clamp: the day of month is
/// kept when the target month has it, else clamped to the target month's
/// last day. The time of day is kept.
pub proof fn lemma_monthly_clamps(c: CivilDateTime, k: u32, anchor: i64)
    requires
        civil_wf(c),
        to_secs(c) == anchor,
        in_supported_range(anchor as int),
        months_later(c, k as int).year <= MAX_YEAR,
    ensures
        next_spec(Interval::Monthly, k, anchor) == to_secs(months_later(c, k as int)),
        civil_wf(months_later(c, k as int)),
        (months_later(c, k as int).year as int) * 12 + (months_later(c, k as int).month as int)
            - 1 == (c.year as int) * 12 + (c.month as int) - 1 + k,
        months_later(c, k as int).day == if c.day as int <= days_in_month(
            months_later(c, k as int).year as int,
            months_later(c, k as int).month as int,
        ) {
            c.day as int
        } else {
            days_in_month(months_later(c, k as int).year as int, months_later(c, k as int).month as int)
        },
        months_later(c, k as int).sod == c.sod,
{
    lemma_to_secs_inverse(c);
    lemma_months_later(c, k as int);
}

/// Law: yearly advancement is calendar-month advancement by `12 k` months,
/// with the same end-of-month clamp.
pub proof fn lemma_yearly_clamps(c: CivilDateTime, k: u32, anchor: i64)
    requires
        civil_wf(c),
        to_secs(c) == anchor,
        in_supported_range(anchor as int),
        months_later(c, 12 * k as int).year <= MAX_YEAR,
    ensures
        next_spec(Interval::Yearly, k, anchor) == to_secs(months_later(c, 12 * k as int)),
        civil_wf(months_later(c, 12 * k as int)),
        months_later(c, 12 * k as int).sod == c.sod,
{
    lemma_to_secs_inverse(c);
    lemma_months_later(c, 12 * k as int);
}

} // verus!

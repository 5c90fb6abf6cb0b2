//! The repeat policy on concrete instants.

use reminder_core::repeat::{Interval, Repeat};

fn repeat_with_index(interval: Interval, index: u32) -> Repeat {
    let mut r = Repeat::new(interval);
    let mut i: u32 = 0;
    while i < index {
        r.increment_index();
        i += 1;
    }
    r
}

#[test]
fn next_at_index_zero_is_anchor_for_every_kind() {
    let anchor: i64 = 1612008000; // 2021-01-30 12:00:00 UTC
    for interval in [
        Interval::FiveMinutesly,
        Interval::Hourly,
        Interval::Daily,
        Interval::Weekly,
        Interval::Monthly,
        Interval::Yearly,
    ] {
        assert_eq!(Repeat::new(interval).next(anchor), anchor);
    }
}

#[test]
fn daily_crosses_month_boundary() {
    // Day 30 of a 31-day month, three days later: day 2 of the next month.
    let anchor: i64 = 1612008000; // 2021-01-30 12:00:00 UTC
    let r = repeat_with_index(Interval::Daily, 3);
    assert_eq!(r.next(anchor), 1612267200); // 2021-02-02 12:00:00 UTC
}

#[test]
fn daily_adds_exactly_one_day_in_seconds() {
    let anchor: i64 = 1710028800; // 2024-03-10 00:00:00 UTC
    let r = repeat_with_index(Interval::Daily, 1);
    assert_eq!(r.next(anchor), anchor + 86400);
}

#[test]
fn weekly_adds_seven_days() {
    let anchor: i64 = 1710028800; // 2024-03-10 00:00:00 UTC
    let r = repeat_with_index(Interval::Weekly, 1);
    assert_eq!(r.next(anchor), 1710633600); // 2024-03-17 00:00:00 UTC
}

#[test]
fn monthly_clamps_to_end_of_february() {
    // Jan 31 plus one month lands on the last day of February.
    let anchor: i64 = 1612137599; // 2021-01-31 23:59:59 UTC
    let r = repeat_with_index(Interval::Monthly, 1);
    assert_eq!(r.next(anchor), 1614556799); // 2021-02-28 23:59:59 UTC
}

#[test]
fn yearly_clamps_leap_day() {
    let anchor: i64 = 1582956000; // 2020-02-29 06:00:00 UTC
    let r = repeat_with_index(Interval::Yearly, 1);
    assert_eq!(r.next(anchor), 1614492000); // 2021-02-28 06:00:00 UTC
}

#[test]
fn hourly_applies_no_offset() {
    let anchor: i64 = 1710028800;
    let r = repeat_with_index(Interval::Hourly, 5);
    assert_eq!(r.next(anchor), anchor);
}

#[test]
fn five_minutesly_adds_three_hundred_seconds_per_index() {
    let anchor: i64 = 1710028800;
    let r = repeat_with_index(Interval::FiveMinutesly, 4);
    assert_eq!(r.next(anchor), anchor + 1200);
}

#[test]
fn out_of_range_anchor_is_returned_unmodified() {
    let r = repeat_with_index(Interval::Daily, 2);
    assert_eq!(r.next(-5), -5);
}

#[test]
fn advancement_past_supported_range_falls_back_to_anchor() {
    let anchor: i64 = 253402300799; // 9999-12-31 23:59:59 UTC
    let r = repeat_with_index(Interval::Daily, 1);
    assert_eq!(r.next(anchor), anchor);
    let r = repeat_with_index(Interval::Monthly, 1);
    assert_eq!(r.next(anchor), anchor);
}

#[test]
fn increment_index_counts_up() {
    let mut r = Repeat::new(Interval::Daily);
    assert_eq!(r.index, 0);
    r.increment_index();
    r.increment_index();
    assert_eq!(r.index, 2);
    assert_eq!(r.interval, Interval::Daily);
}

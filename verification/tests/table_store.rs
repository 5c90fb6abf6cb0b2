//! The reminder table on concrete values.

use reminder_core::reminder::{is_same_identity, Reminder};
use reminder_core::repeat::{Interval, Repeat};
use reminder_core::table::{Location, ReminderTable, RemoveError};

fn plain_reminder(target: i64, name: &str) -> Reminder {
    Reminder::new(
        100,
        7,
        target,
        None,
        Some(name.to_string()),
        None,
        Some("body".to_string()),
    )
}

#[test]
fn identity_ignores_name_and_body() {
    let a = plain_reminder(5000, "first");
    let b = plain_reminder(5000, "second");
    assert!(is_same_identity(&a, &b));
    let c = plain_reminder(5001, "first");
    assert!(!is_same_identity(&a, &c));
}

#[test]
fn identity_ignores_repeat_index() {
    let mut rep = Repeat::new(Interval::Daily);
    let a = Reminder::new(100, 7, 5000, Some(rep), None, None, None);
    rep.increment_index();
    let b = Reminder::new(100, 7, 5000, Some(rep), None, None, None);
    assert!(is_same_identity(&a, &b));
    let c = Reminder::new(100, 7, 5000, Some(Repeat::new(Interval::Weekly)), None, None, None);
    assert!(!is_same_identity(&a, &c));
}

#[test]
fn adding_same_identity_does_not_grow_the_set() {
    let loc = Location { guild: 1, channel: 2 };
    let mut table = ReminderTable::new();
    table.add_reminder(loc, plain_reminder(5000, "first"));
    table.add_reminder(loc, plain_reminder(5000, "second"));
    let set = table.get_reminders(loc).unwrap();
    assert_eq!(set.len(), 1);
    // Insert-or-ignore: the stored instance is the first one.
    assert_eq!(set[0].name.as_deref(), Some("first"));
}

#[test]
fn replace_overwrites_on_identity_collision() {
    let loc = Location { guild: 1, channel: 2 };
    let mut table = ReminderTable::new();
    table.add_reminder(loc, plain_reminder(5000, "first"));
    table.replace_reminder(loc, plain_reminder(5000, "second"));
    let set = table.get_reminders(loc).unwrap();
    assert_eq!(set.len(), 1);
    assert_eq!(set[0].name.as_deref(), Some("second"));
}

#[test]
fn distinct_identities_accumulate() {
    let loc = Location { guild: 1, channel: 2 };
    let mut table = ReminderTable::new();
    table.add_reminder(loc, plain_reminder(5000, "a"));
    table.add_reminder(loc, plain_reminder(6000, "b"));
    assert_eq!(table.get_reminders(loc).unwrap().len(), 2);
}

#[test]
fn remove_on_missing_location_mutates_nothing() {
    let loc = Location { guild: 1, channel: 2 };
    let other = Location { guild: 1, channel: 3 };
    let mut table = ReminderTable::new();
    table.add_reminder(loc, plain_reminder(5000, "a"));
    let r = table.remove_reminder(other, &plain_reminder(5000, "a"));
    assert_eq!(r, Err(RemoveError::NoLocation));
    assert_eq!(table.get_reminders(loc).unwrap().len(), 1);
}

#[test]
fn remove_on_missing_identity_mutates_nothing() {
    let loc = Location { guild: 1, channel: 2 };
    let mut table = ReminderTable::new();
    table.add_reminder(loc, plain_reminder(5000, "a"));
    let r = table.remove_reminder(loc, &plain_reminder(6000, "a"));
    assert_eq!(r, Err(RemoveError::NotFound));
    assert_eq!(table.get_reminders(loc).unwrap().len(), 1);
}

#[test]
fn removing_last_reminder_deletes_the_location_key() {
    let loc = Location { guild: 1, channel: 2 };
    let mut table = ReminderTable::new();
    table.add_reminder(loc, plain_reminder(5000, "kept"));
    let r = table.remove_reminder(loc, &plain_reminder(5000, "any name works"));
    assert_eq!(r, Ok(()));
    assert!(table.get_reminders(loc).is_none());
}

#[test]
fn remove_keeps_other_identities_at_the_location() {
    let loc = Location { guild: 1, channel: 2 };
    let mut table = ReminderTable::new();
    table.add_reminder(loc, plain_reminder(5000, "a"));
    table.add_reminder(loc, plain_reminder(6000, "b"));
    assert_eq!(table.remove_reminder(loc, &plain_reminder(5000, "a")), Ok(()));
    let set = table.get_reminders(loc).unwrap();
    assert_eq!(set.len(), 1);
    assert_eq!(set[0].target_date, 6000);
}

#[test]
fn ordinals_start_at_one() {
    let loc = Location { guild: 1, channel: 2 };
    let mut table = ReminderTable::new();
    table.add_reminder(loc, plain_reminder(5000, "a"));
    table.add_reminder(loc, plain_reminder(6000, "b"));
    assert!(table.get_by_ordinal(loc, 0).is_none());
    assert_eq!(table.get_by_ordinal(loc, 1).unwrap().target_date, 5000);
    assert_eq!(table.get_by_ordinal(loc, 2).unwrap().target_date, 6000);
    assert!(table.get_by_ordinal(loc, 3).is_none());
}

#[test]
fn reminder_normalizes_empty_metadata() {
    let r = Reminder::new(
        100,
        7,
        5000,
        None,
        Some("name".to_string()),
        Some(Vec::new()),
        Some(String::new()),
    );
    assert!(r.roles.is_none());
    assert!(r.description.is_none());
    assert_eq!(r.name.as_deref(), Some("name"));
    let r = Reminder::new(100, 7, 5000, None, None, Some(vec![3, 4]), Some("x".to_string()));
    assert_eq!(r.roles.as_deref(), Some(&[3u64, 4u64][..]));
    assert_eq!(r.description.as_deref(), Some("x"));
    assert_eq!(r.get_creation(), (100, 7));
}

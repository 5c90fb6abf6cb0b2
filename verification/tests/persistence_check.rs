//! The persistence dirty check and the request validation, on concrete
//! values.

use reminder_core::commands::{validate_new_reminder, ValidationError};
use reminder_core::persist::{tables_equal, PersistenceManager};
use reminder_core::reminder::Reminder;
use reminder_core::table::{Location, ReminderTable};

fn noted(target: i64, note: &str) -> Reminder {
    Reminder::new(100, 7, target, None, None, None, Some(note.to_string()))
}

#[test]
fn unchanged_table_is_written_zero_times_across_ticks() {
    let loc = Location { guild: 1, channel: 2 };
    let mut table = ReminderTable::new();
    table.add_reminder(loc, noted(5000, "x"));

    let mut pm = PersistenceManager::new(ReminderTable::new());
    // First tick after a mutation: the snapshot differs and must be written.
    assert!(pm.tick(table.clone()));
    // Two consecutive ticks with zero mutations in between: zero writes.
    assert!(!pm.tick(table.clone()));
    assert!(!pm.tick(table.clone()));
}

#[test]
fn tick_detects_field_level_changes() {
    let loc = Location { guild: 1, channel: 2 };
    let mut table = ReminderTable::new();
    table.add_reminder(loc, noted(5000, "before"));
    let mut pm = PersistenceManager::new(table.clone());
    assert!(!pm.tick(table.clone()));
    // Same identity, different body: full value equality must see it.
    table.replace_reminder(loc, noted(5000, "after"));
    assert!(pm.tick(table.clone()));
    assert!(!pm.tick(table));
}

#[test]
fn tables_compare_by_full_value() {
    let loc = Location { guild: 1, channel: 2 };
    let mut a = ReminderTable::new();
    let mut b = ReminderTable::new();
    assert!(tables_equal(&a, &b));
    a.add_reminder(loc, noted(5000, "x"));
    assert!(!tables_equal(&a, &b));
    b.add_reminder(loc, noted(5000, "x"));
    assert!(tables_equal(&a, &b));
    b.replace_reminder(loc, noted(5000, "y"));
    assert!(!tables_equal(&a, &b));
}

#[test]
fn validation_rejects_past_targets() {
    let (now, res) = validate_new_reminder(0, &None);
    assert!(now > 0);
    assert_eq!(res, Err(ValidationError::TargetNotFuture));
    let (_, res) = validate_new_reminder(i64::MAX, &None);
    assert_eq!(res, Ok(()));
}

#[test]
fn validation_enforces_the_body_length_limit() {
    let long_body: String = "a".repeat(4097);
    let (_, res) = validate_new_reminder(i64::MAX, &Some(long_body));
    assert_eq!(res, Err(ValidationError::BodyTooLong));
    let fitting: String = "a".repeat(4096);
    let (_, res) = validate_new_reminder(i64::MAX, &Some(fitting));
    assert_eq!(res, Ok(()));
}

#[test]
fn clock_wait_is_future_only() {
    let (now, wait) = reminder_core::clock::time_until(i64::MAX);
    assert_eq!(wait, Some((i64::MAX as i128 - now as i128) as u64));
    let (_, wait) = reminder_core::clock::time_until(0);
    assert!(wait.is_none());
}

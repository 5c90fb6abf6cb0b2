//! The scheduler's arm / fire / re-arm / cancel cycle, driven with explicit
//! clock readings.

use reminder_core::reminder::Reminder;
use reminder_core::repeat::{Interval, Repeat};
use reminder_core::scheduler::{ArmError, RemoveCommandError, Scheduler};
use reminder_core::table::{Location, ReminderTable};

fn one_shot(target: i64) -> Reminder {
    Reminder::new(10, 7, target, None, Some("ping".to_string()), None, None)
}

fn daily(target: i64) -> Reminder {
    Reminder::new(10, 7, target, Some(Repeat::new(Interval::Daily)), None, None, None)
}

#[test]
fn arming_a_past_due_reminder_fails() {
    let mut sched = Scheduler::new();
    let r = one_shot(1000);
    assert_eq!(sched.arm(1000, &r, 1), Err(ArmError::PastDue));
    assert_eq!(sched.arm(2000, &r, 1), Err(ArmError::PastDue));
}

#[test]
fn one_shot_fires_once_and_leaves_the_store_empty() {
    let loc = Location { guild: 1, channel: 2 };
    let now: i64 = 1710028800;
    let mut store = ReminderTable::new();
    let mut sched = Scheduler::new();
    let r = one_shot(now + 5);

    store.add_reminder(loc, r.clone());
    // Armed: the suspension waits exactly five time-units.
    assert_eq!(sched.arm(now, &r, 41), Ok(5));

    // The timer expires; delivery happens outside; then the fire outcome:
    // a non-repeating reminder is retired, never re-armed.
    let rearm = Scheduler::on_fired(&mut store, loc, &r);
    assert!(rearm.is_none());
    assert!(store.get_reminders(loc).is_none());
}

#[test]
fn daily_reminder_rearms_with_incremented_index() {
    let loc = Location { guild: 1, channel: 2 };
    let anchor: i64 = 1710028800; // 2024-03-10 00:00:00 UTC
    let now = anchor - 5;
    let mut store = ReminderTable::new();
    let mut sched = Scheduler::new();
    let r = daily(anchor);

    store.add_reminder(loc, r.clone());
    // Index 0: the first occurrence is the anchor itself.
    assert_eq!(sched.arm(now, &r, 41), Ok(5));

    // It fires once; the store then holds the same identity with index 1.
    let rearm = Scheduler::on_fired(&mut store, loc, &r).unwrap();
    let set = store.get_reminders(loc).unwrap();
    assert_eq!(set.len(), 1);
    assert_eq!(set[0].target_date, anchor);
    assert_eq!(set[0].repeating.unwrap().interval, Interval::Daily);
    assert_eq!(set[0].repeating.unwrap().index, 1);

    // The successor's computed due instant is one calendar day after.
    assert_eq!(Scheduler::due_instant(&rearm), anchor + 86400);
    // Re-arming replaces the handle under the same identity.
    assert_eq!(sched.arm(anchor, &rearm, 42), Ok(86400));
}

#[test]
fn cancel_before_due_removes_store_entry_and_handle() {
    let loc = Location { guild: 1, channel: 2 };
    let now: i64 = 1710028800;
    let mut store = ReminderTable::new();
    let mut sched = Scheduler::new();
    let r = daily(now + 500);

    store.add_reminder(loc, r.clone());
    assert_eq!(sched.arm(now, &r, 77), Ok(500));

    // Cancelled by ordinal: the armed handle comes back for aborting, and
    // neither the store nor the handle registry holds the reminder.
    assert_eq!(sched.remove_by_ordinal(&mut store, loc, 1), Ok(77));
    assert!(store.get_reminders(loc).is_none());
    // A second cancel finds nothing.
    assert_eq!(
        sched.remove_by_ordinal(&mut store, loc, 1),
        Err(RemoveCommandError::NoLocation)
    );
}

#[test]
fn cancel_without_armed_handle_still_removes_the_store_entry() {
    let loc = Location { guild: 1, channel: 2 };
    let mut store = ReminderTable::new();
    let mut sched = Scheduler::new();
    store.add_reminder(loc, one_shot(9000));
    assert_eq!(
        sched.remove_by_ordinal(&mut store, loc, 1),
        Err(RemoveCommandError::HandleNotFound)
    );
    assert!(store.get_reminders(loc).is_none());
}

#[test]
fn remove_command_validates_the_ordinal() {
    let loc = Location { guild: 1, channel: 2 };
    let mut store = ReminderTable::new();
    let mut sched = Scheduler::new();
    assert_eq!(
        sched.remove_by_ordinal(&mut store, loc, 0),
        Err(RemoveCommandError::BadOrdinal)
    );
    assert_eq!(
        sched.remove_by_ordinal(&mut store, loc, 1),
        Err(RemoveCommandError::NoLocation)
    );
    store.add_reminder(loc, one_shot(9000));
    assert_eq!(
        sched.remove_by_ordinal(&mut store, loc, 2),
        Err(RemoveCommandError::OrdinalNotFound)
    );
    assert_eq!(store.get_reminders(loc).unwrap().len(), 1);
}

#[test]
fn fired_repeating_reminder_without_location_is_not_rearmed() {
    let loc = Location { guild: 1, channel: 2 };
    let mut store = ReminderTable::new();
    let r = daily(1710028800);
    // The location was emptied (e.g. cancelled) before the fire completed.
    assert!(Scheduler::on_fired(&mut store, loc, &r).is_none());
    assert!(store.get_reminders(loc).is_none());
}

#[test]
fn due_instant_uses_the_stored_index() {
    let anchor: i64 = 1710028800;
    let mut rep = Repeat::new(Interval::Daily);
    rep.increment_index();
    rep.increment_index();
    let r = Reminder::new(10, 7, anchor, Some(rep), None, None, None);
    assert_eq!(Scheduler::due_instant(&r), anchor + 2 * 86400);
    let plain = one_shot(anchor);
    assert_eq!(Scheduler::due_instant(&plain), anchor);
}

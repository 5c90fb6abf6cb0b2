//! Core of a recurring, cancellable reminder scheduler.
//!
//! The library holds the verified logic: calendar arithmetic for repeat
//! intervals, the reminder table keyed by location, the scheduler's
//! arm/fire/cancel state machine, and the persistence dirty check.
//! Delivery, storage I/O and the command surface live outside and call in
//! with plain values.

pub mod calendar;
pub mod clock;
pub mod commands;
pub mod scheduler;
pub mod persist;
pub mod reminder;
pub mod repeat;
pub mod table;

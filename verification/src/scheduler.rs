//! The scheduler: one suspended timer per active reminder.
//!
//! Per reminder the state machine is armed, fired, then re-armed or retired,
//! with cancellation possible only while armed. The scheduler owns the table
//! of live suspension handles, keyed by reminder identity; the suspension
//! units themselves run outside and are referred to by plain handle ids.

use vstd::prelude::*;

use crate::calendar::in_supported_range;
use crate::clock::unix_now;
use crate::reminder::same_identity;
use crate::reminder::Reminder;
use crate::reminder::ReminderView;
use crate::repeat::next_spec;
use crate::repeat::Interval;
use crate::repeat::Repeat;
use crate::table::has_loc;
use crate::table::remove_spec;
use crate::table::reminders_at;
use crate::table::replace_spec;
use crate::table::set_has_identity;
use crate::table::Location;
use crate::table::ReminderTable;
use crate::table::RemoveError;

verus! {

/// Why arming failed.
#[derive(Clone, Copy, PartialEq, Eq, Structural, Debug)]
pub enum ArmError {
    /// The computed due instant has already elapsed.
    PastDue,
}

/// Why a cancellation failed.
#[derive(Clone, Copy, PartialEq, Eq, Structural, Debug)]
pub enum CancelError {
    /// The location has no reminders at all.
    NoLocation,
    /// The location exists but holds no reminder of that identity.
    ReminderNotFound,
    /// No armed timer is registered under that identity (already fired, or
    /// never armed); the store entry, when found, is removed regardless.
    HandleNotFound,
}

/// Why the remove command failed.
#[derive(Clone, Copy, PartialEq, Eq, Structural, Debug)]
pub enum RemoveCommandError {
    /// Ordinals start at 1.
    BadOrdinal,
    /// No reminders have been set for the location.
    NoLocation,
    /// The listing has no entry at that ordinal.
    OrdinalNotFound,
    /// The stored reminder was removed, but no armed timer was registered
    /// under its identity.
    HandleNotFound,
}

/// The identity key a handle is registered under: target instant and repeat
/// state. As everywhere, the occurrence index takes no part.
#[derive(Clone, Copy, PartialEq, Eq, Structural, Debug)]
pub struct IdentityKey {
    pub target_date: i64,
    pub interval: Option<Interval>,
}

/// The identity key of a reminder.
pub open spec fn key_of(r: ReminderView) -> IdentityKey {
    IdentityKey {
        target_date: r.target_date,
        interval: match r.repeating {
            Some(rep) => Some(rep.interval),
            None => None,
        },
    }
}

/// Two reminders have equal keys exactly when they are one identity.
pub proof fn lemma_key_is_identity(a: ReminderView, b: ReminderView)
    ensures
        key_of(a) == key_of(b) <==> same_identity(a, b),
{
}

/// The due instant of a reminder: for a repeating one, the repeat policy's
/// occurrence at the stored index from the target anchor; else the target.
pub open spec fn due_of(r: ReminderView) -> int {
    match r.repeating {
        Some(rep) => next_spec(rep.interval, rep.index, r.target_date),
        None => r.target_date as int,
    }
}

/// The repeating reminder's successor: the same reminder with the next
/// occurrence index — the same identity, since the index is excluded.
pub open spec fn successor_view(r: ReminderView) -> ReminderView {
    ReminderView {
        repeating: match r.repeating {
            Some(rep) => Some(Repeat { interval: rep.interval, index: (rep.index + 1) as u32 }),
            None => None,
        },
        ..r
    }
}

/// Law: a repeating reminder's successor is the same identity — the same
/// target instant and interval — with the occurrence index one higher.
pub proof fn lemma_successor_same_identity(r: ReminderView)
    requires
        r.repeating is Some,
    ensures
        same_identity(r, successor_view(r)),
        (r.repeating matches Some(rep) && rep.index < u32::MAX) ==> (successor_view(
            r,
        ).repeating matches Some(srep) && srep.index == r.repeating->Some_0.index + 1),
{
}

/// Law: when a daily-repeating reminder fires and re-arms within the
/// supported range, its successor's computed due instant is exactly one
/// calendar day after the fired occurrence's.
pub proof fn lemma_daily_successor_due(r: ReminderView)
    requires
        r.repeating matches Some(rep) && rep.interval == Interval::Daily && rep.index < u32::MAX,
        in_supported_range(r.target_date as int),
        in_supported_range(
            r.target_date + 86400 * (r.repeating->Some_0.index + 1),
        ),
    ensures
        due_of(successor_view(r)) == due_of(r) + 86400,
{
    let rep = r.repeating->Some_0;
    let k = rep.index as int;
    crate::calendar::lemma_supported_bound(r.target_date as int);
    crate::calendar::lemma_supported_prefix(
        r.target_date + 86400 * k,
        r.target_date + 86400 * (k + 1),
    );
}

/// View of the handle table: identity keys with their handle ids.
pub type HandlesView = Seq<(IdentityKey, u64)>;

/// Handle-table well-formedness: identity keys are unique.
pub open spec fn handles_wf(h: HandlesView) -> bool {
    forall|i: int, j: int|
        #![trigger h[i].0, h[j].0]
        0 <= i < j < h.len() ==> h[i].0 != h[j].0
}

/// Whether a handle is registered under `k`.
pub open spec fn has_handle(h: HandlesView, k: IdentityKey) -> bool {
    exists|i: int| 0 <= i < h.len() && h[i].0 == k
}

/// The position of `k`'s entry (meaningful when `has_handle`).
pub open spec fn handle_index(h: HandlesView, k: IdentityKey) -> int {
    choose|i: int| 0 <= i < h.len() && h[i].0 == k
}

/// The handle registered under `k` (meaningful when `has_handle`).
pub open spec fn handle_of(h: HandlesView, k: IdentityKey) -> u64 {
    h[handle_index(h, k)].1
}

/// What arming does to the handle table: record `handle` under `k`,
/// overwriting a previous handle of the same identity.
pub open spec fn arm_spec(h: HandlesView, k: IdentityKey, handle: u64) -> HandlesView {
    if has_handle(h, k) {
        h.update(handle_index(h, k), (k, handle))
    } else {
        h.push((k, handle))
    }
}

/// What taking a handle out does: the entry under `k` disappears; without
/// one, nothing changes.
pub open spec fn unarm_spec(h: HandlesView, k: IdentityKey) -> HandlesView {
    if has_handle(h, k) {
        h.remove(handle_index(h, k))
    } else {
        h
    }
}

/// The scheduler's handle table.
pub struct Scheduler {
    handles: Vec<(IdentityKey, u64)>,
}

impl View for Scheduler {
    type V = HandlesView;

    closed spec fn view(&self) -> HandlesView {
        self.handles@
    }
}

impl Scheduler {
    /// Well-formedness; see `handles_wf`.
    pub open spec fn wf(&self) -> bool {
        handles_wf(self@)
    }

    /// A scheduler with no armed timers.
    pub fn new() -> (r: Self)
        ensures
            r.wf(),
            r@ == Seq::<(IdentityKey, u64)>::empty(),
    {
        let r = Self { handles: Vec::new() };
        proof {
            assert(r@ =~= Seq::<(IdentityKey, u64)>::empty());
        }
        r
    }

    /// The identity key of a reminder, executable.
    pub fn key_for(reminder: &Reminder) -> (r: IdentityKey)
        ensures
            r == key_of(reminder@),
    {
        IdentityKey {
            target_date: reminder.target_date,
            interval: match &reminder.repeating {
                Some(rep) => Some(rep.interval),
                None => None,
            },
        }
    }

    /// The due instant of a reminder, executable.
    pub fn due_instant(reminder: &Reminder) -> (r: i64)
        ensures
            r == due_of(reminder@),
    {
        match &reminder.repeating {
            Some(rep) => rep.next(reminder.target_date),
            None => reminder.target_date,
        }
    }

    /// The position of `k`'s entry in the handle table, if there is one.
    fn find_handle(&self, k: IdentityKey) -> (r: Option<usize>)
        requires
            self.wf(),
        ensures
            match r {
                Some(i) => has_handle(self@, k) && handle_index(self@, k) == i as int && i
                    < self@.len(),
                None => !has_handle(self@, k),
            },
    {
        let ghost h = self@;
        let mut i: usize = 0;
        while i < self.handles.len()
            invariant
                i <= h.len(),
                h.len() == self.handles.len(),
                h == self@,
                self.wf(),
                forall|j: int| 0 <= j < i ==> h[j].0 != k,
            decreases self.handles.len() - i,
        {
            let e = &self.handles[i];
            let key_eq = e.0.target_date == k.target_date && (match (&e.0.interval, &k.interval) {
                (Some(a), Some(b)) => *a == *b,
                (None, None) => true,
                _ => false,
            });
            if key_eq {
                proof {
                    assert(h[i as int].0 == k);
                    let ci = handle_index(h, k);
                    assert(0 <= ci < h.len() && h[ci].0 == k);
                    assert(ci == i as int);
                }
                return Some(i);
            }
            i = i + 1;
        }
        None
    }

    /// Arm: when the reminder's due instant is still in the future, record
    /// `handle` under its identity and return how many seconds to wait;
    /// otherwise fail with the past-due condition and change nothing. The
    /// caller decides what to do with a past-due reminder.
    pub fn arm(&mut self, now: i64, reminder: &Reminder, handle: u64) -> (r: Result<u64, ArmError>)
        requires
            old(self).wf(),
        ensures
            final(self).wf(),
            r == Err::<u64, ArmError>(ArmError::PastDue) <==> due_of(reminder@) <= now,
            r is Err ==> final(self)@ == old(self)@,
            r matches Ok(w) ==> w == due_of(reminder@) - now && final(self)@ == arm_spec(
                old(self)@,
                key_of(reminder@),
                handle,
            ),
    {
        let due = Self::due_instant(reminder);
        if due <= now {
            return Err(ArmError::PastDue);
        }
        let wait: u64 = ((due as i128) - (now as i128)) as u64;
        let k = Self::key_for(reminder);
        let ghost h0 = self@;
        match self.find_handle(k) {
            Some(i) => {
                let _ = self.handles.remove(i);
                self.handles.insert(i, (k, handle));
                proof {
                    assert(self@ =~= h0.update(i as int, (k, handle)));
                    assert forall|a: int, b: int| 0 <= a < b < self@.len() implies #[trigger] self@[a].0
                        != #[trigger] self@[b].0 by {
                        assert(h0[a].0 != h0[b].0);
                    }
                }
            },
            None => {
                self.handles.push((k, handle));
                proof {
                    assert(self@ =~= h0.push((k, handle)));
                    assert forall|a: int, b: int| 0 <= a < b < self@.len() implies #[trigger] self@[a].0
                        != #[trigger] self@[b].0 by {
                        if b < self@.len() - 1 {
                            assert(h0[a].0 != h0[b].0);
                        } else {
                            assert(!(exists|p: int| 0 <= p < h0.len() && h0[p].0 == k));
                        }
                    }
                }
            },
        }
        Ok(wait)
    }

    /// Arm against the clock: samples the current time and arms. The sampled
    /// reading is returned alongside, and the outcome relates to it exactly
    /// as `arm` relates to its `now`.
    pub fn arm_now(&mut self, reminder: &Reminder, handle: u64) -> (r: (
        i64,
        Result<u64, ArmError>,
    ))
        requires
            old(self).wf(),
        ensures
            final(self).wf(),
            r.1 == Err::<u64, ArmError>(ArmError::PastDue) <==> due_of(reminder@) <= r.0,
            r.1 is Err ==> final(self)@ == old(self)@,
            r.1 matches Ok(w) ==> w == due_of(reminder@) - r.0 && final(self)@ == arm_spec(
                old(self)@,
                key_of(reminder@),
                handle,
            ),
    {
        let now = unix_now();
        let res = self.arm(now, reminder, handle);
        (now, res)
    }

    /// After a delivery: a non-repeating reminder is removed from the store
    /// and retired, its handle entry considered consumed. A repeating one is
    /// replaced in the store — replace-on-identity — by its successor, which
    /// is returned for re-arming; when the store no longer has the location,
    /// nothing changes and nothing is re-armed. The handle table itself is
    /// not touched here: re-arming overwrites the entry.
    pub fn on_fired(store: &mut ReminderTable, loc: Location, fired: &Reminder) -> (r: Option<
        Reminder,
    >)
        requires
            old(store).wf(),
            fired@.repeating matches Some(rep) ==> rep.index < u32::MAX,
        ensures
            final(store).wf(),
            fired@.repeating is None ==> r is None && final(store)@ == remove_spec(
                old(store)@,
                loc,
                fired@,
            ),
            fired@.repeating is Some && !has_loc(old(store)@, loc) ==> r is None && final(store)@
                == old(store)@,
            fired@.repeating is Some && has_loc(old(store)@, loc) ==> (match r {
                Some(next) => next@ == successor_view(fired@) && final(store)@ == replace_spec(
                    old(store)@,
                    loc,
                    successor_view(fired@),
                ),
                None => false,
            }),
    {
        match &fired.repeating {
            None => {
                let _ = store.remove_reminder(loc, fired);
                None
            },
            Some(rep) => {
                if store.get_reminders(loc).is_none() {
                    return None;
                }
                let mut next = fired.duplicate();
                let mut advanced = *rep;
                advanced.increment_index();
                next.repeating = Some(advanced);
                proof {
                    assert(next@ == successor_view(fired@));
                }
                store.replace_reminder(loc, next.duplicate());
                Some(next)
            },
        }
    }

    /// The remove command: resolve the 1-based ordinal in the location's
    /// listing, then cancel that reminder — store entry and armed timer.
    /// Returns the handle id of the aborted timer on success.
    pub fn remove_by_ordinal(&mut self, store: &mut ReminderTable, loc: Location, id: u16) -> (r:
        Result<u64, RemoveCommandError>)
        requires
            old(self).wf(),
            old(store).wf(),
        ensures
            final(self).wf(),
            final(store).wf(),
            r == Err::<u64, RemoveCommandError>(RemoveCommandError::BadOrdinal) <==> id < 1,
            r == Err::<u64, RemoveCommandError>(RemoveCommandError::NoLocation) <==> id >= 1
                && !has_loc(old(store)@, loc),
            r == Err::<u64, RemoveCommandError>(RemoveCommandError::OrdinalNotFound) <==> id >= 1
                && has_loc(old(store)@, loc) && id - 1 >= reminders_at(old(store)@, loc).len(),
            r is Err && !(r == Err::<u64, RemoveCommandError>(
                RemoveCommandError::HandleNotFound,
            )) ==> final(store)@ == old(store)@ && final(self)@ == old(self)@,
            (id >= 1 && has_loc(old(store)@, loc) && id - 1 < reminders_at(
                old(store)@,
                loc,
            ).len()) ==> ({
                let victim = reminders_at(old(store)@, loc)[id - 1];
                &&& final(store)@ == remove_spec(old(store)@, loc, victim)
                &&& final(self)@ == unarm_spec(old(self)@, key_of(victim))
                &&& (match r {
                    Ok(handle) => has_handle(old(self)@, key_of(victim)) && handle == handle_of(
                        old(self)@,
                        key_of(victim),
                    ),
                    Err(e) => e == RemoveCommandError::HandleNotFound && !has_handle(
                        old(self)@,
                        key_of(victim),
                    ),
                })
            }),
    {
        if id < 1 {
            return Err(RemoveCommandError::BadOrdinal);
        }
        let victim = match store.get_by_ordinal(loc, id) {
            Some(found) => found.duplicate(),
            None => {
                if store.get_reminders(loc).is_none() {
                    return Err(RemoveCommandError::NoLocation);
                }
                return Err(RemoveCommandError::OrdinalNotFound);
            },
        };
        proof {
            let s = reminders_at(old(store)@, loc);
            assert(same_identity(s[id - 1], victim@));
            assert(set_has_identity(s, victim@));
        }
        match self.cancel(store, loc, &victim) {
            Ok(handle) => Ok(handle),
            Err(CancelError::HandleNotFound) => Err(RemoveCommandError::HandleNotFound),
            // The store removal cannot fail: the ordinal lookup has just
            // shown the identity present at the location.
            Err(_) => {
                proof {
                    assert(false);
                }
                Err(RemoveCommandError::NoLocation)
            },
        }
    }

    /// Cancel an armed reminder: remove it from the store — surfacing the
    /// store's two not-found conditions — then take its identity's handle
    /// out of the table and hand the handle id back so the caller can abort
    /// the suspension. When the store entry was removed but no handle is
    /// registered, the removal stands and the handle-absent condition is
    /// surfaced.
    pub fn cancel(&mut self, store: &mut ReminderTable, loc: Location, reminder: &Reminder) -> (r:
        Result<u64, CancelError>)
        requires
            old(self).wf(),
            old(store).wf(),
        ensures
            final(self).wf(),
            final(store).wf(),
            r == Err::<u64, CancelError>(CancelError::NoLocation) <==> !has_loc(old(store)@, loc),
            r == Err::<u64, CancelError>(CancelError::ReminderNotFound) <==> has_loc(
                old(store)@,
                loc,
            ) && !set_has_identity(reminders_at(old(store)@, loc), reminder@),
            r == Err::<u64, CancelError>(CancelError::NoLocation) || r == Err::<
                u64,
                CancelError,
            >(CancelError::ReminderNotFound) ==> final(store)@ == old(store)@ && final(self)@ == old(
                self,
            )@,
            has_loc(old(store)@, loc) && set_has_identity(reminders_at(old(store)@, loc), reminder@)
                ==> final(store)@ == remove_spec(old(store)@, loc, reminder@) && final(self)@
                == unarm_spec(old(self)@, key_of(reminder@)) && (match r {
                Ok(handle) => has_handle(old(self)@, key_of(reminder@)) && handle == handle_of(
                    old(self)@,
                    key_of(reminder@),
                ),
                Err(e) => e == CancelError::HandleNotFound && !has_handle(
                    old(self)@,
                    key_of(reminder@),
                ),
            }),
    {
        match store.remove_reminder(loc, reminder) {
            Err(RemoveError::NoLocation) => {
                return Err(CancelError::NoLocation);
            },
            Err(RemoveError::NotFound) => {
                return Err(CancelError::ReminderNotFound);
            },
            Ok(()) => {},
        }
        let k = Self::key_for(reminder);
        let ghost h0 = self@;
        match self.find_handle(k) {
            None => Err(CancelError::HandleNotFound),
            Some(i) => {
                let entry = self.handles.remove(i);
                proof {
                    assert(self@ =~= h0.remove(i as int));
                    assert forall|a: int, b: int| 0 <= a < b < self@.len() implies #[trigger] self@[a].0
                        != #[trigger] self@[b].0 by {
                        let aa = if a < i as int {
                            a
                        } else {
                            a + 1
                        };
                        let bb = if b < i as int {
                            b
                        } else {
                            b + 1
                        };
                        assert(h0[aa].0 != h0[bb].0);
                    }
                }
                Ok(entry.1)
            },
        }
    }
}

} // verus!

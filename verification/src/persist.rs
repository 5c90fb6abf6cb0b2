//! Periodic snapshot persistence: the dirty check.
//!
//! On each snapshot tick the current table is compared by full value
//! equality — every field, repeat indices included — against the last
//! snapshot persisted; only a differing table is written out, so unchanged
//! state costs no I/O. Reading and writing the durable store itself happens
//! outside; this module owns the decision.

use vstd::prelude::*;

use crate::reminder::reminders_equal;
use crate::table::ReminderTable;
use crate::table::TableView;

verus! {

/// Full value equality of two tables: same locations in the same order,
/// each with the same reminders in the same order, compared field by field.
pub fn tables_equal(a: &ReminderTable, b: &ReminderTable) -> (r: bool)
    ensures
        r == (a@ == b@),
{
    let av = a.entries();
    let bv = b.entries();
    if av.len() != bv.len() {
        return false;
    }
    let mut i: usize = 0;
    while i < av.len()
        invariant
            i <= av.len(),
            a@.len() == av@.len(),
            b@.len() == bv@.len(),
            av@.len() == bv@.len(),
            forall|p: int|
                0 <= p < av@.len() ==> (#[trigger] av@[p]).0 == a@[p].0 && crate::table::views_of(
                    av@[p].1@,
                ) == a@[p].1,
            forall|p: int|
                0 <= p < bv@.len() ==> (#[trigger] bv@[p]).0 == b@[p].0 && crate::table::views_of(
                    bv@[p].1@,
                ) == b@[p].1,
            forall|p: int| 0 <= p < i ==> a@[p] == b@[p],
        decreases av.len() - i,
    {
        let ea = &av[i];
        let eb = &bv[i];
        if !(ea.0.guild == eb.0.guild && ea.0.channel == eb.0.channel) {
            proof {
                assert(a@[i as int].0 != b@[i as int].0);
            }
            return false;
        }
        if ea.1.len() != eb.1.len() {
            proof {
                assert(a@[i as int].1.len() != b@[i as int].1.len());
            }
            return false;
        }
        let mut j: usize = 0;
        while j < ea.1.len()
            invariant
                j <= ea.1@.len(),
                ea.1@.len() == eb.1@.len(),
                crate::table::views_of(ea.1@) == a@[i as int].1,
                crate::table::views_of(eb.1@) == b@[i as int].1,
                i < a@.len(),
                i < b@.len(),
                forall|q: int| 0 <= q < j ==> a@[i as int].1[q] == b@[i as int].1[q],
            decreases ea.1.len() - j,
        {
            if !reminders_equal(&ea.1[j], &eb.1[j]) {
                proof {
                    assert(a@[i as int].1[j as int] != b@[i as int].1[j as int]);
                }
                return false;
            }
            j = j + 1;
        }
        proof {
            assert(a@[i as int].1 =~= b@[i as int].1);
            assert(a@[i as int] == b@[i as int]);
        }
        i = i + 1;
    }
    proof {
        assert(a@ =~= b@);
    }
    true
}

/// The persistence manager: remembers the last snapshot persisted.
pub struct PersistenceManager {
    last: ReminderTable,
}

impl View for PersistenceManager {
    type V = TableView;

    closed spec fn view(&self) -> TableView {
        self.last@
    }
}

impl PersistenceManager {
    /// Starts from the table in the durable store — or from the empty table
    /// the loader fell back to when the store could not be read.
    pub fn new(initial: ReminderTable) -> (r: Self)
        ensures
            r@ == initial@,
    {
        Self { last: initial }
    }

    /// One snapshot tick: true exactly when `current` differs from the last
    /// snapshot persisted, in which case `current` becomes the new snapshot
    /// and the caller must write it out. On false, nothing may be written:
    /// two consecutive ticks with no mutation in between write zero times.
    pub fn tick(&mut self, current: ReminderTable) -> (r: bool)
        ensures
            r == (current@ != old(self)@),
            final(self)@ == current@,
    {
        if tables_equal(&self.last, &current) {
            false
        } else {
            self.last = current;
            true
        }
    }
}

} // verus!

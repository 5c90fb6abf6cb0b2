//! The reminder table: a mapping from location (group/channel pair) to a
//! uniqueness-set of reminders.
//!
//! Invariants: no location key maps to an empty set — removing a location's
//! last reminder deletes the key — and within one location no two reminders
//! share an identity.

use vstd::prelude::*;

use crate::reminder::is_same_identity;
use crate::reminder::same_identity;
use crate::reminder::Reminder;
use crate::reminder::ReminderView;

verus! {

/// A location: the (group, channel) pair a reminder's notification goes to.
#[derive(Clone, Copy, PartialEq, Eq, Structural, Debug, Hash)]
pub struct Location {
    pub guild: u64,
    pub channel: u64,
}

/// Why a removal failed.
#[derive(Clone, Copy, PartialEq, Eq, Structural, Debug)]
pub enum RemoveError {
    /// The location has no reminders at all.
    NoLocation,
    /// The location exists but holds no reminder of that identity.
    NotFound,
}

/// Mathematical view of the table: the entries in insertion order.
pub type TableView = Seq<(Location, Seq<ReminderView>)>;

/// Views of a list of reminders.
pub open spec fn views_of(v: Seq<Reminder>) -> Seq<ReminderView> {
    v.map_values(|r: Reminder| r@)
}

/// Whether the table has an entry for `loc`.
pub open spec fn has_loc(t: TableView, loc: Location) -> bool {
    exists|i: int| 0 <= i < t.len() && t[i].0 == loc
}

/// The index of the entry for `loc` (meaningful when `has_loc`).
pub open spec fn loc_index(t: TableView, loc: Location) -> int {
    choose|i: int| 0 <= i < t.len() && t[i].0 == loc
}

/// The reminders stored at `loc` (meaningful when `has_loc`).
pub open spec fn reminders_at(t: TableView, loc: Location) -> Seq<ReminderView> {
    t[loc_index(t, loc)].1
}

/// Whether `s` holds a reminder of the same identity as `r`.
pub open spec fn set_has_identity(s: Seq<ReminderView>, r: ReminderView) -> bool {
    exists|i: int| 0 <= i < s.len() && same_identity(s[i], r)
}

/// The index in `s` of the reminder with `r`'s identity (meaningful when
/// `set_has_identity`).
pub open spec fn identity_index(s: Seq<ReminderView>, r: ReminderView) -> int {
    choose|i: int| 0 <= i < s.len() && same_identity(s[i], r)
}

/// What `add_reminder` does: insert-or-ignore. A new location gets a fresh
/// one-element set; at an existing location the reminder is appended unless
/// its identity is already present, in which case the table is unchanged
/// (the stored instance is kept, the new value is dropped).
pub open spec fn add_spec(t: TableView, loc: Location, r: ReminderView) -> TableView {
    if !has_loc(t, loc) {
        t.push((loc, seq![r]))
    } else {
        let i = loc_index(t, loc);
        if set_has_identity(t[i].1, r) {
            t
        } else {
            t.update(i, (loc, t[i].1.push(r)))
        }
    }
}

/// What `replace_reminder` does: replace-on-identity. Like `add_spec`, but
/// an identity collision overwrites the stored instance with the new value.
pub open spec fn replace_spec(t: TableView, loc: Location, r: ReminderView) -> TableView {
    if !has_loc(t, loc) {
        t.push((loc, seq![r]))
    } else {
        let i = loc_index(t, loc);
        if set_has_identity(t[i].1, r) {
            t.update(i, (loc, t[i].1.update(identity_index(t[i].1, r), r)))
        } else {
            t.update(i, (loc, t[i].1.push(r)))
        }
    }
}

/// What `remove_reminder` does when it succeeds; the table is unchanged when
/// the location or the identity is absent.
pub open spec fn remove_spec(t: TableView, loc: Location, r: ReminderView) -> TableView {
    if !has_loc(t, loc) {
        t
    } else {
        let i = loc_index(t, loc);
        if !set_has_identity(t[i].1, r) {
            t
        } else {
            if t[i].1.len() == 1 {
                t.remove(i)
            } else {
                t.update(i, (loc, t[i].1.remove(identity_index(t[i].1, r))))
            }
        }
    }
}

/// Well-formedness of a table view: location keys are unique, no location
/// holds an empty set, and no location holds two reminders of one identity.
pub open spec fn table_wf(t: TableView) -> bool {
    &&& forall|i: int, j: int|
        #![trigger t[i].0, t[j].0]
        0 <= i < j < t.len() ==> t[i].0 != t[j].0
    &&& forall|i: int| 0 <= i < t.len() ==> #[trigger] t[i].1.len() > 0
    &&& forall|i: int, p: int, q: int|
        #![trigger t[i].1[p], t[i].1[q]]
        0 <= i < t.len() && 0 <= p < q < t[i].1.len() ==> !same_identity(t[i].1[p], t[i].1[q])
}

/// Table of reminders for each location.
#[derive(Clone, Debug)]
pub struct ReminderTable {
    entries: Vec<(Location, Vec<Reminder>)>,
}

impl View for ReminderTable {
    type V = TableView;

    closed spec fn view(&self) -> TableView {
        self.entries@.map_values(|e: (Location, Vec<Reminder>)| (e.0, views_of(e.1@)))
    }
}

impl ReminderTable {
    /// Well-formedness of the table; see `table_wf`.
    pub open spec fn wf(&self) -> bool {
        table_wf(self@)
    }

    /// An empty table.
    pub fn new() -> (r: Self)
        ensures
            r.wf(),
            r@ == Seq::<(Location, Seq<ReminderView>)>::empty(),
    {
        let r = Self { entries: Vec::new() };
        proof {
            assert(r@ =~= Seq::<(Location, Seq<ReminderView>)>::empty());
        }
        r
    }

    /// The index of `loc`'s entry, if the table has one.
    fn find_loc(&self, loc: Location) -> (r: Option<usize>)
        requires
            self.wf(),
        ensures
            match r {
                Some(i) => has_loc(self@, loc) && loc_index(self@, loc) == i as int && i < self@.len(),
                None => !has_loc(self@, loc),
            },
    {
        let ghost t = self@;
        let mut i: usize = 0;
        while i < self.entries.len()
            invariant
                i <= t.len(),
                t.len() == self.entries.len(),
                t == self@,
                self.wf(),
                forall|j: int| 0 <= j < i ==> t[j].0 != loc,
            decreases self.entries.len() - i,
        {
            let e = &self.entries[i];
            if e.0.guild == loc.guild && e.0.channel == loc.channel {
                proof {
                    assert(t[i as int].0 == loc);
                    let ci = loc_index(t, loc);
                    assert(0 <= ci < t.len() && t[ci].0 == loc);
                    assert(ci == i as int);
                }
                return Some(i);
            }
            i = i + 1;
        }
        None
    }

    /// The index in `set` of the reminder with `reminder`'s identity, if any.
    fn find_identity(set: &Vec<Reminder>, reminder: &Reminder) -> (r: Option<usize>)
        requires
            forall|p: int, q: int|
                #![trigger views_of(set@)[p], views_of(set@)[q]]
                0 <= p < q < set@.len() ==> !same_identity(views_of(set@)[p], views_of(set@)[q]),
        ensures
            match r {
                Some(j) => set_has_identity(views_of(set@), reminder@) && identity_index(
                    views_of(set@),
                    reminder@,
                ) == j as int && j < set@.len(),
                None => !set_has_identity(views_of(set@), reminder@),
            },
    {
        let ghost s = views_of(set@);
        let mut j: usize = 0;
        while j < set.len()
            invariant
                j <= s.len(),
                s.len() == set@.len(),
                s == views_of(set@),
                forall|p: int, q: int|
                    #![trigger s[p], s[q]]
                    0 <= p < q < s.len() ==> !same_identity(s[p], s[q]),
                forall|p: int| 0 <= p < j ==> !same_identity(s[p], reminder@),
            decreases set.len() - j,
        {
            if is_same_identity(&set[j], reminder) {
                proof {
                    assert(same_identity(s[j as int], reminder@));
                    let cj = identity_index(s, reminder@);
                    assert(0 <= cj < s.len() && same_identity(s[cj], reminder@));
                    if cj < j as int {
                        assert(!same_identity(s[cj], s[j as int]));
                        assert(false);
                    }
                    if cj > j as int {
                        assert(!same_identity(s[j as int], s[cj]));
                        assert(false);
                    }
                }
                return Some(j);
            }
            j = j + 1;
        }
        None
    }

    /// Adds a reminder at a location, creating the location's set when
    /// absent. Insert-or-ignore: an identity collision keeps the stored
    /// instance and drops the new value.
    pub fn add_reminder(&mut self, loc: Location, reminder: Reminder)
        requires
            old(self).wf(),
        ensures
            final(self).wf(),
            final(self)@ == add_spec(old(self)@, loc, reminder@),
    {
        let ghost t0 = self@;
        match self.find_loc(loc) {
            None => {
                let mut set: Vec<Reminder> = Vec::new();
                set.push(reminder);
                self.entries.push((loc, set));
                proof {
                    assert(views_of(set@) =~= seq![reminder@]);
                    assert(self@ =~= add_spec(t0, loc, reminder@));
                    assert forall|i: int, j: int| 0 <= i < j < self@.len() implies #[trigger] self@[i].0
                        != #[trigger] self@[j].0 by {
                        if j < self@.len() - 1 {
                            assert(t0[i].0 != t0[j].0);
                        } else {
                            assert(!(exists|p: int| 0 <= p < t0.len() && t0[p].0 == loc));
                        }
                    }
                }
            },
            Some(i) => {
                proof {
                    assert(views_of(self.entries@[i as int].1@) == t0[i as int].1);
                }
                match Self::find_identity(&self.entries[i].1, &reminder) {
                    Some(_) => {
                        proof {
                            assert(self@ == add_spec(t0, loc, reminder@));
                        }
                    },
                    None => {
                        let mut entry = self.entries.remove(i);
                        entry.1.push(reminder);
                        self.entries.insert(i, entry);
                        proof {
                            let iv = i as int;
                            assert(views_of(entry.1@) =~= t0[iv].1.push(reminder@));
                            assert(self@ =~= t0.update(iv, (loc, t0[iv].1.push(reminder@))));
                            assert(self@ == add_spec(t0, loc, reminder@));
                            assert forall|a: int, p: int, q: int|
                                0 <= a < self@.len() && 0 <= p < q < self@[a].1.len() implies !same_identity(
                                #[trigger] self@[a].1[p],
                                #[trigger] self@[a].1[q],
                            ) by {
                                if a == iv {
                                    if q < self@[a].1.len() - 1 {
                                        assert(!same_identity(t0[a].1[p], t0[a].1[q]));
                                    } else {
                                        assert(!set_has_identity(t0[iv].1, reminder@));
                                        assert(!same_identity(t0[a].1[p], reminder@));
                                    }
                                } else {
                                    assert(!same_identity(t0[a].1[p], t0[a].1[q]));
                                }
                            }
                        }
                    },
                }
            },
        }
    }

    /// Replaces a reminder at a location: like `add_reminder`, but an
    /// identity collision overwrites the stored instance with the new value.
    pub fn replace_reminder(&mut self, loc: Location, reminder: Reminder)
        requires
            old(self).wf(),
        ensures
            final(self).wf(),
            final(self)@ == replace_spec(old(self)@, loc, reminder@),
    {
        let ghost t0 = self@;
        match self.find_loc(loc) {
            None => {
                let mut set: Vec<Reminder> = Vec::new();
                set.push(reminder);
                self.entries.push((loc, set));
                proof {
                    assert(views_of(set@) =~= seq![reminder@]);
                    assert(self@ =~= replace_spec(t0, loc, reminder@));
                    assert forall|i: int, j: int| 0 <= i < j < self@.len() implies #[trigger] self@[i].0
                        != #[trigger] self@[j].0 by {
                        if j < self@.len() - 1 {
                            assert(t0[i].0 != t0[j].0);
                        } else {
                            assert(!(exists|p: int| 0 <= p < t0.len() && t0[p].0 == loc));
                        }
                    }
                }
            },
            Some(i) => {
                proof {
                    assert(views_of(self.entries@[i as int].1@) == t0[i as int].1);
                }
                match Self::find_identity(&self.entries[i].1, &reminder) {
                    Some(j) => {
                        let mut entry = self.entries.remove(i);
                        let _ = entry.1.remove(j);
                        entry.1.insert(j, reminder);
                        self.entries.insert(i, entry);
                        proof {
                            let iv = i as int;
                            let jv = j as int;
                            assert(views_of(entry.1@) =~= t0[iv].1.update(jv, reminder@));
                            assert(self@ =~= t0.update(iv, (loc, t0[iv].1.update(jv, reminder@))));
                            assert(self@ == replace_spec(t0, loc, reminder@));
                            assert forall|a: int, p: int, q: int|
                                0 <= a < self@.len() && 0 <= p < q < self@[a].1.len() implies !same_identity(
                                #[trigger] self@[a].1[p],
                                #[trigger] self@[a].1[q],
                            ) by {
                                assert(!same_identity(t0[a].1[p], t0[a].1[q]));
                                if a == iv {
                                    assert(same_identity(t0[iv].1[jv], reminder@));
                                }
                            }
                        }
                    },
                    None => {
                        let mut entry = self.entries.remove(i);
                        entry.1.push(reminder);
                        self.entries.insert(i, entry);
                        proof {
                            let iv = i as int;
                            assert(views_of(entry.1@) =~= t0[iv].1.push(reminder@));
                            assert(self@ =~= t0.update(iv, (loc, t0[iv].1.push(reminder@))));
                            assert(self@ == replace_spec(t0, loc, reminder@));
                            assert forall|a: int, p: int, q: int|
                                0 <= a < self@.len() && 0 <= p < q < self@[a].1.len() implies !same_identity(
                                #[trigger] self@[a].1[p],
                                #[trigger] self@[a].1[q],
                            ) by {
                                if a == iv {
                                    if q < self@[a].1.len() - 1 {
                                        assert(!same_identity(t0[a].1[p], t0[a].1[q]));
                                    } else {
                                        assert(!set_has_identity(t0[iv].1, reminder@));
                                        assert(!same_identity(t0[a].1[p], reminder@));
                                    }
                                } else {
                                    assert(!same_identity(t0[a].1[p], t0[a].1[q]));
                                }
                            }
                        }
                    },
                }
            },
        }
    }

    /// Removes a reminder already in the table, given any reminder of the
    /// same identity. Deletes the location key when its set becomes empty.
    pub fn remove_reminder(&mut self, loc: Location, reminder: &Reminder) -> (r: Result<
        (),
        RemoveError,
    >)
        requires
            old(self).wf(),
        ensures
            final(self).wf(),
            final(self)@ == remove_spec(old(self)@, loc, reminder@),
            r is Ok <==> has_loc(old(self)@, loc) && set_has_identity(
                reminders_at(old(self)@, loc),
                reminder@,
            ),
            r == Err::<(), RemoveError>(RemoveError::NoLocation) <==> !has_loc(old(self)@, loc),
            r == Err::<(), RemoveError>(RemoveError::NotFound) <==> has_loc(old(self)@, loc)
                && !set_has_identity(reminders_at(old(self)@, loc), reminder@),
            r is Err ==> final(self)@ == old(self)@,
            r is Ok && reminders_at(old(self)@, loc).len() == 1 ==> !has_loc(final(self)@, loc),
            r is Ok && reminders_at(old(self)@, loc).len() > 1 ==> has_loc(final(self)@, loc)
                && reminders_at(final(self)@, loc) == reminders_at(old(self)@, loc).remove(
                identity_index(reminders_at(old(self)@, loc), reminder@),
            ),
    {
        let ghost t0 = self@;
        let i = match self.find_loc(loc) {
            None => {
                return Err(RemoveError::NoLocation);
            },
            Some(i) => i,
        };
        proof {
            assert(views_of(self.entries@[i as int].1@) == t0[i as int].1);
        }
        let j = match Self::find_identity(&self.entries[i].1, reminder) {
            None => {
                return Err(RemoveError::NotFound);
            },
            Some(j) => j,
        };
        let ghost iv = i as int;
        let ghost jv = j as int;
        if self.entries[i].1.len() == 1 {
            let _ = self.entries.remove(i);
            proof {
                assert(self@ =~= t0.remove(iv));
                assert(self@ == remove_spec(t0, loc, reminder@));
                assert forall|a: int| 0 <= a < self@.len() implies !(#[trigger] self@[a].0
                    == loc) by {
                    if a < iv {
                        assert(t0[a].0 != t0[iv].0);
                    } else {
                        assert(t0[iv].0 != t0[a + 1].0);
                    }
                }
            }
            Ok(())
        } else {
            let mut entry = self.entries.remove(i);
            let _ = entry.1.remove(j);
            self.entries.insert(i, entry);
            proof {
                assert(views_of(entry.1@) =~= t0[iv].1.remove(jv));
                assert(self@ =~= t0.update(iv, (loc, t0[iv].1.remove(jv))));
                assert(self@ == remove_spec(t0, loc, reminder@));
                assert(self@[iv].0 == loc);
                assert(has_loc(self@, loc));
                let ci = loc_index(self@, loc);
                assert(0 <= ci < self@.len() && self@[ci].0 == loc);
                if ci != iv {
                    assert(t0[ci].0 == loc);
                    if ci < iv {
                        assert(t0[ci].0 != t0[iv].0);
                    } else {
                        assert(t0[iv].0 != t0[ci].0);
                    }
                    assert(false);
                }
                assert(reminders_at(self@, loc) == t0[iv].1.remove(jv));
                assert forall|a: int, p: int, q: int|
                    0 <= a < self@.len() && 0 <= p < q < self@[a].1.len() implies !same_identity(
                    #[trigger] self@[a].1[p],
                    #[trigger] self@[a].1[q],
                ) by {
                    if a == iv {
                        let pp = if p < jv {
                            p
                        } else {
                            p + 1
                        };
                        let qq = if q < jv {
                            q
                        } else {
                            q + 1
                        };
                        assert(!same_identity(t0[a].1[pp], t0[a].1[qq]));
                    } else {
                        assert(!same_identity(t0[a].1[p], t0[a].1[q]));
                    }
                }
            }
            Ok(())
        }
    }

    /// The reminders set for a location, when there is one.
    pub fn get_reminders(&self, loc: Location) -> (r: Option<&Vec<Reminder>>)
        requires
            self.wf(),
        ensures
            r is Some <==> has_loc(self@, loc),
            r matches Some(v) ==> views_of(v@) == reminders_at(self@, loc) && v@.len() > 0,
    {
        match self.find_loc(loc) {
            None => None,
            Some(i) => {
                proof {
                    assert(self@[i as int].1 == views_of(self.entries@[i as int].1@));
                    assert(reminders_at(self@, loc) == self@[i as int].1);
                }
                Some(&self.entries[i].1)
            },
        }
    }

    /// The reminder at the 1-based ordinal `id` of a location's listing, as
    /// the listing orders them. Ordinals are derived from the stored order
    /// at call time and are not stable across insertions and removals.
    pub fn get_by_ordinal(&self, loc: Location, id: u16) -> (r: Option<&Reminder>)
        requires
            self.wf(),
        ensures
            r is Some <==> (1 <= id && has_loc(self@, loc) && id - 1 < reminders_at(
                self@,
                loc,
            ).len()),
            r matches Some(x) ==> x@ == reminders_at(self@, loc)[id - 1],
    {
        if id < 1 {
            return None;
        }
        match self.get_reminders(loc) {
            None => None,
            Some(set) => {
                let i = (id - 1) as usize;
                if i < set.len() {
                    proof {
                        assert(views_of(set@)[i as int] == set@[i as int]@);
                    }
                    Some(&set[i])
                } else {
                    None
                }
            },
        }
    }

    /// All entries, for iteration: each location with its reminders.
    pub fn entries(&self) -> (r: &Vec<(Location, Vec<Reminder>)>)
        ensures
            r@.len() == self@.len(),
            forall|i: int|
                0 <= i < r@.len() ==> (#[trigger] r@[i]).0 == self@[i].0 && views_of(r@[i].1@)
                    == self@[i].1,
    {
        &self.entries
    }
}

/// Law: two reminders of equal target instant and equal repeat state are one
/// identity — adding the second after the first leaves the table unchanged,
/// so the containing set's size does not grow.
pub proof fn lemma_add_identity_collision(
    t: TableView,
    loc: Location,
    r1: ReminderView,
    r2: ReminderView,
)
    requires
        table_wf(t),
        same_identity(r1, r2),
    ensures
        add_spec(add_spec(t, loc, r1), loc, r2) == add_spec(t, loc, r1),
{
    let t1 = add_spec(t, loc, r1);
    if !has_loc(t, loc) {
        let i = t.len() as int;
        assert(t1[i].0 == loc);
        assert(has_loc(t1, loc));
        let ci = loc_index(t1, loc);
        assert(0 <= ci < t1.len() && t1[ci].0 == loc);
        if ci < i {
            assert(t[ci].0 == loc);
            assert(false);
        }
        assert(same_identity(t1[ci].1[0], r2));
        assert(set_has_identity(t1[ci].1, r2));
    } else {
        let i = loc_index(t, loc);
        assert(0 <= i < t.len() && t[i].0 == loc);
        if set_has_identity(t[i].1, r1) {
            let j = identity_index(t[i].1, r1);
            assert(same_identity(t[i].1[j], r2));
            assert(set_has_identity(t1[loc_index(t1, loc)].1, r2));
        } else {
            assert(t1 =~= t.update(i, (loc, t[i].1.push(r1))));
            assert(has_loc(t1, loc)) by {
                assert(t1[i].0 == loc);
            }
            let ci = loc_index(t1, loc);
            assert(0 <= ci < t1.len() && t1[ci].0 == loc);
            if ci != i {
                assert(t[ci].0 == loc);
                if ci < i {
                    assert(t[ci].0 != t[i].0);
                } else {
                    assert(t[i].0 != t[ci].0);
                }
                assert(false);
            }
            let j = t[i].1.len() as int;
            assert(same_identity(t1[ci].1[j], r2));
            assert(set_has_identity(t1[ci].1, r2));
        }
    }
}

} // verus!

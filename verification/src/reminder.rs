//! Reminder records: a due instant, an optional repeat policy, and
//! descriptive metadata. Identity is the pair of due instant and repeat
//! state alone — never the descriptive fields.

use vstd::prelude::*;

use crate::repeat::Repeat;

verus! {

/// Mathematical view of a reminder.
pub ghost struct ReminderView {
    pub registered_at: i64,
    pub registered_by: u64,
    pub target_date: i64,
    pub repeating: Option<Repeat>,
    pub name: Option<Seq<char>>,
    pub roles: Option<Seq<u64>>,
    pub description: Option<Seq<char>>,
}

/// A reminder containing a target instant and metadata.
///
/// `registered_at` and `target_date` are unix timestamps in seconds;
/// `registered_by` is the creator's id; `roles` holds mention-target ids.
#[derive(Clone, Debug)]
pub struct Reminder {
    pub registered_at: i64,
    pub registered_by: u64,
    pub target_date: i64,
    pub repeating: Option<Repeat>,
    pub name: Option<String>,
    pub roles: Option<Vec<u64>>,
    pub description: Option<String>,
}

impl View for Reminder {
    type V = ReminderView;

    open spec fn view(&self) -> ReminderView {
        ReminderView {
            registered_at: self.registered_at,
            registered_by: self.registered_by,
            target_date: self.target_date,
            repeating: self.repeating,
            name: match self.name {
                Some(s) => Some(s@),
                None => None,
            },
            roles: match self.roles {
                Some(v) => Some(v@),
                None => None,
            },
            description: match self.description {
                Some(s) => Some(s@),
                None => None,
            },
        }
    }
}

/// Whether two repeat states are the same for identity purposes: both
/// absent, or both present with the same interval — the occurrence index is
/// disregarded.
pub open spec fn same_repeat_state(a: Option<Repeat>, b: Option<Repeat>) -> bool {
    match (a, b) {
        (Some(x), Some(y)) => x.interval == y.interval,
        (None, None) => true,
        _ => false,
    }
}

/// Reminder identity: target instant and repeat state only. Name, body,
/// mentions, creator and creation time take no part.
pub open spec fn same_identity(a: ReminderView, b: ReminderView) -> bool {
    a.target_date == b.target_date && same_repeat_state(a.repeating, b.repeating)
}

/// An absent sequence, or a present but empty one, normalizes to absent.
pub open spec fn nonempty_or_none<A>(o: Option<Seq<A>>) -> Option<Seq<A>> {
    match o {
        Some(s) => if s.len() > 0 {
            Some(s)
        } else {
            None
        },
        None => None,
    }
}

/// View of an optional string.
pub open spec fn opt_str_view(o: Option<String>) -> Option<Seq<char>> {
    match o {
        Some(s) => Some(s@),
        None => None,
    }
}

/// View of an optional id list.
pub open spec fn opt_vec_view(o: Option<Vec<u64>>) -> Option<Seq<u64>> {
    match o {
        Some(v) => Some(v@),
        None => None,
    }
}

/// Executable identity test.
pub fn is_same_identity(a: &Reminder, b: &Reminder) -> (r: bool)
    ensures
        r == same_identity(a@, b@),
{
    if a.target_date != b.target_date {
        return false;
    }
    match (&a.repeating, &b.repeating) {
        (Some(x), Some(y)) => x.interval == y.interval,
        (None, None) => true,
        _ => false,
    }
}

impl Reminder {
    /// Builds a reminder from plain values; an empty mention list or an
    /// empty body text normalizes to absent.
    pub fn new(
        registered_at: i64,
        registered_by: u64,
        target_date: i64,
        repeating: Option<Repeat>,
        name: Option<String>,
        roles: Option<Vec<u64>>,
        description: Option<String>,
    ) -> (r: Reminder)
        ensures
            r@.registered_at == registered_at,
            r@.registered_by == registered_by,
            r@.target_date == target_date,
            r@.repeating == repeating,
            r@.name == opt_str_view(name),
            r@.roles == nonempty_or_none(opt_vec_view(roles)),
            r@.description == nonempty_or_none(opt_str_view(description)),
    {
        let roles = match roles {
            Some(v) => if v.len() > 0 {
                Some(v)
            } else {
                None
            },
            None => None,
        };
        let description = match description {
            Some(s) => if s.as_str().unicode_len() > 0 {
                Some(s)
            } else {
                None
            },
            None => None,
        };
        Reminder { registered_at, registered_by, target_date, repeating, name, roles, description }
    }

    /// A copy with the same view, built field by field.
    pub fn duplicate(&self) -> (r: Reminder)
        ensures
            r@ == self@,
    {
        let name = match &self.name {
            Some(s) => Some(s.clone()),
            None => None,
        };
        let description = match &self.description {
            Some(s) => Some(s.clone()),
            None => None,
        };
        let roles = match &self.roles {
            Some(v) => {
                let mut copy: Vec<u64> = Vec::new();
                let mut i: usize = 0;
                while i < v.len()
                    invariant
                        i <= v.len(),
                        copy@ == v@.subrange(0, i as int),
                    decreases v.len() - i,
                {
                    copy.push(v[i]);
                    proof {
                        assert(copy@ =~= v@.subrange(0, i + 1));
                    }
                    i = i + 1;
                }
                proof {
                    assert(copy@ =~= v@);
                }
                Some(copy)
            },
            None => None,
        };
        Reminder {
            registered_at: self.registered_at,
            registered_by: self.registered_by,
            target_date: self.target_date,
            repeating: self.repeating,
            name,
            roles,
            description,
        }
    }

    /// The creation instant and the creator id.
    pub fn get_creation(&self) -> (r: (i64, u64))
        ensures
            r.0 == self.registered_at,
            r.1 == self.registered_by,
    {
        (self.registered_at, self.registered_by)
    }
}

/// Element-wise equality of id lists.
fn vec_u64_equal(a: &Vec<u64>, b: &Vec<u64>) -> (r: bool)
    ensures
        r == (a@ == b@),
{
    if a.len() != b.len() {
        return false;
    }
    let mut i: usize = 0;
    while i < a.len()
        invariant
            i <= a.len(),
            a@.len() == b@.len(),
            forall|j: int| 0 <= j < i ==> a@[j] == b@[j],
        decreases a.len() - i,
    {
        if a[i] != b[i] {
            return false;
        }
        i = i + 1;
    }
    proof {
        assert(a@ =~= b@);
    }
    true
}

/// Equality of optional strings by content.
fn opt_string_equal(a: &Option<String>, b: &Option<String>) -> (r: bool)
    ensures
        r == (match (a, b) {
            (Some(x), Some(y)) => x@ == y@,
            (None, None) => true,
            _ => false,
        }),
{
    match (a, b) {
        (Some(x), Some(y)) => *x == *y,
        (None, None) => true,
        _ => false,
    }
}

/// Full value equality of two reminders: every field, including the repeat
/// occurrence index and all descriptive fields.
pub fn reminders_equal(a: &Reminder, b: &Reminder) -> (r: bool)
    ensures
        r == (a@ == b@),
{
    let ids = a.registered_at == b.registered_at && a.registered_by == b.registered_by
        && a.target_date == b.target_date;
    if !ids {
        return false;
    }
    let rep = match (&a.repeating, &b.repeating) {
        (Some(x), Some(y)) => x.interval == y.interval && x.index == y.index,
        (None, None) => true,
        _ => false,
    };
    if !rep {
        return false;
    }
    if !opt_string_equal(&a.name, &b.name) {
        return false;
    }
    if !opt_string_equal(&a.description, &b.description) {
        return false;
    }
    let roles_eq = match (&a.roles, &b.roles) {
        (Some(x), Some(y)) => vec_u64_equal(x, y),
        (None, None) => true,
        _ => false,
    };
    roles_eq
}

} // verus!

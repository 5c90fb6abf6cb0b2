//! The core decisions behind the command surface: request validation.
//! Rendering and transport stay outside and call in with plain values.

use vstd::prelude::*;

use crate::clock::unix_now;
use crate::reminder::opt_str_view;

verus! {

/// Why an add request was rejected. No state is mutated on rejection.
#[derive(Clone, Copy, PartialEq, Eq, Structural, Debug)]
pub enum ValidationError {
    /// The target instant is not in the future.
    TargetNotFuture,
    /// The body text exceeds the length limit.
    BodyTooLong,
}

/// The longest accepted body text, in characters.
pub const MAX_BODY_CHARS: usize = 4096;

/// The add-request rule: the target must lie strictly after `now`, and the
/// body, when present, must not exceed the length limit.
pub open spec fn validate_spec(now: i64, target: i64, description: Option<Seq<char>>) -> Result<
    (),
    ValidationError,
> {
    if target <= now {
        Err(ValidationError::TargetNotFuture)
    } else if (match description {
        Some(s) => s.len() > MAX_BODY_CHARS,
        None => false,
    }) {
        Err(ValidationError::BodyTooLong)
    } else {
        Ok(())
    }
}

/// Validates an add request against the clock; returns the sampled clock
/// reading alongside the decision, so callers can relate later steps to it.
pub fn validate_new_reminder(target: i64, description: &Option<String>) -> (r: (
    i64,
    Result<(), ValidationError>,
))
    ensures
        r.1 == validate_spec(r.0, target, opt_str_view(*description)),
{
    let now = unix_now();
    if target <= now {
        return (now, Err(ValidationError::TargetNotFuture));
    }
    match description {
        Some(s) => {
            if s.as_str().unicode_len() > MAX_BODY_CHARS {
                (now, Err(ValidationError::BodyTooLong))
            } else {
                (now, Ok(()))
            }
        },
        None => (now, Ok(())),
    }
}

} // verus!

//! Decisions of the outer build-and-validate loops. The loops themselves
//! perform network calls and live with the caller; what to do next is decided
//! here.

use vstd::prelude::*;

verus! {

/// How many validation rounds a candidate program gets before the build
/// gives up.
pub const MAX_VALIDATION_ATTEMPTS: u64 = 3;

/// How many times one generation request is retried.
pub const MAX_GENERATION_ATTEMPTS: u64 = 3;

/// What the validation loop does after running the fixtures once.
#[derive(Debug, Clone, Copy, PartialEq, Eq, Structural)]
pub enum ValidationAction {
    /// Every fixture passed: the program is accepted as built.
    Accept,
    /// A fixture failed and attempts remain: ask for a corrected program.
    Fix,
    /// A fixture failed on the last attempt: the build fails.
    GiveUp,
}

/// The decision after validation round `attempt` (counted from one): accept
/// exactly on success, fix while rounds remain, give up on the last failure.
pub fn validation_action(attempt: u64, all_passed: bool) -> (r: ValidationAction)
    requires
        1 <= attempt <= MAX_VALIDATION_ATTEMPTS,
    ensures
        r == (if all_passed {
            ValidationAction::Accept
        } else if attempt < MAX_VALIDATION_ATTEMPTS {
            ValidationAction::Fix
        } else {
            ValidationAction::GiveUp
        }),
{
    if all_passed {
        ValidationAction::Accept
    } else if attempt < MAX_VALIDATION_ATTEMPTS {
        ValidationAction::Fix
    } else {
        ValidationAction::GiveUp
    }
}

/// The pause before generation attempt `attempt` is retried: it doubles with
/// every attempt.
pub fn retry_backoff_secs(attempt: u64) -> (r: u64)
    requires
        attempt < 64,
    ensures
        r == (1u64 << attempt),
{
    1u64 << attempt
}

} // verus!

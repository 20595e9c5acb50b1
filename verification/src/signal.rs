//! What the Ctrl+C flag means to the run: the check made at each phase boundary.
use vstd::prelude::*;

use crate::error::AppError;

verus! {

/// Returns `Err(AppError::Cancelled)` if the interrupt flag is set.
pub fn check_interrupted(interrupted: bool) -> (r: Result<(), AppError>)
    ensures
        interrupted <==> r is Err,
        r matches Err(e) ==> e is Cancelled,
{
    if interrupted {
        Err(AppError::Cancelled)
    } else {
        Ok(())
    }
}

/// Returns `true` if the interrupt flag was set, and clears it.
pub fn check_and_clear_interrupted(flag: &mut bool) -> (r: bool)
    ensures
        r == *old(flag),
        !*final(flag),
{
    let r = *flag;
    *flag = false;
    r
}

} // verus!

//! Decisions of the HTTP handlers.
use crate::error::{Error, Result};
use vstd::prelude::*;

verus! {

/// A rating is stored only for a video that has a summary; storing none means there was no
/// such video.
pub fn rating_result(rows_affected: u64) -> (r: Result<()>)
    ensures
        rows_affected == 0 ==> r matches Err(Error::NotFound),
        rows_affected != 0 ==> r is Ok,
{
    if rows_affected == 0 {
        Err(Error::NotFound)
    } else {
        Ok(())
    }
}

} // verus!

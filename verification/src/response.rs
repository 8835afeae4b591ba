//! Values as a response carries them.

use vstd::prelude::*;

verus! {

/// Why a value could not be put in a response.
#[derive(Clone, Debug, PartialEq, Eq)]
pub enum ServiceError {
    /// A failure of the service itself, with its reason.
    Internal(String),
}

/// The reason given for a count that a response cannot carry.
pub open spec fn too_big() -> Seq<char> {
    "usize too big for i64"@
}

/// A count as the signed 64-bit number that a response carries.
///
/// Fails if and only if the count is larger than any such number.
pub fn to_i64(val: usize) -> (r: Result<i64, ServiceError>)
    ensures
        match r {
            Ok(n) => n == val,
            Err(ServiceError::Internal(reason)) => val > i64::MAX && reason@ == too_big(),
        },
{
    if (val as u64) <= 0x7fff_ffff_ffff_ffffu64 {
        Ok(val as i64)
    } else {
        Err(ServiceError::Internal("usize too big for i64".to_string()))
    }
}

} // verus!

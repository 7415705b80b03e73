//! Checked integer conversions used by the timetable image layout.

use std::num::TryFromIntError;
use vstd::prelude::*;

verus! {

/// `i32::try_from` on a `u32`: succeeds exactly when the value fits in an `i32`,
/// and then keeps the value.
#[verifier::external_body]
fn i32_try_from_u32(x: u32) -> (r: Result<i32, TryFromIntError>)
    ensures
        r is Ok <==> x <= i32::MAX,
        r matches Ok(v) ==> v == x,
{
    i32::try_from(x)
}

/// Converts a `u32` into an `i32`, failing when it does not fit.
pub fn u32_i32(x: u32) -> (r: Result<i32, TryFromIntError>)
    ensures
        r is Ok <==> x <= i32::MAX,
        r matches Ok(v) ==> v == x,
{
    i32_try_from_u32(x)
}

/// Converts a `u64` into a `u32`, failing when it does not fit.
pub fn u64_u32(x: u64) -> (r: Result<u32, TryFromIntError>)
    ensures
        r is Ok <==> x <= u32::MAX,
        r matches Ok(v) ==> v == x,
{
    x.try_into()
}

/// Converts an `i32` into a `u32`, failing on negative values.
pub fn i32_u32(x: i32) -> (r: Result<u32, TryFromIntError>)
    ensures
        r is Ok <==> x >= 0,
        r matches Ok(v) ==> v == x,
{
    x.try_into()
}

/// Converts an `i32` into a `usize`, failing on negative values.
pub fn i32_usize(x: i32) -> (r: Result<usize, TryFromIntError>)
    ensures
        r is Ok <==> x >= 0,
        r matches Ok(v) ==> v == x,
{
    x.try_into()
}

} // verus!

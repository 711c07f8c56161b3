//! What can go wrong inside the library itself.

use vstd::prelude::*;

verus! {

#[derive(Debug, Clone, Copy, PartialEq, Eq, Structural)]
pub enum ViiruError {
    /// No number is left from which a fresh block id could be made.
    IdsExhausted,
    /// A coordinate left the range of a 32-bit integer.
    Overflow,
    /// A block names an opcode that has no template.
    UnknownOpcode,
}

/// `a + b`, or the overflow error where the sum leaves the 32-bit range.
pub fn plus(a: i32, b: i32) -> (r: Result<i32, ViiruError>)
    ensures
        r == sum(a as int, b as int),
{
    match a.checked_add(b) {
        Some(v) => Ok(v),
        None => Err(ViiruError::Overflow),
    }
}

/// `a - b`, or the overflow error where the difference leaves the 32-bit range.
pub fn minus(a: i32, b: i32) -> (r: Result<i32, ViiruError>)
    ensures
        r == sum(a as int, -(b as int)),
{
    match a.checked_sub(b) {
        Some(v) => Ok(v),
        None => Err(ViiruError::Overflow),
    }
}

/// Whether `v` is a 32-bit integer.
pub open spec fn fits(v: int) -> bool {
    i32::MIN <= v <= i32::MAX
}

/// The sum of two coordinates, where it is one.
pub open spec fn sum(a: int, b: int) -> Result<i32, ViiruError> {
    if fits(a + b) {
        Ok((a + b) as i32)
    } else {
        Err(ViiruError::Overflow)
    }
}

} // verus!

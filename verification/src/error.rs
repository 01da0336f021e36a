//! Error types for dollcode operations.
//!
//! Every codec operation returns one of the three kinds below; malformed
//! input is always reported, never panicked on.

use vstd::prelude::*;

verus! {

/// Errors that can occur during dollcode operations.
#[derive(Debug)]
pub enum DollcodeError {
    /// The input sequence has the wrong structural shape: a character that is
    /// not one of the three glyphs, a segment of the wrong length, or a
    /// decoded value outside the valid range.
    InvalidInput,
    /// A character that cannot be encoded or decoded, together with its
    /// 0-based position in the caller's input.
    InvalidChar(char, usize),
    /// A value would exceed the unsigned 64-bit range or a fixed-capacity
    /// buffer would exceed its maximum length.
    Overflow,
}

impl DollcodeError {
    /// A stable, human-readable message naming the error kind.
    pub fn message(&self) -> (r: &'static str)
        ensures
            self is InvalidInput ==> r@ == "Invalid dollcode sequence"@,
            self is InvalidChar ==> r@ == "Invalid character"@,
            self is Overflow ==> r@ == "Value overflow"@,
    {
        match self {
            DollcodeError::InvalidInput => "Invalid dollcode sequence",
            DollcodeError::InvalidChar(_, _) => "Invalid character",
            DollcodeError::Overflow => "Value overflow",
        }
    }
}

} // verus!

use vstd::prelude::*;

verus! {

/// Why an operation of the library was refused.
#[derive(Clone, Copy, Debug, PartialEq, Eq, Structural)]
pub enum Error {
    /// The input block and the output block differ in length.
    LengthMismatch,
    /// The shift factor is not a positive finite number.
    InvalidShift,
}

} // verus!

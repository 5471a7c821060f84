use vstd::prelude::*;

verus! {

/// The sign bit of a double-precision bit pattern.
pub const SIGN_BIT: u64 = 0x8000_0000_0000_0000;

/// One complex bin of a spectrum: real and imaginary part, each as the bit
/// pattern of a double-precision number.
#[derive(Clone, Copy, Debug, PartialEq, Eq, Structural)]
pub struct Bin {
    pub re: u64,
    pub im: u64,
}

/// The bit pattern of the number with the opposite sign: the sign bit is
/// flipped, every other bit stays.
pub open spec fn negated(bits: u64) -> u64 {
    if bits < SIGN_BIT {
        (bits + SIGN_BIT) as u64
    } else {
        (bits - SIGN_BIT) as u64
    }
}

/// Flips the sign of a double-precision number given by its bits.
pub fn negate(bits: u64) -> (r: u64)
    ensures
        r == negated(bits),
{
    assert(bits ^ 0x8000_0000_0000_0000u64 == if bits < 0x8000_0000_0000_0000u64 {
        (bits + 0x8000_0000_0000_0000u64) as u64
    } else {
        (bits - 0x8000_0000_0000_0000u64) as u64
    }) by (bit_vector);
    bits ^ SIGN_BIT
}

impl Bin {
    /// The bin whose two parts are positive zero.
    pub open spec fn zero() -> Bin {
        Bin { re: 0, im: 0 }
    }

    /// The complex conjugate: same real part, imaginary part with the
    /// opposite sign.
    pub open spec fn conjugate(self) -> Bin {
        Bin { re: self.re, im: negated(self.im) }
    }

    /// Both parts are a zero of either sign.
    pub open spec fn is_silent(self) -> bool {
        (self.re == 0 || self.re == SIGN_BIT) && (self.im == 0 || self.im == SIGN_BIT)
    }

    pub fn conj(self) -> (r: Bin)
        ensures
            r == self.conjugate(),
    {
        Bin { re: self.re, im: negate(self.im) }
    }
}

} // verus!

//! Carriers for the numbers that this library stores and hands on without
//! computing with them.

use vstd::arithmetic::power2::pow2;
use vstd::prelude::*;

verus! {

/// A double-precision number, carried by its IEEE 754 bit pattern.
#[derive(Clone, Copy, Debug, PartialEq, Eq, Structural)]
pub struct Double {
    pub bits: u64,
}

/// A single-precision number, carried by its IEEE 754 bit pattern.
#[derive(Clone, Copy, Debug, PartialEq, Eq, Structural)]
pub struct Single {
    pub bits: u32,
}

/// A colour: red, green, blue and alpha channels.
#[derive(Clone, Copy, Debug, PartialEq, Eq, Structural)]
pub struct Color {
    pub red: Single,
    pub green: Single,
    pub blue: Single,
    pub alpha: Single,
}

/// Half of a number, towards zero.
pub open spec fn half(n: int) -> int {
    if n >= 0 {
        n / 2
    } else {
        -((-n) / 2)
    }
}

/// The number that a double stands for, if it is a whole number from 1 to 2^52: its
/// fraction with a one before it, moved to the right as far as its exponent says.
pub open spec fn whole(value: Double) -> int {
    let fraction = value.bits as int % 0x10_0000_0000_0000;
    let exponent = value.bits as int / 0x10_0000_0000_0000;
    (0x10_0000_0000_0000 + fraction) / pow2((1075 - exponent) as nat) as int
}

} // verus!

//! A 24-bit unsigned integer type that only takes up 24 bits of space.

use vstd::prelude::*;

verus! {

/// The largest value that 24 bits hold.
pub const U24MAX: u32 = 16777215u32;

/// Three little-endian bytes.
#[derive(Debug, Clone, Copy, PartialEq, Eq, Structural)]
pub struct U24(pub u8, pub u8, pub u8);

impl U24 {
    /// The number that the three bytes hold.
    pub open spec fn value(self) -> int {
        self.0 as int + 256 * (self.1 as int) + 65536 * (self.2 as int)
    }

    pub fn new(n: u32) -> (r: U24)
        requires
            n <= U24MAX,
        ensures
            r.value() == n,
    {
        assert((n & 255) < 256 && ((n >> 8) & 255) < 256 && (n >> 16) < 256) by (bit_vector)
            requires n <= 16777215u32;
        assert(n == (n & 255) + 256 * ((n >> 8) & 255) + 65536 * (n >> 16)) by (bit_vector)
            requires n <= 16777215u32;
        let b0 = (n & 255) as u8;
        let b1 = ((n >> 8) & 255) as u8;
        let b2 = (n >> 16) as u8;
        U24(b0, b1, b2)
    }
}

} // verus!

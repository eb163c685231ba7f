//! A reproducible source of pseudo-random numbers: a failure can be repeated
//! from the seed alone.

use vstd::prelude::*;

verus! {

/// SplitMix64, after Steele, Lea and Flood. Any seed is as good as any other.
#[derive(Clone, Copy, Debug, PartialEq, Eq, Structural)]
pub struct Rng {
    pub state: u64,
}

/// The state after one draw.
pub open spec fn advanced(state: u64) -> u64 {
    state.wrapping_add(0x9E37_79B9_7F4A_7C15)
}

/// The number drawn in a state.
pub open spec fn mixed(state: u64) -> u64 {
    let a = (state ^ (state >> 30)).wrapping_mul(0xBF58_476D_1CE4_E5B9);
    let b = (a ^ (a >> 27)).wrapping_mul(0x94D0_49BB_1331_11EB);
    b ^ (b >> 31)
}

impl Rng {
    pub fn new(seed: u64) -> (r: Self)
        ensures
            r.state == seed,
    {
        Rng { state: seed }
    }

    /// The next number.
    pub fn next_u64(&mut self) -> (n: u64)
        ensures
            final(self).state == advanced(old(self).state),
            n == mixed(final(self).state),
    {
        self.state = self.state.wrapping_add(0x9E37_79B9_7F4A_7C15);
        let mut z: u64 = self.state;
        z = (z ^ (z >> 30)).wrapping_mul(0xBF58_476D_1CE4_E5B9);
        z = (z ^ (z >> 27)).wrapping_mul(0x94D0_49BB_1331_11EB);
        z ^ (z >> 31)
    }

    /// The signs of the next point of a four-point constellation: whether each of
    /// its two parts is negative.
    pub fn qpsk_signs(&mut self) -> (r: (bool, bool))
        ensures
            final(self).state == advanced(old(self).state),
            r.0 == (mixed(final(self).state) % 2 == 1),
            r.1 == (mixed(final(self).state) / 2 % 2 == 1),
    {
        let b: u64 = self.next_u64();
        (b % 2 == 1, b / 2 % 2 == 1)
    }

    /// A draw between one and two to the fifty-third: how many of that many equal
    /// parts of one a uniform number on `(0, 1]` has. Never zero, so that its
    /// logarithm is finite.
    pub fn unit_parts(&mut self) -> (n: u64)
        ensures
            final(self).state == advanced(old(self).state),
            n == (mixed(final(self).state) >> 11) + 1,
            1 <= n <= 0x20_0000_0000_0000,
    {
        let z: u64 = self.next_u64();
        assert(z >> 11 <= 0x1f_ffff_ffff_ffff) by (bit_vector);
        (z >> 11) + 1
    }
}

} // verus!

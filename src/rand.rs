use vstd::prelude::*;

verus! {

/// Multiplier of the generator.
pub const CMWC_A: u64 = 4294957665;

/// Initial carry of a freshly seeded generator.
pub const CMWC_INITIAL_CARRY: u32 = 362436;

/// The generator's state after one step from value `x` and carry `c`:
/// `t = a * x + c`, the new carry is the high half of `t`, the new value
/// is the complement of its low half.
pub open spec fn cmwc_step(x: u32, c: u32) -> (u32, u32) {
    let t = CMWC_A * x + c;
    ((0xFFFF_FFFFint - t % 0x1_0000_0000) as u32, (t / 0x1_0000_0000) as u32)
}

/// A lag-1 complementary-multiply-with-carry pseudo-random generator.
pub struct ComplementaryMultiplyWithCarryGen {
    pub x: u32,
    pub c: u32,
}

impl ComplementaryMultiplyWithCarryGen {
    /// A generator whose value is `seed`.
    pub fn new(seed: u32) -> (r: ComplementaryMultiplyWithCarryGen)
        ensures
            r.x == seed,
            r.c == CMWC_INITIAL_CARRY,
    {
        ComplementaryMultiplyWithCarryGen { x: seed, c: CMWC_INITIAL_CARRY }
    }

    /// Advances the generator by one step and returns its new value.
    pub fn random(&mut self) -> (r: u32)
        ensures
            (final(self).x, final(self).c) == cmwc_step(old(self).x, old(self).c),
            r == final(self).x,
    {
        let x = self.x as u64;
        let c = self.c as u64;
        proof {
            assert(CMWC_A * x + c <= 0xFFFF_FFFF_FFFF_FFFFu64) by (nonlinear_arith)
                requires
                    x <= 0xFFFF_FFFFu64,
                    c <= 0xFFFF_FFFFu64,
            ;
            assert((CMWC_A * x + c) / 0x1_0000_0000 <= 0xFFFF_FFFF) by (nonlinear_arith)
                requires
                    x <= 0xFFFF_FFFFu64,
                    c <= 0xFFFF_FFFFu64,
            ;
        }
        let t: u64 = CMWC_A * x + c;
        let carry: u64 = t / 0x1_0000_0000;
        let low: u64 = t % 0x1_0000_0000;
        self.c = carry as u32;
        self.x = (0xFFFF_FFFFu64 - low) as u32;
        self.x
    }
}

} // verus!

//! Integer pseudo-random numbers shared by the maze and the games.
use vstd::prelude::*;

verus! {

pub const LCG_MUL: u64 = 6364136223846793005;

pub const LCG_INC: u64 = 1442695040888963407;

/// The next state of the 64-bit linear congruential generator.
pub open spec fn lcg_next(s: u64) -> u64 {
    ((s as nat * LCG_MUL as nat + LCG_INC as nat) % 0x1_0000_0000_0000_0000) as u64
}

/// The number drawn from a state: its upper 31 bits.
pub open spec fn lcg_out(s: u64) -> nat {
    (s / 0x2_0000_0000) as nat
}

/// Advances the generator and returns the upper 31 bits of the new state.
pub fn lcg(s: &mut u64) -> (r: usize)
    ensures
        *final(s) == lcg_next(*old(s)),
        r == lcg_out(*final(s)),
        r < 0x8000_0000,
{
    let m = s.wrapping_mul(LCG_MUL);
    let n = m.wrapping_add(LCG_INC);
    proof {
        let a = *old(s) as nat * LCG_MUL as nat;
        assert(m == (a % 0x1_0000_0000_0000_0000) as u64);
        assert(n as nat == (a + LCG_INC as nat) % 0x1_0000_0000_0000_0000) by (nonlinear_arith)
            requires
                m == (a % 0x1_0000_0000_0000_0000) as u64,
                n == (if m + LCG_INC > u64::MAX {
                    (m + LCG_INC - 0x1_0000_0000_0000_0000) as u64
                } else {
                    (m + LCG_INC) as u64
                }),
        ;
    }
    *s = n;
    let hi = n >> 33u64;
    assert(hi == n / 0x2_0000_0000 && hi < 0x8000_0000) by (bit_vector)
        requires
            hi == n >> 33u64,
    ;
    hi as usize
}

} // verus!

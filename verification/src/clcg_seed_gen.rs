//! Combined linear congruential generator (two LCGs `z` and `w`).
use vstd::prelude::*;

verus! {

/// Modulus of the first component generator.
pub const MOD1: i64 = 2_147_483_563;

/// Modulus of the second component generator.
pub const MOD2: i64 = 2_147_483_399;

/// Multiplier of the first component generator.
pub const MULT1: i64 = 40_014;

/// Multiplier of the second component generator.
pub const MULT2: i64 = 40_692;

/// The state `(z, w)` that `Clcg::new(seed)` starts from.
pub open spec fn seed_state(seed: u64) -> (int, int) {
    let z = (seed as int) % (MOD1 - 1) as int;
    let w = ((seed as int) / 0x1_0000_0000) % (MOD2 - 1) as int;
    (if z < 1 { 1 } else { z }, if w < 1 { 1 } else { w })
}

/// One step of both component generators.
pub open spec fn step_state(s: (int, int)) -> (int, int) {
    ((s.0 * MULT1) % (MOD1 as int), (s.1 * MULT2) % (MOD2 as int))
}

/// The 32-bit draw that a (freshly stepped) state yields.
pub open spec fn state_output(s: (int, int)) -> int {
    let d = s.0 - s.1;
    if d < 0 {
        d + MOD1
    } else {
        d
    }
}

/// The state after `n` steps from `s`.
pub open spec fn steps(s: (int, int), n: nat) -> (int, int)
    decreases n,
{
    if n == 0 {
        s
    } else {
        step_state(steps(s, (n - 1) as nat))
    }
}

/// A state both of whose components lie in their residue ranges.
pub open spec fn state_in_range(s: (int, int)) -> bool {
    &&& 0 <= s.0 < MOD1
    &&& 0 <= s.1 < MOD2
}

/// Seeded combined LCG.
#[derive(Debug, Clone, Copy, PartialEq, Eq, Structural)]
pub struct Clcg {
    z: i64,
    w: i64,
}

impl View for Clcg {
    type V = (int, int);

    closed spec fn view(&self) -> (int, int) {
        (self.z as int, self.w as int)
    }
}

impl Clcg {
    #[verifier::type_invariant]
    spec fn wf(self) -> bool {
        state_in_range(self@)
    }

    /// Generator seeded from the low word (first component) and the high
    /// word (second component) of `seed`.
    pub fn new(seed: u64) -> (r: Self)
        ensures
            r@ == seed_state(seed),
            state_in_range(r@),
    {
        let z0 = seed % ((MOD1 as u64) - 1);
        let w0 = (seed >> 32) % ((MOD2 as u64) - 1);
        assert((seed >> 32) == seed / 0x1_0000_0000) by (bit_vector);
        let z: u64 = if z0 < 1 {
            1
        } else {
            z0
        };
        let w: u64 = if w0 < 1 {
            1
        } else {
            w0
        };
        Clcg { z: z as i64, w: w as i64 }
    }

    /// Advances both components and returns their difference modulo `MOD1`.
    pub fn next_u32(&mut self) -> (r: u32)
        ensures
            final(self)@ == step_state(old(self)@),
            r as int == state_output(final(self)@),
            state_in_range(final(self)@),
            r < MOD1,
    {
        proof {
            use_type_invariant(&*self);
        }
        let z = (self.z * MULT1) % MOD1;
        let w = (self.w * MULT2) % MOD2;
        self.z = z;
        self.w = w;
        let mut u = z - w;
        if u < 0 {
            u += MOD1;
        }
        u as u32
    }

    /// Two consecutive draws: the first forms the high word, the second the low word.
    pub fn next_u64(&mut self) -> (r: u64)
        ensures
            final(self)@ == step_state(step_state(old(self)@)),
            r as int == state_output(step_state(old(self)@)) * 0x1_0000_0000 + state_output(
                step_state(step_state(old(self)@)),
            ),
            state_in_range(final(self)@),
    {
        let hi = self.next_u32() as u64;
        let lo = self.next_u32() as u64;
        assert((hi << 32) | lo == hi * 0x1_0000_0000 + lo) by (bit_vector)
            requires
                hi < 0x1_0000_0000,
                lo < 0x1_0000_0000,
        ;
        (hi << 32) | lo
    }
}

} // verus!

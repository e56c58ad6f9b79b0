//! A seeded generator of pseudo-random numbers (SplitMix64), reproducible per index.

use vstd::prelude::*;

verus! {

const GOLDEN: u64 = 0x9E37_79B9_7F4A_7C15;

/// The generator. Its state is its whole future.
#[derive(Clone, Copy, Debug)]
pub struct Rng(u64);

impl View for Rng {
    type V = u64;

    closed spec fn view(&self) -> u64 {
        self.0
    }
}

/// The state that an index starts from.
pub open spec fn seed_state(index: u32) -> u64 {
    0x9E37_79B9_7F4A_7C15u64.wrapping_mul((index as u64 + 1) as u64)
}

pub open spec fn next_state(s: u64) -> u64 {
    s.wrapping_add(0x9E37_79B9_7F4A_7C15u64)
}

/// The number that a state is mixed to.
pub open spec fn mixed(s: u64) -> u64 {
    let a = (s ^ (s >> 30)).wrapping_mul(0xBF58_476D_1CE4_E5B9u64);
    let b = (a ^ (a >> 27)).wrapping_mul(0x94D0_49BB_1331_11EBu64);
    b ^ (b >> 31)
}

/// The number drawn from a state.
pub open spec fn drawn(s: u64) -> u64 {
    mixed(next_state(s))
}

/// The number between two bounds that is drawn from a state.
pub open spec fn drawn_in(s: u64, lo: u32, hi: u32) -> u32 {
    (lo + drawn(s) as int % (hi - lo + 1)) as u32
}

/// Whether a chance of `pct` in a hundred comes true.
pub open spec fn drawn_chance(s: u64, pct: u32) -> bool {
    drawn_in(s, 0, 99) < pct
}

/// The position that is drawn among `n`.
pub open spec fn drawn_below(s: u64, n: int) -> int {
    drawn(s) as int % n
}

/// A draw between two bounds keeps to them, whatever the state.
pub proof fn draw_is_in_bounds(s: u64, lo: u32, hi: u32)
    requires
        lo <= hi,
    ensures
        lo <= drawn_in(s, lo, hi) <= hi,
{
    let r = drawn(s) as int % (hi - lo + 1);
    assert(0 <= r < hi - lo + 1) by (nonlinear_arith)
        requires
            lo <= hi,
            r == drawn(s) as int % (hi - lo + 1),
    ;
}

impl Rng {
    /// The generator for an index.
    pub fn seeded(index: u32) -> (r: Rng)
        ensures
            r@ == seed_state(index),
    {
        Rng(GOLDEN.wrapping_mul(index as u64 + 1))
    }

    /// The next number.
    pub fn next_u64(&mut self) -> (r: u64)
        ensures
            final(self)@ == next_state(old(self)@),
            r == drawn(old(self)@),
    {
        self.0 = self.0.wrapping_add(GOLDEN);
        let z: u64 = self.0;
        let a: u64 = (z ^ (z >> 30)).wrapping_mul(0xBF58_476D_1CE4_E5B9);
        let b: u64 = (a ^ (a >> 27)).wrapping_mul(0x94D0_49BB_1331_11EB);
        b ^ (b >> 31)
    }

    /// A number from `lo` to `hi`, both included.
    pub fn range(&mut self, lo: u32, hi: u32) -> (r: u32)
        requires
            lo <= hi,
            hi - lo < u32::MAX,
        ensures
            final(self)@ == next_state(old(self)@),
            r == drawn_in(old(self)@, lo, hi),
            lo <= r <= hi,
    {
        proof {
            draw_is_in_bounds(self@, lo, hi);
        }
        let width: u64 = (hi - lo + 1) as u64;
        let n: u64 = self.next_u64();
        let off: u64 = n % width;
        lo + off as u32
    }

    /// True in `pct` of a hundred cases.
    pub fn chance(&mut self, pct: u32) -> (r: bool)
        ensures
            final(self)@ == next_state(old(self)@),
            r == drawn_chance(old(self)@, pct),
    {
        self.range(0, 99) < pct
    }

    /// A position below `n`.
    pub fn below(&mut self, n: usize) -> (r: usize)
        requires
            n > 0,
        ensures
            final(self)@ == next_state(old(self)@),
            r == drawn_below(old(self)@, n as int),
            r < n,
    {
        let d: u64 = self.next_u64();
        (d % n as u64) as usize
    }

    /// One of the given values.
    pub fn pick(&mut self, xs: &[u32]) -> (r: u32)
        requires
            xs@.len() > 0,
        ensures
            final(self)@ == next_state(old(self)@),
            r == xs@[drawn_below(old(self)@, xs@.len() as int)],
    {
        let i: usize = self.below(xs.len());
        xs[i]
    }
}

/// The generator steps by the golden ratio's odd multiple, round the 64 bits, from a state
/// that is the index's own multiple of it.
pub proof fn states_step_by_the_golden_ratio(s: u64, index: u32)
    ensures
        next_state(s) as int == (s + 0x9E37_79B9_7F4A_7C15int) % 0x1_0000_0000_0000_0000int,
        seed_state(index) as int == (0x9E37_79B9_7F4A_7C15int * (index + 1))
            % 0x1_0000_0000_0000_0000int,
{
}

/// A state is mixed in three rounds, by shifts of 30, 27 and 31 and two odd factors.
pub proof fn a_state_is_mixed_in_three_rounds(s: u64, a: u64, b: u64)
    requires
        a as int == ((s ^ (s / 0x4000_0000)) as int * 0xBF58_476D_1CE4_E5B9int)
            % 0x1_0000_0000_0000_0000int,
        b as int == ((a ^ (a / 0x800_0000)) as int * 0x94D0_49BB_1331_11EBint)
            % 0x1_0000_0000_0000_0000int,
    ensures
        mixed(s) == b ^ (b / 0x8000_0000),
        drawn(s) == mixed(next_state(s)),
{
    assert(s >> 30 == s / 0x4000_0000) by (bit_vector);
    assert(a >> 27 == a / 0x800_0000) by (bit_vector);
    assert(b >> 31 == b / 0x8000_0000) by (bit_vector);
}

/// A draw between bounds is the number drawn, counted round from the lower one; a chance of
/// nothing never comes true, one of a hundred always, and one that comes true does so at any
/// better odds.
pub proof fn chances_grow_with_their_odds(s: u64, p: u32, q: u32)
    ensures
        !drawn_chance(s, 0),
        drawn_chance(s, 100),
        drawn_chance(s, p) && p <= q ==> drawn_chance(s, q),
        drawn_chance(s, p) <==> drawn(s) as int % 100 < p,
        drawn_in(s, p, p) == p,
{
    draw_is_in_bounds(s, 0, 99);
    draw_is_in_bounds(s, p, p);
}

} // verus!

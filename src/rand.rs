use crate::xoshiro::{seeded_state, xoshiro_output, xoshiro_step, Xoshiro256};
use vstd::prelude::*;

verus! {

/// The state of the generator: the four words of xoshiro256**.
pub type RandState = (u64, u64, u64, u64);

/// How many draws a bounded draw makes at most before it settles for the last one.
/// A draw is rejected with probability below one half, so the cap is never
/// reached in practice; it only makes every draw finish.
pub const MAX_REJECTIONS: u32 = 256;

/// The 32-bit value drawn in state `s`: the low half of the 64-bit output.
pub open spec fn output_u32(s: RandState) -> u32 {
    xoshiro_output(s) as u32
}

/// The largest multiple of `bound` that is at most 2^32: draws at or above it
/// are rejected, so that the rest reduce to an unbiased value modulo `bound`.
pub open spec fn acceptance_limit(bound: u32) -> int {
    (0x1_0000_0000int / bound as int) * bound as int
}

/// A draw in `[0, bound)` from state `s` by rejection sampling, with at most
/// `tries` draws: the value, and the state after it.
pub open spec fn bounded_draw(s: RandState, bound: u32, tries: nat) -> (u32, RandState)
    recommends
        bound > 0,
    decreases tries,
{
    let n = output_u32(s);
    if (n as int) < acceptance_limit(bound) || tries <= 1 {
        ((n % bound) as u32, xoshiro_step(s))
    } else {
        bounded_draw(xoshiro_step(s), bound, (tries - 1) as nat)
    }
}

/// A draw in `[0, bound)` from state `s`.
pub open spec fn draw_below(s: RandState, bound: u32) -> (u32, RandState) {
    bounded_draw(s, bound, MAX_REJECTIONS as nat)
}

/// A draw in `[lo, hi)` from state `s`.
pub open spec fn draw_range(s: RandState, lo: u32, hi: u32) -> (u32, RandState) {
    let (v, s1) = draw_below(s, (hi - lo) as u32);
    ((v + lo) as u32, s1)
}

/// A fair coin from state `s`: the top bit of the 64-bit output.
pub open spec fn draw_bool(s: RandState) -> (bool, RandState) {
    ((xoshiro_output(s) >> 63u64) == 1, xoshiro_step(s))
}

/// The sum of `dice` rolls of a `sides`-sided die from state `s`.
pub open spec fn dice_sum(s: RandState, dice: nat, sides: u32) -> (int, RandState)
    decreases dice,
{
    if dice == 0 {
        (0, s)
    } else {
        let (sum, s1) = dice_sum(s, (dice - 1) as nat, sides);
        let (v, s2) = draw_below(s1, sides);
        (sum + v + 1, s2)
    }
}

proof fn lemma_bounded_draw_below(s: RandState, bound: u32, tries: nat)
    requires
        bound > 0,
    ensures
        bounded_draw(s, bound, tries).0 < bound,
    decreases tries,
{
    let n = output_u32(s);
    if !((n as int) < acceptance_limit(bound) || tries <= 1) {
        lemma_bounded_draw_below(xoshiro_step(s), bound, (tries - 1) as nat);
    }
}

/// A ranged draw lands in its range.
pub proof fn lemma_draw_range(s: RandState, lo: u32, hi: u32)
    requires
        lo < hi,
    ensures
        lo <= draw_range(s, lo, hi).0 < hi,
{
    lemma_bounded_draw_below(s, (hi - lo) as u32, MAX_REJECTIONS as nat);
}

proof fn lemma_dice_sum_bounds(s: RandState, dice: nat, sides: u32)
    requires
        sides > 0,
    ensures
        dice <= dice_sum(s, dice, sides).0 <= dice * sides,
    decreases dice,
{
    if dice > 0 {
        lemma_dice_sum_bounds(s, (dice - 1) as nat, sides);
        let s1 = dice_sum(s, (dice - 1) as nat, sides).1;
        lemma_bounded_draw_below(s1, sides, MAX_REJECTIONS as nat);
        assert((dice - 1) * sides + sides == dice * sides) by (nonlinear_arith);
    }
}

/// A seedable pseudo-random generator whose whole stream follows from its state.
pub struct Rand {
    rng: Xoshiro256,
}

impl View for Rand {
    type V = RandState;

    closed spec fn view(&self) -> RandState {
        self.rng@
    }
}

impl Rand {
    /// A generator seeded from the clock.
    pub fn new() -> (r: Rand)
        ensures
            exists|seed: u64| r@ == seeded_state(seed),
    {
        Rand { rng: Xoshiro256::new() }
    }

    /// A generator whose stream is fixed by `seed`.
    pub fn from_seed(seed: u64) -> (r: Rand)
        ensures
            r@ == seeded_state(seed),
    {
        Rand { rng: Xoshiro256::from_seed(seed) }
    }

    /// A uniform 64-bit value.
    pub fn rand_u64(&mut self) -> (r: u64)
        ensures
            r == xoshiro_output(old(self)@),
            final(self)@ == xoshiro_step(old(self)@),
    {
        self.rng.next()
    }

    /// A uniform 32-bit value: the low half of a 64-bit draw.
    pub fn rand_u32(&mut self) -> (r: u32)
        ensures
            r == output_u32(old(self)@),
            final(self)@ == xoshiro_step(old(self)@),
    {
        self.rand_u64() as u32
    }

    /// A uniform value in `[min, max)`.
    pub fn rand_range(&mut self, min: u32, max: u32) -> (r: u32)
        requires
            min < max,
        ensures
            (r, final(self)@) == draw_range(old(self)@, min, max),
            min <= r < max,
    {
        let range = max - min;
        self.rand_bound(range) + min
    }

    /// A uniform value in `[0, bound)`, by rejection of the draws at or above
    /// the largest multiple of `bound` that fits in 32 bits.
    pub fn rand_bound(&mut self, bound: u32) -> (r: u32)
        requires
            bound > 0,
        ensures
            (r, final(self)@) == draw_below(old(self)@, bound),
            r < bound,
    {
        let q: u64 = 0x1_0000_0000u64 / bound as u64;
        assert(q * bound <= 0x1_0000_0000u64) by (nonlinear_arith)
            requires q == 0x1_0000_0000u64 / bound as u64, bound > 0;
        let limit: u64 = q * bound as u64;
        let ghost s0 = self@;
        let mut left: u32 = MAX_REJECTIONS;
        proof {
            lemma_bounded_draw_below(s0, bound, MAX_REJECTIONS as nat);
        }
        loop
            invariant
                1 <= left <= MAX_REJECTIONS,
                bound > 0,
                s0 == old(self)@,
                limit as int == acceptance_limit(bound),
                bounded_draw(self@, bound, left as nat) == draw_below(s0, bound),
            decreases left,
        {
            let ghost before = self@;
            let n = self.rand_u32();
            if (n as u64) < limit || left <= 1 {
                assert(bounded_draw(before, bound, left as nat) == ((n % bound) as u32, self@));
                return n % bound;
            }
            assert(bounded_draw(before, bound, left as nat) == bounded_draw(
                self@,
                bound,
                (left - 1) as nat,
            ));
            left = left - 1;
        }
    }

    /// A fair coin flip: the top bit of a 64-bit draw.
    pub fn rand_bool(&mut self) -> (r: bool)
        ensures
            (r, final(self)@) == draw_bool(old(self)@),
    {
        (self.rand_u64() >> 63u64) == 1
    }

    /// One roll of a `sides`-sided die: a value in `[1, sides]`.
    pub fn roll_dx(&mut self, sides: u32) -> (r: u32)
        requires
            sides > 0,
        ensures
            (r as int, final(self)@) == dice_sum(old(self)@, 1, sides),
            1 <= r <= sides,
    {
        proof {
            reveal_with_fuel(dice_sum, 2);
        }
        self.rand_bound(sides) + 1
    }

    /// The sum of `dice` rolls of a `sides`-sided die.
    pub fn roll_ndx(&mut self, dice: u32, sides: u32) -> (r: u32)
        requires
            sides > 0,
            dice as int * sides as int <= u32::MAX,
        ensures
            (r as int, final(self)@) == dice_sum(old(self)@, dice as nat, sides),
            dice <= r <= dice as int * sides as int,
    {
        let ghost s0 = self@;
        let mut sum: u32 = 0;
        let mut i: u32 = 0;
        while i < dice
            invariant
                i <= dice,
                sides > 0,
                dice as int * sides as int <= u32::MAX,
                (sum as int, self@) == dice_sum(s0, i as nat, sides),
            decreases dice - i,
        {
            proof {
                lemma_dice_sum_bounds(s0, i as nat, sides);
                assert(i * sides + sides <= dice * sides) by (nonlinear_arith)
                    requires i < dice;
            }
            let v = self.rand_bound(sides);
            sum = sum + v + 1;
            i = i + 1;
        }
        proof {
            lemma_dice_sum_bounds(s0, dice as nat, sides);
        }
        sum
    }
}

} // verus!

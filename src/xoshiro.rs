use vstd::prelude::*;
use vstd::wrapping::u64_specs::{wrapping_add, wrapping_mul};

verus! {

/// The additive constant of SplitMix64 (the golden ratio in 64-bit fixed point).
pub const GOLDEN_GAMMA: u64 = 0x9e3779b97f4a7c15;

/// Rotation to the left of a 64-bit word by `k` bits, `0 < k < 64`.
pub open spec fn rotl(x: u64, k: u64) -> u64 {
    (x << k) | (x >> (64 - k) as u64)
}

/// The state that SplitMix64 holds after one step.
pub open spec fn splitmix_advance(s: u64) -> u64 {
    wrapping_add(s, GOLDEN_GAMMA)
}

/// What SplitMix64 outputs on the step that moves it to state `z`.
pub open spec fn splitmix_mix(z: u64) -> u64 {
    let z1 = wrapping_mul(z ^ (z >> 30u64), 0xbf58476d1ce4e5b9u64);
    let z2 = wrapping_mul(z1 ^ (z1 >> 27u64), 0x94d049bb133111ebu64);
    z2 ^ (z2 >> 31u64)
}

/// The four words of xoshiro256** state that a 64-bit seed expands to:
/// the first four outputs of SplitMix64 started at the seed.
pub open spec fn seeded_state(seed: u64) -> (u64, u64, u64, u64) {
    let s1 = splitmix_advance(seed);
    let s2 = splitmix_advance(s1);
    let s3 = splitmix_advance(s2);
    let s4 = splitmix_advance(s3);
    (splitmix_mix(s1), splitmix_mix(s2), splitmix_mix(s3), splitmix_mix(s4))
}

/// The output of xoshiro256** in state `s`.
pub open spec fn xoshiro_output(s: (u64, u64, u64, u64)) -> u64 {
    wrapping_mul(rotl(wrapping_mul(s.1, 5), 7), 9)
}

/// The state of xoshiro256** after one step from `s`.
pub open spec fn xoshiro_step(s: (u64, u64, u64, u64)) -> (u64, u64, u64, u64) {
    let t = s.1 << 17u64;
    let c = s.2 ^ s.0;
    let d = s.3 ^ s.1;
    let b = s.1 ^ c;
    let a = s.0 ^ d;
    (a, b, c ^ t, rotl(d, 45))
}

/// The SplitMix64 generator, used only to expand a seed into xoshiro256** state.
pub struct SplitMix64(pub u64);

impl SplitMix64 {
    pub fn from_seed(seed: u64) -> (r: SplitMix64)
        ensures
            r.0 == seed,
    {
        SplitMix64(seed)
    }

    /// Advances the state by the golden gamma and returns the mixed new state.
    pub fn next(&mut self) -> (r: u64)
        ensures
            final(self).0 == splitmix_advance(old(self).0),
            r == splitmix_mix(final(self).0),
    {
        let mut z = self.0.wrapping_add(GOLDEN_GAMMA);
        self.0 = z;
        z = (z ^ (z >> 30u64)).wrapping_mul(0xbf58476d1ce4e5b9u64);
        z = (z ^ (z >> 27u64)).wrapping_mul(0x94d049bb133111ebu64);
        z ^ (z >> 31u64)
    }
}

/// The xoshiro256** generator: 256 bits of state, 64 bits per step.
pub struct Xoshiro256(pub u64, pub u64, pub u64, pub u64);

impl View for Xoshiro256 {
    type V = (u64, u64, u64, u64);

    open spec fn view(&self) -> (u64, u64, u64, u64) {
        (self.0, self.1, self.2, self.3)
    }
}

impl Xoshiro256 {
    /// Seeds the generator from the seconds since the Unix epoch, or from a
    /// fixed value where the clock reads before the epoch.
    pub fn new() -> (r: Xoshiro256)
        ensures
            exists|seed: u64| r@ == seeded_state(seed),
    {
        match unix_seconds() {
            Some(secs) => Xoshiro256::from_seed(secs),
            None => Xoshiro256::from_seed(0xCAFEBABE),
        }
    }

    /// Expands a 64-bit seed into full state with SplitMix64.
    pub fn from_seed(seed: u64) -> (r: Xoshiro256)
        ensures
            r@ == seeded_state(seed),
    {
        let mut seeder = SplitMix64::from_seed(seed);
        let a = seeder.next();
        let b = seeder.next();
        let c = seeder.next();
        let d = seeder.next();
        Xoshiro256(a, b, c, d)
    }

    /// Returns the output for the current state and steps the state.
    pub fn next(&mut self) -> (r: u64)
        ensures
            r == xoshiro_output(old(self)@),
            final(self)@ == xoshiro_step(old(self)@),
    {
        let m = self.1.wrapping_mul(5);
        let result = ((m << 7u64) | (m >> 57u64)).wrapping_mul(9);
        let t = self.1 << 17u64;
        self.2 = self.2 ^ self.0;
        self.3 = self.3 ^ self.1;
        self.1 = self.1 ^ self.2;
        self.0 = self.0 ^ self.3;
        self.2 = self.2 ^ t;
        self.3 = (self.3 << 45u64) | (self.3 >> 19u64);
        result
    }
}

/// Relies on std's `SystemTime::elapsed` from `UNIX_EPOCH`: the whole seconds
/// since the epoch, or `None` where the clock reads before it. Nothing is
/// known of the value.
#[verifier::external_body]
fn unix_seconds() -> (r: Option<u64>) {
    match std::time::UNIX_EPOCH.elapsed() {
        Ok(d) => Some(d.as_secs()),
        Err(_) => None,
    }
}

} // verus!

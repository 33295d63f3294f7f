//! Deterministic sample source.
//!
//! Rendering draws all of its randomness from a 64-bit counter-based
//! generator (the splitmix construction): the stream is a pure function of
//! the seed, which is what makes a seeded render reproducible.  Entropy for
//! unseeded runs is the one thing taken from the outside world.

use vstd::prelude::*;

verus! {

pub const SM_GAMMA: u64 = 0x9E3779B97F4A7C15;
pub const SM_MIX_A: u64 = 0xBF58476D1CE4E5B9;
pub const SM_MIX_B: u64 = 0x94D049BB133111EB;

/// Addition modulo 2^64.
pub open spec fn wrap_add(a: u64, b: u64) -> u64 {
    ((a + b) % 0x10000000000000000) as u64
}

/// Multiplication modulo 2^64.
pub open spec fn wrap_mul(a: u64, b: u64) -> u64 {
    ((a * b) % 0x10000000000000000) as u64
}

/// The splitmix finalizer: a bijective bit mix of one word.
#[verifier::opaque]
pub open spec fn sm_mix(z0: u64) -> u64 {
    let z1 = wrap_mul(z0 ^ (z0 >> 30), SM_MIX_A);
    let z2 = wrap_mul(z1 ^ (z1 >> 27), SM_MIX_B);
    z2 ^ (z2 >> 31)
}

/// How the generator state advances on every draw.
pub open spec fn sm_next_state(s: u64) -> u64 {
    wrap_add(s, SM_GAMMA)
}

/// The word produced by a draw from state `s` (after advancing).
pub open spec fn sm_word(s: u64) -> u64 {
    sm_mix(sm_next_state(s))
}

pub fn wrap_add_exec(a: u64, b: u64) -> (r: u64)
    ensures
        r == wrap_add(a, b),
{
    let s: u128 = a as u128 + b as u128;
    (s % 0x10000000000000000u128) as u64
}

fn wrap_mul_exec(a: u64, b: u64) -> (r: u64)
    ensures
        r == wrap_mul(a, b),
{
    assert((a as u128) * (b as u128) <= 0xffffffffffffffffu128 * 0xffffffffffffffffu128)
        by (nonlinear_arith)
        requires
            a <= 0xffffffffffffffffu128,
            b <= 0xffffffffffffffffu128,
    {
    }
    let p: u128 = (a as u128) * (b as u128);
    (p % 0x10000000000000000u128) as u64
}

/// A stream of pseudo-random words, a pure function of its seed.
pub struct Sampler {
    pub state: u64,
}

impl Sampler {
    /// Start a stream at `seed`.
    pub fn new(seed: u64) -> (s: Sampler)
        ensures
            s.state == seed,
    {
        Sampler { state: seed }
    }

    /// Start a stream at a word of machine entropy.
    pub fn from_entropy() -> (s: Sampler) {
        Sampler { state: random_word() }
    }

    /// Draw the next word of the stream.
    pub fn next_u64(&mut self) -> (r: u64)
        ensures
            final(self).state == sm_next_state(old(self).state),
            r == sm_word(old(self).state),
    {
        proof {
            reveal(sm_mix);
        }
        let st: u64 = wrap_add_exec(self.state, SM_GAMMA);
        self.state = st;
        let z1: u64 = wrap_mul_exec(st ^ (st >> 30), SM_MIX_A);
        let z2: u64 = wrap_mul_exec(z1 ^ (z1 >> 27), SM_MIX_B);
        z2 ^ (z2 >> 31)
    }

    /// Draw a fixed-point scalar in `[0, m)`.
    pub fn next_below(&mut self, m: i64) -> (r: i64)
        requires
            m > 0,
        ensures
            final(self).state == sm_next_state(old(self).state),
            r == sm_word(old(self).state) as int % m as int,
            0 <= r < m,
    {
        let w: u64 = self.next_u64();
        (w % (m as u64)) as i64
    }
}

/// The seed used for an unseeded render: `seed` when one is configured, a
/// word of machine entropy otherwise.
pub fn resolve_seed(seed: Option<u64>) -> (r: u64)
    ensures
        (match seed {
            Option::Some(s) => r == s,
            Option::None => true,
        }),
{
    match seed {
        Option::Some(s) => s,
        Option::None => random_word(),
    }
}

/// Relies on `rand::random`: one uniformly distributed word from the
/// thread-local entropy generator.  Nothing is assumed of its value.
#[verifier::external_body]
fn random_word() -> u64 {
    rand::random::<u64>()
}

} // verus!

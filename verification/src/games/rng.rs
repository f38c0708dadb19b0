//! The games' pseudo-random generators: linear congruential steps
//! `s * 1103515245 + 12345`, wrapping.
use vstd::prelude::*;
use crate::cubeboy::next_seed;

verus! {

/// The 32-bit generator's next seed (also the number it draws).
pub fn lcg_next(seed: u32) -> (s: u32)
    ensures
        s == next_seed(seed),
{
    seed.wrapping_mul(1103515245).wrapping_add(12345)
}

/// The 64-bit generator's next state.
#[verifier::opaque]
pub open spec fn next_state(state: u64) -> u64 {
    vstd::wrapping::u64_specs::wrapping_add(vstd::wrapping::u64_specs::wrapping_mul(state, 1103515245), 12345)
}

/// The number drawn with a state: bits 1 to 31 of the next state.
pub open spec fn drawn(state: u64) -> u32 {
    ((next_state(state) / 2) % 0x8000_0000) as u32
}

/// A 64-bit linear congruential generator drawing 31-bit numbers.
pub struct Rng {
    pub state: u64,
}

impl Rng {
    pub fn new(seed: u64) -> (r: Rng)
        ensures
            r.state == seed,
    {
        Rng { state: seed }
    }

    /// Step the state and draw bits 1 to 31 of the new state.
    pub fn next_u32(&mut self) -> (v: u32)
        ensures
            final(self).state == next_state(old(self).state),
            v == drawn(old(self).state),
            v < 0x8000_0000,
    {
        self.state = self.state.wrapping_mul(1103515245).wrapping_add(12345);
        proof {
            reveal(next_state);
        }
        let s = self.state;
        let v = ((s >> 1) & 0x7fff_ffff) as u32;
        assert(((s >> 1) & 0x7fff_ffff) == (s / 2) % 0x8000_0000) by (bit_vector);
        v
    }

    /// A number from `min` up to but not including `max` (just `min` when
    /// they are equal), from one draw. With `max` below `min` the span wraps
    /// around 2^32 and the draw is added to `min` as it is.
    pub fn range(&mut self, min: i32, max: i32) -> (v: i32)
        requires
            i32::MIN <= max - min <= i32::MAX,
            min <= max || min + drawn(old(self).state) <= i32::MAX,
        ensures
            v == range_value(min, max, drawn(old(self).state)),
            final(self).state == (if min == max { old(self).state } else { next_state(old(self).state) }),
    {
        if min == max {
            return min;
        }
        let n = self.next_u32();
        offset_by_draw(min, max, n)
    }
}

/// What `range(min, max)` gives for the draw `n`.
pub open spec fn range_value(min: i32, max: i32, n: u32) -> int {
    if min == max {
        min as int
    } else if min < max {
        min + (n as int) % ((max - min) as int)
    } else {
        min + n
    }
}

/// `min` plus the draw reduced into the span from `min` to `max` (taken
/// modulo 2^32).
fn offset_by_draw(min: i32, max: i32, n: u32) -> (v: i32)
    requires
        min != max,
        i32::MIN <= max - min <= i32::MAX,
        n < 0x8000_0000,
        min <= max || min + n <= i32::MAX,
    ensures
        v == range_value(min, max, n),
{
    let d: i32 = max - min;
    let range = d as u32;
    assert(d >= 0 ==> range as int == d as int) by (bit_vector)
        requires range == d as u32;
    assert(d < 0 ==> range as int == d as int + 0x1_0000_0000) by (bit_vector)
        requires range == d as u32;
    let m = n % range;
    if min > max {
        assert(n < range);
        proof {
            vstd::arithmetic::div_mod::lemma_small_mod(n as nat, range as nat);
        }
        assert(m == n);
    }
    assert((m as i32) as int == m as int) by (bit_vector)
        requires m < 0x8000_0000u32;
    min + (m as i32)
}

} // verus!

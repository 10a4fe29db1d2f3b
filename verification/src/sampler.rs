//! A sampler of pseudo-random numbers, and the source that gives each tile a
//! sampler of its own. What a sampler gives depends on the seed of the
//! rendering and on the tile that it is made for, and on nothing else.

use vstd::prelude::*;
use vstd::arithmetic::power2::{pow2, lemma2_to64, lemma_pow2_adds, lemma_pow2_pos,
    lemma_pow2_strictly_increases};
use crate::arith::{lemma_arithmetic_is_closed, lemma_number_of_value, lemma_round_exact};
use crate::convert::nearest_to;
use crate::float::{Float, FloatValue, units_of};
use crate::rounding::{lemma_round_units_scale, lemma_rounded_representable};
use crate::geometry::{Point2f, Point2i};
use crate::integrator::Sampler;
use crate::render::SamplerSource;

verus! {

/// The multiplier of the generator.
pub const MULTIPLIER: u64 = 6364136223846793005;

/// The increment of the generator.
pub const INCREMENT: u64 = 1442695040888963407;

/// The encoding of 2^-24, the distance between two numbers that the sampler
/// can give.
pub const UNIT_STEP_BITS: u32 = 0x3380_0000;

/// The state that follows `state`: `state * MULTIPLIER + INCREMENT`, cut to
/// 64 bits.
pub open spec fn stepped(state: u64) -> u64 {
    ((state as nat * MULTIPLIER as nat + INCREMENT as nat) % 0x1_0000_0000_0000_0000) as u64
}

/// The number that a state stands for: its upper 24 bits, as a multiple of
/// 2^-24.
pub open spec fn fraction_of(state: u64) -> Float {
    Float::of(nearest_to((state / 0x100_0000_0000) as nat)).product(Float { bits: UNIT_STEP_BITS })
}

/// The state with which the sampler of the tile at `origin` starts: the seed
/// moved on by a number of the pixel's own.
pub open spec fn seeded(seed: u64, origin: Point2i) -> u64 {
    ((seed as nat + pixel_key(origin)) % 0x1_0000_0000_0000_0000) as u64
}

/// A number that no two pixels share: the two coordinates side by side, each
/// counted from the least coordinate there is.
pub open spec fn pixel_key(p: Point2i) -> nat {
    ((p.x + 0x8000_0000) * 0x1_0000_0000 + (p.y + 0x8000_0000)) as nat
}

/// A sampler that draws its numbers from a linear congruential generator. It
/// keeps no arrays: a request for one is ignored, and none is given out.
#[derive(Debug, Clone, Copy)]
pub struct RandomSampler {
    pub state: u64,
}

impl RandomSampler {
    /// Moves the generator on and gives the number of its new state.
    fn draw(&mut self) -> (r: Float)
        ensures
            final(self).state == stepped(old(self).state),
            r == fraction_of(final(self).state),
    {
        assert(self.state as u128 * MULTIPLIER as u128 <= 0xffff_ffff_ffff_ffff
            * 0xffff_ffff_ffff_ffff) by (nonlinear_arith)
            requires
                self.state <= 0xffff_ffff_ffff_ffff,
                MULTIPLIER <= 0xffff_ffff_ffff_ffff,
        ;
        let wide: u128 = self.state as u128 * MULTIPLIER as u128 + INCREMENT as u128;
        self.state = (wide % 0x1_0000_0000_0000_0000) as u64;
        Float::from_u64(self.state / 0x100_0000_0000).mul(Float { bits: UNIT_STEP_BITS })
    }
}

impl Sampler for RandomSampler {
    open spec fn next_1d(&self) -> Float {
        fraction_of(stepped(self.state))
    }

    open spec fn after_1d(&self) -> Self {
        RandomSampler { state: stepped(self.state) }
    }

    open spec fn next_2d(&self) -> Point2f {
        Point2f { x: fraction_of(stepped(self.state)), y: fraction_of(stepped(stepped(self.state))) }
    }

    open spec fn after_2d(&self) -> Self {
        RandomSampler { state: stepped(stepped(self.state)) }
    }

    open spec fn rounded_count(&self, n: i32) -> i32 {
        n
    }

    open spec fn after_request(&self, n: i32) -> Self {
        *self
    }

    open spec fn next_2d_array(&self, n: i32) -> Seq<Point2f> {
        Seq::empty()
    }

    open spec fn after_2d_array(&self, n: i32) -> Self {
        *self
    }

    fn get_1d(&mut self) -> (r: Float) {
        self.draw()
    }

    fn get_2d(&mut self) -> (r: Point2f) {
        let x: Float = self.draw();
        let y: Float = self.draw();
        Point2f { x, y }
    }

    fn round_count(&self, n: i32) -> (r: i32) {
        n
    }

    fn request_2d_array(&mut self, n: i32) {
    }

    fn get_2d_array(&mut self, n: i32) -> (r: Vec<Point2f>) {
        Vec::new()
    }
}

/// The source of the samplers of a rendering with the seed `seed`.
#[derive(Debug, Clone, Copy)]
pub struct SeededSamplers {
    pub seed: u64,
}

impl SamplerSource for SeededSamplers {
    type Stream = RandomSampler;

    open spec fn stream_for(&self, origin: Point2i) -> RandomSampler {
        RandomSampler { state: seeded(self.seed, origin) }
    }

    fn for_tile(&self, origin: Point2i) -> (r: RandomSampler) {
        let column: u128 = (origin.x as i64 + 0x8000_0000) as u128;
        let row: u128 = (origin.y as i64 + 0x8000_0000) as u128;
        let key: u128 = column * 0x1_0000_0000 + row;
        RandomSampler { state: ((self.seed as u128 + key) % 0x1_0000_0000_0000_0000) as u64 }
    }
}

/// Two tiles that start at two pixels start with two states: no tile repeats
/// the numbers of another from the start.
pub proof fn lemma_tiles_start_apart(seed: u64, a: Point2i, b: Point2i)
    requires
        a != b,
    ensures
        seeded(seed, a) != seeded(seed, b),
{
    let ka = pixel_key(a);
    let kb = pixel_key(b);
    assert(ka != kb);
    assert(ka < 0x1_0000_0000_0000_0000 && kb < 0x1_0000_0000_0000_0000);
    // the seed plus a key wraps around once at most
    let m = 0x1_0000_0000_0000_0000int;
    let sa = seed + ka;
    let sb = seed + kb;
    assert(sa % m == if sa >= m {
        sa - m
    } else {
        sa
    }) by {
        if sa >= m {
            vstd::arithmetic::div_mod::lemma_fundamental_div_mod_converse(sa, m, 1, sa - m);
        } else {
            vstd::arithmetic::div_mod::lemma_small_mod(sa as nat, m as nat);
        }
    }
    assert(sb % m == if sb >= m {
        sb - m
    } else {
        sb
    }) by {
        if sb >= m {
            vstd::arithmetic::div_mod::lemma_fundamental_div_mod_converse(sb, m, 1, sb - m);
        } else {
            vstd::arithmetic::div_mod::lemma_small_mod(sb as nat, m as nat);
        }
    }
}

/// The numbers of a sampler lie from zero up to but without one: the number
/// of a state is its upper 24 bits times 2^-24, exactly.
pub proof fn lemma_fraction_in_unit_interval(state: u64)
    ensures
        fraction_of(state)@ == (FloatValue::Finite {
            negative: false,
            units: (state / 0x100_0000_0000) as nat * pow2(125),
        }),
        (state / 0x100_0000_0000) as nat * pow2(125) < pow2(149),
{
    let u = (state / 0x100_0000_0000) as nat;
    assert(u < 0x100_0000);
    lemma2_to64();
    // the whole number u is a number
    lemma_round_exact(u, 149);
    lemma_pow2_adds(24, 149);
    lemma_pow2_strictly_increases(173, 277);
    assert(u * pow2(149) < pow2(277)) by (nonlinear_arith)
        requires
            u < 0x100_0000,
            pow2(173) == 0x100_0000 * pow2(149),
            pow2(173) < pow2(277),
    ;
    lemma_rounded_representable(false, u * pow2(149), 1);
    lemma_number_of_value(nearest_to(u));
    let whole = Float::of(nearest_to(u));
    assert(whole@ == FloatValue::Finite { negative: false, units: u * pow2(149) });
    // the step 2^-24 is 2^125 units
    let step = Float { bits: UNIT_STEP_BITS };
    assert(0x3380_0000u32 % 0x8000_0000 == 0x3380_0000);
    assert(0x3380_0000nat / 0x80_0000 == 103 && 0x3380_0000nat % 0x80_0000 == 0);
    lemma_pow2_adds(23, 102);
    assert(units_of(0x3380_0000) == pow2(125));
    assert(step@ == FloatValue::Finite { negative: false, units: pow2(125) });
    // their product is exact
    reveal(FloatValue::times);
    lemma_arithmetic_is_closed(whole, step);
    lemma_pow2_pos(149);
    let exact = u * pow2(125);
    assert((u * pow2(149)) * pow2(125) == pow2(149) * exact) by (nonlinear_arith)
        requires
            exact == u * pow2(125),
    ;
    assert(pow2(149) * 1 == pow2(149));
    lemma_round_units_scale(pow2(149), exact, 1);
    lemma_round_exact(u, 125);
    lemma_pow2_adds(24, 125);
    assert(exact < pow2(149)) by (nonlinear_arith)
        requires
            exact == u * pow2(125),
            u < 0x100_0000,
            pow2(149) == 0x100_0000 * pow2(125),
            pow2(125) > 0,
    {
        lemma_pow2_pos(125);
    }
    lemma_pow2_strictly_increases(149, 277);
}

} // verus!

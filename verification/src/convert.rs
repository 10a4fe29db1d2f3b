//! Conversions between whole numbers and single-precision numbers.

use vstd::prelude::*;
use vstd::arithmetic::power2::{pow2, lemma2_to64, lemma_pow2_adds, lemma_pow2_pos,
    lemma_pow2_strictly_increases};
use vstd::arithmetic::div_mod::lemma_div_multiples_vanish_quotient;
use crate::float::{Float, FloatValue, lemma_value_fixes_number};
use crate::rounding::{rounded, round_ratio, pow2_u128, raise, lower, lemma_div_bounds};

verus! {

/// The value nearest to the whole number `x`.
pub open spec fn nearest_to(x: nat) -> FloatValue {
    rounded(false, x * pow2(149), 1)
}

/// The whole number that a cast to an unsigned 64-bit integer makes of a
/// value: the whole part of a positive value, the largest integer where that
/// is too large, and 0 for a negative value or a NaN.
pub open spec fn truncation(v: FloatValue) -> nat {
    match v {
        FloatValue::Nan => 0,
        FloatValue::Infinite { negative } => if negative {
            0
        } else {
            0xffff_ffff_ffff_ffff
        },
        FloatValue::Finite { negative, units } => if negative {
            0
        } else if units / pow2(149) > 0xffff_ffff_ffff_ffff {
            0xffff_ffff_ffff_ffff
        } else {
            units / pow2(149)
        },
    }
}

/// The whole part of `m * 2^k` units, for a grid exponent below that of the
/// units of one.
proof fn lemma_whole_part_below(m: nat, k: nat)
    requires
        k < 149,
    ensures
        (m * pow2(k)) / pow2(149) == m / pow2((149 - k) as nat),
{
    lemma_pow2_pos(k);
    lemma_pow2_pos((149 - k) as nat);
    lemma_pow2_adds(k, (149 - k) as nat);
    lemma_div_multiples_vanish_quotient(
        pow2(k) as int,
        m as int,
        pow2((149 - k) as nat) as int,
    );
    assert(pow2(k) * m == m * pow2(k)) by (nonlinear_arith);
}

/// The whole part of `m * 2^k` units, for a grid exponent from that of the
/// units of one on.
proof fn lemma_whole_part_above(m: nat, k: nat)
    requires
        k >= 149,
    ensures
        (m * pow2(k)) / pow2(149) == m * pow2((k - 149) as nat),
{
    lemma_pow2_pos(149);
    lemma_pow2_adds((k - 149) as nat, 149);
    let w = m * pow2((k - 149) as nat);
    assert(m * pow2(k) == w * pow2(149)) by (nonlinear_arith)
        requires
            pow2(k) == pow2((k - 149) as nat) * pow2(149),
            w == m * pow2((k - 149) as nat),
    ;
    assert((w + 1) * pow2(149) > w * pow2(149)) by (nonlinear_arith)
        requires
            pow2(149) > 0,
    ;
    lemma_div_bounds((m * pow2(k)) as int, pow2(149) as int, w as int, w as int + 1);
}

impl Float {
    /// The number nearest to `x`.
    pub fn from_u64(x: u64) -> (r: Float)
        ensures
            r@ == nearest_to(x as nat),
            r == Float::of(nearest_to(x as nat)),
    {
        proof {
            lemma2_to64();
            assert(raise(149) == 149 && lower(149) == 0);
            assert(1 * pow2(0) == 1);
            crate::rounding::lemma_pow2_126();
        }
        let r: Float = round_ratio(false, x as u128, 1, 149);
        proof {
            lemma_value_fixes_number(r);
        }
        r
    }

    /// The number as an unsigned 64-bit integer, as a cast makes it.
    pub fn to_u64(self) -> (r: u64)
        ensures
            r == truncation(self@),
    {
        if self.is_nan() || self.is_sign_negative() {
            return 0;
        }
        if self.is_infinite() {
            return 0xffff_ffff_ffff_ffff;
        }
        let (m, k) = self.parts();
        proof {
            lemma2_to64();
            crate::rounding::lemma_pow2_126();
        }
        if k < 149 {
            proof {
                lemma_whole_part_below(m as nat, k as nat);
            }
            let down: i32 = 149 - k;
            if down >= 24 {
                proof {
                    if down > 24 {
                        lemma_pow2_strictly_increases(24, down as nat);
                    }
                    lemma_div_bounds(m as int, pow2(down as nat) as int, 0, 1);
                }
                0
            } else {
                let p: u128 = pow2_u128(down as u32);
                proof {
                    lemma_pow2_pos(down as nat);
                    vstd::arithmetic::div_mod::lemma_div_is_ordered(m as int, 0x100_0000, p as int);
                    vstd::arithmetic::div_mod::lemma_div_nonincreasing(0x100_0000, p as int);
                }
                (m / p) as u64
            }
        } else {
            proof {
                lemma_whole_part_above(m as nat, k as nat);
            }
            let up: i32 = k - 149;
            if up > 40 {
                proof {
                    if up > 41 {
                        lemma_pow2_strictly_increases(41, up as nat);
                    }
                    lemma_pow2_adds(32, 9);
                    assert(m as nat * pow2(up as nat) > 0xffff_ffff_ffff_ffff) by (nonlinear_arith)
                        requires
                            m >= 0x80_0000,
                            pow2(up as nat) >= 0x200_0000_0000,
                    ;
                }
                0xffff_ffff_ffff_ffff
            } else {
                let p: u128 = pow2_u128(up as u32);
                proof {
                    if up < 40 {
                        lemma_pow2_strictly_increases(up as nat, 40);
                    }
                    lemma_pow2_adds(32, 8);
                    assert(m * p <= 0x100_0000 * 0x100_0000_0000) by (nonlinear_arith)
                        requires
                            m < 0x100_0000,
                            p <= 0x100_0000_0000,
                    ;
                }
                let w: u128 = m * p;
                if w > 0xffff_ffff_ffff_ffff {
                    0xffff_ffff_ffff_ffff
                } else {
                    w as u64
                }
            }
        }
    }
}

} // verus!

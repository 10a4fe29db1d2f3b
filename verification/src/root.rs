//! The square root of a single-precision number: the number nearest to the
//! exact root.

use vstd::prelude::*;
use vstd::arithmetic::power2::{pow2, lemma2_to64, lemma_pow2_adds, lemma_pow2_pos,
    lemma_pow2_strictly_increases, lemma_pow2_unfold};
use vstd::arithmetic::div_mod::{lemma_div_denominator, lemma_fundamental_div_mod,
    lemma_fundamental_div_mod_converse};
use crate::float::{Float, FloatValue, lemma_value_fixes_number};
use crate::rounding::{bit_length, grid_exp, round_ratio, round_units, raise, lower, nearest_even,
    lemma_grid_exp, lemma_div_bounds, lemma_pow2_126};

verus! {

/// Whether `s` is the whole part of the square root of `n`: its square is
/// at most `n`, and the square of its successor is more.
pub open spec fn is_whole_root(n: nat, s: nat) -> bool {
    s * s <= n < (s + 1) * (s + 1)
}

/// The whole part of the square root of `n`.
pub open spec fn whole_root(n: nat) -> nat {
    choose|s: nat| is_whole_root(n, s)
}

/// The representable magnitude, in units, nearest to the square root of
/// `n`, ties going to the even significand: the whole root is brought onto
/// its grid, and the next step up is taken where the root lies beyond the
/// middle between two steps, which is seen on the squares.
pub open spec fn round_root(n: nat) -> nat {
    let e = grid_exp(whole_root(n));
    let step = pow2(e);
    let lo = whole_root(n) / step;
    let middle = (2 * lo + 1) * step;
    if 4 * n > middle * middle || (4 * n == middle * middle && lo % 2 == 1) {
        (lo + 1) * step
    } else {
        lo * step
    }
}

impl FloatValue {
    /// The square root of a value, rounded to nearest. A negative value has
    /// none, but for minus zero, which is its own root.
    pub open spec fn root(self) -> FloatValue {
        match self {
            FloatValue::Nan => FloatValue::Nan,
            FloatValue::Infinite { negative } => if negative {
                FloatValue::Nan
            } else {
                self
            },
            FloatValue::Finite { negative, units } => if units == 0 {
                self
            } else if negative {
                FloatValue::Nan
            } else {
                FloatValue::Finite { negative: false, units: round_root(units * pow2(149)) }
            },
        }
    }
}

impl Float {
    /// The square root of a number.
    pub open spec fn square_root(self) -> Float {
        Float::of(self@.root())
    }
}

/// Squares keep the order of whole numbers.
pub proof fn lemma_squares_ordered(a: nat, b: nat)
    ensures
        a < b ==> a * a < b * b,
        a <= b ==> a * a <= b * b,
        a * a < b * b ==> a < b,
        a * a <= b * b ==> a <= b,
{
    assert(a < b ==> a * a < b * b) by (nonlinear_arith);
    assert(a <= b ==> a * a <= b * b) by (nonlinear_arith);
    assert(b <= a ==> b * b <= a * a) by (nonlinear_arith);
    assert(b < a ==> b * b < a * a) by (nonlinear_arith);
}

/// The whole root of `n` is the one number whose square is at most `n` and
/// whose successor's square is more.
pub proof fn lemma_whole_root(n: nat, s: nat)
    requires
        s * s <= n < (s + 1) * (s + 1),
    ensures
        whole_root(n) == s,
{
    let w = whole_root(n);
    assert(is_whole_root(n, s));
    assert(is_whole_root(n, w));
    lemma_squares_ordered(w, s + 1);
    lemma_squares_ordered(s, w + 1);
}

/// The whole part of the square root of `n`.
pub fn isqrt(n: u128) -> (s: u128)
    requires
        n < 0x4000_0000_0000_0000_0000,
    ensures
        s * s <= n < (s + 1) * (s + 1),
        s < 0x80_0000_0000,
        s == whole_root(n as nat),
{
    // the root lies between `lo` and `hi`
    let mut lo: u128 = 0;
    let mut hi: u128 = 0x80_0000_0000;
    assert(0x80_0000_0000u128 * 0x80_0000_0000u128 == 0x4000_0000_0000_0000_0000) by (nonlinear_arith);
    while hi - lo > 1
        invariant
            lo < hi <= 0x80_0000_0000,
            lo * lo <= n < hi * hi,
        decreases hi - lo,
    {
        let mid: u128 = lo + (hi - lo) / 2;
        assert(mid * mid < 0x80_0000_0000 * 0x80_0000_0000) by (nonlinear_arith)
            requires
                mid < 0x80_0000_0000,
        ;
        if mid * mid <= n {
            lo = mid;
        } else {
            hi = mid;
        }
    }
    proof {
        lemma_whole_root(n as nat, lo as nat);
    }
    lo
}

/// Where the root of `n` lies, given the root `s` of `b` and `n = b * p * p`:
/// between `s * p` and `(s + 1) * p`.
proof fn lemma_scaled_root(b: nat, s: nat, p: nat, n: nat)
    requires
        s * s <= b < (s + 1) * (s + 1),
        p >= 1,
        n == b * p * p,
    ensures
        s * p <= whole_root(n) < (s + 1) * p,
{
    let w = whole_root(n);
    // some whole root exists: the one between the two bounds
    assert((s * p) * (s * p) <= n) by (nonlinear_arith)
        requires
            s * s <= b,
            n == b * p * p,
    ;
    assert(n < ((s + 1) * p) * ((s + 1) * p)) by (nonlinear_arith)
        requires
            b < (s + 1) * (s + 1),
            n == b * p * p,
            p >= 1,
    ;
    lemma_root_exists(n, s * p, (s + 1) * p);
    assert(is_whole_root(n, w));
    lemma_squares_ordered(w + 1, s * p);
    lemma_squares_ordered((s + 1) * p, w);
}

/// Between a number whose square is at most `n` and one whose square is
/// more lies the whole root of `n`.
proof fn lemma_root_exists(n: nat, lo: nat, hi: nat)
    requires
        lo * lo <= n < hi * hi,
    ensures
        exists|s: nat| is_whole_root(n, s),
    decreases hi - lo,
{
    lemma_squares_ordered(lo, hi);
    if (lo + 1) * (lo + 1) > n {
        assert(is_whole_root(n, lo));
    } else {
        lemma_root_exists(n, lo + 1, hi);
    }
}

/// Rounding the root: with `n = b * p * p`, `p = 2^t`, and `s` the whole
/// root of `b`, of `len` bits and no fewer than 27, the number nearest to
/// the root of `n` is found by rounding `s * p` where the root is whole, and
/// `(s + 1/2) * p` where it is not.
proof fn lemma_root_rounding(b: nat, s: nat, t: nat, len: nat, n: nat)
    requires
        s * s <= b < (s + 1) * (s + 1),
        t >= 1,
        n == b * pow2(t) * pow2(t),
        len >= 27,
        pow2((len - 1) as nat) <= s < pow2(len),
    ensures
        s * s == b ==> round_units(s * pow2(t), 1) == round_root(n),
        s * s != b ==> round_units((2 * s + 1) * pow2(t), 2) == round_root(n),
        round_root(n) <= pow2(len + t),
{
    let p = pow2(t);
    lemma_pow2_pos(t);
    lemma_pow2_unfold(t);
    lemma2_to64();
    let w = whole_root(n);
    lemma_scaled_root(b, s, p, n);
    // everything from s*p up to (s+1)*p lies on one grid
    let e = (len + t - 24) as nat;
    let g = pow2((len - 24) as nat);
    lemma_pow2_pos((len - 24) as nat);
    lemma_pow2_adds((len - 24) as nat, t);
    lemma_pow2_adds((len - 1) as nat, t);
    lemma_pow2_adds(len, t);
    lemma_pow2_adds(23, e);
    lemma_pow2_adds(24, e);
    let step = pow2(e);
    assert(step == g * p);
    assert(pow2((len - 1 + t) as nat) <= s * p) by (nonlinear_arith)
        requires
            pow2((len - 1 + t) as nat) == pow2((len - 1) as nat) * p,
            pow2((len - 1) as nat) <= s,
            p >= 1,
    ;
    assert((s + 1) * p <= pow2(len + t)) by (nonlinear_arith)
        requires
            pow2(len + t) == pow2(len) * p,
            s + 1 <= pow2(len),
            p >= 1,
    ;
    assert(0x80_0000 * pow2(e) == pow2((len - 1 + t) as nat));
    assert(0x100_0000 * pow2(e) == pow2(len + t));
    lemma_grid_exp(w, e);
    // the steps below the root
    lemma_pow2_unfold((len - 24) as nat);
    let half_g = pow2((len - 25) as nat);
    lemma_pow2_pos((len - 25) as nat);
    assert(g == 2 * half_g);
    assert(step > 0) by (nonlinear_arith)
        requires
            step == g * p,
            g > 0,
            p > 0,
    ;
    lemma_div_bounds(w as int, p as int, s as int, s as int + 1);
    lemma_div_denominator(w as int, p as int, g as int);
    assert(p * g == g * p) by (nonlinear_arith);
    let lo = s / g;
    assert(w / step == lo);
    lemma_fundamental_div_mod(s as int, g as int);
    let r = s % g;
    assert(s == g * lo + r && 0 <= r < g);
    // the middle between two steps, in terms of b
    let c = (2 * lo + 1) * half_g;
    let middle = (2 * lo + 1) * step;
    assert(middle == 2 * c * p) by (nonlinear_arith)
        requires
            middle == (2 * lo + 1) * step,
            step == g * p,
            g == 2 * half_g,
            c == (2 * lo + 1) * half_g,
    ;
    assert(middle * middle == 4 * (c * c) * (p * p)) by (nonlinear_arith)
        requires
            middle == 2 * c * p,
    ;
    assert(4 * n == 4 * b * (p * p)) by (nonlinear_arith)
        requires
            n == b * p * p,
    ;
    assert(p * p >= 1) by (nonlinear_arith)
        requires
            p >= 1,
    ;
    let pp = p * p;
    assert(4 * n > middle * middle <==> b > c * c) by (nonlinear_arith)
        requires
            4 * n == 4 * b * pp,
            middle * middle == 4 * (c * c) * pp,
            pp >= 1,
    ;
    assert(4 * n == middle * middle <==> b == c * c) by (nonlinear_arith)
        requires
            4 * n == 4 * b * pp,
            middle * middle == 4 * (c * c) * pp,
            pp >= 1,
    ;
    // s against c
    assert(s >= c <==> 2 * r >= g) by (nonlinear_arith)
        requires
            s == g * lo + r,
            c == (2 * lo + 1) * half_g,
            g == 2 * half_g,
    ;
    assert(s == c <==> 2 * r == g) by (nonlinear_arith)
        requires
            s == g * lo + r,
            c == (2 * lo + 1) * half_g,
            g == 2 * half_g,
    ;
    lemma_squares_ordered(s, c);
    lemma_squares_ordered(c, s);
    lemma_squares_ordered(s + 1, c);
    lemma_squares_ordered(c, s + 1);
    let up = 4 * n > middle * middle || (4 * n == middle * middle && lo % 2 == 1);
    assert(round_root(n) == if up {
        (lo + 1) * step
    } else {
        lo * step
    });
    if s * s == b {
        // the root is whole: s * p
        let x = s * p;
        assert(x / 1 == x);
        lemma_grid_exp(x, e);
        assert(1 * pow2(e) == step);
        assert(x == step * lo + r * p) by (nonlinear_arith)
            requires
                x == s * p,
                s == g * lo + r,
                step == g * p,
        ;
        assert(0 <= r * p < step) by (nonlinear_arith)
            requires
                0 <= r < g,
                step == g * p,
                p >= 1,
        ;
        assert(lo * step == step * lo) by (nonlinear_arith);
        lemma_fundamental_div_mod_converse(x as int, step as int, lo as int, (r * p) as int);
        assert(2 * (r * p) < step <==> 2 * r < g) by (nonlinear_arith)
            requires
                step == g * p,
                p >= 1,
        ;
        assert(2 * (r * p) == step <==> 2 * r == g) by (nonlinear_arith)
            requires
                step == g * p,
                p >= 1,
        ;
        assert(up <==> (s > c || (s == c && lo % 2 == 1)));
        assert(nearest_even(x, step) == if up {
            lo + 1
        } else {
            lo
        });
    } else {
        // the root is not whole: (s + 1/2) * p stands for it
        let x = (2 * s + 1) * p;
        let half_p = pow2((t - 1) as nat);
        assert(p == 2 * half_p);
        let q = s * p + half_p;
        assert(x == 2 * q) by (nonlinear_arith)
            requires
                x == (2 * s + 1) * p,
                p == 2 * half_p,
                q == s * p + half_p,
        ;
        assert(x / 2 == q);
        lemma_pow2_pos((t - 1) as nat);
        assert((s + 1) * p == s * p + p) by (nonlinear_arith);
        assert(s * p <= q < (s + 1) * p);
        lemma_grid_exp(q, e);
        let wide = 2 * pow2(e);
        assert(wide == 2 * step);
        let rest = (2 * r + 1) * p;
        assert(x == wide * lo + rest) by (nonlinear_arith)
            requires
                x == (2 * s + 1) * p,
                s == g * lo + r,
                wide == 2 * step,
                step == g * p,
                rest == (2 * r + 1) * p,
        ;
        assert(0 <= rest < wide) by (nonlinear_arith)
            requires
                0 <= r < g,
                wide == 2 * step,
                step == g * p,
                rest == (2 * r + 1) * p,
                p >= 1,
        ;
        assert(lo * wide == wide * lo) by (nonlinear_arith);
        lemma_fundamental_div_mod_converse(x as int, wide as int, lo as int, rest as int);
        assert(2 * rest < wide <==> 2 * r + 1 < g) by (nonlinear_arith)
            requires
                wide == 2 * step,
                step == g * p,
                rest == (2 * r + 1) * p,
                p >= 1,
        ;
        assert(2 * rest != wide) by (nonlinear_arith)
            requires
                wide == 2 * step,
                step == g * p,
                rest == (2 * r + 1) * p,
                g == 2 * half_g,
                p >= 1,
        ;
        // b lies strictly between two squares, so it is not c * c
        assert(b != c * c) by {
            if b == c * c {
                assert(s * s < c * c < (s + 1) * (s + 1));
            }
        }
        assert(up <==> s >= c);
        assert(nearest_even(x, wide) == if up {
            lo + 1
        } else {
            lo
        });
    }
    // the result stays below the top of the grid
    lemma_fundamental_div_mod(w as int, step as int);
    assert(lo * step <= w) by (nonlinear_arith)
        requires
            lo == w / step,
            step > 0,
            w == step * (w / step) + w % step,
            w % step >= 0,
    ;
    lemma_div_bounds(w as int, step as int, 0, 0x100_0000);
    assert((lo + 1) * step <= pow2(len + t)) by (nonlinear_arith)
        requires
            lo + 1 <= 0x100_0000,
            0x100_0000 * step == pow2(len + t),
            step > 0,
    ;
    assert(lo * step <= (lo + 1) * step) by (nonlinear_arith)
        requires
            step > 0,
    ;
}

impl Float {
    /// The square root of the number.
    pub fn sqrt(self) -> (r: Float)
        ensures
            r@ == self@.root(),
            r == self.square_root(),
    {
        let r: Float = self.sqrt_rounded();
        proof {
            lemma_value_fixes_number(r);
        }
        r
    }

    fn sqrt_rounded(self) -> (r: Float)
        ensures
            r@ == self@.root(),
            r@.is_nan() ==> r.bits == 0x7fc0_0000,
    {
        if self.is_nan() {
            return Float { bits: 0x7fc0_0000 };
        }
        if self.is_zero() {
            return self;
        }
        if self.is_sign_negative() {
            return Float { bits: 0x7fc0_0000 };
        }
        if self.is_infinite() {
            return self;
        }
        let (m, k) = self.parts();
        let ghost units = m as nat * pow2(k as nat);
        proof {
            lemma2_to64();
            lemma_pow2_126();
            if m == 0 {
                assert(units == 0) by (nonlinear_arith)
                    requires
                        units == m as nat * pow2(k as nat),
                        m == 0,
                ;
            }
        }
        // an even exponent, so that its half is whole
        let e: i32 = k + 149;
        let (m2, e2) = if e % 2 == 1 {
            (m * 2, e - 1)
        } else {
            (m, e)
        };
        let t: i32 = e2 / 2 - 26;
        let big: u128 = m2 * 0x10_0000_0000_0000;
        let s: u128 = isqrt(big);
        proof {
            lemma_pow2_adds(32, 20);
            assert(pow2(52) == 0x10_0000_0000_0000);
            // the root has 27 bits or more
            assert(s >= 0x400_0000) by {
                if s < 0x400_0000 {
                    assert((s + 1) * (s + 1) <= 0x400_0000 * 0x400_0000) by (nonlinear_arith)
                        requires
                            s + 1 <= 0x400_0000,
                    ;
                }
            }
        }
        let len: u32 = bit_length(s);
        proof {
            if len < 27 {
                lemma_pow2_strictly_increases(len as nat, 27);
                lemma_pow2_adds(26, 1);
            }
            let n = units * pow2(149);
            let p = pow2(t as nat);
            lemma_pow2_adds(k as nat, 149);
            if e % 2 == 1 {
                lemma_pow2_unfold(e as nat);
            }
            assert(m as nat * pow2(e as nat) == m2 as nat * pow2(e2 as nat)) by (nonlinear_arith)
                requires
                    e % 2 == 1 ==> m2 == 2 * m && pow2(e as nat) == 2 * pow2(e2 as nat),
                    e % 2 != 1 ==> m2 == m && e2 == e,
            ;
            lemma_pow2_adds(t as nat, t as nat);
            lemma_pow2_adds(52, (2 * t) as nat);
            assert(52 + 2 * t == e2);
            assert(n == big as nat * p * p) by (nonlinear_arith)
                requires
                    n == units * pow2(149),
                    units == m as nat * pow2(k as nat),
                    pow2(e as nat) == pow2(k as nat) * pow2(149),
                    m as nat * pow2(e as nat) == m2 as nat * pow2(e2 as nat),
                    pow2(e2 as nat) == pow2(52) * pow2((2 * t) as nat),
                    pow2((2 * t) as nat) == p * p,
                    big == m2 * pow2(52),
            ;
            lemma_root_rounding(big as nat, s as nat, t as nat, len as nat, n);
            assert(raise(t as int) == t as nat && lower(t as int) == 0);
            assert(1 * pow2(0) == 1);
            assert(2 * pow2(0) == 2);
            // the root is finite
            lemma_pow2_strictly_increases((len + t) as nat, 277);
        }
        if s * s == big {
            round_ratio(false, s, 1, t)
        } else {
            proof {
                lemma_div_bounds((2 * s + 1) as int, 2, s as int, s as int + 1);
            }
            round_ratio(false, 2 * s + 1, 2, t)
        }
    }
}

} // verus!

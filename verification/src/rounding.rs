//! Rounding to nearest, ties to even: which single-precision number stands
//! for an exact quotient of whole numbers, and the routine that finds it.

use vstd::prelude::*;
use vstd::arithmetic::power2::{pow2, lemma2_to64, lemma_pow2_adds, lemma_pow2_pos,
    lemma_pow2_strictly_increases, lemma_pow2_unfold};
use vstd::arithmetic::div_mod::{lemma_div_multiples_vanish_quotient, lemma_truncate_middle,
    lemma_div_denominator, lemma_breakdown, lemma_fundamental_div_mod,
    lemma_fundamental_div_mod_converse};
use crate::float::{Float, FloatValue, decode, units_of, overflow_units, lemma_units_increase,
    lemma_units_at_infinity};

verus! {

/// The exponent of the grid on which a magnitude of `q` whole units is
/// rounded: below 2^24 units every whole number is representable and the
/// exponent is 0; each doubling from there doubles the spacing.
pub open spec fn grid_exp(q: nat) -> nat
    decreases q,
{
    if q < 0x100_0000 {
        0
    } else {
        1 + grid_exp(q / 2)
    }
}

/// The whole number nearest to `n / step`; of two equally near, the even one.
pub open spec fn nearest_even(n: nat, step: nat) -> nat {
    let lo = n / step;
    let r = n % step;
    if 2 * r < step || (2 * r == step && lo % 2 == 0) {
        lo
    } else {
        lo + 1
    }
}

/// The representable magnitude, in units, nearest to the exact quotient
/// `n / d` of units, ties going to the even significand. A result of
/// `overflow_units()` or more says that the quotient lies beyond the finite
/// numbers.
pub open spec fn round_units(n: nat, d: nat) -> nat {
    let e = grid_exp(n / d);
    nearest_even(n, d * pow2(e)) * pow2(e)
}

/// The value nearest to the exact quotient `n / d` of units, with the given
/// sign: infinite where the quotient rounds beyond the finite numbers.
pub open spec fn rounded(negative: bool, n: nat, d: nat) -> FloatValue {
    let u = round_units(n, d);
    if u >= overflow_units() {
        FloatValue::Infinite { negative }
    } else {
        FloatValue::Finite { negative, units: u }
    }
}

/// Rounding goes to a nearest step: what `n / d` is rounded to lies within
/// half a step of the grid from it.
pub proof fn lemma_rounding_is_nearest(n: nat, d: nat)
    requires
        d > 0,
    ensures
        ({
            let step = d * pow2(grid_exp(n / d));
            let r = round_units(n, d) * d;
            &&& r <= n ==> 2 * (n - r) <= step
            &&& r >= n ==> 2 * (r - n) <= step
        }),
{
    let e = grid_exp(n / d);
    let p = pow2(e);
    let step = d * p;
    lemma_pow2_pos(e);
    assert(step > 0) by (nonlinear_arith)
        requires
            step == d * p,
            d > 0,
            p > 0,
    ;
    lemma_fundamental_div_mod(n as int, step as int);
    let lo = n / step;
    let rem = n % step;
    let m = nearest_even(n, step);
    assert(round_units(n, d) * d == m * step) by (nonlinear_arith)
        requires
            round_units(n, d) == m * p,
            step == d * p,
    ;
    assert((lo + 1) * step == lo * step + step) by (nonlinear_arith);
    assert(lo * step == step * lo) by (nonlinear_arith);
}

/// A magnitude between 2^(23+e) and 2^(24+e) lies on the grid of exponent
/// `e`; one below 2^24 on the grid of exponent 0.
pub proof fn lemma_grid_exp(q: nat, e: nat)
    requires
        e == 0 ==> q < 0x100_0000,
        e > 0 ==> 0x80_0000 * pow2(e) <= q < 0x100_0000 * pow2(e),
    ensures
        grid_exp(q) == e,
    decreases e,
{
    if e > 0 {
        lemma_pow2_unfold(e);
        lemma_pow2_pos((e - 1) as nat);
        let p = pow2((e - 1) as nat) as int;
        assert(0x80_0000 * (2 * p) == 2 * (0x80_0000 * p)) by (nonlinear_arith);
        assert(0x100_0000 * (2 * p) == 2 * (0x100_0000 * p)) by (nonlinear_arith);
        assert(0x80_0000 * p >= 0x80_0000) by (nonlinear_arith)
            requires
                p >= 1,
        ;
        assert(q >= 0x100_0000);
        if e == 1 {
            lemma2_to64();
            assert(p == 1);
            assert(q / 2 < 0x100_0000);
        }
        lemma_grid_exp(q / 2, (e - 1) as nat);
    }
}

/// Rounding sees the quotient only: a common factor of `n` and `d` changes
/// nothing.
pub proof fn lemma_round_units_scale(c: nat, n: nat, d: nat)
    requires
        c > 0,
        d > 0,
    ensures
        round_units(c * n, c * d) == round_units(n, d),
{
    lemma_div_multiples_vanish_quotient(c as int, n as int, d as int);
    let e = grid_exp(n / d);
    lemma_pow2_pos(e);
    let step = d * pow2(e);
    assert(step > 0) by (nonlinear_arith)
        requires
            step == d * pow2(e),
            d > 0,
            pow2(e) > 0,
    ;
    assert((c * d) * pow2(e) == c * step) by (nonlinear_arith)
        requires
            step == d * pow2(e),
    ;
    lemma_div_multiples_vanish_quotient(c as int, n as int, step as int);
    lemma_truncate_middle(n as int, c as int, step as int);
    let r = n % step;
    assert((c * n) % (c * step) == c * r);
    assert(2 * (c * r) < c * step <==> 2 * r < step) by (nonlinear_arith)
        requires
            c > 0,
    ;
    assert(2 * (c * r) == c * step <==> 2 * r == step) by (nonlinear_arith)
        requires
            c > 0,
    ;
    assert(nearest_even(c * n, c * step) == nearest_even(n, step));
}

/// Two quotients that are the same fraction round alike.
pub proof fn lemma_round_units_same_fraction(n1: nat, d1: nat, n2: nat, d2: nat)
    requires
        d1 > 0,
        d2 > 0,
        n1 * d2 == n2 * d1,
    ensures
        round_units(n1, d1) == round_units(n2, d2),
{
    lemma_round_units_scale(d2, n1, d1);
    lemma_round_units_scale(d1, n2, d2);
    assert(d2 * n1 == d1 * n2) by (nonlinear_arith)
        requires
            n1 * d2 == n2 * d1,
    ;
    assert(d2 * d1 == d1 * d2) by (nonlinear_arith);
}

/// A significand `m` on the grid of exponent `e` has the encoding
/// `e * 2^23 + m`: this holds below 2^23 (where `e` is 0 and the number is
/// subnormal), from 2^23 on, and at 2^24, where the sum carries into the
/// exponent field by itself.
pub proof fn lemma_encoding(e: nat, m: nat)
    requires
        e <= 253,
        m <= 0x100_0000,
        m < 0x80_0000 ==> e == 0,
    ensures
        e * 0x80_0000 + m <= 0x7f80_0000,
        units_of(e * 0x80_0000 + m) == m * pow2(e),
        e * 0x80_0000 + m == 0x7f80_0000 <==> m * pow2(e) >= overflow_units(),
{
    let b = e * 0x80_0000 + m;
    lemma2_to64();
    if m < 0x80_0000 {
        assert(b == m);
        assert(m * pow2(0) == m);
    } else if m < 0x100_0000 {
        let f = (m - 0x80_0000) as nat;
        assert(b == (e + 1) * 0x80_0000 + f);
        assert(b / 0x80_0000 == e + 1 && b % 0x80_0000 == f) by {
            lemma_fundamental_div_mod_converse(b as int, 0x80_0000, (e + 1) as int, f as int);
        }
    } else {
        assert(b == (e + 2) * 0x80_0000);
        assert(b / 0x80_0000 == e + 2 && b % 0x80_0000 == 0) by {
            lemma_fundamental_div_mod_converse(b as int, 0x80_0000, (e + 2) as int, 0);
        }
        lemma_pow2_unfold(e + 1);
        assert(0x80_0000 * (2 * pow2(e)) == 0x100_0000 * pow2(e)) by (nonlinear_arith);
    }
    assert(units_of(b) == m * pow2(e));
    lemma_units_at_infinity();
    if b < 0x7f80_0000 {
        lemma_units_increase(b, 0x7f80_0000);
    }
}

/// The left shift that a scale of `shift` binary places asks for.
pub open spec fn raise(shift: int) -> nat {
    if shift > 0 {
        shift as nat
    } else {
        0
    }
}

/// The right shift that a scale of `shift` binary places asks for.
pub open spec fn lower(shift: int) -> nat {
    if shift < 0 {
        (-shift) as nat
    } else {
        0
    }
}

/// A quotient lies between two bounds when the dividend lies between their
/// multiples.
pub proof fn lemma_div_bounds(x: int, d: int, lo: int, hi: int)
    requires
        d > 0,
        lo * d <= x < hi * d,
    ensures
        lo <= x / d < hi,
{
    lemma_fundamental_div_mod(x, d);
    let q = x / d;
    let r = x % d;
    assert(0 <= r < d);
    assert(lo <= q) by (nonlinear_arith)
        requires
            x == d * q + r,
            0 <= r < d,
            lo * d <= x,
    ;
    assert(q < hi) by (nonlinear_arith)
        requires
            x == d * q + r,
            0 <= r < d,
            x < hi * d,
    ;
}

/// Dropping `s` low bits of a number of `len` bits leaves one of `len - s`
/// bits, or nothing.
pub proof fn lemma_div_pow2_bounds(q: nat, len: nat, s: nat)
    requires
        len >= 1,
        pow2((len - 1) as nat) <= q < pow2(len),
    ensures
        s < len ==> pow2((len - 1 - s) as nat) <= q / pow2(s) < pow2((len - s) as nat),
        s >= len ==> q / pow2(s) == 0,
{
    lemma_pow2_pos(s);
    if s < len {
        lemma_pow2_adds((len - 1 - s) as nat, s);
        lemma_pow2_adds((len - s) as nat, s);
        lemma_div_bounds(
            q as int,
            pow2(s) as int,
            pow2((len - 1 - s) as nat) as int,
            pow2((len - s) as nat) as int,
        );
    } else {
        if s > len {
            lemma_pow2_strictly_increases(len, s);
        }
        lemma_div_bounds(q as int, pow2(s) as int, 0, 1);
    }
}

/// The grid on which `(num / den) * 2^shift` units are rounded, read off the
/// bit length of the whole quotient `num / den`.
pub proof fn lemma_quotient_grid(num: nat, den: nat, shift: int, len: nat)
    requires
        den > 0,
        len >= 1,
        pow2((len - 1) as nat) <= num / den < pow2(len),
    ensures
        ({
            let n = num * pow2(raise(shift));
            let d = den * pow2(lower(shift));
            let e = if len + shift > 24 {
                (len + shift - 24) as nat
            } else {
                0nat
            };
            &&& d > 0
            &&& grid_exp(n / d) == e
            &&& e > 0 ==> 0x80_0000 * pow2(e) <= n / d
        }),
{
    let quo = num / den;
    let rem = num % den;
    lemma_fundamental_div_mod(num as int, den as int);
    let n = num * pow2(raise(shift));
    let d = den * pow2(lower(shift));
    let top = len + shift;
    let e = if top > 24 {
        (top - 24) as nat
    } else {
        0nat
    };
    lemma2_to64();
    lemma_pow2_pos(raise(shift));
    lemma_pow2_pos(lower(shift));
    assert(d > 0) by (nonlinear_arith)
        requires
            d == den * pow2(lower(shift)),
            den > 0,
            pow2(lower(shift)) > 0,
    ;
    let v = n / d;
    // the bounds of v
    if shift >= 0 {
        let p = pow2(shift as nat);
        assert(pow2(lower(shift)) == 1);
        assert(d == den) by (nonlinear_arith)
            requires
                d == den * 1,
        ;
        assert((quo * p) * den <= n < (quo * p + p) * den) by (nonlinear_arith)
            requires
                n == num * p,
                num == den * quo + rem,
                0 <= rem < den,
                p > 0,
        ;
        lemma_div_bounds(n as int, den as int, (quo * p) as int, (quo * p + p) as int);
        lemma_pow2_adds((len - 1) as nat, shift as nat);
        lemma_pow2_adds(len, shift as nat);
        assert(pow2((len - 1 + shift) as nat) <= v) by (nonlinear_arith)
            requires
                quo * p <= v,
                pow2((len - 1) as nat) <= quo,
                pow2((len - 1 + shift) as nat) == pow2((len - 1) as nat) * p,
                p > 0,
        ;
        assert(v < pow2((len + shift) as nat)) by (nonlinear_arith)
            requires
                v < quo * p + p,
                quo + 1 <= pow2(len),
                pow2((len + shift) as nat) == pow2(len) * p,
                p > 0,
        ;
    } else {
        let k = (-shift) as nat;
        assert(pow2(raise(shift)) == 1);
        assert(n == num) by (nonlinear_arith)
            requires
                n == num * 1,
        ;
        lemma_div_denominator(num as int, den as int, pow2(k) as int);
        assert(v == quo / pow2(k));
        lemma_div_pow2_bounds(quo, len, k);
    }
    // from the bounds to the grid
    if top > 24 {
        assert(pow2((top - 1) as nat) <= v < pow2(top as nat));
        lemma_pow2_adds(23, e);
        lemma_pow2_adds(24, e);
        lemma_grid_exp(v, e);
    } else {
        if top >= 1 {
            assert(v < pow2(top as nat));
            if top < 24 {
                lemma_pow2_strictly_increases(top as nat, 24);
            }
        } else {
            assert(v == 0);
        }
        lemma_grid_exp(v, 0);
    }
}

/// Rounding to nearest sees the quotient only.
pub proof fn lemma_nearest_even_scale(c: nat, n: nat, step: nat)
    requires
        c > 0,
        step > 0,
    ensures
        nearest_even(c * n, c * step) == nearest_even(n, step),
{
    lemma_div_multiples_vanish_quotient(c as int, n as int, step as int);
    lemma_truncate_middle(n as int, c as int, step as int);
    let r = n % step;
    assert((c * n) % (c * step) == c * r);
    assert(2 * (c * r) < c * step <==> 2 * r < step) by (nonlinear_arith)
        requires
            c > 0,
    ;
    assert(2 * (c * r) == c * step <==> 2 * r == step) by (nonlinear_arith)
        requires
            c > 0,
    ;
}

/// What rounding `num / den` to a multiple of `2^s` comes to, in terms of the
/// whole quotient `quo`, whether the division left a remainder, and the `s`
/// low bits of the quotient.
pub open spec fn round_shifted(quo: nat, inexact: bool, s: nat) -> nat {
    let lo = quo / pow2(s);
    let low_bits = quo % pow2(s);
    let half = pow2((s - 1) as nat);
    if low_bits > half || (low_bits == half && (inexact || lo % 2 == 1)) {
        lo + 1
    } else {
        lo
    }
}

/// Rounding a quotient at `s >= 1` binary places above the units of its whole
/// part needs only that whole part and whether anything is left over.
pub proof fn lemma_nearest_even_shifted(num: nat, den: nat, s: nat)
    requires
        den > 0,
        s >= 1,
    ensures
        nearest_even(num, den * pow2(s)) == round_shifted(num / den, num % den != 0, s),
{
    let p = pow2(s);
    let half = pow2((s - 1) as nat);
    lemma_pow2_pos(s);
    lemma_pow2_unfold(s);
    let quo = num / den;
    let rem = num % den;
    lemma_fundamental_div_mod(num as int, den as int);
    lemma_div_denominator(num as int, den as int, p as int);
    lemma_breakdown(num as int, den as int, p as int);
    let lo = quo / p;
    let low_bits = quo % p;
    let step = den * p;
    assert(num / step == lo);
    assert(num % step == den * low_bits + rem);
    assert(0 <= rem < den);
    let r = den * low_bits + rem;
    assert(2 * r < step <==> low_bits < half) by (nonlinear_arith)
        requires
            r == den * low_bits + rem,
            step == den * p,
            p == 2 * half,
            0 <= rem < den,
    ;
    assert(2 * r == step <==> (low_bits == half && rem == 0)) by (nonlinear_arith)
        requires
            r == den * low_bits + rem,
            step == den * p,
            p == 2 * half,
            0 <= rem < den,
    ;
}

/// The significand that is left of a whole quotient `quo` when it is brought
/// onto a grid `s` binary places above its own units (below, where `s` is
/// negative).
pub open spec fn significand(quo: nat, inexact: bool, s: int) -> nat {
    if s <= 0 {
        quo * pow2((-s) as nat)
    } else {
        round_shifted(quo, inexact, s as nat)
    }
}

/// The grid exponent for a whole quotient of `len` bits, scaled by `shift`
/// binary places.
pub open spec fn grid_of(len: nat, shift: int) -> nat {
    if len + shift > 24 {
        (len + shift - 24) as nat
    } else {
        0
    }
}

/// Rounding `(num / den) * 2^shift` units comes to a significand on a grid,
/// both computed from the whole quotient, its bit length and whether the
/// division was exact. An inexact quotient must have 27 bits or more, so that
/// what is left over lies below the rounding position.
pub proof fn lemma_round_ratio(num: nat, den: nat, shift: int, len: nat)
    requires
        den > 0,
        len >= 1,
        pow2((len - 1) as nat) <= num / den < pow2(len),
        num % den != 0 ==> len >= 27,
    ensures
        ({
            let e = grid_of(len, shift);
            let m = significand(num / den, num % den != 0, e - shift);
            &&& den * pow2(lower(shift)) > 0
            &&& round_units(num * pow2(raise(shift)), den * pow2(lower(shift))) == m * pow2(e)
            &&& m <= 0x100_0000
            &&& e > 0 ==> m >= 0x80_0000
        }),
{
    let quo = num / den;
    let rem = num % den;
    let inexact = rem != 0;
    let n = num * pow2(raise(shift));
    let d = den * pow2(lower(shift));
    let e = grid_of(len, shift);
    let s = e - shift;
    let m = significand(quo, inexact, s);
    lemma_quotient_grid(num, den, shift, len);
    lemma_fundamental_div_mod(num as int, den as int);
    lemma2_to64();
    let step = d * pow2(e);
    lemma_pow2_pos(e);
    lemma_pow2_pos(raise(shift));
    lemma_pow2_pos(lower(shift));
    if s >= 1 {
        let c = pow2(raise(shift));
        let inner = den * pow2(s as nat);
        lemma_pow2_pos(s as nat);
        assert(inner > 0) by (nonlinear_arith)
            requires
                inner == den * pow2(s as nat),
                den > 0,
                pow2(s as nat) > 0,
        ;
        if shift >= 0 {
            lemma_pow2_adds(s as nat, shift as nat);
            assert(pow2(lower(shift)) == 1);
            assert(step == c * inner) by (nonlinear_arith)
                requires
                    step == (den * 1) * pow2(e),
                    pow2(e) == pow2(s as nat) * c,
                    inner == den * pow2(s as nat),
            ;
        } else {
            lemma_pow2_adds((-shift) as nat, e);
            assert(c == 1);
            assert(step == c * inner) by (nonlinear_arith)
                requires
                    step == (den * pow2((-shift) as nat)) * pow2(e),
                    pow2(s as nat) == pow2((-shift) as nat) * pow2(e),
                    inner == den * pow2(s as nat),
                    c == 1,
            ;
        }
        assert(n == c * num) by (nonlinear_arith)
            requires
                n == num * c,
        ;
        lemma_nearest_even_scale(c, num, inner);
        lemma_nearest_even_shifted(num, den, s as nat);
        assert(nearest_even(n, step) == m);
        // the bounds of the significand
        lemma_div_pow2_bounds(quo, len, s as nat);
        if s < len {
            if e == 0 {
                if len - s < 24 {
                    lemma_pow2_strictly_increases((len - s) as nat, 24);
                }
            }
        }
    } else {
        // an exact multiple of the step
        let k = (-s) as nat;
        assert(rem == 0);
        assert(shift >= 0);
        lemma_pow2_adds(k, e);
        assert(pow2(lower(shift)) == 1);
        lemma_pow2_pos(k);
        assert(step > 0) by (nonlinear_arith)
            requires
                step == (den * 1) * pow2(e),
                den > 0,
                pow2(e) > 0,
        ;
        assert(n == (quo * pow2(k)) * step + 0) by (nonlinear_arith)
            requires
                n == num * pow2(shift as nat),
                num == den * quo + 0,
                pow2(shift as nat) == pow2(k) * pow2(e),
                step == (den * 1) * pow2(e),
        ;
        lemma_fundamental_div_mod_converse(n as int, step as int, (quo * pow2(k)) as int, 0);
        assert(nearest_even(n, step) == m);
        // the bounds of the significand
        lemma_pow2_adds((len - 1) as nat, k);
        lemma_pow2_adds(len, k);
        assert(pow2((len - 1 + k) as nat) <= m < pow2(len + k)) by (nonlinear_arith)
            requires
                m == quo * pow2(k),
                pow2((len - 1) as nat) <= quo < pow2(len),
                pow2((len - 1 + k) as nat) == pow2((len - 1) as nat) * pow2(k),
                pow2(len + k) == pow2(len) * pow2(k),
                pow2(k) > 0,
        ;
        if len + k < 24 {
            lemma_pow2_strictly_increases(len + k, 24);
        }
    }
}

/// Two to the power `s`.
pub(crate) fn pow2_u128(s: u32) -> (p: u128)
    requires
        s <= 126,
    ensures
        p == pow2(s as nat),
        p <= 0x4000_0000_0000_0000_0000_0000_0000_0000,
{
    let mut p: u128 = 1;
    let mut i: u32 = 0;
    proof {
        lemma2_to64();
        lemma_pow2_126();
    }
    while i < s
        invariant
            i <= s <= 126,
            p == pow2(i as nat),
            pow2(126) == 0x4000_0000_0000_0000_0000_0000_0000_0000,
        decreases s - i,
    {
        proof {
            lemma_pow2_unfold((i + 1) as nat);
            if i + 1 < 126 {
                lemma_pow2_strictly_increases((i + 1) as nat, 126);
            }
        }
        p = p * 2;
        i = i + 1;
    }
    proof {
        if s < 126 {
            lemma_pow2_strictly_increases(s as nat, 126);
        }
    }
    p
}

/// The value of 2^126, which bounds every power that is computed here.
pub proof fn lemma_pow2_126()
    ensures
        pow2(126) == 0x4000_0000_0000_0000_0000_0000_0000_0000,
        pow2(100) == 0x10_0000_0000_0000_0000_0000_0000,
{
    lemma2_to64();
    lemma_pow2_adds(64, 32);
    lemma_pow2_adds(96, 30);
    lemma_pow2_adds(96, 4);
}

/// The number of bits of `q`.
pub(crate) fn bit_length(q: u128) -> (len: u32)
    requires
        0 < q < 0x10_0000_0000_0000_0000_0000_0000,
    ensures
        1 <= len <= 100,
        pow2((len - 1) as nat) <= q < pow2(len as nat),
{
    let mut len: u32 = 0;
    let mut p: u128 = 1;
    proof {
        lemma2_to64();
        lemma_pow2_126();
    }
    while p <= q
        invariant
            len <= 100,
            p >= 1,
            p == pow2(len as nat),
            len > 0 ==> pow2((len - 1) as nat) <= q,
            q < 0x10_0000_0000_0000_0000_0000_0000,
            pow2(100) == 0x10_0000_0000_0000_0000_0000_0000,
        decreases 100 - len,
    {
        proof {
            lemma_pow2_unfold((len + 1) as nat);
            if len >= 100 {
                assert(false);
            }
            if len + 1 < 100 {
                lemma_pow2_strictly_increases((len + 1) as nat, 100);
            }
        }
        p = p * 2;
        len = len + 1;
    }
    len
}

/// A quotient of nothing rounds to nothing.
pub proof fn lemma_round_zero(d: nat)
    requires
        d > 0,
    ensures
        round_units(0, d) == 0,
{
    lemma2_to64();
    lemma_div_bounds(0, d as int, 0, 1);
    assert(grid_exp(0) == 0);
    assert(d * pow2(0) == d) by (nonlinear_arith)
        requires
            pow2(0) == 1,
    ;
    lemma_fundamental_div_mod_converse(0, d as int, 0, 0);
}

/// A normal significand on a grid of exponent 254 or more lies beyond the
/// finite numbers.
pub proof fn lemma_grid_overflows(m: nat, e: nat)
    requires
        m >= 0x80_0000,
        e >= 254,
    ensures
        m * pow2(e) >= overflow_units(),
{
    lemma_pow2_adds(23, 254);
    lemma2_to64();
    if e > 254 {
        lemma_pow2_strictly_increases(254, e);
    }
    assert(m * pow2(e) >= overflow_units()) by (nonlinear_arith)
        requires
            m >= 0x80_0000,
            pow2(e) >= pow2(254),
            overflow_units() == 0x80_0000 * pow2(254),
    ;
}

/// Brought onto a grid that lies two places or more above its top bit, a
/// quotient leaves nothing.
pub proof fn lemma_significand_vanishes(quo: nat, inexact: bool, len: nat, s: nat)
    requires
        len >= 1,
        pow2((len - 1) as nat) <= quo < pow2(len),
        s >= len + 2,
    ensures
        significand(quo, inexact, s as int) == 0,
{
    lemma_div_pow2_bounds(quo, len, s);
    lemma_pow2_strictly_increases(len, (s - 1) as nat);
    lemma_pow2_pos(s);
    lemma_pow2_unfold(s);
    vstd::arithmetic::div_mod::lemma_small_mod(quo, pow2(s));
}

/// The scale by which an exact quotient is brought down onto a finer grid is
/// at most 2^24, since the significand it gives is.
pub proof fn lemma_exact_scale(quo: nat, k: nat)
    requires
        quo >= 1,
        quo * pow2(k) <= 0x100_0000,
    ensures
        k <= 24,
        quo * pow2(k) == significand(quo, false, -(k as int)),
        quo * pow2(k) == significand(quo, true, -(k as int)),
{
    lemma2_to64();
    lemma_pow2_pos(k);
    assert(pow2(k) <= 0x100_0000) by (nonlinear_arith)
        requires
            quo * pow2(k) <= 0x100_0000,
            quo >= 1,
            pow2(k) > 0,
    ;
    if k > 24 {
        lemma_pow2_strictly_increases(24, k);
    }
}

/// The sign bit laid over a magnitude field.
pub(crate) fn with_sign(negative: bool, field: u32) -> (r: Float)
    requires
        field <= 0x7f80_0000,
    ensures
        r.bits % 0x8000_0000 == field,
        (r.bits >= 0x8000_0000) == negative,
        field == 0x7f80_0000 ==> r@ == (FloatValue::Infinite { negative }),
        field < 0x7f80_0000 ==> r@ == (FloatValue::Finite { negative, units: units_of(field as nat) }),
{
    if negative {
        Float { bits: 0x8000_0000 + field }
    } else {
        Float { bits: field }
    }
}

/// The number nearest to `(num / den) * 2^shift` units, with the given sign.
///
/// An inexact quotient must be of 2^26 or more, so that the remainder lies
/// below the place at which the result is rounded.
pub(crate) fn round_ratio(negative: bool, num: u128, den: u128, shift: i32) -> (r: Float)
    requires
        den > 0,
        num < 0x10_0000_0000_0000_0000_0000_0000,
        -1000 <= shift <= 1000,
        num % den != 0 ==> num / den >= 0x400_0000,
    ensures
        r@ == rounded(
            negative,
            num as nat * pow2(raise(shift as int)),
            den as nat * pow2(lower(shift as int)),
        ),
{
    let quo: u128 = num / den;
    let rem: u128 = num % den;
    let ghost n = num as nat * pow2(raise(shift as int));
    let ghost d = den as nat * pow2(lower(shift as int));
    if quo == 0 {
        proof {
            lemma_fundamental_div_mod(num as int, den as int);
            assert(num == 0) by (nonlinear_arith)
                requires
                    num == den * quo + rem,
                    quo == 0,
                    rem == 0,
            ;
            assert(n == 0) by (nonlinear_arith)
                requires
                    n == num as nat * pow2(raise(shift as int)),
                    num == 0,
            ;
            lemma_pow2_pos(lower(shift as int));
            assert(d > 0) by (nonlinear_arith)
                requires
                    d == den as nat * pow2(lower(shift as int)),
                    den > 0,
                    pow2(lower(shift as int)) > 0,
            ;
            lemma_round_zero(d);
            lemma_units_at_infinity();
            lemma_units_increase(0, 0x7f80_0000);
        }
        return with_sign(negative, 0);
    }
    let len: u32 = bit_length(quo);
    let top: i32 = len as i32 + shift;
    let e: i32 = if top > 24 {
        top - 24
    } else {
        0
    };
    let s: i32 = e - shift;
    let ghost want = significand(quo as nat, rem != 0, s as int);
    proof {
        if rem != 0 && len < 27 {
            lemma2_to64();
            lemma_pow2_strictly_increases(len as nat, 27);
            lemma_pow2_adds(26, 1);
        }
        lemma_round_ratio(num as nat, den as nat, shift as int, len as nat);
        assert(e == grid_of(len as nat, shift as int));
        assert(round_units(n, d) == want * pow2(e as nat));
    }
    if e >= 254 {
        proof {
            lemma_grid_overflows(want, e as nat);
        }
        return with_sign(negative, 0x7f80_0000);
    }
    let m: u128;
    if s <= 0 {
        proof {
            lemma_exact_scale(quo as nat, (-s) as nat);
        }
        let scale: u128 = pow2_u128((-s) as u32);
        assert(quo * scale <= 0x100_0000);
        m = quo * scale;
    } else if s >= 102 {
        proof {
            lemma_significand_vanishes(quo as nat, rem != 0, len as nat, s as nat);
        }
        m = 0;
    } else {
        let p: u128 = pow2_u128(s as u32);
        proof {
            lemma_pow2_unfold(s as nat);
            lemma_pow2_pos((s - 1) as nat);
        }
        let lo: u128 = quo / p;
        let low_bits: u128 = quo % p;
        let half: u128 = p / 2;
        if low_bits > half || (low_bits == half && (rem != 0 || lo % 2 == 1)) {
            m = lo + 1;
        } else {
            m = lo;
        }
    }
    assert(m == want);
    proof {
        lemma_encoding(e as nat, m as nat);
    }
    let field: u32 = (e as u32) * 0x80_0000 + (m as u32);
    with_sign(negative, field)
}

/// The grid of a magnitude is the one on which it has a significand of 24
/// bits: at most 24 on the grid of exponent 0, exactly 24 above.
pub proof fn lemma_grid_exp_bounds(q: nat)
    ensures
        grid_exp(q) == 0 ==> q < 0x100_0000,
        grid_exp(q) > 0 ==> 0x80_0000 * pow2(grid_exp(q)) <= q < 0x100_0000 * pow2(grid_exp(q)),
    decreases q,
{
    lemma2_to64();
    if q >= 0x100_0000 {
        let h = q / 2;
        let e = grid_exp(h);
        lemma_grid_exp_bounds(h);
        lemma_pow2_unfold(e + 1);
        assert(grid_exp(q) == e + 1);
        if e == 0 {
            assert(pow2(1) == 2);
        } else {
            let p = pow2(e);
            assert(0x80_0000 * (2 * p) <= q < 0x100_0000 * (2 * p)) by (nonlinear_arith)
                requires
                    0x80_0000 * p <= h < 0x100_0000 * p,
                    2 * h <= q < 2 * h + 2,
            ;
        }
    }
}

/// Whatever a quotient is rounded to is a number: some encoding stands for
/// it.
pub proof fn lemma_rounded_representable(negative: bool, n: nat, d: nat)
    requires
        d > 0,
    ensures
        exists|bits: u32| decode(bits) == rounded(negative, n, d),
{
    let q = n / d;
    let e = grid_exp(q);
    let p = pow2(e);
    let step = d * p;
    lemma_pow2_pos(e);
    lemma2_to64();
    lemma_grid_exp_bounds(q);
    assert(step > 0) by (nonlinear_arith)
        requires
            step == d * p,
            d > 0,
            p > 0,
    ;
    lemma_div_denominator(n as int, d as int, p as int);
    let lo = n / step;
    assert(lo == q / p);
    if e == 0 {
        assert(p == 1);
        assert(q / 1 == q);
        assert(lo == q);
    } else {
        lemma_div_bounds(q as int, p as int, 0x80_0000, 0x100_0000);
    }
    let m = nearest_even(n, step);
    assert(lo <= m <= lo + 1);
    if e <= 253 {
        lemma_encoding(e, m);
        let field = (e * 0x80_0000 + m) as u32;
        let bits = if negative {
            (0x8000_0000 + field) as u32
        } else {
            field
        };
        assert(bits % 0x8000_0000 == field);
        assert(decode(bits) == rounded(negative, n, d));
    } else {
        lemma_grid_overflows(m, e);
        let bits = if negative {
            0xff80_0000u32
        } else {
            0x7f80_0000u32
        };
        assert(decode(bits) == rounded(negative, n, d));
    }
}

} // verus!

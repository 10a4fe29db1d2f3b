//! Small numeric helpers shared by the rest of the library.

use vstd::prelude::*;
use crate::float::{Float, FloatValue, decode};

verus! {

/// The encoding of 1.
pub const ONE_BITS: u32 = 0x3f80_0000;

/// The encoding of 2.
pub const TWO_BITS: u32 = 0x4000_0000;

/// `val` held between `low` and `high`: `low` where `val` lies below it,
/// `high` where `val` lies above it. A NaN compares as neither and is kept.
pub open spec fn clamped(val: FloatValue, low: FloatValue, high: FloatValue) -> FloatValue {
    if val.lt(low) {
        low
    } else if high.lt(val) {
        high
    } else {
        val
    }
}

/// `(1 - t) * v1 + t * v2`, each operation rounded.
pub open spec fn lerp_value(t: FloatValue, v1: FloatValue, v2: FloatValue) -> FloatValue {
    decode(ONE_BITS).minus(t).times(v1).plus(t.times(v2))
}

/// The last index up to `hi` at which `keys` holds a value that is at most
/// `x`, or 0 where there is none.
pub open spec fn last_at_most(keys: Seq<Float>, x: FloatValue, hi: int) -> int
    decreases hi,
{
    if hi <= 0 {
        0
    } else if keys[hi]@.le(x) {
        hi
    } else {
        last_at_most(keys, x, hi - 1)
    }
}

/// `keys[i] < keys[i + 1]` for every `i` below `n - 1`.
pub open spec fn strictly_increasing(keys: Seq<Float>, n: int) -> bool {
    forall|i: int| 0 <= i < n - 1 ==> (#[trigger] keys[i]@).lt(keys[i + 1]@)
}

pub fn clamp_t(val: Float, low: Float, high: Float) -> (r: Float)
    ensures
        r@ == clamped(val@, low@, high@),
        r == val || r == low || r == high,
{
    if val.lt(low) {
        low
    } else if val.gt(high) {
        high
    } else {
        val
    }
}

/// Interpolates linearly between `v1` and `v2`.
pub fn lerp(t: Float, v1: Float, v2: Float) -> (r: Float)
    ensures
        r@ == lerp_value(t@, v1@, v2@),
{
    let one: Float = Float { bits: ONE_BITS };
    one.sub(t).mul(v1).add(t.mul(v2))
}

/// In a strictly increasing run, order carries over any distance.
pub proof fn lemma_increasing_orders(keys: Seq<Float>, n: int, i: int, j: int)
    requires
        strictly_increasing(keys, n),
        0 <= i < j < n <= keys.len(),
    ensures
        keys[i]@.lt(keys[j]@),
    decreases j - i,
{
    if i + 1 < j {
        lemma_increasing_orders(keys, n, i, j - 1);
        assert(keys[j - 1]@.lt(keys[j - 1 + 1]@));
    } else {
        assert(keys[i]@.lt(keys[i + 1]@));
    }
}

/// Where everything from `lo` up to `hi` lies above `x`, the search from
/// `hi` down comes to the search from `lo - 1` down.
proof fn lemma_last_at_most_skips(keys: Seq<Float>, x: FloatValue, lo: int, hi: int)
    requires
        0 <= lo <= hi + 1,
        hi < keys.len(),
        forall|i: int| lo <= i <= hi ==> !(#[trigger] keys[i]@).le(x),
    ensures
        last_at_most(keys, x, hi) == last_at_most(keys, x, lo - 1),
    decreases hi - lo + 1,
{
    if hi >= lo {
        if hi > 0 {
            lemma_last_at_most_skips(keys, x, lo, hi - 1);
        }
    }
}

/// The index of the interval of a strictly increasing table in which `x`
/// lies: the last index up to `size - 2` whose entry is at most `x`, and 0
/// where `x` lies below the whole table.
pub fn find_interval(keys: &[Float], size: usize, x: Float) -> (r: usize)
    requires
        2 <= size <= keys@.len(),
        strictly_increasing(keys@, size as int),
    ensures
        r == last_at_most(keys@, x@, size - 2),
        r <= size - 2,
{
    let mut first: usize = 0;
    let mut len: usize = size;
    while len > 0
        invariant
            2 <= size <= keys@.len(),
            first + len <= size,
            strictly_increasing(keys@, size as int),
            forall|i: int| 0 <= i < first ==> (#[trigger] keys@[i]@).le(x@),
            forall|i: int| first + len <= i < size ==> !(#[trigger] keys@[i]@).le(x@),
        decreases len,
    {
        let half: usize = len / 2;
        let middle: usize = first + half;
        if keys[middle].le(x) {
            proof {
                assert forall|i: int| 0 <= i < middle + 1 implies (#[trigger] keys@[i]@).le(
                    x@,
                ) by {
                    if i < middle {
                        lemma_increasing_orders(keys@, size as int, i, middle as int);
                    }
                }
            }
            first = middle + 1;
            len = len - (half + 1);
        } else {
            proof {
                assert forall|i: int| middle <= i < size implies !(#[trigger] keys@[i]@).le(
                    x@,
                ) by {
                    if i > middle {
                        lemma_increasing_orders(keys@, size as int, middle as int, i);
                    }
                }
            }
            len = half;
        }
    }
    // `first` entries are at most `x`, and no other
    if first == 0 {
        proof {
            lemma_last_at_most_skips(keys@, x@, 0, size - 2);
        }
        0
    } else if first - 1 > size - 2 {
        size - 2
    } else {
        proof {
            lemma_last_at_most_skips(keys@, x@, first as int, size - 2);
        }
        first - 1
    }
}

} // verus!

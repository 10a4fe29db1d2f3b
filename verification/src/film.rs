//! Accumulated radiance: for each pixel the sum of the samples that it took
//! and their number. A tile of the image is accumulated in a film of its
//! own, which is merged into the film of the whole image when it is done.

use vstd::prelude::*;
use crate::float::{Float, FloatValue, decode, units_of, lemma_units_increase,
    lemma_units_at_infinity, lemma_value_fixes_number};
use crate::arith::{lemma_arithmetic_is_closed, lemma_round_exact, finite_sum};
use crate::geometry::{Bounds2i, Point2i};
use crate::rounding::rounded;
use crate::spectrum::{RGBSpectrum, sum3, weighted_sum, Y_FROM_R, Y_FROM_G, Y_FROM_B};
use crate::tiles::{inside, width_of, height_of};

verus! {

/// What a pixel has accumulated: the sum of its samples, coefficient by
/// coefficient, and their number.
pub struct PixelValue {
    pub sum: Seq<Float>,
    pub count: nat,
}

/// A pixel of a film.
#[derive(Debug, Clone, Copy)]
pub struct Pixel {
    pub sum: RGBSpectrum,
    pub count: u64,
}

impl View for Pixel {
    type V = PixelValue;

    open spec fn view(&self) -> PixelValue {
        PixelValue { sum: self.sum.c@, count: self.count as nat }
    }
}

/// Whether a number can stand in a sum of radiance: it is no NaN and its sign
/// is clear.
pub open spec fn settled(c: Float) -> bool {
    !c@.is_nan() && c.bits < 0x8000_0000
}

/// Whether a number can be added to a sum of radiance: it is no NaN and does
/// not lie below zero.
pub open spec fn addable(c: Float) -> bool {
    !c@.is_nan() && !c@.lt(Float { bits: 0 }@)
}

/// The luminance of three coefficients.
pub open spec fn luminance(l: Seq<Float>) -> FloatValue {
    weighted_sum(Y_FROM_R, l[0]@, Y_FROM_G, l[1]@, Y_FROM_B, l[2]@)
}

/// Whether a radiance sample is taken into a film: it holds no NaN and no
/// negative coefficient, and its luminance does not exceed `clamp`.
pub open spec fn acceptable(l: Seq<Float>, clamp: Float) -> bool {
    &&& addable(l[0])
    &&& addable(l[1])
    &&& addable(l[2])
    &&& !clamp@.lt(luminance(l))
}

/// A pixel that has taken no sample.
pub open spec fn blank() -> PixelValue {
    PixelValue { sum: seq![Float { bits: 0 }, Float { bits: 0 }, Float { bits: 0 }], count: 0 }
}

/// A pixel after one more sample.
pub open spec fn added(px: PixelValue, l: Seq<Float>) -> PixelValue {
    PixelValue { sum: sum3(px.sum, l), count: px.count + 1 }
}

/// Two accumulations of one pixel put together.
pub open spec fn combined(a: PixelValue, b: PixelValue) -> PixelValue {
    PixelValue { sum: sum3(a.sum, b.sum), count: a.count + b.count }
}

impl PixelValue {
    /// The sum has three coefficients, each of which is settled.
    pub open spec fn wf(self) -> bool {
        &&& self.sum.len() == 3
        &&& settled(self.sum[0])
        &&& settled(self.sum[1])
        &&& settled(self.sum[2])
    }
}

/// The place of the pixel `p` in the rows of a rectangle, counted along the
/// rows from the upper left corner.
pub open spec fn place(b: Bounds2i, p: Point2i) -> int {
    (p.y - b.p_min.y) * width_of(b) + (p.x - b.p_min.x)
}

/// As many pixels that have taken no sample.
pub open spec fn blanks(count: int) -> Seq<PixelValue> {
    Seq::new(count as nat, |i: int| blank())
}

/// The pixels of a rectangle after the pixel `p` has taken the sample `l`.
pub open spec fn with_sample(values: Seq<PixelValue>, b: Bounds2i, p: Point2i, l: Seq<Float>) -> Seq<
    PixelValue,
> {
    values.update(place(b, p), added(values[place(b, p)], l))
}

/// The pixel at a place of a rectangle.
pub open spec fn pixel_at(b: Bounds2i, i: int) -> Point2i {
    Point2i { x: (b.p_min.x + i % width_of(b)) as i32, y: (b.p_min.y + i / width_of(b)) as i32 }
}

/// The pixels of a rectangle after the pixels of a tile have been merged
/// into them: inside the tile each pixel is put together with the tile's
/// pixel at the same spot, outside nothing changes.
pub open spec fn merged(
    values: Seq<PixelValue>,
    b: Bounds2i,
    tile_values: Seq<PixelValue>,
    tile: Bounds2i,
) -> Seq<PixelValue> {
    Seq::new(
        values.len(),
        |i: int|
            if inside(pixel_at(b, i), tile) {
                combined(values[i], tile_values[place(tile, pixel_at(b, i))])
            } else {
                values[i]
            },
    )
}

/// Adding zero to a settled number leaves it as it is.
pub proof fn lemma_zero_plus_settled(x: Float)
    requires
        settled(x),
    ensures
        (Float { bits: 0 }).sum(x) == x,
{
    reveal(FloatValue::plus);
    let zero = Float { bits: 0 };
    assert(units_of(0) == 0);
    assert(zero@ == FloatValue::Finite { negative: false, units: 0 });
    let mag = x.bits as nat;
    assert(x.bits % 0x8000_0000 == x.bits);
    if mag < 0x7f80_0000 {
        let e = mag / 0x80_0000;
        let f = mag % 0x80_0000;
        let u = units_of(mag);
        vstd::arithmetic::power2::lemma2_to64();
        if e == 0 {
            assert(f * vstd::arithmetic::power2::pow2(0) == f) by (nonlinear_arith)
                requires
                    vstd::arithmetic::power2::pow2(0) == 1,
            ;
            lemma_round_exact(f, 0);
        } else {
            lemma_round_exact(0x80_0000 + f, (e - 1) as nat);
        }
        lemma_units_at_infinity();
        lemma_units_increase(mag, 0x7f80_0000);
        assert(rounded(false, 0 + u, 1) == x@);
        assert(zero@.plus(x@) == x@);
    } else {
        assert(zero@.plus(x@) == x@);
    }
    lemma_value_fixes_number(x);
}

/// The sum of a settled number and one that can be added is settled.
pub proof fn lemma_sum_settled(a: Float, b: Float)
    requires
        settled(a),
        addable(b),
    ensures
        settled(a.sum(b)),
{
    reveal(FloatValue::plus);
    lemma_arithmetic_is_closed(a, b);
    let r = a.sum(b);
    let zero = Float { bits: 0 };
    assert(units_of(0) == 0);
    assert(zero@ == FloatValue::Finite { negative: false, units: 0 });
    vstd::arithmetic::power2::lemma_pow2_pos(277);
    assert(a.bits % 0x8000_0000 == a.bits);
    // the value of `b` is zero of either sign, or positive
    let mb = (b.bits % 0x8000_0000) as nat;
    if b.bits >= 0x8000_0000 && 0 < mb <= 0x7f80_0000 {
        lemma_units_increase(0, mb);
        assert(b@.position() < 0);
    }
    match (a@, b@) {
        (
            FloatValue::Finite { negative: s, units: x },
            FloatValue::Finite { negative: t, units: y },
        ) => {
            assert(!s);
            assert(t ==> y == 0);
            assert(!finite_sum(s, x, t, y).is_nan());
            assert(!finite_sum(s, x, t, y).is_negative());
        },
        (FloatValue::Infinite { negative: s }, FloatValue::Infinite { negative: t }) => {
            assert(!s && !t);
        },
        _ => {},
    }
    assert(r@ == a@.plus(b@));
    assert(!r@.is_nan());
    assert(!r@.is_negative());
    assert(decode(r.bits) == r@);
}

impl Pixel {
    pub open spec fn wf(&self) -> bool {
        self@.wf()
    }

    /// A pixel that has taken no sample.
    pub fn new() -> (r: Pixel)
        ensures
            r@ == blank(),
            r.wf(),
    {
        let r = Pixel { sum: RGBSpectrum::new(Float { bits: 0 }), count: 0 };
        assert(r@.sum =~= blank().sum);
        assert(units_of(0) == 0);
        r
    }

    /// Takes the sample `l`.
    pub fn add_sample(&mut self, l: &RGBSpectrum)
        requires
            old(self).wf(),
            addable(l.c@[0]),
            addable(l.c@[1]),
            addable(l.c@[2]),
            old(self).count < 0xffff_ffff_ffff_ffff,
        ensures
            final(self)@ == added(old(self)@, l.c@),
            final(self).wf(),
    {
        proof {
            lemma_sum_settled(self.sum.c@[0], l.c@[0]);
            lemma_sum_settled(self.sum.c@[1], l.c@[1]);
            lemma_sum_settled(self.sum.c@[2], l.c@[2]);
        }
        self.sum = self.sum.add(*l);
        self.count = self.count + 1;
    }

    /// Takes what another accumulation of the same pixel holds.
    pub fn combine(&mut self, other: &Pixel)
        requires
            old(self).wf(),
            other.wf(),
            old(self).count + other.count <= 0xffff_ffff_ffff_ffff,
        ensures
            final(self)@ == combined(old(self)@, other@),
            final(self).wf(),
    {
        proof {
            lemma_settled_is_addable(other.sum.c@[0]);
            lemma_settled_is_addable(other.sum.c@[1]);
            lemma_settled_is_addable(other.sum.c@[2]);
            lemma_sum_settled(self.sum.c@[0], other.sum.c@[0]);
            lemma_sum_settled(self.sum.c@[1], other.sum.c@[1]);
            lemma_sum_settled(self.sum.c@[2], other.sum.c@[2]);
        }
        self.sum = self.sum.add(other.sum);
        self.count = self.count + other.count;
    }

    /// The mean radiance: the sum over the number of samples.
    pub fn mean(&self) -> (r: RGBSpectrum)
        requires
            self.count > 0,
        ensures
            r.c@ == crate::spectrum::quotient3(
                self.sum.c@,
                crate::spectrum::uniform3(Float::of(crate::convert::nearest_to(self.count as nat))),
            ),
    {
        self.sum.div(RGBSpectrum::new(Float::from_u64(self.count)))
    }
}

/// A settled number can be added.
pub proof fn lemma_settled_is_addable(x: Float)
    requires
        settled(x),
    ensures
        addable(x),
{
}

/// Whether a radiance sample is taken into a film.
pub fn is_acceptable(l: &RGBSpectrum, clamp: Float) -> (r: bool)
    ensures
        r == acceptable(l.c@, clamp),
{
    let zero: Float = Float { bits: 0 };
    if l.has_nans() {
        return false;
    }
    if l.c[0].lt(zero) || l.c[1].lt(zero) || l.c[2].lt(zero) {
        return false;
    }
    !l.y().gt(clamp)
}

/// The accumulated radiance of a rectangle of pixels, row by row.
pub struct Film {
    pub bounds: Bounds2i,
    pub pixels: Vec<Pixel>,
}

impl Film {
    /// The rectangle is not inside out, there is one pixel for each of its
    /// places, and every pixel is well formed.
    pub open spec fn wf(&self) -> bool {
        &&& 0 <= width_of(self.bounds) <= 0x7fff_ffff
        &&& 0 <= height_of(self.bounds) <= 0x7fff_ffff
        &&& self.pixels@.len() == width_of(self.bounds) * height_of(self.bounds)
        &&& forall|i: int| 0 <= i < self.pixels@.len() ==> (#[trigger] self.pixels@[i]).wf()
    }

    /// What the pixels have accumulated, row by row.
    pub open spec fn values(&self) -> Seq<PixelValue> {
        Seq::new(self.pixels@.len(), |i: int| self.pixels@[i]@)
    }

    /// What the pixel `p` has accumulated.
    pub open spec fn value_at(&self, p: Point2i) -> PixelValue {
        self.pixels@[place(self.bounds, p)]@
    }

    /// The film over `bounds` in which no pixel has taken a sample.
    pub fn new(bounds: Bounds2i) -> (r: Film)
        requires
            0 <= width_of(bounds) <= 0x7fff_ffff,
            0 <= height_of(bounds) <= 0x7fff_ffff,
            width_of(bounds) * height_of(bounds) <= usize::MAX,
        ensures
            r.wf(),
            r.bounds == bounds,
            r.values() == blanks(width_of(bounds) * height_of(bounds)),
            forall|p: Point2i| inside(p, bounds) ==> #[trigger] r.value_at(p) == blank(),
    {
        let width: u64 = (bounds.p_max.x as i64 - bounds.p_min.x as i64) as u64;
        let height: u64 = (bounds.p_max.y as i64 - bounds.p_min.y as i64) as u64;
        assert(width * height <= 0x7fff_ffff * 0x7fff_ffff) by (nonlinear_arith)
            requires
                width <= 0x7fff_ffff,
                height <= 0x7fff_ffff,
        ;
        let area: u64 = width * height;
        let mut pixels: Vec<Pixel> = Vec::new();
        let mut i: u64 = 0;
        while i < area
            invariant
                i <= area,
                pixels@.len() == i,
                forall|j: int| 0 <= j < i ==> (#[trigger] pixels@[j])@ == blank() && pixels@[j].wf(),
            decreases area - i,
        {
            pixels.push(Pixel::new());
            i = i + 1;
        }
        let r = Film { bounds, pixels };
        proof {
            assert forall|p: Point2i| inside(p, bounds) implies #[trigger] r.value_at(p)
                == blank() by {
                lemma_place_in_range(bounds, p);
            }
            assert(r.values() =~= blanks(width_of(bounds) * height_of(bounds)));
        }
        r
    }

    /// The index of the pixel `p` among the pixels.
    fn index_of(&self, p: Point2i) -> (i: usize)
        requires
            self.wf(),
            inside(p, self.bounds),
        ensures
            i == place(self.bounds, p),
            i < self.pixels@.len(),
    {
        proof {
            lemma_place_in_range(self.bounds, p);
        }
        let width: u64 = (self.bounds.p_max.x as i64 - self.bounds.p_min.x as i64) as u64;
        let dx: u64 = (p.x as i64 - self.bounds.p_min.x as i64) as u64;
        let dy: u64 = (p.y as i64 - self.bounds.p_min.y as i64) as u64;
        assert(dy * width <= 0x7fff_ffff * 0x7fff_ffff) by (nonlinear_arith)
            requires
                dy <= 0x7fff_ffff,
                width <= 0x7fff_ffff,
        ;
        assert(dy * width + dx == place(self.bounds, p)) by (nonlinear_arith)
            requires
                dy == p.y - self.bounds.p_min.y,
                dx == p.x - self.bounds.p_min.x,
                width == width_of(self.bounds),
                place(self.bounds, p) == (p.y - self.bounds.p_min.y) * width_of(self.bounds) + (p.x
                    - self.bounds.p_min.x),
        ;
        let n: usize = self.pixels.len();
        assert(dy * width + dx < n);
        (dy * width + dx) as usize
    }

    /// The pixel `p`.
    pub fn get(&self, p: Point2i) -> (r: &Pixel)
        requires
            self.wf(),
            inside(p, self.bounds),
        ensures
            r@ == self.value_at(p),
            r.wf(),
    {
        let i: usize = self.index_of(p);
        &self.pixels[i]
    }

    /// Takes the sample `l` for the pixel `p`.
    pub fn add_sample(&mut self, p: Point2i, l: &RGBSpectrum)
        requires
            old(self).wf(),
            inside(p, old(self).bounds),
            addable(l.c@[0]),
            addable(l.c@[1]),
            addable(l.c@[2]),
            old(self).value_at(p).count < 0xffff_ffff_ffff_ffff,
        ensures
            final(self).wf(),
            final(self).bounds == old(self).bounds,
            final(self).values() == with_sample(old(self).values(), old(self).bounds, p, l.c@),
            final(self).value_at(p) == added(old(self).value_at(p), l.c@),
            forall|q: Point2i|
                inside(q, old(self).bounds) && q != p ==> #[trigger] final(self).value_at(q) == old(
                    self,
                ).value_at(q),
    {
        let i: usize = self.index_of(p);
        let mut px: Pixel = self.pixels[i];
        px.add_sample(l);
        self.pixels[i] = px;
        proof {
            assert(self.values() =~= with_sample(old(self).values(), old(self).bounds, p, l.c@));
            assert forall|q: Point2i| inside(q, old(self).bounds) && q != p implies #[trigger] self.value_at(
                q,
            ) == old(self).value_at(q) by {
                lemma_place_injective(self.bounds, p, q);
                lemma_place_in_range(self.bounds, q);
            }
        }
    }

    /// Merges the film of a tile into this film: each pixel of the tile is
    /// put together with the pixel of this film at the same place.
    pub fn merge(&mut self, tile: &Film)
        requires
            old(self).wf(),
            tile.wf(),
            forall|p: Point2i| inside(p, tile.bounds) ==> inside(p, old(self).bounds),
            forall|p: Point2i|
                inside(p, tile.bounds) ==> old(self).value_at(p).count + (#[trigger] tile.value_at(
                    p,
                )).count <= 0xffff_ffff_ffff_ffff,
        ensures
            final(self).wf(),
            final(self).bounds == old(self).bounds,
            final(self).values() == merged(
                old(self).values(),
                old(self).bounds,
                tile.values(),
                tile.bounds,
            ),
            forall|p: Point2i|
                inside(p, old(self).bounds) ==> #[trigger] final(self).value_at(p) == (if inside(
                    p,
                    tile.bounds,
                ) {
                    combined(old(self).value_at(p), tile.value_at(p))
                } else {
                    old(self).value_at(p)
                }),
    {
        self.merge_pixels(tile);
        proof {
            let want = merged(old(self).values(), old(self).bounds, tile.values(), tile.bounds);
            assert forall|i: int| 0 <= i < self.pixels@.len() implies #[trigger] self.values()[i]
                == want[i] by {
                lemma_pixel_at_inside(self.bounds, i);
                let p = pixel_at(self.bounds, i);
                assert(self.value_at(p) == self.values()[i]);
                assert(old(self).value_at(p) == old(self).values()[i]);
                if inside(p, tile.bounds) {
                    lemma_place_in_range(tile.bounds, p);
                    assert(tile.value_at(p) == tile.values()[place(tile.bounds, p)]);
                }
            }
            assert(self.values() =~= want);
        }
    }

    /// The merging itself, pixel by pixel of the tile.
    fn merge_pixels(&mut self, tile: &Film)
        requires
            old(self).wf(),
            tile.wf(),
            forall|p: Point2i| inside(p, tile.bounds) ==> inside(p, old(self).bounds),
            forall|p: Point2i|
                inside(p, tile.bounds) ==> old(self).value_at(p).count + (#[trigger] tile.value_at(
                    p,
                )).count <= 0xffff_ffff_ffff_ffff,
        ensures
            final(self).wf(),
            final(self).bounds == old(self).bounds,
            final(self).pixels@.len() == old(self).pixels@.len(),
            forall|p: Point2i|
                inside(p, old(self).bounds) ==> #[trigger] final(self).value_at(p) == (if inside(
                    p,
                    tile.bounds,
                ) {
                    combined(old(self).value_at(p), tile.value_at(p))
                } else {
                    old(self).value_at(p)
                }),
    {
        let mut y: i32 = tile.bounds.p_min.y;
        while y < tile.bounds.p_max.y
            invariant
                self.wf(),
                tile.wf(),
                self.bounds == old(self).bounds,
                tile.bounds.p_min.y <= y <= tile.bounds.p_max.y,
                forall|p: Point2i| inside(p, tile.bounds) ==> inside(p, self.bounds),
                forall|p: Point2i|
                    inside(p, tile.bounds) ==> old(self).value_at(p).count + (
                    #[trigger] tile.value_at(p)).count <= 0xffff_ffff_ffff_ffff,
                forall|p: Point2i|
                    inside(p, self.bounds) ==> #[trigger] self.value_at(p) == (if inside(
                        p,
                        tile.bounds,
                    ) && p.y < y {
                        combined(old(self).value_at(p), tile.value_at(p))
                    } else {
                        old(self).value_at(p)
                    }),
            decreases tile.bounds.p_max.y - y,
        {
            let mut x: i32 = tile.bounds.p_min.x;
            while x < tile.bounds.p_max.x
                invariant
                    self.wf(),
                    tile.wf(),
                    self.bounds == old(self).bounds,
                    tile.bounds.p_min.y <= y < tile.bounds.p_max.y,
                    tile.bounds.p_min.x <= x <= tile.bounds.p_max.x,
                    forall|p: Point2i| inside(p, tile.bounds) ==> inside(p, self.bounds),
                    forall|p: Point2i|
                        inside(p, tile.bounds) ==> old(self).value_at(p).count + (
                        #[trigger] tile.value_at(p)).count <= 0xffff_ffff_ffff_ffff,
                    forall|p: Point2i|
                        inside(p, self.bounds) ==> #[trigger] self.value_at(p) == (if inside(
                            p,
                            tile.bounds,
                        ) && (p.y < y || (p.y == y && p.x < x)) {
                            combined(old(self).value_at(p), tile.value_at(p))
                        } else {
                            old(self).value_at(p)
                        }),
                decreases tile.bounds.p_max.x - x,
            {
                let p: Point2i = Point2i { x, y };
                let ghost before = *self;
                assert(inside(p, tile.bounds));
                let i: usize = self.index_of(p);
                let other: &Pixel = tile.get(p);
                let mut px: Pixel = self.pixels[i];
                assert(self.value_at(p) == old(self).value_at(p));
                assert(px@ == old(self).value_at(p));
                assert(other@ == tile.value_at(p));
                px.combine(other);
                self.pixels[i] = px;
                proof {
                    assert forall|q: Point2i| inside(q, self.bounds) implies #[trigger] self.value_at(
                        q,
                    ) == (if inside(q, tile.bounds) && (q.y < y || (q.y == y && q.x < x + 1)) {
                        combined(old(self).value_at(q), tile.value_at(q))
                    } else {
                        old(self).value_at(q)
                    }) by {
                        lemma_place_in_range(self.bounds, q);
                        if q != p {
                            lemma_place_injective(self.bounds, p, q);
                            assert(self.value_at(q) == before.value_at(q));
                        }
                    }
                }
                x = x + 1;
            }
            y = y + 1;
        }
    }
}

/// The place of a pixel of a rectangle lies among the places of the
/// rectangle.
pub proof fn lemma_place_in_range(b: Bounds2i, p: Point2i)
    requires
        inside(p, b),
    ensures
        0 <= place(b, p) < width_of(b) * height_of(b),
{
    let w = width_of(b);
    let h = height_of(b);
    let dx = p.x - b.p_min.x;
    let dy = p.y - b.p_min.y;
    assert(0 <= dy * w + dx < w * h) by (nonlinear_arith)
        requires
            0 <= dx < w,
            0 <= dy < h,
    ;
}

/// Two pixels of a rectangle have two places.
pub proof fn lemma_place_injective(b: Bounds2i, p: Point2i, q: Point2i)
    requires
        inside(p, b),
        inside(q, b),
        p != q,
    ensures
        place(b, p) != place(b, q),
{
    let w = width_of(b);
    let px = p.x - b.p_min.x;
    let py = p.y - b.p_min.y;
    let qx = q.x - b.p_min.x;
    let qy = q.y - b.p_min.y;
    if py * w + px == qy * w + qx {
        vstd::arithmetic::div_mod::lemma_fundamental_div_mod_converse(py * w + px, w, py, px);
        vstd::arithmetic::div_mod::lemma_fundamental_div_mod_converse(qy * w + qx, w, qy, qx);
        assert(false);
    }
}

/// The pixel at a place of a rectangle lies in the rectangle, at that place.
pub proof fn lemma_pixel_at_inside(b: Bounds2i, i: int)
    requires
        0 <= width_of(b) <= 0x7fff_ffff,
        0 <= height_of(b) <= 0x7fff_ffff,
        0 <= i < width_of(b) * height_of(b),
    ensures
        inside(pixel_at(b, i), b),
        place(b, pixel_at(b, i)) == i,
{
    let w = width_of(b);
    let h = height_of(b);
    assert(w > 0) by (nonlinear_arith)
        requires
            0 <= i < w * h,
            w >= 0,
            h >= 0,
    ;
    vstd::arithmetic::div_mod::lemma_fundamental_div_mod(i, w);
    let col = i % w;
    let row = i / w;
    assert(0 <= col < w);
    assert(0 <= row < h) by (nonlinear_arith)
        requires
            i == w * row + col,
            0 <= col < w,
            0 <= i < w * h,
    ;
    assert(row * w + col == i) by (nonlinear_arith)
        requires
            i == w * row + col,
    ;
}

/// The pixel at the place of a pixel is that pixel.
pub proof fn lemma_pixel_at_place(b: Bounds2i, p: Point2i)
    requires
        inside(p, b),
    ensures
        pixel_at(b, place(b, p)) == p,
{
    let w = width_of(b);
    let dx = p.x - b.p_min.x;
    let dy = p.y - b.p_min.y;
    vstd::arithmetic::div_mod::lemma_fundamental_div_mod_converse(dy * w + dx, w, dy, dx);
}

/// A radiance sample: the pixel that takes it, and its three coefficients.
pub struct Sample {
    pub pixel: Point2i,
    pub radiance: Seq<Float>,
}

impl Sample {
    /// The sample has three coefficients, each of which can be added.
    pub open spec fn wf(self) -> bool {
        &&& self.radiance.len() == 3
        &&& addable(self.radiance[0])
        &&& addable(self.radiance[1])
        &&& addable(self.radiance[2])
    }
}

/// The pixels of a rectangle after they have taken the first `k` of the
/// samples, one after the other, starting from nothing.
pub open spec fn accumulated(b: Bounds2i, samples: Seq<Sample>, k: int) -> Seq<PixelValue>
    decreases k,
{
    if k <= 0 {
        blanks(width_of(b) * height_of(b))
    } else {
        with_sample(
            accumulated(b, samples, k - 1),
            b,
            samples[k - 1].pixel,
            samples[k - 1].radiance,
        )
    }
}

/// What the pixel `p` holds after it has taken those of the first `k` samples
/// that are its own.
pub open spec fn taken(samples: Seq<Sample>, k: int, p: Point2i) -> PixelValue
    decreases k,
{
    if k <= 0 {
        blank()
    } else if samples[k - 1].pixel == p {
        added(taken(samples, k - 1, p), samples[k - 1].radiance)
    } else {
        taken(samples, k - 1, p)
    }
}

/// Put together with a pixel that has taken nothing, a well-formed pixel
/// stays as it is.
pub proof fn lemma_combined_with_blank(x: PixelValue)
    requires
        x.wf(),
    ensures
        combined(blank(), x) == x,
{
    lemma_zero_plus_settled(x.sum[0]);
    lemma_zero_plus_settled(x.sum[1]);
    lemma_zero_plus_settled(x.sum[2]);
    assert(combined(blank(), x).sum =~= x.sum);
}

/// What a pixel has taken of well-formed samples is well formed.
pub proof fn lemma_taken_wf(samples: Seq<Sample>, k: int, p: Point2i)
    requires
        0 <= k <= samples.len(),
        forall|j: int| 0 <= j < samples.len() ==> (#[trigger] samples[j]).wf(),
    ensures
        taken(samples, k, p).wf(),
    decreases k,
{
    if k <= 0 {
        assert(units_of(0) == 0);
    } else {
        lemma_taken_wf(samples, k - 1, p);
        if samples[k - 1].pixel == p {
            let before = taken(samples, k - 1, p);
            let l = samples[k - 1].radiance;
            assert(samples[k - 1].wf());
            lemma_sum_settled(before.sum[0], l[0]);
            lemma_sum_settled(before.sum[1], l[1]);
            lemma_sum_settled(before.sum[2], l[2]);
        }
    }
}

/// A pixel without a sample of its own has taken nothing.
pub proof fn lemma_taken_nothing(samples: Seq<Sample>, k: int, p: Point2i)
    requires
        0 <= k <= samples.len(),
        forall|j: int| 0 <= j < k ==> (#[trigger] samples[j]).pixel != p,
    ensures
        taken(samples, k, p) == blank(),
    decreases k,
{
    if k > 0 {
        lemma_taken_nothing(samples, k - 1, p);
    }
}

/// Accumulating samples in a rectangle gives each pixel what it has taken
/// of them.
pub proof fn lemma_accumulated_is_taken(b: Bounds2i, samples: Seq<Sample>, k: int, p: Point2i)
    requires
        0 <= k <= samples.len(),
        inside(p, b),
        forall|j: int| 0 <= j < samples.len() ==> inside((#[trigger] samples[j]).pixel, b),
    ensures
        accumulated(b, samples, k).len() == width_of(b) * height_of(b),
        accumulated(b, samples, k)[place(b, p)] == taken(samples, k, p),
    decreases k,
{
    lemma_place_in_range(b, p);
    if k > 0 {
        lemma_accumulated_is_taken(b, samples, k - 1, p);
        let q = samples[k - 1].pixel;
        assert(inside(q, b));
        lemma_place_in_range(b, q);
        if q != p {
            lemma_place_injective(b, p, q);
        }
    }
}

/// Summing the samples of a tile in a buffer of its own and merging that
/// into an untouched image gives what accumulating every sample straight
/// into the image gives.
pub proof fn lemma_tile_merge_is_direct(image: Bounds2i, tile: Bounds2i, samples: Seq<Sample>)
    requires
        0 <= width_of(image) <= 0x7fff_ffff,
        0 <= height_of(image) <= 0x7fff_ffff,
        forall|p: Point2i| inside(p, tile) ==> inside(p, image),
        forall|j: int|
            0 <= j < samples.len() ==> inside((#[trigger] samples[j]).pixel, tile) && samples[j].wf(),
    ensures
        merged(
            blanks(width_of(image) * height_of(image)),
            image,
            accumulated(tile, samples, samples.len() as int),
            tile,
        ) == accumulated(image, samples, samples.len() as int),
{
    let n = samples.len() as int;
    let area = width_of(image) * height_of(image);
    let local = accumulated(tile, samples, n);
    let direct = accumulated(image, samples, n);
    let together = merged(blanks(area), image, local, tile);
    assert(area >= 0) by (nonlinear_arith)
        requires
            area == width_of(image) * height_of(image),
            0 <= width_of(image),
            0 <= height_of(image),
    ;
    if area > 0 {
        lemma_pixel_at_inside(image, 0);
        lemma_accumulated_is_taken(image, samples, n, pixel_at(image, 0));
    } else if n > 0 {
        // no pixel, so no sample
        assert(inside(samples[0].pixel, tile));
        lemma_place_in_range(image, samples[0].pixel);
    }
    assert(direct.len() == area);
    assert forall|i: int| 0 <= i < area implies #[trigger] together[i] == direct[i] by {
        lemma_pixel_at_inside(image, i);
        let p = pixel_at(image, i);
        lemma_accumulated_is_taken(image, samples, n, p);
        if inside(p, tile) {
            lemma_accumulated_is_taken(tile, samples, n, p);
            lemma_taken_wf(samples, n, p);
            lemma_combined_with_blank(taken(samples, n, p));
        } else {
            lemma_taken_nothing(samples, n, p);
        }
    }
    assert(together =~= direct);
}

} // verus!

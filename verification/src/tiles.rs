//! The partition of an image into tiles, and the queue from which workers
//! claim them.

use vstd::prelude::*;
use crate::geometry::{Bounds2i, Point2i};

verus! {

/// Whether a pixel lies in a rectangle of pixels.
pub open spec fn inside(p: Point2i, b: Bounds2i) -> bool {
    b.p_min.x <= p.x < b.p_max.x && b.p_min.y <= p.y < b.p_max.y
}

/// The number of pixels in a row of a rectangle.
pub open spec fn width_of(b: Bounds2i) -> int {
    b.p_max.x - b.p_min.x
}

/// The number of rows of a rectangle.
pub open spec fn height_of(b: Bounds2i) -> int {
    b.p_max.y - b.p_min.y
}

/// The number of pieces of length `size` that cover a length `extent`.
pub open spec fn pieces(extent: int, size: int) -> int {
    (extent + size - 1) / size
}

/// An image cut into square tiles of one size, row by row from its upper
/// left corner; the tiles of the last column and of the last row are cut
/// off at the image's edge.
pub struct TileGrid {
    pub bounds: Bounds2i,
    pub tile_size: i32,
    pub nx: i32,
    pub ny: i32,
}

impl TileGrid {
    /// The image is not inside out, the tiles have a size, and there are as
    /// many columns and rows of tiles as cover the image.
    pub open spec fn wf(&self) -> bool {
        &&& self.tile_size >= 1
        &&& 0 <= width_of(self.bounds) <= 0x7fff_ffff
        &&& 0 <= height_of(self.bounds) <= 0x7fff_ffff
        &&& self.nx == pieces(width_of(self.bounds), self.tile_size as int)
        &&& self.ny == pieces(height_of(self.bounds), self.tile_size as int)
    }

    /// The number of tiles.
    pub open spec fn count(&self) -> int {
        self.nx * self.ny
    }

    /// The tile with the index `index`: tiles are numbered along the rows.
    pub open spec fn tile(&self, index: int) -> Bounds2i {
        let tx = index % (self.nx as int);
        let ty = index / (self.nx as int);
        let x0 = self.bounds.p_min.x + tx * self.tile_size;
        let y0 = self.bounds.p_min.y + ty * self.tile_size;
        Bounds2i {
            p_min: Point2i { x: x0 as i32, y: y0 as i32 },
            p_max: Point2i {
                x: (if x0 + self.tile_size < self.bounds.p_max.x {
                    x0 + self.tile_size
                } else {
                    self.bounds.p_max.x as int
                }) as i32,
                y: (if y0 + self.tile_size < self.bounds.p_max.y {
                    y0 + self.tile_size
                } else {
                    self.bounds.p_max.y as int
                }) as i32,
            },
        }
    }

    /// The index of the tile that holds the pixel `p`.
    pub open spec fn tile_of(&self, p: Point2i) -> int {
        let tx = (p.x - self.bounds.p_min.x) / (self.tile_size as int);
        let ty = (p.y - self.bounds.p_min.y) / (self.tile_size as int);
        ty * self.nx + tx
    }

    /// The grid of tiles of the size `tile_size` over `bounds`; nothing
    /// where the image is inside out, a side of it is longer than a pixel
    /// coordinate can say, or the size is not positive.
    pub fn new(bounds: Bounds2i, tile_size: i32) -> (r: Option<TileGrid>)
        ensures
            r is Some <==> {
                &&& tile_size >= 1
                &&& 0 <= width_of(bounds) <= 0x7fff_ffff
                &&& 0 <= height_of(bounds) <= 0x7fff_ffff
            },
            r matches Some(grid) ==> grid.wf() && grid.bounds == bounds && grid.tile_size
                == tile_size,
    {
        if tile_size < 1 {
            return None;
        }
        let width: i64 = bounds.p_max.x as i64 - bounds.p_min.x as i64;
        let height: i64 = bounds.p_max.y as i64 - bounds.p_min.y as i64;
        if width < 0 || width > 0x7fff_ffff || height < 0 || height > 0x7fff_ffff {
            return None;
        }
        let size: i64 = tile_size as i64;
        let nx: i64 = (width + size - 1) / size;
        let ny: i64 = (height + size - 1) / size;
        proof {
            lemma_pieces_bounds(width as int, size as int);
            lemma_pieces_bounds(height as int, size as int);
        }
        Some(TileGrid { bounds, tile_size, nx: nx as i32, ny: ny as i32 })
    }

    pub fn tile_count(&self) -> (n: u64)
        requires
            self.wf(),
        ensures
            n == self.count(),
    {
        proof {
            lemma_pieces_bounds(width_of(self.bounds), self.tile_size as int);
            lemma_pieces_bounds(height_of(self.bounds), self.tile_size as int);
            assert(0 <= self.nx * self.ny <= 0x7fff_ffff * 0x7fff_ffff) by (nonlinear_arith)
                requires
                    0 <= self.nx <= 0x7fff_ffff,
                    0 <= self.ny <= 0x7fff_ffff,
            ;
        }
        (self.nx as u64) * (self.ny as u64)
    }

    pub fn tile_bounds(&self, index: u64) -> (r: Bounds2i)
        requires
            self.wf(),
            index < self.count(),
        ensures
            r == self.tile(index as int),
    {
        proof {
            lemma_pieces_bounds(width_of(self.bounds), self.tile_size as int);
            lemma_pieces_bounds(height_of(self.bounds), self.tile_size as int);
            self.lemma_tile_inside(index as int);
        }
        let nx: u64 = self.nx as u64;
        assert(nx > 0) by (nonlinear_arith)
            requires
                index < self.nx * self.ny,
                nx == self.nx,
                self.nx >= 0,
                self.ny >= 0,
        ;
        let tx: i64 = (index % nx) as i64;
        let ty: i64 = (index / nx) as i64;
        let size: i64 = self.tile_size as i64;
        proof {
            self.lemma_tile_position(index as int);
        }
        let x0: i64 = self.bounds.p_min.x as i64 + tx * size;
        let y0: i64 = self.bounds.p_min.y as i64 + ty * size;
        let x1: i64 = if x0 + size < self.bounds.p_max.x as i64 {
            x0 + size
        } else {
            self.bounds.p_max.x as i64
        };
        let y1: i64 = if y0 + size < self.bounds.p_max.y as i64 {
            y0 + size
        } else {
            self.bounds.p_max.y as i64
        };
        Bounds2i {
            p_min: Point2i { x: x0 as i32, y: y0 as i32 },
            p_max: Point2i { x: x1 as i32, y: y1 as i32 },
        }
    }

    /// The column and the row of a tile lie in the grid, and the tile starts
    /// inside the image.
    pub proof fn lemma_tile_position(&self, index: int)
        requires
            self.wf(),
            0 <= index < self.count(),
        ensures
            self.nx > 0,
            self.ny > 0,
            0 <= index % (self.nx as int) < self.nx,
            0 <= index / (self.nx as int) < self.ny,
            0 <= (index % (self.nx as int)) * self.tile_size < width_of(self.bounds),
            0 <= (index / (self.nx as int)) * self.tile_size < height_of(self.bounds),
    {
        let nx = self.nx as int;
        let ny = self.ny as int;
        let size = self.tile_size as int;
        lemma_pieces_bounds(width_of(self.bounds), size);
        lemma_pieces_bounds(height_of(self.bounds), size);
        assert(nx > 0 && ny > 0) by (nonlinear_arith)
            requires
                0 <= index < nx * ny,
                nx >= 0,
                ny >= 0,
        ;
        let tx = index % nx;
        let ty = index / nx;
        vstd::arithmetic::div_mod::lemma_fundamental_div_mod(index, nx);
        assert(0 <= tx < nx);
        assert(0 <= ty < ny) by (nonlinear_arith)
            requires
                index == nx * ty + tx,
                0 <= tx < nx,
                0 <= index < nx * ny,
        ;
        lemma_piece_starts_inside(width_of(self.bounds), size, tx);
        lemma_piece_starts_inside(height_of(self.bounds), size, ty);
    }

    /// Every tile lies in the image and holds a pixel.
    pub proof fn lemma_tile_inside(&self, index: int)
        requires
            self.wf(),
            0 <= index < self.count(),
        ensures
            ({
                let t = self.tile(index);
                &&& self.bounds.p_min.x <= t.p_min.x < t.p_max.x <= self.bounds.p_max.x
                &&& self.bounds.p_min.y <= t.p_min.y < t.p_max.y <= self.bounds.p_max.y
                &&& t.p_max.x - t.p_min.x <= self.tile_size
                &&& t.p_max.y - t.p_min.y <= self.tile_size
                &&& t.p_min.x == self.bounds.p_min.x + (index % (self.nx as int)) * self.tile_size
                &&& t.p_min.y == self.bounds.p_min.y + (index / (self.nx as int)) * self.tile_size
            }),
    {
        self.lemma_tile_position(index);
    }

    /// A pixel of the image lies in the tile that `tile_of` names, and in no
    /// other: the tiles cover the image without overlap.
    pub proof fn lemma_tiles_partition(&self, p: Point2i, index: int)
        requires
            self.wf(),
            inside(p, self.bounds),
            0 <= index < self.count(),
        ensures
            0 <= self.tile_of(p) < self.count(),
            inside(p, self.tile(index)) <==> index == self.tile_of(p),
    {
        let nx = self.nx as int;
        let ny = self.ny as int;
        let size = self.tile_size as int;
        let dx = p.x - self.bounds.p_min.x;
        let dy = p.y - self.bounds.p_min.y;
        let px = dx / size;
        let py = dy / size;
        lemma_pieces_bounds(width_of(self.bounds), size);
        lemma_pieces_bounds(height_of(self.bounds), size);
        lemma_piece_of(width_of(self.bounds), size, dx);
        lemma_piece_of(height_of(self.bounds), size, dy);
        assert(0 <= py * nx + px < nx * ny) by (nonlinear_arith)
            requires
                0 <= px < nx,
                0 <= py < ny,
        ;
        self.lemma_tile_position(index);
        self.lemma_tile_inside(index);
        let tx = index % nx;
        let ty = index / nx;
        vstd::arithmetic::div_mod::lemma_fundamental_div_mod(index, nx);
        let t = self.tile(index);
        // the pixel lies in the tile just when its column and row are the tile's
        lemma_in_piece(width_of(self.bounds), size, dx, tx);
        lemma_in_piece(height_of(self.bounds), size, dy, ty);
        assert(inside(p, t) <==> (px == tx && py == ty));
        if px == tx && py == ty {
            assert(index == py * nx + px) by (nonlinear_arith)
                requires
                    index == nx * ty + tx,
                    px == tx,
                    py == ty,
            ;
        }
        if index == py * nx + px {
            vstd::arithmetic::div_mod::lemma_fundamental_div_mod_converse(index, nx, py, px);
        }
    }
}

/// An image without tiles has no pixels.
pub proof fn lemma_no_tiles_no_pixels(grid: TileGrid, p: Point2i)
    requires
        grid.wf(),
        grid.count() <= 0,
    ensures
        !inside(p, grid.bounds),
{
    lemma_pieces_bounds(width_of(grid.bounds), grid.tile_size as int);
    lemma_pieces_bounds(height_of(grid.bounds), grid.tile_size as int);
    if inside(p, grid.bounds) {
        assert(grid.nx * grid.ny >= 1) by (nonlinear_arith)
            requires
                grid.nx >= 1,
                grid.ny >= 1,
        ;
    }
}

/// As many pieces as cover a length: none for no length, and never more
/// than the length.
pub proof fn lemma_pieces_bounds(extent: int, size: int)
    requires
        extent >= 0,
        size >= 1,
    ensures
        0 <= pieces(extent, size) <= extent,
        extent > 0 ==> pieces(extent, size) >= 1,
        (pieces(extent, size) - 1) * size < extent || extent == 0,
        pieces(extent, size) * size >= extent,
{
    let n = pieces(extent, size);
    vstd::arithmetic::div_mod::lemma_fundamental_div_mod(extent + size - 1, size);
    let r = (extent + size - 1) % size;
    assert(0 <= r < size);
    assert(extent + size - 1 == size * n + r);
    assert(n >= 0) by (nonlinear_arith)
        requires
            extent + size - 1 == size * n + r,
            0 <= r < size,
            extent >= 0,
            size >= 1,
    ;
    assert(n <= extent) by (nonlinear_arith)
        requires
            extent + size - 1 == size * n + r,
            0 <= r < size,
            extent >= 0,
            size >= 1,
            n >= 0,
    ;
    assert(extent > 0 ==> n >= 1) by (nonlinear_arith)
        requires
            extent + size - 1 == size * n + r,
            0 <= r < size,
            size >= 1,
    ;
    assert((n - 1) * size < extent || extent == 0) by (nonlinear_arith)
        requires
            extent + size - 1 == size * n + r,
            0 <= r < size,
            size >= 1,
            extent >= 0,
    ;
    assert(n * size >= extent) by (nonlinear_arith)
        requires
            extent + size - 1 == size * n + r,
            0 <= r < size,
            size >= 1,
    ;
}

/// Each of the pieces that cover a length starts inside it.
pub proof fn lemma_piece_starts_inside(extent: int, size: int, k: int)
    requires
        extent >= 0,
        size >= 1,
        0 <= k < pieces(extent, size),
    ensures
        0 <= k * size < extent,
{
    lemma_pieces_bounds(extent, size);
    let n = pieces(extent, size);
    assert(0 <= k * size && k * size <= (n - 1) * size) by (nonlinear_arith)
        requires
            0 <= k <= n - 1,
            size >= 1,
    ;
}

/// A place inside a length lies in one of the pieces that cover it.
pub proof fn lemma_piece_of(extent: int, size: int, d: int)
    requires
        size >= 1,
        0 <= d < extent,
    ensures
        0 <= d / size < pieces(extent, size),
{
    lemma_pieces_bounds(extent, size);
    let n = pieces(extent, size);
    vstd::arithmetic::div_mod::lemma_fundamental_div_mod(d, size);
    let q = d / size;
    let r = d % size;
    assert(0 <= q) by (nonlinear_arith)
        requires
            d == size * q + r,
            0 <= r < size,
            d >= 0,
    ;
    assert(q < n) by (nonlinear_arith)
        requires
            d == size * q + r,
            0 <= r < size,
            d < extent,
            n * size >= extent,
    ;
}

/// A place inside a length lies in the piece `k`, cut off at the end of the
/// length, just when `k` is the whole part of the place over the size.
pub proof fn lemma_in_piece(extent: int, size: int, d: int, k: int)
    requires
        size >= 1,
        0 <= d < extent,
        k >= 0,
    ensures
        (k * size <= d && d < (if k * size + size < extent {
            k * size + size
        } else {
            extent
        })) <==> d / size == k,
{
    vstd::arithmetic::div_mod::lemma_fundamental_div_mod(d, size);
    let q = d / size;
    let r = d % size;
    if k * size <= d && d < k * size + size {
        assert((k + 1) * size == k * size + size) by (nonlinear_arith);
        crate::rounding::lemma_div_bounds(d, size, k, k + 1);
    }
    if q == k {
        assert(k * size <= d < k * size + size) by (nonlinear_arith)
            requires
                d == size * q + r,
                0 <= r < size,
                q == k,
        ;
    }
}

/// The tiles of an image as workers claim them: in the order of their
/// indices, each once, until none is left or the work has been stopped.
pub struct TileQueue {
    pub next: u64,
    pub total: u64,
    pub stopped: bool,
}

impl TileQueue {
    pub open spec fn wf(&self) -> bool {
        self.next <= self.total
    }

    /// The queue of the tiles `0` to `total - 1`.
    pub fn new(total: u64) -> (r: TileQueue)
        ensures
            r.wf(),
            r.next == 0,
            r.total == total,
            !r.stopped,
    {
        TileQueue { next: 0, total, stopped: false }
    }

    /// Hands out the next tile, or nothing where none is left or the work
    /// has been stopped.
    pub fn claim(&mut self) -> (r: Option<u64>)
        requires
            old(self).wf(),
        ensures
            final(self).wf(),
            final(self).total == old(self).total,
            final(self).stopped == old(self).stopped,
            old(self).stopped || old(self).next == old(self).total ==> {
                &&& r is None
                &&& final(self).next == old(self).next
            },
            !old(self).stopped && old(self).next < old(self).total ==> {
                &&& r == Some(old(self).next)
                &&& final(self).next == old(self).next + 1
            },
    {
        if self.stopped || self.next >= self.total {
            None
        } else {
            let index: u64 = self.next;
            self.next = self.next + 1;
            Some(index)
        }
    }

    /// Stops the work: no tile is handed out from now on. A tile that has
    /// been claimed is not taken back.
    pub fn stop(&mut self)
        ensures
            final(self).stopped,
            final(self).next == old(self).next,
            final(self).total == old(self).total,
    {
        self.stopped = true;
    }

    /// Whether every tile has been handed out.
    pub fn is_exhausted(&self) -> (r: bool)
        ensures
            r == (self.next >= self.total),
    {
        self.next >= self.total
    }
}

} // verus!

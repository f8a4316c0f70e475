//! The sequential, chunk-boundary-aware traversal of a rectangular pixel
//! window: a cursor over three nested levels (pixel within chunk row,
//! chunk row within chunk, chunk within window) that visits each chunk's
//! share of the window in row-major order before moving to the next chunk.

use vstd::prelude::*;

use crate::grid::TileAttributes;
use crate::reader::RasterReader;
use crate::reader::spec_grid;
use crate::reader::spec_spp;
use crate::value::RasterValue;
use crate::value::raster_value;

verus! {

/// Cursor over the pixels of a rectangular window, created by
/// [`RasterReader::pixels`]. Advanced one pixel at a time by
/// [`Pixels::next`]; not restartable.
pub struct Pixels {
    /// Whether a chunk is current; the first advance loads one.
    pub loaded: bool,
    /// Index of the current chunk, valid when `loaded`.
    pub chunk_index: u32,
    /// Element offset of the current pixel in the current chunk.
    pub offset: usize,
    pub x: u32,
    pub y: u32,
    /// Chunk column of the current chunk, as derived from its index.
    pub col: u32,
    /// Chunk row of the current chunk, as derived from its index.
    pub row: u32,
    pub dims: TileAttributes,
    /// Samples per pixel (gray 1, interleaved RGB 3, RGBA 4).
    pub spp: u8,
    pub band_idx: u8,
    pub min_x: u32,
    pub min_y: u32,
    pub max_x: u32,
    pub max_y: u32,
}

impl Pixels {
    /// Right edge (exclusive) the traversal actually uses: a window of
    /// zero width still visits the column of its starting pixel.
    pub open spec fn eff_max_x(self) -> int {
        if self.max_x > self.min_x {
            self.max_x as int
        } else {
            self.min_x + 1
        }
    }

    /// Bottom edge (exclusive) the traversal actually uses: a window of
    /// zero height still visits the row of its starting pixel.
    pub open spec fn eff_max_y(self) -> int {
        if self.max_y > self.min_y {
            self.max_y as int
        } else {
            self.min_y + 1
        }
    }

    /// The cursor's column/row bookkeeping mirrors the pixel position.
    /// This holds when the band's chunk index offset is zero (chunky
    /// layout, or the first band) or the image is striped (one chunk
    /// column); the traversal is defined for those layouts.
    pub open spec fn faithful(self) -> bool {
        self.dims.spec_band_offset(self.band_idx as int) == 0
            || self.dims.spec_tiles_across() == 1
    }

    /// The cursor belongs to this reader: grid, sample count and band
    /// match the reader's current image.
    pub open spec fn for_reader(self, r: RasterReader) -> bool {
        &&& r.wf()
        &&& r.band_ok()
        &&& self.dims == spec_grid(r.cur_info())
        &&& self.spp as int == spec_spp(r.cur_info())
        &&& self.band_idx == r.band_idx
    }

    /// Cursor invariant, relative to the reader it was created from.
    pub open spec fn inv(self, r: RasterReader) -> bool {
        let g = self.dims;
        let tw = g.tile_width as int;
        let tl = g.tile_length as int;
        let ta = g.spec_tiles_across();
        let idx = self.chunk_index as int;
        &&& self.for_reader(r)
        &&& self.faithful()
        &&& self.min_x <= self.max_x
        &&& self.min_y <= self.max_y
        &&& (self.min_x < g.image_width && self.min_y < g.image_height) ==> (
        self.eff_max_x() <= g.image_width && self.eff_max_y() <= g.image_height)
        &&& !self.loaded ==> self.x == self.min_x && self.y == self.min_y
        &&& self.loaded ==> {
            &&& self.min_x < g.image_width && self.min_y < g.image_height
            &&& self.min_x <= self.x < self.eff_max_x()
            &&& self.min_y <= self.y < self.eff_max_y()
            &&& self.x < g.image_width && self.y < g.image_height
            &&& ta > 0
            &&& idx == g.spec_chunk_index(self.x as int, self.y as int, self.band_idx as int)
            &&& self.offset == g.spec_chunk_offset(
                idx,
                self.x as int,
                self.y as int,
                self.spp as int,
            )
            &&& self.col as int == idx % ta
            &&& self.row as int == idx / ta
        }
    }

    /// Pixels of the window that the traversal will still emit after the
    /// current one.
    pub open spec fn cursor_rank(self) -> int {
        if !self.loaded {
            if self.min_x < self.dims.image_width && self.min_y < self.dims.image_height {
                self.total_count()
            } else {
                0
            }
        } else {
            spec_pos_rank(
                self.dims,
                self.min_x as int,
                self.min_y as int,
                self.eff_max_x(),
                self.eff_max_y(),
                self.x as int,
                self.y as int,
            )
        }
    }

    /// Number of pixels the traversal emits for a window starting inside
    /// the image.
    pub open spec fn total_count(self) -> int {
        (self.eff_max_x() - self.min_x) * (self.eff_max_y() - self.min_y)
    }
}

/// Left edge of chunk column `c`'s share of the window.
pub open spec fn spec_block_xs(g: TileAttributes, minx: int, c: int) -> int {
    let e = c * g.tile_width;
    if e > minx {
        e
    } else {
        minx
    }
}

/// Right edge (exclusive) of chunk column `c`'s share of the window.
pub open spec fn spec_block_xe(g: TileAttributes, mx: int, c: int) -> int {
    let e = (c + 1) * g.tile_width;
    if e < mx {
        e
    } else {
        mx
    }
}

/// Top edge of chunk row `r`'s share of the window.
pub open spec fn spec_block_ys(g: TileAttributes, miny: int, r: int) -> int {
    let e = r * g.tile_length;
    if e > miny {
        e
    } else {
        miny
    }
}

/// Bottom edge (exclusive) of chunk row `r`'s share of the window.
pub open spec fn spec_block_ye(g: TileAttributes, my: int, r: int) -> int {
    let e = (r + 1) * g.tile_length;
    if e < my {
        e
    } else {
        my
    }
}

/// How many window pixels the traversal emits after the one at `(x, y)`:
/// the rest of the current row of the current chunk's share, the rows of
/// that share below, the shares of the chunk columns to the right in the
/// same chunk row, and all full window rows in chunk rows below.
pub open spec fn spec_pos_rank(
    g: TileAttributes,
    minx: int,
    miny: int,
    mx: int,
    my: int,
    x: int,
    y: int,
) -> int {
    let tw = g.tile_width as int;
    let tl = g.tile_length as int;
    let c = x / tw;
    let r = y / tl;
    let xs = spec_block_xs(g, minx, c);
    let xe = spec_block_xe(g, mx, c);
    let ys = spec_block_ys(g, miny, r);
    let ye = spec_block_ye(g, my, r);
    (xe - 1 - x) + (ye - 1 - y) * (xe - xs) + (if (c + 1) * tw < mx {
        (mx - (c + 1) * tw) * (ye - ys)
    } else {
        0
    }) + (if ye < my {
        (my - ye) * (mx - minx)
    } else {
        0
    })
}

/// A window the traversal accepts: nonempty in its effective form and
/// contained in a well-formed grid's image.
pub open spec fn spec_window_ok(g: TileAttributes, minx: int, miny: int, mx: int, my: int) -> bool {
    &&& g.wf()
    &&& 0 <= minx < mx <= g.image_width
    &&& 0 <= miny < my <= g.image_height
}

/// A pixel position the traversal can be at.
pub open spec fn spec_pos_ok(minx: int, miny: int, mx: int, my: int, x: int, y: int) -> bool {
    &&& minx <= x < mx
    &&& miny <= y < my
}

/// Facts every traversal position enjoys: it sits inside its chunk's
/// share of the window, so the rank terms are nonnegative.
proof fn lemma_pos_block_bounds(
    g: TileAttributes,
    minx: int,
    miny: int,
    mx: int,
    my: int,
    x: int,
    y: int,
)
    requires
        spec_window_ok(g, minx, miny, mx, my),
        spec_pos_ok(minx, miny, mx, my, x, y),
    ensures
        spec_block_xs(g, minx, x / (g.tile_width as int)) <= x < spec_block_xe(
            g,
            mx,
            x / (g.tile_width as int),
        ),
        spec_block_ys(g, miny, y / (g.tile_length as int)) <= y < spec_block_ye(
            g,
            my,
            y / (g.tile_length as int),
        ),
        spec_pos_rank(g, minx, miny, mx, my, x, y) >= 0,
{
    let tw = g.tile_width as int;
    let tl = g.tile_length as int;
    let c = x / tw;
    let r = y / tl;
    vstd::arithmetic::div_mod::lemma_fundamental_div_mod(x, tw);
    vstd::arithmetic::div_mod::lemma_mod_bound(x, tw);
    vstd::arithmetic::div_mod::lemma_fundamental_div_mod(y, tl);
    vstd::arithmetic::div_mod::lemma_mod_bound(y, tl);
    assert(c * tw <= x < (c + 1) * tw) by (nonlinear_arith)
        requires
            x == tw * c + x % tw,
            0 <= x % tw < tw,
    ;
    assert(r * tl <= y < (r + 1) * tl) by (nonlinear_arith)
        requires
            y == tl * r + y % tl,
            0 <= y % tl < tl,
    ;
    let xs = spec_block_xs(g, minx, c);
    let xe = spec_block_xe(g, mx, c);
    let ys = spec_block_ys(g, miny, r);
    let ye = spec_block_ye(g, my, r);
    assert((ye - 1 - y) * (xe - xs) >= 0) by (nonlinear_arith)
        requires
            ye - 1 - y >= 0,
            xe - xs >= 0,
    ;
    if (c + 1) * tw < mx {
        assert((mx - (c + 1) * tw) * (ye - ys) >= 0) by (nonlinear_arith)
            requires
                mx - (c + 1) * tw >= 0,
                ye - ys >= 0,
        ;
    }
    if ye < my {
        assert((my - ye) * (mx - minx) >= 0) by (nonlinear_arith)
            requires
                my - ye >= 0,
                mx - minx >= 0,
        ;
    }
}

/// The starting position of a traversal has rank `width * height - 1`:
/// everything but the first pixel is still to come.
proof fn lemma_initial_rank(g: TileAttributes, minx: int, miny: int, mx: int, my: int)
    requires
        spec_window_ok(g, minx, miny, mx, my),
    ensures
        spec_pos_rank(g, minx, miny, mx, my, minx, miny) == (mx - minx) * (my - miny) - 1,
{
    let tw = g.tile_width as int;
    let tl = g.tile_length as int;
    let c = minx / tw;
    let r = miny / tl;
    lemma_pos_block_bounds(g, minx, miny, mx, my, minx, miny);
    let xs = spec_block_xs(g, minx, c);
    let xe = spec_block_xe(g, mx, c);
    let ys = spec_block_ys(g, miny, r);
    let ye = spec_block_ye(g, my, r);
    assert(xs == minx);
    assert(ys == miny);
    let remc = if (c + 1) * tw < mx {
        mx - (c + 1) * tw
    } else {
        0
    };
    assert(remc == mx - xe);
    let remr = if ye < my {
        my - ye
    } else {
        0
    };
    assert(remr == my - ye);
    assert((xe - 1 - minx) + (ye - 1 - miny) * (xe - minx) + (mx - xe) * (ye - miny) + (my - ye) * (
    mx - minx) == (mx - minx) * (my - miny) - 1) by (nonlinear_arith);
}

/// When the pixel cannot move right (it sits at its chunk's right edge or
/// at the window's right edge), the right edge of its chunk's share of the
/// window is exactly the next column.
proof fn lemma_xe_at_edge(g: TileAttributes, minx: int, mx: int, x: int)
    requires
        g.wf(),
        0 <= x < mx,
        !(x % (g.tile_width as int) < g.tile_width - 1 && x + 1 < mx),
    ensures
        spec_block_xe(g, mx, x / (g.tile_width as int)) == x + 1,
{
    let tw = g.tile_width as int;
    let c = x / tw;
    vstd::arithmetic::div_mod::lemma_fundamental_div_mod(x, tw);
    vstd::arithmetic::div_mod::lemma_mod_bound(x, tw);
    assert(c * tw <= x < (c + 1) * tw) by (nonlinear_arith)
        requires
            x == tw * c + x % tw,
            0 <= x % tw < tw,
    ;
    if x % tw >= tw - 1 {
        assert(x + 1 == (c + 1) * tw) by (nonlinear_arith)
            requires
                x == tw * c + x % tw,
                x % tw == tw - 1,
        ;
    }
}

/// The vertical counterpart of [`lemma_xe_at_edge`].
proof fn lemma_ye_at_edge(g: TileAttributes, miny: int, my: int, y: int)
    requires
        g.wf(),
        0 <= y < my,
        !(y % (g.tile_length as int) + 1 < g.tile_length && y + 1 < my),
    ensures
        spec_block_ye(g, my, y / (g.tile_length as int)) == y + 1,
{
    let tl = g.tile_length as int;
    let r = y / tl;
    vstd::arithmetic::div_mod::lemma_fundamental_div_mod(y, tl);
    vstd::arithmetic::div_mod::lemma_mod_bound(y, tl);
    assert(r * tl <= y < (r + 1) * tl) by (nonlinear_arith)
        requires
            y == tl * r + y % tl,
            0 <= y % tl < tl,
    ;
    if y % tl + 1 >= tl {
        assert(y + 1 == (r + 1) * tl) by (nonlinear_arith)
            requires
                y == tl * r + y % tl,
                y % tl == tl - 1,
        ;
    }
}

/// Advancing right inside the chunk row: the position stays in the same
/// chunk, the in-chunk offset moves by one pixel's samples, and the rank
/// drops by one.
proof fn lemma_step_right(
    g: TileAttributes,
    minx: int,
    miny: int,
    mx: int,
    my: int,
    x: int,
    y: int,
    idx: int,
    spp: int,
)
    requires
        spec_window_ok(g, minx, miny, mx, my),
        spec_pos_ok(minx, miny, mx, my, x, y),
        x % (g.tile_width as int) < g.tile_width - 1,
        x + 1 < mx,
    ensures
        (x + 1) / (g.tile_width as int) == x / (g.tile_width as int),
        (x + 1) % (g.tile_width as int) == x % (g.tile_width as int) + 1,
        spec_pos_ok(minx, miny, mx, my, x + 1, y),
        g.spec_chunk_offset(idx, x + 1, y, spp) == g.spec_chunk_offset(idx, x, y, spp) + spp,
        spec_pos_rank(g, minx, miny, mx, my, x + 1, y) == spec_pos_rank(
            g,
            minx,
            miny,
            mx,
            my,
            x,
            y,
        ) - 1,
{
    let tw = g.tile_width as int;
    let tl = g.tile_length as int;
    let c = x / tw;
    vstd::arithmetic::div_mod::lemma_fundamental_div_mod(x, tw);
    vstd::arithmetic::div_mod::lemma_mod_bound(x, tw);
    vstd::arithmetic::div_mod::lemma_fundamental_div_mod_converse_div(
        x + 1,
        tw,
        c,
        x % tw + 1,
    );
    vstd::arithmetic::div_mod::lemma_fundamental_div_mod_converse_mod(
        x + 1,
        tw,
        c,
        x % tw + 1,
    );
    let w = g.tile_width - g.spec_padding(idx).0;
    assert(((y % tl) * w + (x % tw + 1)) * spp == ((y % tl) * w + x % tw) * spp + spp)
        by (nonlinear_arith);
}

/// Advancing to the next row of the chunk's share of the window: the
/// pixel column resets to the share's left edge, the chunk stays the
/// same, and the rank drops by one.
proof fn lemma_step_down(
    g: TileAttributes,
    minx: int,
    miny: int,
    mx: int,
    my: int,
    x: int,
    y: int,
)
    requires
        spec_window_ok(g, minx, miny, mx, my),
        spec_pos_ok(minx, miny, mx, my, x, y),
        !(x % (g.tile_width as int) < g.tile_width - 1 && x + 1 < mx),
        y % (g.tile_length as int) + 1 < g.tile_length,
        y + 1 < my,
    ensures
        (y + 1) / (g.tile_length as int) == y / (g.tile_length as int),
        spec_block_xs(g, minx, x / (g.tile_width as int)) / (g.tile_width as int) == x / (
        g.tile_width as int),
        spec_pos_ok(
            minx,
            miny,
            mx,
            my,
            spec_block_xs(g, minx, x / (g.tile_width as int)),
            y + 1,
        ),
        spec_pos_rank(
            g,
            minx,
            miny,
            mx,
            my,
            spec_block_xs(g, minx, x / (g.tile_width as int)),
            y + 1,
        ) == spec_pos_rank(g, minx, miny, mx, my, x, y) - 1,
{
    let tw = g.tile_width as int;
    let tl = g.tile_length as int;
    let c = x / tw;
    let r = y / tl;
    lemma_pos_block_bounds(g, minx, miny, mx, my, x, y);
    lemma_xe_at_edge(g, minx, mx, x);
    vstd::arithmetic::div_mod::lemma_fundamental_div_mod(x, tw);
    vstd::arithmetic::div_mod::lemma_mod_bound(x, tw);
    vstd::arithmetic::div_mod::lemma_fundamental_div_mod(y, tl);
    vstd::arithmetic::div_mod::lemma_mod_bound(y, tl);
    vstd::arithmetic::div_mod::lemma_fundamental_div_mod_converse_div(
        y + 1,
        tl,
        r,
        y % tl + 1,
    );
    let xs = spec_block_xs(g, minx, c);
    assert(c * tw <= x < (c + 1) * tw) by (nonlinear_arith)
        requires
            x == tw * c + x % tw,
            0 <= x % tw < tw,
    ;
    assert(c * tw <= xs <= x);
    vstd::arithmetic::div_mod::lemma_fundamental_div_mod_converse_div(
        xs,
        tw,
        c,
        xs - c * tw,
    );
    let xe = spec_block_xe(g, mx, c);
    let ys = spec_block_ys(g, miny, r);
    let ye = spec_block_ye(g, my, r);
    assert(xe == x + 1);
    assert((ye - 1 - y) * (xe - xs) - (ye - 1 - (y + 1)) * (xe - xs) == xe - xs)
        by (nonlinear_arith);
}

/// Advancing to the next chunk column of the window: the pixel moves one
/// column right into the next chunk, the row resets to the top of the
/// chunk row's share, and the rank drops by one.
proof fn lemma_step_next_col(
    g: TileAttributes,
    minx: int,
    miny: int,
    mx: int,
    my: int,
    x: int,
    y: int,
)
    requires
        spec_window_ok(g, minx, miny, mx, my),
        spec_pos_ok(minx, miny, mx, my, x, y),
        !(x % (g.tile_width as int) < g.tile_width - 1 && x + 1 < mx),
        !(y % (g.tile_length as int) + 1 < g.tile_length && y + 1 < my),
        x + 1 < mx,
    ensures
        (x + 1) / (g.tile_width as int) == x / (g.tile_width as int) + 1,
        spec_block_ys(g, miny, y / (g.tile_length as int)) / (g.tile_length as int) == y / (
        g.tile_length as int),
        spec_pos_ok(
            minx,
            miny,
            mx,
            my,
            x + 1,
            spec_block_ys(g, miny, y / (g.tile_length as int)),
        ),
        spec_pos_rank(
            g,
            minx,
            miny,
            mx,
            my,
            x + 1,
            spec_block_ys(g, miny, y / (g.tile_length as int)),
        ) == spec_pos_rank(g, minx, miny, mx, my, x, y) - 1,
{
    let tw = g.tile_width as int;
    let tl = g.tile_length as int;
    let c = x / tw;
    let r = y / tl;
    lemma_pos_block_bounds(g, minx, miny, mx, my, x, y);
    lemma_xe_at_edge(g, minx, mx, x);
    lemma_ye_at_edge(g, miny, my, y);
    vstd::arithmetic::div_mod::lemma_fundamental_div_mod(x, tw);
    vstd::arithmetic::div_mod::lemma_mod_bound(x, tw);
    vstd::arithmetic::div_mod::lemma_fundamental_div_mod(y, tl);
    vstd::arithmetic::div_mod::lemma_mod_bound(y, tl);
    let xs = spec_block_xs(g, minx, c);
    let xe = spec_block_xe(g, mx, c);
    let ys = spec_block_ys(g, miny, r);
    let ye = spec_block_ye(g, my, r);
    // the right edge of the current share is a chunk boundary, since the
    // window continues to its right
    assert(xe == x + 1 && xe == (c + 1) * tw);
    vstd::arithmetic::div_mod::lemma_fundamental_div_mod_converse_div(x + 1, tw, c + 1, 0);
    assert(r * tl <= ys <= y && ys >= miny);
    vstd::arithmetic::div_mod::lemma_fundamental_div_mod_converse_div(
        ys,
        tl,
        r,
        ys - r * tl,
    );
    let xsn = spec_block_xs(g, minx, c + 1);
    assert(xsn == x + 1);
    let xen = spec_block_xe(g, mx, c + 1);
    let bh = ye - ys;
    assert(ye == y + 1);
    assert((ye - 1 - y) * (xe - xs) == 0) by (nonlinear_arith)
        requires
            ye - 1 - y == 0,
    ;
    assert((c + 2) * tw == (c + 1) * tw + tw) by (nonlinear_arith);
    assert(1 <= bh);
    if (c + 2) * tw < mx {
        assert((mx - (c + 1) * tw) * bh - ((xen - 1 - (x + 1)) + (bh - 1) * (xen - xsn) + (mx - (
        c + 2) * tw) * bh) == 1) by (nonlinear_arith)
            requires
                xen == (c + 2) * tw,
                xsn == x + 1,
                x + 1 == (c + 1) * tw,
                bh >= 1,
        ;
    } else {
        assert((mx - (c + 1) * tw) * bh - ((xen - 1 - (x + 1)) + (bh - 1) * (xen - xsn)) == 1)
            by (nonlinear_arith)
            requires
                xen == mx,
                xsn == x + 1,
                x + 1 == (c + 1) * tw,
                bh >= 1,
        ;
    }
}

/// Advancing to the next chunk row of the window: the pixel moves to the
/// window's left edge one row down, and the rank drops by one.
proof fn lemma_step_next_row(
    g: TileAttributes,
    minx: int,
    miny: int,
    mx: int,
    my: int,
    x: int,
    y: int,
)
    requires
        spec_window_ok(g, minx, miny, mx, my),
        spec_pos_ok(minx, miny, mx, my, x, y),
        !(x % (g.tile_width as int) < g.tile_width - 1 && x + 1 < mx),
        !(y % (g.tile_length as int) + 1 < g.tile_length && y + 1 < my),
        x + 1 >= mx,
        y + 1 < my,
    ensures
        (y + 1) / (g.tile_length as int) == y / (g.tile_length as int) + 1,
        spec_pos_ok(minx, miny, mx, my, minx, y + 1),
        spec_pos_rank(g, minx, miny, mx, my, minx, y + 1) == spec_pos_rank(
            g,
            minx,
            miny,
            mx,
            my,
            x,
            y,
        ) - 1,
{
    let tw = g.tile_width as int;
    let tl = g.tile_length as int;
    let c = x / tw;
    let r = y / tl;
    lemma_pos_block_bounds(g, minx, miny, mx, my, x, y);
    lemma_xe_at_edge(g, minx, mx, x);
    lemma_ye_at_edge(g, miny, my, y);
    vstd::arithmetic::div_mod::lemma_fundamental_div_mod(y, tl);
    vstd::arithmetic::div_mod::lemma_mod_bound(y, tl);
    let xe = spec_block_xe(g, mx, c);
    let ye = spec_block_ye(g, my, r);
    assert(xe == x + 1 && x + 1 == mx);
    assert(ye == y + 1 && y + 1 == (r + 1) * tl);
    vstd::arithmetic::div_mod::lemma_fundamental_div_mod_converse_div(y + 1, tl, r + 1, 0);
    let c0 = minx / tw;
    vstd::arithmetic::div_mod::lemma_fundamental_div_mod(minx, tw);
    vstd::arithmetic::div_mod::lemma_mod_bound(minx, tw);
    assert(c0 * tw <= minx < (c0 + 1) * tw) by (nonlinear_arith)
        requires
            minx == tw * c0 + minx % tw,
            0 <= minx % tw < tw,
    ;
    let xs0 = spec_block_xs(g, minx, c0);
    let xe0 = spec_block_xe(g, mx, c0);
    assert(xs0 == minx);
    let ysn = spec_block_ys(g, miny, r + 1);
    let yen = spec_block_ye(g, my, r + 1);
    assert(ysn == y + 1);
    assert((ye - 1 - y) * (xe - spec_block_xs(g, minx, c)) == 0) by (nonlinear_arith)
        requires
            ye - 1 - y == 0,
    ;
    assert((r + 2) * tl == (r + 1) * tl + tl) by (nonlinear_arith);
    let bh = yen - (y + 1);
    assert(1 <= bh);
    assert(yen <= my);
    if (c0 + 1) * tw >= mx {
        assert((mx - xe0) * bh == 0) by (nonlinear_arith)
            requires
                mx == xe0,
        ;
    }
    if yen >= my {
        assert((my - yen) * (mx - minx) == 0) by (nonlinear_arith)
            requires
                my == yen,
        ;
    }
    assert((xe0 - 1 - minx) + (bh - 1) * (xe0 - minx) + (mx - xe0) * bh + (my - yen) * (mx - minx)
        == (my - (y + 1)) * (mx - minx) - 1) by (nonlinear_arith)
        requires
            bh == yen - (y + 1),
            yen <= my,
    ;
}

/// When no advance is possible the rank is zero: the traversal has
/// emitted the whole window.
proof fn lemma_step_exhausted(
    g: TileAttributes,
    minx: int,
    miny: int,
    mx: int,
    my: int,
    x: int,
    y: int,
)
    requires
        spec_window_ok(g, minx, miny, mx, my),
        spec_pos_ok(minx, miny, mx, my, x, y),
        !(x % (g.tile_width as int) < g.tile_width - 1 && x + 1 < mx),
        !(y % (g.tile_length as int) + 1 < g.tile_length && y + 1 < my),
        x + 1 >= mx,
        y + 1 >= my,
    ensures
        spec_pos_rank(g, minx, miny, mx, my, x, y) == 0,
{
    let tw = g.tile_width as int;
    let tl = g.tile_length as int;
    let c = x / tw;
    let r = y / tl;
    lemma_pos_block_bounds(g, minx, miny, mx, my, x, y);
    lemma_xe_at_edge(g, minx, mx, x);
    lemma_ye_at_edge(g, miny, my, y);
    let xe = spec_block_xe(g, mx, c);
    let ye = spec_block_ye(g, my, r);
    assert(xe == x + 1 && x + 1 == mx);
    assert(ye == y + 1 && y + 1 == my);
    assert((ye - 1 - y) * (xe - spec_block_xs(g, minx, c)) == 0) by (nonlinear_arith)
        requires
            ye - 1 - y == 0,
    ;
}

/// Under a faithful layout the chunk bookkeeping recovers the pixel's own
/// chunk column, and, when the band's index offset is zero, its chunk row.
proof fn lemma_faithful_col_row(g: TileAttributes, x: int, y: int, band: int)
    requires
        g.wf(),
        0 <= x < g.image_width,
        0 <= y < g.image_height,
        0 <= band,
        g.spec_band_offset(band) == 0 || g.spec_tiles_across() == 1,
    ensures
        g.spec_chunk_index(x, y, band) % g.spec_tiles_across() == x / (g.tile_width as int),
        g.spec_band_offset(band) == 0 ==> g.spec_chunk_index(x, y, band)
            / g.spec_tiles_across() == y / (g.tile_length as int),
        0 <= x / (g.tile_width as int) < g.spec_tiles_across(),
        0 <= y / (g.tile_length as int),
{
    let tw = g.tile_width as int;
    let tl = g.tile_length as int;
    let w = g.image_width as int;
    let ta = g.spec_tiles_across();
    let c = x / tw;
    let rr = y / tl;
    vstd::arithmetic::div_mod::lemma_div_plus_one(w - 1, tw);
    vstd::arithmetic::div_mod::lemma_div_is_ordered(x, w - 1, tw);
    vstd::arithmetic::div_mod::lemma_div_pos_is_pos(x, tw);
    vstd::arithmetic::div_mod::lemma_div_pos_is_pos(w - 1, tw);
    vstd::arithmetic::div_mod::lemma_div_pos_is_pos(y, tl);
    assert(0 <= c < ta);
    let idx = g.spec_chunk_index(x, y, band);
    if g.spec_band_offset(band) == 0 {
        assert(idx == rr * ta + c);
        vstd::arithmetic::div_mod::lemma_fundamental_div_mod_converse(idx, ta, rr, c);
    } else {
        assert(ta == 1);
        assert(c == 0);
        vstd::arithmetic::div_mod::lemma_mod_bound(idx, 1);
    }
}

impl Pixels {
    /// Fetch the chunk holding the current pixel position and recompute
    /// the chunk bookkeeping and in-chunk offset.
    fn load_chunk(&mut self, reader: &RasterReader)
        requires
            old(self).for_reader(*reader),
            old(self).faithful(),
            old(self).min_x <= old(self).max_x,
            old(self).min_y <= old(self).max_y,
            (old(self).min_x < old(self).dims.image_width && old(self).min_y < old(
                self,
            ).dims.image_height) ==> (old(self).eff_max_x() <= old(self).dims.image_width && old(
                self,
            ).eff_max_y() <= old(self).dims.image_height),
            old(self).min_x < old(self).dims.image_width,
            old(self).min_y < old(self).dims.image_height,
            old(self).min_x <= old(self).x < old(self).eff_max_x(),
            old(self).min_y <= old(self).y < old(self).eff_max_y(),
            old(self).x < old(self).dims.image_width,
            old(self).y < old(self).dims.image_height,
        ensures
            final(self).inv(*reader),
            final(self).loaded,
            *final(self) == (Pixels {
                loaded: true,
                chunk_index: final(self).chunk_index,
                offset: final(self).offset,
                col: final(self).col,
                row: final(self).row,
                ..*old(self)
            }),
    {
        proof {
            reader.lemma_pixel_chunk_in_store(self.x as int, self.y as int);
        }
        let chunk_index = self.dims.get_chunk_index(self.x, self.y, self.band_idx);
        let tiles_across = self.dims.tiles_across();
        proof {
            vstd::arithmetic::div_mod::lemma_mod_bound(
                chunk_index as int,
                self.dims.spec_tiles_across(),
            );
            vstd::arithmetic::div_mod::lemma_div_pos_is_pos(
                chunk_index as int,
                self.dims.spec_tiles_across(),
            );
            vstd::arithmetic::div_mod::lemma_div_plus_one(
                self.dims.image_width - 1,
                self.dims.tile_width as int,
            );
            vstd::arithmetic::div_mod::lemma_div_nonincreasing(
                self.dims.image_width - 1,
                self.dims.tile_width as int,
            );
            assert(0 < self.dims.spec_tiles_across() <= self.dims.image_width);
        }
        self.row = chunk_index / (tiles_across as u32);
        self.col = chunk_index % (tiles_across as u32);
        self.chunk_index = chunk_index;
        self.offset = self.dims.get_chunk_offset(chunk_index, self.x, self.y, self.spp);
        self.loaded = true;
    }

    /// Advance to the next pixel of the window and return it with its
    /// value, or `None` once the window is exhausted.
    ///
    /// The first advance emits the window's starting pixel after loading
    /// its chunk, provided the start lies inside the image; otherwise
    /// nothing is ever emitted. Each later advance moves right within the
    /// chunk row, else down within the chunk's share of the window, else
    /// on to the next chunk. Every emitted value equals what
    /// [`RasterReader::read_pixel`] returns for the same position.
    pub fn next(&mut self, reader: &RasterReader) -> (r: Option<(u32, u32, RasterValue)>)
        requires
            old(self).inv(*reader),
        ensures
            final(self).inv(*reader),
            final(self).dims == old(self).dims,
            final(self).spp == old(self).spp,
            final(self).band_idx == old(self).band_idx,
            final(self).min_x == old(self).min_x,
            final(self).min_y == old(self).min_y,
            final(self).max_x == old(self).max_x,
            final(self).max_y == old(self).max_y,
            match r {
                Some(item) => {
                    &&& final(self).loaded
                    &&& old(self).cursor_rank() > 0
                    &&& final(self).cursor_rank() == old(self).cursor_rank() - 1
                    &&& item.0 == final(self).x && item.1 == final(self).y
                    &&& item.2 == reader.spec_read_pixel(
                        final(self).x as int,
                        final(self).y as int,
                    )
                    &&& !old(self).loaded ==> final(self).x == old(self).min_x
                        && final(self).y == old(self).min_y
                },
                None => {
                    &&& *final(self) == *old(self)
                    &&& old(self).cursor_rank() == 0
                },
            },
    {
        let ghost g = self.dims;
        let ghost minx = self.min_x as int;
        let ghost miny = self.min_y as int;
        let ghost mx = self.eff_max_x();
        let ghost my = self.eff_max_y();
        let ghost band = self.band_idx as int;
        if !self.loaded {
            if self.x as usize >= self.dims.image_width || self.y as usize
                >= self.dims.image_height {
                return None;
            }
            self.load_chunk(reader);
            proof {
                lemma_initial_rank(g, minx, miny, mx, my);
                assert((mx - minx) * (my - miny) >= 1) by (nonlinear_arith)
                    requires
                        mx - minx >= 1,
                        my - miny >= 1,
                ;
            }
        } else {
            let w_t = self.dims.tile_width;
            let h_t = self.dims.tile_length;
            let ghost x0 = self.x as int;
            let ghost y0 = self.y as int;
            proof {
                assert((self.x + 1 < self.max_x) == (x0 + 1 < mx));
                assert((self.y + 1 < self.max_y) == (y0 + 1 < my));
            }
            if (self.x as usize) % w_t < w_t - 1 && self.x + 1 < self.max_x {
                // advance within the chunk row
                proof {
                    lemma_step_right(
                        g,
                        minx,
                        miny,
                        mx,
                        my,
                        x0,
                        y0,
                        self.chunk_index as int,
                        self.spp as int,
                    );
                    reader.lemma_pixel_chunk_in_store(x0, y0);
                    crate::grid::lemma_chunk_offset_fits(
                        g,
                        self.chunk_index as int,
                        x0 + 1,
                        y0,
                        self.spp as int,
                    );
                }
                self.x = self.x + 1;
                self.offset = self.offset + self.spp as usize;
            } else if (self.y as usize) % h_t + 1 < h_t && self.y + 1 < self.max_y {
                // advance to the next row of the chunk's share
                proof {
                    lemma_step_down(g, minx, miny, mx, my, x0, y0);
                    lemma_faithful_col_row(g, x0, y0, band);
                    lemma_pos_block_bounds(g, minx, miny, mx, my, x0, y0);
                }
                self.y = self.y + 1;
                let xw = self.col * (w_t as u32);
                self.x = if xw > self.min_x {
                    xw
                } else {
                    self.min_x
                };
                proof {
                    assert(self.x as int == spec_block_xs(g, minx, x0 / (g.tile_width as int)));
                    reader.lemma_pixel_chunk_in_store(self.x as int, self.y as int);
                }
                let chunk_index = self.dims.get_chunk_index(self.x, self.y, self.band_idx);
                proof {
                    assert(chunk_index == self.chunk_index);
                }
                self.offset = self.dims.get_chunk_offset(
                    chunk_index,
                    self.x,
                    self.y,
                    self.spp,
                );
            } else {
                // the chunk's share of the window is exhausted
                if self.x + 1 < self.max_x {
                    // next chunk column
                    proof {
                        lemma_pos_block_bounds(g, minx, miny, mx, my, x0, y0);
                        if g.spec_tiles_across() == 1 && g.spec_band_offset(band) != 0 {
                            // a one-column image cannot have a chunk edge
                            // left of the window's right edge
                            lemma_faithful_col_row(g, x0, y0, band);
                            vstd::arithmetic::div_mod::lemma_div_plus_one(
                                g.image_width - 1,
                                g.tile_width as int,
                            );
                            vstd::arithmetic::div_mod::lemma_div_pos_is_pos(
                                g.image_width - 1,
                                g.tile_width as int,
                            );
                            vstd::arithmetic::div_mod::lemma_small_div_converse(
                                g.image_width - 1,
                                g.tile_width as int,
                            );
                            vstd::arithmetic::div_mod::lemma_mod_bound(
                                x0,
                                g.tile_width as int,
                            );
                            vstd::arithmetic::div_mod::lemma_small_mod(
                                x0 as nat,
                                g.tile_width as nat,
                            );
                            assert(false);
                        }
                        lemma_step_next_col(g, minx, miny, mx, my, x0, y0);
                        lemma_faithful_col_row(g, x0, y0, band);
                    }
                    self.x = self.x + 1;
                    let yw = self.row * (h_t as u32);
                    self.y = if yw > self.min_y {
                        yw
                    } else {
                        self.min_y
                    };
                    proof {
                        assert(self.y as int == spec_block_ys(
                            g,
                            miny,
                            y0 / (g.tile_length as int),
                        ));
                    }
                } else if self.y + 1 < self.max_y {
                    // next chunk row
                    proof {
                        lemma_step_next_row(g, minx, miny, mx, my, x0, y0);
                    }
                    self.y = self.y + 1;
                    self.x = self.min_x;
                } else {
                    proof {
                        lemma_step_exhausted(g, minx, miny, mx, my, x0, y0);
                    }
                    return None;
                }
                self.load_chunk(reader);
            }
        }
        proof {
            reader.lemma_pixel_chunk_in_store(self.x as int, self.y as int);
            lemma_pos_block_bounds(g, minx, miny, mx, my, self.x as int, self.y as int);
        }
        let chunk = &reader.chunk_store[reader.cur_image_idx][self.chunk_index as usize];
        let val = raster_value(chunk, self.offset, self.spp);
        Some((self.x, self.y, val))
    }
}

/// The effective extent of a window side: a zero-sized side still spans
/// the starting pixel's row or column.
pub open spec fn spec_eff_len(n: u32) -> int {
    if n > 0 {
        n as int
    } else {
        1
    }
}

/// In a window contained in a single chunk the traversal is plain
/// row-major order, so a position determines, through its rank, its index
/// in the emitted sequence.
proof fn lemma_single_tile_pos(
    g: TileAttributes,
    minx: int,
    miny: int,
    mx: int,
    my: int,
    px: int,
    py: int,
)
    requires
        spec_window_ok(g, minx, miny, mx, my),
        spec_pos_ok(minx, miny, mx, my, px, py),
        mx <= (minx / (g.tile_width as int) + 1) * g.tile_width,
        my <= (miny / (g.tile_length as int) + 1) * g.tile_length,
    ensures
        ({
            let k = (mx - minx) * (my - miny) - 1 - spec_pos_rank(g, minx, miny, mx, my, px, py);
            px == minx + k % (mx - minx) && py == miny + k / (mx - minx)
        }),
{
    let tw = g.tile_width as int;
    let tl = g.tile_length as int;
    let c0 = minx / tw;
    let r0 = miny / tl;
    vstd::arithmetic::div_mod::lemma_fundamental_div_mod(minx, tw);
    vstd::arithmetic::div_mod::lemma_mod_bound(minx, tw);
    vstd::arithmetic::div_mod::lemma_fundamental_div_mod(miny, tl);
    vstd::arithmetic::div_mod::lemma_mod_bound(miny, tl);
    assert(c0 * tw <= minx) by (nonlinear_arith)
        requires
            minx == tw * c0 + minx % tw,
            minx % tw >= 0,
    ;
    assert(r0 * tl <= miny) by (nonlinear_arith)
        requires
            miny == tl * r0 + miny % tl,
            miny % tl >= 0,
    ;
    assert((c0 + 1) * tw == c0 * tw + tw) by (nonlinear_arith);
    assert((r0 + 1) * tl == r0 * tl + tl) by (nonlinear_arith);
    vstd::arithmetic::div_mod::lemma_fundamental_div_mod_converse(px, tw, c0, px - c0 * tw);
    vstd::arithmetic::div_mod::lemma_fundamental_div_mod_converse(py, tl, r0, py - r0 * tl);
    let rank = spec_pos_rank(g, minx, miny, mx, my, px, py);
    let wj = mx - minx;
    let k = wj * (my - miny) - 1 - rank;
    assert(k == (py - miny) * wj + (px - minx)) by (nonlinear_arith)
        requires
            rank == (mx - 1 - px) + (my - 1 - py) * (mx - minx),
            k == (mx - minx) * (my - miny) - 1 - rank,
            wj == mx - minx,
    ;
    vstd::arithmetic::div_mod::lemma_fundamental_div_mod_converse(
        k,
        wj,
        py - miny,
        px - minx,
    );
}

impl RasterReader {
    /// Return a cursor over the pixels of an image part: the window of
    /// `width * height` pixels starting at `(x, y)`, traversed chunk by
    /// chunk and row-major within each chunk's share.
    ///
    /// The window must lie inside the current image when its start does;
    /// a start outside the image yields an empty traversal. A window of
    /// zero width or height still visits the starting pixel's row or
    /// column. On planar images a band whose chunks do not start at index
    /// zero is traversable only when the image is striped.
    pub fn pixels(&self, x: u32, y: u32, width: u32, height: u32) -> (r: Pixels)
        requires
            self.wf(),
            self.band_ok(),
            x + width <= u32::MAX,
            y + height <= u32::MAX,
            (x < spec_grid(self.cur_info()).image_width && y < spec_grid(
                self.cur_info(),
            ).image_height) ==> (x + width <= spec_grid(self.cur_info()).image_width && y + height
                <= spec_grid(self.cur_info()).image_height),
            spec_grid(self.cur_info()).spec_band_offset(self.band_idx as int) == 0 || spec_grid(
                self.cur_info(),
            ).spec_tiles_across() == 1,
        ensures
            r.inv(*self),
            !r.loaded,
            r.dims == spec_grid(self.cur_info()),
            r.min_x == x,
            r.min_y == y,
            r.max_x == x + width,
            r.max_y == y + height,
    {
        let info = self.image_info();
        let dims = match info.dimensions {
            Some(d) => d,
            None => (0u32, 0u32),
        };
        let tiles = TileAttributes::from_dims(dims, info.chunk_dimensions, info.planar_config);
        let spp = self.spp();
        Pixels {
            loaded: false,
            chunk_index: 0,
            offset: 0,
            x,
            y,
            col: 0,
            row: 0,
            dims: tiles,
            spp,
            band_idx: self.band_idx,
            min_x: x,
            min_y: y,
            max_x: x + width,
            max_y: y + height,
        }
    }

    /// Collect the whole traversal of [`RasterReader::pixels`] into a
    /// vector of `(x, y, value)` triples.
    ///
    /// For a window starting inside the image the result holds exactly
    /// `width * height` entries (a zero-sized side counting as one), each
    /// position appears at most once, and every entry carries the value
    /// [`RasterReader::read_pixel`] returns for its position. For a window
    /// contained in a single chunk the entries are in row-major order.
    pub fn pixels_vec(&self, x: u32, y: u32, width: u32, height: u32) -> (r: Vec<
        (u32, u32, RasterValue),
    >)
        requires
            self.wf(),
            self.band_ok(),
            x + width <= u32::MAX,
            y + height <= u32::MAX,
            (x < spec_grid(self.cur_info()).image_width && y < spec_grid(
                self.cur_info(),
            ).image_height) ==> (x + width <= spec_grid(self.cur_info()).image_width && y + height
                <= spec_grid(self.cur_info()).image_height),
            spec_grid(self.cur_info()).spec_band_offset(self.band_idx as int) == 0 || spec_grid(
                self.cur_info(),
            ).spec_tiles_across() == 1,
        ensures
            (x >= spec_grid(self.cur_info()).image_width || y >= spec_grid(
                self.cur_info(),
            ).image_height) ==> r@.len() == 0,
            (x < spec_grid(self.cur_info()).image_width && y < spec_grid(
                self.cur_info(),
            ).image_height) ==> r@.len() == spec_eff_len(width) * spec_eff_len(height),
            forall|k: int|
                0 <= k < r@.len() ==> {
                    &&& x <= (#[trigger] r@[k]).0
                    &&& r@[k].0 < x + spec_eff_len(width)
                    &&& y <= r@[k].1
                    &&& r@[k].1 < y + spec_eff_len(height)
                    &&& r@[k].2 == self.spec_read_pixel(r@[k].0 as int, r@[k].1 as int)
                },
            forall|k1: int, k2: int|
                0 <= k1 < k2 < r@.len() ==> !((#[trigger] r@[k1]).0 == (#[trigger] r@[k2]).0
                    && r@[k1].1 == r@[k2].1),
            (x < spec_grid(self.cur_info()).image_width && y < spec_grid(
                self.cur_info(),
            ).image_height && x + spec_eff_len(width) <= ((x as int) / (spec_grid(
                self.cur_info(),
            ).tile_width as int) + 1) * spec_grid(self.cur_info()).tile_width && y + spec_eff_len(
                height,
            ) <= ((y as int) / (spec_grid(self.cur_info()).tile_length as int) + 1) * spec_grid(
                self.cur_info(),
            ).tile_length) ==> forall|k: int|
                0 <= k < r@.len() ==> (#[trigger] r@[k]).0 == x + k % spec_eff_len(width)
                    && r@[k].1 == y + k / spec_eff_len(width),
    {
        let mut cursor = self.pixels(x, y, width, height);
        let ghost g = cursor.dims;
        let ghost mx = cursor.eff_max_x();
        let ghost my = cursor.eff_max_y();
        let ghost total: int = if x < g.image_width && y < g.image_height {
            cursor.total_count()
        } else {
            0
        };
        proof {
            assert((mx - x) * (my - y) >= 1) by (nonlinear_arith)
                requires
                    mx - x >= 1,
                    my - y >= 1,
            ;
        }
        let mut out: Vec<(u32, u32, RasterValue)> = Vec::new();
        loop
            invariant_except_break
                cursor.inv(*self),
                cursor.dims == g,
                cursor.min_x == x,
                cursor.min_y == y,
                cursor.max_x == x + width,
                cursor.max_y == y + height,
                cursor.cursor_rank() >= 0,
                mx == cursor.eff_max_x(),
                my == cursor.eff_max_y(),
                total == (if x < g.image_width && y < g.image_height {
                    (mx - x) * (my - y)
                } else {
                    0
                }),
                out@.len() + cursor.cursor_rank() == total,
                0 <= total,
                forall|k: int|
                    0 <= k < out@.len() ==> {
                        &&& spec_pos_ok(
                            x as int,
                            y as int,
                            mx,
                            my,
                            (#[trigger] out@[k]).0 as int,
                            out@[k].1 as int,
                        )
                        &&& out@[k].2 == self.spec_read_pixel(
                            out@[k].0 as int,
                            out@[k].1 as int,
                        )
                        &&& spec_pos_rank(
                            g,
                            x as int,
                            y as int,
                            mx,
                            my,
                            out@[k].0 as int,
                            out@[k].1 as int,
                        ) == total - 1 - k
                    },
            ensures
                out@.len() == total,
                forall|k: int|
                    0 <= k < out@.len() ==> {
                        &&& spec_pos_ok(
                            x as int,
                            y as int,
                            mx,
                            my,
                            (#[trigger] out@[k]).0 as int,
                            out@[k].1 as int,
                        )
                        &&& out@[k].2 == self.spec_read_pixel(
                            out@[k].0 as int,
                            out@[k].1 as int,
                        )
                        &&& spec_pos_rank(
                            g,
                            x as int,
                            y as int,
                            mx,
                            my,
                            out@[k].0 as int,
                            out@[k].1 as int,
                        ) == total - 1 - k
                    },
            decreases cursor.cursor_rank(),
        {
            let ghost old_out = out@;
            let ghost old_rank = cursor.cursor_rank();
            match cursor.next(self) {
                Some(item) => {
                    out.push(item);
                    proof {
                        assert forall|k: int| 0 <= k < out@.len() implies {
                            &&& spec_pos_ok(
                                x as int,
                                y as int,
                                mx,
                                my,
                                (#[trigger] out@[k]).0 as int,
                                out@[k].1 as int,
                            )
                            &&& out@[k].2 == self.spec_read_pixel(
                                out@[k].0 as int,
                                out@[k].1 as int,
                            )
                            &&& spec_pos_rank(
                                g,
                                x as int,
                                y as int,
                                mx,
                                my,
                                out@[k].0 as int,
                                out@[k].1 as int,
                            ) == total - 1 - k
                        } by {
                            assert(out@ == old_out.push(item));
                            if k < old_out.len() {
                                assert(out@[k] == old_out[k]);
                            } else {
                                assert(out@[k] == item);
                                assert(item.0 == cursor.x && item.1 == cursor.y);
                                assert(cursor.eff_max_x() == mx && cursor.eff_max_y() == my);
                                assert(cursor.min_x <= cursor.x < cursor.eff_max_x());
                                assert(cursor.min_y <= cursor.y < cursor.eff_max_y());
                                assert(cursor.cursor_rank() == spec_pos_rank(
                                    g,
                                    x as int,
                                    y as int,
                                    mx,
                                    my,
                                    cursor.x as int,
                                    cursor.y as int,
                                ));
                                assert(cursor.cursor_rank() == old_rank - 1);
                                assert(k == old_out.len());
                            }
                        }
                    }
                },
                None => {
                    break ;
                },
            }
        }
        proof {
            assert forall|k1: int, k2: int| 0 <= k1 < k2 < out@.len() implies !((
            #[trigger] out@[k1]).0 == (#[trigger] out@[k2]).0 && out@[k1].1 == out@[k2].1) by {
                if out@[k1].0 == out@[k2].0 && out@[k1].1 == out@[k2].1 {
                    assert(spec_pos_rank(
                        g,
                        x as int,
                        y as int,
                        mx,
                        my,
                        out@[k1].0 as int,
                        out@[k1].1 as int,
                    ) == total - 1 - k1);
                    assert(spec_pos_rank(
                        g,
                        x as int,
                        y as int,
                        mx,
                        my,
                        out@[k2].0 as int,
                        out@[k2].1 as int,
                    ) == total - 1 - k2);
                }
            }
            if x < g.image_width && y < g.image_height && x + spec_eff_len(width) <= ((
            x as int) / (g.tile_width as int) + 1) * g.tile_width && y + spec_eff_len(height) <= ((
            y as int) / (g.tile_length as int) + 1) * g.tile_length {
                assert forall|k: int| 0 <= k < out@.len() implies (#[trigger] out@[k]).0 == x + k
                    % spec_eff_len(width) && out@[k].1 == y + k / spec_eff_len(width) by {
                    lemma_single_tile_pos(
                        g,
                        x as int,
                        y as int,
                        mx,
                        my,
                        out@[k].0 as int,
                        out@[k].1 as int,
                    );
                }
            }
        }
        out
    }
}

} // verus!

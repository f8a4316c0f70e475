//! Pure raster geometry: chunk (tile or stripe) counts, boundary padding,
//! and the mapping from a pixel position to a chunk index and an offset
//! inside the chunk's flat sample buffer.

use vstd::prelude::*;

verus! {

/// How the samples of a multi-band image are laid out in storage.
#[derive(Debug, Clone, Copy, PartialEq, Eq, Structural)]
pub enum PlanarConfiguration {
    /// All bands interleaved per pixel in the same chunk.
    Chunky,
    /// Each band stored in its own chunks.
    Planar,
}

/// Computed values useful for addressing tiles or stripes of one image.
///
/// Invariants expected by the addressing operations are collected in
/// [`TileAttributes::wf`]: nonzero chunk dimensions and dimensions that
/// fit the 32-bit ranges the metadata is read from.
#[derive(Debug, Clone, Copy, PartialEq, Eq, Structural)]
pub struct TileAttributes {
    pub image_width: usize,
    pub image_height: usize,
    pub tile_width: usize,
    pub tile_length: usize,
    pub planar_config: PlanarConfiguration,
}

impl TileAttributes {
    /// Well-formed grid: nonzero chunk dimensions, 32-bit sized metadata.
    pub open spec fn wf(self) -> bool {
        &&& 0 < self.tile_width <= u32::MAX
        &&& 0 < self.tile_length <= u32::MAX
        &&& self.image_width <= u32::MAX
        &&& self.image_height <= u32::MAX
    }

    /// Number of chunk columns: `ceil(image_width / tile_width)`.
    pub open spec fn spec_tiles_across(self) -> int {
        (self.image_width + self.tile_width - 1) / (self.tile_width as int)
    }

    /// Number of chunk rows: `ceil(image_height / tile_length)`.
    pub open spec fn spec_tiles_down(self) -> int {
        (self.image_height + self.tile_length - 1) / (self.tile_length as int)
    }

    /// Horizontal padding of the rightmost chunk column.
    pub open spec fn spec_padding_right(self) -> int {
        (self.tile_width - (self.image_width as int) % (self.tile_width as int)) % (
        self.tile_width as int)
    }

    /// Vertical padding of the bottom chunk row.
    pub open spec fn spec_padding_down(self) -> int {
        (self.tile_length - (self.image_height as int) % (self.tile_length as int)) % (
        self.tile_length as int)
    }

    /// Padding `(right, down)` of the chunk with the given index.
    pub open spec fn spec_padding(self, tile: int) -> (int, int) {
        let row = tile / self.spec_tiles_across();
        let column = tile % self.spec_tiles_across();
        (
            if column == self.spec_tiles_across() - 1 {
                self.spec_padding_right()
            } else {
                0
            },
            if row == self.spec_tiles_down() - 1 {
                self.spec_padding_down()
            } else {
                0
            },
        )
    }

    /// Index offset of the first chunk of the given band.
    ///
    /// For chunky layout every band lives in the same chunks, so the offset
    /// is zero. For planar layout the offset is
    /// `(image_height / tile_length) * band`: a stripe-oriented convention
    /// that equals `tiles_down * band` whole chunk rows per band exactly
    /// when the image height divides evenly by the chunk height.
    pub open spec fn spec_band_offset(self, band: int) -> int {
        match self.planar_config {
            PlanarConfiguration::Planar => ((self.image_height as int) / (self.tile_length as int)) * band,
            PlanarConfiguration::Chunky => 0,
        }
    }

    /// Chunk index of the pixel `(x, y)` for the given band, in row-major
    /// chunk order.
    pub open spec fn spec_chunk_index(self, x: int, y: int, band: int) -> int {
        self.spec_band_offset(band) + (y / (self.tile_length as int)) * self.spec_tiles_across()
            + x / (self.tile_width as int)
    }

    /// Element offset of pixel `(x, y)` inside the chunk with the given
    /// index, accounting for right boundary padding and `spp` interleaved
    /// samples per pixel.
    pub open spec fn spec_chunk_offset(self, idx: int, x: int, y: int, spp: int) -> int {
        let w = self.tile_width - self.spec_padding(idx).0;
        ((y % (self.tile_length as int)) * w + x % (self.tile_width as int)) * spp
    }

    pub fn from_dims(
        image_dims: (u32, u32),
        chunk_dims: (u32, u32),
        planar_config: Option<PlanarConfiguration>,
    ) -> (r: TileAttributes)
        ensures
            r.image_width == image_dims.0,
            r.image_height == image_dims.1,
            r.tile_width == chunk_dims.0,
            r.tile_length == chunk_dims.1,
            r.planar_config == (match planar_config {
                Some(p) => p,
                None => PlanarConfiguration::Chunky,
            }),
    {
        TileAttributes {
            image_width: image_dims.0 as usize,
            image_height: image_dims.1 as usize,
            tile_width: chunk_dims.0 as usize,
            tile_length: chunk_dims.1 as usize,
            planar_config: match planar_config {
                Some(p) => p,
                None => PlanarConfiguration::Chunky,
            },
        }
    }

    pub fn tiles_across(&self) -> (r: usize)
        requires
            self.wf(),
        ensures
            r == self.spec_tiles_across(),
    {
        if self.image_width == 0 {
            proof {
                vstd::arithmetic::div_mod::lemma_basic_div(
                    self.tile_width - 1,
                    self.tile_width as int,
                );
            }
            0
        } else {
            let r = (self.image_width - 1) / self.tile_width + 1;
            proof {
                vstd::arithmetic::div_mod::lemma_div_plus_one(
                    self.image_width - 1,
                    self.tile_width as int,
                );
            }
            r
        }
    }

    pub fn tiles_down(&self) -> (r: usize)
        requires
            self.wf(),
        ensures
            r == self.spec_tiles_down(),
    {
        if self.image_height == 0 {
            proof {
                vstd::arithmetic::div_mod::lemma_basic_div(
                    self.tile_length - 1,
                    self.tile_length as int,
                );
            }
            0
        } else {
            let r = (self.image_height - 1) / self.tile_length + 1;
            proof {
                vstd::arithmetic::div_mod::lemma_div_plus_one(
                    self.image_height - 1,
                    self.tile_length as int,
                );
            }
            r
        }
    }

    fn padding_right(&self) -> (r: usize)
        requires
            self.wf(),
        ensures
            r == self.spec_padding_right(),
    {
        (self.tile_width - self.image_width % self.tile_width) % self.tile_width
    }

    fn padding_down(&self) -> (r: usize)
        requires
            self.wf(),
        ensures
            r == self.spec_padding_down(),
    {
        (self.tile_length - self.image_height % self.tile_length) % self.tile_length
    }

    /// Padding `(right, down)` of the given chunk. Nonzero only in the last
    /// chunk column or row, and only when the image dimensions do not divide
    /// evenly by the chunk dimensions.
    pub fn get_padding(&self, tile: usize) -> (r: (usize, usize))
        requires
            self.wf(),
            self.spec_tiles_across() > 0,
            self.spec_tiles_down() > 0,
        ensures
            r.0 == self.spec_padding(tile as int).0,
            r.1 == self.spec_padding(tile as int).1,
    {
        let tiles_across = self.tiles_across();
        let row = tile / tiles_across;
        let column = tile % tiles_across;

        let padding_right = if column == tiles_across - 1 {
            self.padding_right()
        } else {
            0
        };

        let padding_down = if row == self.tiles_down() - 1 {
            self.padding_down()
        } else {
            0
        };

        (padding_right, padding_down)
    }

    /// Chunk (tile or stripe) index of a pixel.
    pub fn get_chunk_index(&self, x: u32, y: u32, band: u8) -> (r: u32)
        requires
            self.wf(),
            x < self.image_width,
            y < self.image_height,
            self.spec_chunk_index(x as int, y as int, band as int) <= u32::MAX,
        ensures
            r == self.spec_chunk_index(x as int, y as int, band as int),
    {
        let x = x as usize;
        let y = y as usize;
        let band = band as usize;
        let band_offset: usize = match self.planar_config {
            PlanarConfiguration::Planar => (self.image_height / self.tile_length) * band,
            PlanarConfiguration::Chunky => 0,
        };
        let x_chunks = x / self.tile_width;
        let y_chunks = y / self.tile_length;
        let chunk_index = band_offset + y_chunks * self.tiles_across() + x_chunks;
        chunk_index as u32
    }

    /// Element offset of a pixel in its tile or stripe.
    pub fn get_chunk_offset(&self, idx: u32, x: u32, y: u32, spp: u8) -> (r: usize)
        requires
            self.wf(),
            self.spec_tiles_across() > 0,
            self.spec_tiles_down() > 0,
            spp > 0,
            self.tile_width * self.tile_length * spp <= usize::MAX,
        ensures
            r == self.spec_chunk_offset(idx as int, x as int, y as int, spp as int),
    {
        let (padding_right, _padding_down) = self.get_padding(idx as usize);
        let x = x as usize;
        let y = y as usize;
        let spp = spp as usize;
        let w = self.tile_width - padding_right;
        let x_offset = x % self.tile_width;
        let y_offset = y % self.tile_length;
        proof {
            lemma_chunk_offset_fits(*self, idx as int, x as int, y as int, spp as int);
        }
        let offset = y_offset * w + x_offset;
        offset * spp
    }
}

/// A pixel inside the image with a band below `nbands` addresses a chunk
/// index below `band_offset(nbands - 1) + tiles_down * tiles_across`, the
/// number of chunks a well-stocked image must hold.
pub proof fn lemma_chunk_index_in_range(g: TileAttributes, x: int, y: int, band: int, nbands: int)
    requires
        g.wf(),
        0 <= x < g.image_width,
        0 <= y < g.image_height,
        0 <= band < nbands,
    ensures
        g.spec_tiles_across() > 0,
        g.spec_tiles_down() > 0,
        0 <= g.spec_chunk_index(x, y, band) < g.spec_band_offset(nbands - 1)
            + g.spec_tiles_down() * g.spec_tiles_across(),
{
    let tw = g.tile_width as int;
    let tl = g.tile_length as int;
    let w = g.image_width as int;
    let h = g.image_height as int;
    let ta = g.spec_tiles_across();
    let td = g.spec_tiles_down();
    let col = x / tw;
    let row = y / tl;
    vstd::arithmetic::div_mod::lemma_div_plus_one(w - 1, tw);
    vstd::arithmetic::div_mod::lemma_div_plus_one(h - 1, tl);
    assert(ta == (w - 1) / tw + 1);
    assert(td == (h - 1) / tl + 1);
    vstd::arithmetic::div_mod::lemma_div_is_ordered(x, w - 1, tw);
    vstd::arithmetic::div_mod::lemma_div_is_ordered(y, h - 1, tl);
    vstd::arithmetic::div_mod::lemma_div_pos_is_pos(x, tw);
    vstd::arithmetic::div_mod::lemma_div_pos_is_pos(y, tl);
    vstd::arithmetic::div_mod::lemma_div_pos_is_pos(w - 1, tw);
    vstd::arithmetic::div_mod::lemma_div_pos_is_pos(h - 1, tl);
    assert(0 <= col <= ta - 1);
    assert(0 <= row <= td - 1);
    vstd::arithmetic::mul::lemma_mul_inequality(row, td - 1, ta);
    assert((td - 1) * ta + ta == td * ta) by (nonlinear_arith);
    match g.planar_config {
        PlanarConfiguration::Planar => {
            let per_band = h / tl;
            vstd::arithmetic::div_mod::lemma_div_pos_is_pos(h, tl);
            vstd::arithmetic::mul::lemma_mul_inequality(band, nbands - 1, per_band);
            vstd::arithmetic::mul::lemma_mul_is_commutative(band, per_band);
            vstd::arithmetic::mul::lemma_mul_is_commutative(nbands - 1, per_band);
            vstd::arithmetic::mul::lemma_mul_nonnegative(per_band, band);
        },
        PlanarConfiguration::Chunky => {},
    }
}

/// The in-chunk offset is bounded by `tile_width * tile_length * spp`, so it
/// fits in `usize` whenever that product does.
pub proof fn lemma_chunk_offset_fits(g: TileAttributes, idx: int, x: int, y: int, spp: int)
    requires
        g.wf(),
        g.spec_tiles_across() > 0,
        spp > 0,
    ensures
        0 <= g.spec_padding(idx).0 <= g.tile_width,
        0 <= (y % (g.tile_length as int)) * (g.tile_width - g.spec_padding(idx).0) + x % (
        g.tile_width as int) <= g.tile_width * g.tile_length,
        ((y % (g.tile_length as int)) * (g.tile_width - g.spec_padding(idx).0) + x % (
        g.tile_width as int)) * spp <= g.tile_width * g.tile_length * spp,
        g.tile_width * g.tile_length <= g.tile_width * g.tile_length * spp,
{
    let tw = g.tile_width as int;
    let tl = g.tile_length as int;
    let pad = g.spec_padding(idx).0;
    let yo = y % tl;
    let xo = x % tw;
    assert(0 <= g.spec_padding_right() < tw) by {
        vstd::arithmetic::div_mod::lemma_mod_bound(tw - (g.image_width as int) % tw, tw);
    }
    assert(0 <= yo < tl && 0 <= xo < tw) by {
        vstd::arithmetic::div_mod::lemma_mod_bound(y, tl);
        vstd::arithmetic::div_mod::lemma_mod_bound(x, tw);
    }
    assert(0 <= yo * (tw - pad) + xo <= tw * tl && (yo * (tw - pad) + xo) * spp <= tw * tl * spp
        && tw * tl <= tw * tl * spp) by (nonlinear_arith)
        requires
            0 <= yo < tl,
            0 <= xo < tw,
            0 <= pad < tw,
            spp > 0,
            tl > 0,
            tw > 0,
    ;
}

} // verus!

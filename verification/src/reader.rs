//! The raster reader: per-image metadata, band selection, pixel access and
//! the affine geotransform, over chunks that have already been decoded into
//! flat sample buffers.

use vstd::prelude::*;

use crate::geo::Coordinate;
use crate::grid::PlanarConfiguration;
use crate::grid::TileAttributes;
use crate::grid::lemma_chunk_index_in_range;
use crate::transform::COORD_LIMIT;
use crate::transform::GEO_LIMIT;
use crate::transform::lemma_round_ratio_exact;
use crate::transform::pixel_from_axis;
use crate::transform::spec_pixel_from_axis;
use crate::value::ChunkData;
use crate::value::RasterValue;
use crate::value::raster_value;
use crate::value::spec_raster_value;
use crate::GeorasterError;
use crate::GeorasterResult;

verus! {

/// Color interpretation of a pixel, with its bit depth per channel.
#[derive(Debug, Clone, Copy, PartialEq, Eq, Structural)]
pub enum ColorType {
    /// Pixel is grayscale.
    Gray(u8),
    /// Pixel contains R, G and B channels.
    RGB(u8),
    /// Pixel is an index into a color palette.
    Palette(u8),
    /// Pixel is grayscale with an alpha channel.
    GrayA(u8),
    /// Pixel is RGB with an alpha channel.
    RGBA(u8),
    /// Pixel is CMYK.
    CMYK(u8),
    /// Pixel is YCbCr.
    YCbCr(u8),
}

/// How sample values are to be interpreted photometrically.
#[derive(Debug, Clone, Copy, PartialEq, Eq, Structural)]
pub enum PhotometricInterpretation {
    WhiteIsZero,
    BlackIsZero,
    RGB,
    RGBPalette,
    TransparencyMask,
    CMYK,
    YCbCr,
    CIELab,
}

/// Metadata of one embedded image (sub-image or overview level).
#[derive(Debug, Clone, Copy, PartialEq)]
pub struct ImageInfo {
    /// Image dimensions in pixels, if declared.
    pub dimensions: Option<(u32, u32)>,
    /// Color type, if the sample layout maps to one.
    pub colortype: Option<ColorType>,
    /// Photometric interpretation, if declared.
    pub photometric_interpretation: Option<PhotometricInterpretation>,
    /// Planar configuration, if declared; chunky when absent.
    pub planar_config: Option<PlanarConfiguration>,
    /// Number of samples (bands) per pixel.
    pub samples: u8,
    /// Chunk (tile or stripe) dimensions the image is stored with.
    pub chunk_dimensions: (u32, u32),
}

/// Image dimensions, or `(0, 0)` when undeclared.
pub open spec fn spec_dims_or_zero(info: ImageInfo) -> (u32, u32) {
    match info.dimensions {
        Some(d) => d,
        None => (0u32, 0u32),
    }
}

/// The addressing grid of an image.
pub open spec fn spec_grid(info: ImageInfo) -> TileAttributes {
    TileAttributes {
        image_width: spec_dims_or_zero(info).0 as usize,
        image_height: spec_dims_or_zero(info).1 as usize,
        tile_width: info.chunk_dimensions.0 as usize,
        tile_length: info.chunk_dimensions.1 as usize,
        planar_config: match info.planar_config {
            Some(p) => p,
            None => PlanarConfiguration::Chunky,
        },
    }
}

/// Interleaved samples per pixel of an image: one for planar layout, else
/// determined by the color type (gray 1, RGB 3, RGBA 4, anything else 1).
pub open spec fn spec_spp(info: ImageInfo) -> int {
    match info.planar_config {
        Some(PlanarConfiguration::Planar) => 1,
        _ => match info.colortype {
            Some(ColorType::Gray(_)) => 1,
            Some(ColorType::RGB(_)) => 3,
            Some(ColorType::RGBA(_)) => 4,
            _ => 1,
        },
    }
}

/// The declared band count, at least one.
pub open spec fn spec_num_bands(info: ImageInfo) -> int {
    if info.samples >= 1 {
        info.samples as int
    } else {
        1
    }
}

/// Number of chunks an image must provide so that every pixel of every
/// band addresses an existing chunk.
pub open spec fn spec_required_chunks(info: ImageInfo) -> int {
    let g = spec_grid(info);
    g.spec_band_offset(spec_num_bands(info) - 1) + g.spec_tiles_down() * g.spec_tiles_across()
}

/// A well-stocked image: when it has pixels, its grid is well formed, the
/// in-chunk offsets fit `usize`, the chunk indices fit `u32`, and a chunk
/// buffer exists for every addressable chunk.
pub open spec fn spec_image_wf(info: ImageInfo, chunks: Seq<ChunkData>) -> bool {
    let g = spec_grid(info);
    (g.image_width > 0 && g.image_height > 0) ==> {
        &&& g.wf()
        &&& g.tile_width * g.tile_length * spec_spp(info) <= usize::MAX
        &&& spec_required_chunks(info) <= u32::MAX
        &&& chunks.len() >= spec_required_chunks(info)
    }
}

/// Every stored geographic value is within the fixed-point range the
/// conversions accept.
pub open spec fn spec_geo_values_ok(v: Seq<i128>) -> bool {
    forall|i: int| 0 <= i < v.len() ==> -GEO_LIMIT <= #[trigger] v[i] <= GEO_LIMIT
}

/// Well-formed georeferencing tags: a pixel scale has exactly 3 values, a
/// model transformation exactly 16, and all values are bounded.
pub open spec fn spec_geo_tags_ok(
    pixel_scale: Option<Vec<i128>>,
    model_transformation: Option<Vec<i128>>,
    tie_points: Option<Vec<i128>>,
) -> bool {
    &&& match pixel_scale {
        Some(s) => s@.len() == 3 && spec_geo_values_ok(s@),
        None => true,
    }
    &&& match model_transformation {
        Some(t) => t@.len() == 16 && spec_geo_values_ok(t@),
        None => true,
    }
    &&& match tie_points {
        Some(tp) => spec_geo_values_ok(tp@),
        None => true,
    }
}

/// Reader over a raster whose chunks have been decoded into memory.
///
/// One [`ImageInfo`] and one chunk list per embedded image; the current
/// image and the selected band drive pixel addressing. Georeferencing tags
/// are fixed-point values in the caller's coordinate unit.
pub struct RasterReader {
    pub images: Vec<ImageInfo>,
    /// Decoded chunks of each image, indexed like `images`.
    pub chunk_store: Vec<Vec<ChunkData>>,
    /// Current image; pixel operations address into its chunks.
    pub cur_image_idx: usize,
    /// Selected band, zero-based.
    pub band_idx: u8,
    pub geo_keys: Option<Vec<u32>>,
    pub geo_params: Option<String>,
    pub pixel_scale: Option<Vec<i128>>,
    pub model_transformation: Option<Vec<i128>>,
    pub tie_points: Option<Vec<i128>>,
}

impl RasterReader {
    /// Metadata of the current image.
    pub open spec fn cur_info(self) -> ImageInfo {
        self.images@[self.cur_image_idx as int]
    }

    /// Decoded chunks of the current image.
    pub open spec fn cur_chunks(self) -> Seq<ChunkData> {
        self.chunk_store@[self.cur_image_idx as int]@
    }

    /// Reader invariant: a current image exists, every image is
    /// well-stocked, and the georeferencing tags are well formed.
    pub open spec fn wf(self) -> bool {
        &&& self.images@.len() > 0
        &&& self.cur_image_idx < self.images@.len()
        &&& self.chunk_store@.len() == self.images@.len()
        &&& forall|i: int|
            0 <= i < self.images@.len() ==> spec_image_wf(
                #[trigger] self.images@[i],
                self.chunk_store@[i]@,
            )
        &&& spec_geo_tags_ok(self.pixel_scale, self.model_transformation, self.tie_points)
    }

    /// The selected band addresses existing chunks of the current image.
    /// Only planar layout stores bands in distinct chunks, so only planar
    /// layout constrains the band index.
    pub open spec fn band_ok(self) -> bool {
        match spec_grid(self.cur_info()).planar_config {
            PlanarConfiguration::Planar => (self.band_idx as int) < spec_num_bands(
                self.cur_info(),
            ),
            PlanarConfiguration::Chunky => true,
        }
    }

    /// Build a reader from decoded images. Mirrors the behaviour of opening
    /// a container: the current image starts at the last one decoded and
    /// band selection starts at the first band.
    pub fn new(
        images: Vec<ImageInfo>,
        chunk_store: Vec<Vec<ChunkData>>,
        geo_keys: Option<Vec<u32>>,
        geo_params: Option<String>,
        pixel_scale: Option<Vec<i128>>,
        model_transformation: Option<Vec<i128>>,
        tie_points: Option<Vec<i128>>,
    ) -> (r: RasterReader)
        requires
            images@.len() > 0,
            chunk_store@.len() == images@.len(),
            forall|i: int|
                0 <= i < images@.len() ==> spec_image_wf(
                    #[trigger] images@[i],
                    chunk_store@[i]@,
                ),
            spec_geo_tags_ok(pixel_scale, model_transformation, tie_points),
        ensures
            r.wf(),
            r.band_ok(),
            r.images@ == images@,
            r.chunk_store@ == chunk_store@,
            r.cur_image_idx == images@.len() - 1,
            r.band_idx == 0,
            r.geo_keys == geo_keys,
            r.geo_params == geo_params,
            r.pixel_scale == pixel_scale,
            r.model_transformation == model_transformation,
            r.tie_points == tie_points,
    {
        let cur_image_idx = images.len() - 1;
        RasterReader {
            images,
            chunk_store,
            cur_image_idx,
            band_idx: 0,
            geo_keys,
            geo_params,
            pixel_scale,
            model_transformation,
            tie_points,
        }
    }

    /// Infos about all embedded images.
    pub fn images(&self) -> (r: &Vec<ImageInfo>)
        ensures
            r@ == self.images@,
    {
        &self.images
    }

    /// Info of the current image.
    pub fn image_info(&self) -> (r: &ImageInfo)
        requires
            self.wf(),
        ensures
            *r == self.cur_info(),
    {
        &self.images[self.cur_image_idx]
    }

    /// Make the image with the given index current. Fails, leaving the
    /// reader unchanged, exactly when the index is out of range.
    pub fn seek_to_image(&mut self, index: usize) -> (r: GeorasterResult<()>)
        ensures
            r is Ok <==> index < old(self).images@.len(),
            r is Ok ==> *final(self) == (RasterReader { cur_image_idx: index, ..*old(self) }),
            r is Err ==> *final(self) == *old(self) && r == Err::<(), GeorasterError>(
                GeorasterError::ImageIndex,
            ),
    {
        if index < self.images.len() {
            self.cur_image_idx = index;
            Ok(())
        } else {
            Err(GeorasterError::ImageIndex)
        }
    }

    /// Band count of the current image.
    fn num_bands(&self) -> (r: u8)
        requires
            self.wf(),
        ensures
            r == self.cur_info().samples,
    {
        self.images[self.cur_image_idx].samples
    }

    /// Select the band (1-based) used for pixel addressing on planar
    /// images. Fails, leaving the reader unchanged, exactly when the band
    /// is outside `1..=samples`.
    pub fn select_raster_band(&mut self, band: u8) -> (r: GeorasterResult<()>)
        requires
            old(self).wf(),
        ensures
            r is Ok <==> 1 <= band && band <= old(self).cur_info().samples,
            r is Ok ==> *final(self) == (RasterReader {
                band_idx: (band - 1) as u8,
                ..*old(self)
            }),
            r is Ok ==> final(self).wf() && final(self).band_ok(),
            r is Err ==> *final(self) == *old(self) && r == Err::<(), GeorasterError>(
                GeorasterError::BandIndex,
            ),
    {
        if band < 1 || band > self.num_bands() {
            return Err(GeorasterError::BandIndex);
        }
        self.band_idx = band - 1;
        Ok(())
    }

    /// Interleaved samples per pixel of the current image.
    pub(crate) fn spp(&self) -> (r: u8)
        requires
            self.wf(),
        ensures
            r as int == spec_spp(self.cur_info()),
            1 <= r <= 4,
    {
        let info = self.image_info();
        match info.planar_config {
            Some(PlanarConfiguration::Planar) => 1,
            _ => match info.colortype {
                Some(ColorType::Gray(_)) => 1,
                Some(ColorType::RGB(_)) => 3,
                Some(ColorType::RGBA(_)) => 4,
                _ => 1,
            },
        }
    }

    /// The origin the georeferencing tags resolve to: tie-points take
    /// priority when exactly six are present, else the translation column
    /// of the transformation matrix.
    pub open spec fn spec_origin(self) -> Option<(int, int)> {
        match self.tie_points {
            Some(tp) => if tp@.len() == 6 {
                Some((tp@[3] as int, tp@[4] as int))
            } else {
                spec_origin_from_matrix(self.model_transformation)
            },
            None => spec_origin_from_matrix(self.model_transformation),
        }
    }

    /// The pixel size the georeferencing tags resolve to: the pixel-scale
    /// tag with the row direction negated, else the scale diagonal of the
    /// transformation matrix.
    pub open spec fn spec_pixel_size(self) -> Option<(int, int)> {
        match self.pixel_scale {
            Some(s) => Some((s@[0] as int, -(s@[1] as int))),
            None => match self.model_transformation {
                Some(t) => Some((t@[0] as int, t@[5] as int)),
                None => None,
            },
        }
    }

    /// Origin of the raster in fixed-point geographic units, if the tags
    /// carry one.
    pub fn origin(&self) -> (r: Option<(i128, i128)>)
        requires
            self.wf(),
        ensures
            r is Some <==> self.spec_origin() is Some,
            r matches Some(o) ==> self.spec_origin() == Some((o.0 as int, o.1 as int)),
    {
        match &self.tie_points {
            Some(tie_points) => {
                if tie_points.len() == 6 {
                    return Some((tie_points[3], tie_points[4]));
                }
            },
            None => {},
        }
        match &self.model_transformation {
            Some(t) => Some((t[3], t[7])),
            None => None,
        }
    }

    /// Pixel size of the raster in fixed-point geographic units per pixel,
    /// if the tags carry one. The row component is negative for the usual
    /// north-up convention.
    pub fn pixel_size(&self) -> (r: Option<(i128, i128)>)
        requires
            self.wf(),
        ensures
            r is Some <==> self.spec_pixel_size() is Some,
            r matches Some(s) ==> self.spec_pixel_size() == Some((s.0 as int, s.1 as int)),
    {
        match &self.pixel_scale {
            Some(mps) => Some((mps[0], -mps[1])),
            None => match &self.model_transformation {
                Some(t) => Some((t[0], t[5])),
                None => None,
            },
        }
    }

    /// The pixel position a coordinate resolves to: each axis is the
    /// rounded quotient of the distance from the origin by the pixel size,
    /// saturated into the `u32` range; `None` without georeferencing.
    pub open spec fn spec_coord_to_pixel(self, coord: Coordinate) -> Option<(u32, u32)> {
        match (self.spec_origin(), self.spec_pixel_size()) {
            (Some(o), Some(s)) => Some(
                (
                    spec_pixel_from_axis(coord.x - o.0, s.0),
                    spec_pixel_from_axis(coord.y - o.1, s.1),
                ),
            ),
            _ => None,
        }
    }

    /// Convert a coordinate into the pixel position it falls on.
    ///
    /// Returns `None` exactly when georeferencing is not available.
    pub fn coord_to_pixel(&self, coord: Coordinate) -> (r: Option<(u32, u32)>)
        requires
            self.wf(),
            -COORD_LIMIT <= coord.x <= COORD_LIMIT,
            -COORD_LIMIT <= coord.y <= COORD_LIMIT,
        ensures
            r == self.spec_coord_to_pixel(coord),
    {
        let (origin_x, origin_y) = match self.origin() {
            Some(o) => o,
            None => {
                return None;
            },
        };
        let (pixel_size_x, pixel_size_y) = match self.pixel_size() {
            Some(s) => s,
            None => {
                return None;
            },
        };
        Some(
            (
                pixel_from_axis(coord.x - origin_x, pixel_size_x),
                pixel_from_axis(coord.y - origin_y, pixel_size_y),
            ),
        )
    }

    /// The coordinate a pixel position maps to under the inverse affine
    /// transform: `origin + pixel * pixel_size`, exactly; `None` without
    /// georeferencing.
    pub open spec fn spec_pixel_to_coord(self, x: int, y: int) -> Option<(int, int)> {
        match (self.spec_origin(), self.spec_pixel_size()) {
            (Some(o), Some(s)) => Some((x * s.0 + o.0, y * s.1 + o.1)),
            _ => None,
        }
    }

    /// Convert a pixel position into the coordinate of its origin corner.
    ///
    /// Returns `None` exactly when georeferencing is not available.
    pub fn pixel_to_coord(&self, x: u32, y: u32) -> (r: Option<Coordinate>)
        requires
            self.wf(),
        ensures
            r is Some <==> self.spec_pixel_to_coord(x as int, y as int) is Some,
            r matches Some(c) ==> self.spec_pixel_to_coord(x as int, y as int) == Some(
                (c.x as int, c.y as int),
            ),
            r matches Some(c) ==> -COORD_LIMIT <= c.x <= COORD_LIMIT && -COORD_LIMIT <= c.y
                <= COORD_LIMIT,
    {
        let (origin_x, origin_y) = match self.origin() {
            Some(o) => o,
            None => {
                return None;
            },
        };
        let (pixel_size_x, pixel_size_y) = match self.pixel_size() {
            Some(s) => s,
            None => {
                return None;
            },
        };
        proof {
            crate::transform::lemma_scaled_pixel_bound(x as int, pixel_size_x as int);
            crate::transform::lemma_scaled_pixel_bound(y as int, pixel_size_y as int);
        }
        Some(
            Coordinate {
                x: (x as i128) * pixel_size_x + origin_x,
                y: (y as i128) * pixel_size_y + origin_y,
            },
        )
    }

    /// The value pixel `(x, y)` of the current image reads as, for the
    /// selected band: `NoData` outside the image, else the value
    /// reconstructed from the addressed chunk at the computed offset.
    pub open spec fn spec_read_pixel(self, x: int, y: int) -> RasterValue {
        let info = self.cur_info();
        let g = spec_grid(info);
        if x >= g.image_width || y >= g.image_height {
            RasterValue::NoData
        } else {
            let spp = spec_spp(info);
            let idx = g.spec_chunk_index(x, y, self.band_idx as int);
            let off = g.spec_chunk_offset(idx, x, y, spp);
            spec_raster_value(self.cur_chunks()[idx], off, spp)
        }
    }

    /// The chunk index addressed by an in-image pixel is within the chunks
    /// the current image is required to hold.
    pub proof fn lemma_pixel_chunk_in_store(self, x: int, y: int)
        requires
            self.wf(),
            self.band_ok(),
            0 <= x < spec_grid(self.cur_info()).image_width,
            0 <= y < spec_grid(self.cur_info()).image_height,
        ensures
            spec_grid(self.cur_info()).spec_tiles_across() > 0,
            spec_grid(self.cur_info()).spec_tiles_down() > 0,
            0 <= spec_grid(self.cur_info()).spec_chunk_index(x, y, self.band_idx as int)
                < spec_required_chunks(self.cur_info()),
            spec_required_chunks(self.cur_info()) <= self.cur_chunks().len(),
            spec_required_chunks(self.cur_info()) <= u32::MAX,
            spec_grid(self.cur_info()).wf(),
            spec_grid(self.cur_info()).tile_width * spec_grid(self.cur_info()).tile_length
                * spec_spp(self.cur_info()) <= usize::MAX,
    {
        let info = self.cur_info();
        let g = spec_grid(info);
        assert(spec_image_wf(self.images@[self.cur_image_idx as int], self.cur_chunks()));
        match g.planar_config {
            PlanarConfiguration::Planar => {
                lemma_chunk_index_in_range(g, x, y, self.band_idx as int, spec_num_bands(info));
            },
            PlanarConfiguration::Chunky => {
                lemma_chunk_index_in_range(g, x, y, 0, 1);
                assert(g.spec_chunk_index(x, y, self.band_idx as int) == g.spec_chunk_index(
                    x,
                    y,
                    0,
                ));
                assert(g.spec_band_offset(spec_num_bands(info) - 1) == 0);
            },
        }
    }

    /// Return the raster value at pixel `(x, y)` of the current image for
    /// the selected band. Out-of-image positions give `NoData`.
    pub fn read_pixel(&self, x: u32, y: u32) -> (r: RasterValue)
        requires
            self.wf(),
            self.band_ok(),
        ensures
            r == self.spec_read_pixel(x as int, y as int),
            x >= spec_dims_or_zero(self.cur_info()).0 || y >= spec_dims_or_zero(self.cur_info()).1
                ==> r == RasterValue::NoData,
    {
        let info = self.image_info();
        let dims = match info.dimensions {
            Some(d) => d,
            None => (0u32, 0u32),
        };
        if x >= dims.0 || y >= dims.1 {
            return RasterValue::NoData;
        }
        let chunk_dims = info.chunk_dimensions;
        let planar_config = info.planar_config;
        let tiles = TileAttributes::from_dims(dims, chunk_dims, planar_config);
        proof {
            assert(tiles == spec_grid(self.cur_info()));
            self.lemma_pixel_chunk_in_store(x as int, y as int);
        }
        let chunk_index = tiles.get_chunk_index(x, y, self.band_idx);
        let spp = self.spp();
        let offset = tiles.get_chunk_offset(chunk_index, x, y, spp);
        let chunk = &self.chunk_store[self.cur_image_idx][chunk_index as usize];
        raster_value(chunk, offset, spp)
    }

    /// Return the raster value at a geographical location: the location is
    /// converted to its pixel position, which is then read; `NoData` when
    /// georeferencing is not available.
    pub fn read_pixel_at_location(&self, coord: Coordinate) -> (r: RasterValue)
        requires
            self.wf(),
            self.band_ok(),
            -COORD_LIMIT <= coord.x <= COORD_LIMIT,
            -COORD_LIMIT <= coord.y <= COORD_LIMIT,
        ensures
            r == (match self.spec_coord_to_pixel(coord) {
                Some(p) => self.spec_read_pixel(p.0 as int, p.1 as int),
                None => RasterValue::NoData,
            }),
    {
        if let Some((x, y)) = self.coord_to_pixel(coord) {
            self.read_pixel(x, y)
        } else {
            RasterValue::NoData
        }
    }

    /// Converting a pixel position to a coordinate and back recovers the
    /// pixel position exactly, whenever georeferencing is present and both
    /// pixel size components are nonzero.
    pub proof fn lemma_pixel_coordinate_round_trip(self, x: u32, y: u32)
        requires
            self.spec_origin() is Some,
            self.spec_pixel_size() matches Some(s) && s.0 != 0 && s.1 != 0,
            spec_geo_tags_ok(self.pixel_scale, self.model_transformation, self.tie_points),
        ensures
            self.spec_coord_to_pixel(
                Coordinate {
                    x: self.spec_pixel_to_coord(x as int, y as int)->Some_0.0 as i128,
                    y: self.spec_pixel_to_coord(x as int, y as int)->Some_0.1 as i128,
                },
            ) == Some((x, y)),
    {
        let o = self.spec_origin()->Some_0;
        let s = self.spec_pixel_size()->Some_0;
        let cx = x * s.0 + o.0;
        let cy = y * s.1 + o.1;
        crate::transform::lemma_scaled_pixel_bound(x as int, s.0);
        crate::transform::lemma_scaled_pixel_bound(y as int, s.1);
        assert(cx as i128 as int == cx);
        assert(cy as i128 as int == cy);
        lemma_round_ratio_exact(x as int, s.0);
        lemma_round_ratio_exact(y as int, s.1);
    }
}

/// Number of chunks an image must provide so that every pixel of every
/// band addresses an existing chunk; see [`spec_required_chunks`].
pub fn required_chunks(info: &ImageInfo) -> (r: u128)
    requires
        info.chunk_dimensions.0 > 0,
        info.chunk_dimensions.1 > 0,
    ensures
        r == spec_required_chunks(*info),
{
    let dims = match info.dimensions {
        Some(d) => d,
        None => (0u32, 0u32),
    };
    let g = TileAttributes::from_dims(dims, info.chunk_dimensions, info.planar_config);
    let ta = g.tiles_across() as u128;
    let td = g.tiles_down() as u128;
    let bands: u128 = if info.samples >= 1 {
        info.samples as u128
    } else {
        1
    };
    proof {
        assert(0 <= g.spec_tiles_across() <= u32::MAX && 0 <= g.spec_tiles_down()
            <= u32::MAX) by {
            if g.image_width == 0 {
                vstd::arithmetic::div_mod::lemma_basic_div(
                    g.tile_width - 1,
                    g.tile_width as int,
                );
            } else {
                vstd::arithmetic::div_mod::lemma_div_plus_one(
                    g.image_width - 1,
                    g.tile_width as int,
                );
                vstd::arithmetic::div_mod::lemma_div_nonincreasing(
                    g.image_width - 1,
                    g.tile_width as int,
                );
                vstd::arithmetic::div_mod::lemma_div_pos_is_pos(
                    g.image_width - 1,
                    g.tile_width as int,
                );
            }
            if g.image_height == 0 {
                vstd::arithmetic::div_mod::lemma_basic_div(
                    g.tile_length - 1,
                    g.tile_length as int,
                );
            } else {
                vstd::arithmetic::div_mod::lemma_div_plus_one(
                    g.image_height - 1,
                    g.tile_length as int,
                );
                vstd::arithmetic::div_mod::lemma_div_nonincreasing(
                    g.image_height - 1,
                    g.tile_length as int,
                );
                vstd::arithmetic::div_mod::lemma_div_pos_is_pos(
                    g.image_height - 1,
                    g.tile_length as int,
                );
            }
        }
        assert((td as int) * (ta as int) <= 0x1_0000_0000_0000_0000) by (nonlinear_arith)
            requires
                0 <= td as int <= 0x1_0000_0000,
                0 <= ta as int <= 0x1_0000_0000,
        ;
        vstd::arithmetic::div_mod::lemma_div_pos_is_pos(
            g.image_height as int,
            g.tile_length as int,
        );
        vstd::arithmetic::div_mod::lemma_div_nonincreasing(
            g.image_height as int,
            g.tile_length as int,
        );
        assert(((g.image_height as int) / (g.tile_length as int)) * ((bands - 1) as int)
            <= 0x1_0000_0000 * 0x100) by (nonlinear_arith)
            requires
                0 <= ((g.image_height as int) / (g.tile_length as int)) <= 0x1_0000_0000,
                0 <= (bands - 1) as int <= 0x100,
        ;
    }
    let band_offset: u128 = match g.planar_config {
        PlanarConfiguration::Planar => ((g.image_height / g.tile_length) as u128) * (bands - 1),
        PlanarConfiguration::Chunky => 0,
    };
        band_offset + td * ta
}

/// The scalar carried by one channel of a composite raster value: `NoData`
/// for anything that is not a composite or has no such channel.
pub open spec fn spec_composite_channel(v: RasterValue, i: int) -> RasterValue {
    match v {
        RasterValue::Rgb8(r0, r1, r2) => if i == 0 {
            RasterValue::U8(r0)
        } else if i == 1 {
            RasterValue::U8(r1)
        } else if i == 2 {
            RasterValue::U8(r2)
        } else {
            RasterValue::NoData
        },
        RasterValue::Rgba8(r0, r1, r2, r3) => if i == 0 {
            RasterValue::U8(r0)
        } else if i == 1 {
            RasterValue::U8(r1)
        } else if i == 2 {
            RasterValue::U8(r2)
        } else if i == 3 {
            RasterValue::U8(r3)
        } else {
            RasterValue::NoData
        },
        RasterValue::Rgb16(r0, r1, r2) => if i == 0 {
            RasterValue::U16(r0)
        } else if i == 1 {
            RasterValue::U16(r1)
        } else if i == 2 {
            RasterValue::U16(r2)
        } else {
            RasterValue::NoData
        },
        RasterValue::Rgba16(r0, r1, r2, r3) => if i == 0 {
            RasterValue::U16(r0)
        } else if i == 1 {
            RasterValue::U16(r1)
        } else if i == 2 {
            RasterValue::U16(r2)
        } else if i == 3 {
            RasterValue::U16(r3)
        } else {
            RasterValue::NoData
        },
        _ => RasterValue::NoData,
    }
}

/// A planar band's chunk carries the `b`-th channel deinterleaved out of a
/// chunky chunk with `n` samples per pixel: same element type, one `n`-th
/// of the elements, and element `j` equal to element `n * j + b`.
pub open spec fn spec_deinterleaved(planar: ChunkData, chunky: ChunkData, n: int, b: int) -> bool {
    match (planar, chunky) {
        (ChunkData::U8(bp), ChunkData::U8(bc)) => bc@.len() == n * bp@.len() && forall|j: int|
            0 <= j < bp@.len() ==> #[trigger] bp@[j] == bc@[n * j + b],
        (ChunkData::U16(bp), ChunkData::U16(bc)) => bc@.len() == n * bp@.len() && forall|j: int|
            0 <= j < bp@.len() ==> #[trigger] bp@[j] == bc@[n * j + b],
        _ => false,
    }
}

/// Reading band `band` of a planar image gives exactly the `band`-th
/// channel of the composite value the equivalent chunky image reads at the
/// same pixel.
///
/// Equivalent means: the same image and chunk geometry, and the planar
/// band's chunk holding the channel deinterleaved out of the chunky chunk.
/// The planar band's chunks must start at a whole number of chunk rows
/// (always true for striped images), since the carried-over band offset
/// arithmetic identifies chunk columns through the flat index.
pub proof fn lemma_planar_matches_chunky(
    p: RasterReader,
    c: RasterReader,
    x: int,
    y: int,
    band: int,
)
    requires
        p.wf(),
        c.wf(),
        p.cur_info().planar_config == Some(PlanarConfiguration::Planar),
        spec_grid(p.cur_info()) == (TileAttributes {
            planar_config: PlanarConfiguration::Planar,
            ..spec_grid(c.cur_info())
        }),
        spec_grid(c.cur_info()).planar_config == PlanarConfiguration::Chunky,
        spec_spp(c.cur_info()) == 3 || spec_spp(c.cur_info()) == 4,
        1 <= band <= spec_spp(c.cur_info()),
        p.band_idx as int == band - 1,
        0 <= x < spec_grid(p.cur_info()).image_width,
        0 <= y < spec_grid(p.cur_info()).image_height,
        spec_grid(p.cur_info()).spec_band_offset(band - 1) % spec_grid(
            p.cur_info(),
        ).spec_tiles_across() == 0,
        spec_deinterleaved(
            p.cur_chunks()[spec_grid(p.cur_info()).spec_chunk_index(x, y, band - 1)],
            c.cur_chunks()[spec_grid(c.cur_info()).spec_chunk_index(x, y, c.band_idx as int)],
            spec_spp(c.cur_info()),
            band - 1,
        ),
    ensures
        p.spec_read_pixel(x, y) == spec_composite_channel(c.spec_read_pixel(x, y), band - 1),
{
    let gp = spec_grid(p.cur_info());
    let gc = spec_grid(c.cur_info());
    let n = spec_spp(c.cur_info());
    let ta = gp.spec_tiles_across();
    let bo = gp.spec_band_offset(band - 1);
    let ip = gp.spec_chunk_index(x, y, band - 1);
    let ic = gc.spec_chunk_index(x, y, c.band_idx as int);
    lemma_chunk_index_in_range(gp, x, y, 0, 1);
    assert(spec_spp(p.cur_info()) == 1);
    // the two chunk indices lie in the same chunk column, so the padding
    // and the effective row width agree
    vstd::arithmetic::div_mod::lemma_fundamental_div_mod(bo, ta);
    assert(bo == ta * (bo / ta));
    vstd::arithmetic::div_mod::lemma_mod_multiples_vanish(bo / ta, ic, ta);
    assert(ip % ta == ic % ta);
    assert(gp.spec_padding(ip).0 == gc.spec_padding(ic).0);
    let tw = gp.tile_width as int;
    let tl = gp.tile_length as int;
    let w = gp.tile_width - gp.spec_padding(ip).0;
    let base = (y % tl) * w + x % tw;
    vstd::arithmetic::div_mod::lemma_mod_bound(x, tw);
    vstd::arithmetic::div_mod::lemma_mod_bound(y, tl);
    assert(spec_image_wf(
        p.images@[p.cur_image_idx as int],
        p.chunk_store@[p.cur_image_idx as int]@,
    ));
    crate::grid::lemma_chunk_offset_fits(gp, ip, x, y, 1);
    assert(base >= 0);
    assert(gp.spec_chunk_offset(ip, x, y, 1) == base) by (nonlinear_arith)
        requires
            gp.spec_chunk_offset(ip, x, y, 1) == base * 1,
    ;
    assert(gc.spec_chunk_offset(ic, x, y, n) == base * n);
    match (p.cur_chunks()[ip], c.cur_chunks()[ic]) {
        (ChunkData::U8(bp), ChunkData::U8(bc)) => {
            lemma_offset_scaling(base, n, bp@.len() as int);
            if base < bp@.len() {
                assert(bp@[base] == bc@[n * base + (band - 1)]);
                lemma_channel_offsets(base, n);
            }
        },
        (ChunkData::U16(bp), ChunkData::U16(bc)) => {
            lemma_offset_scaling(base, n, bp@.len() as int);
            if base < bp@.len() {
                assert(bp@[base] == bc@[n * base + (band - 1)]);
                lemma_channel_offsets(base, n);
            }
        },
        _ => {},
    }
}

/// Scaling an element offset and a buffer length by the samples per pixel
/// preserves the in-bounds relation between them.
proof fn lemma_offset_scaling(base: int, n: int, len: int) by (nonlinear_arith)
    requires
        base >= 0,
        n >= 1,
        len >= 0,
    ensures
        base < len <==> base * n + n <= n * len,
        base >= len ==> base * n >= n * len,
{
}

/// The pixel's base element offset scaled by the samples per pixel, as the
/// chunky offset computes it, equals the deinterleave premise's index form.
proof fn lemma_channel_offsets(base: int, n: int) by (nonlinear_arith)
    requires
        base >= 0,
        n >= 1,
    ensures
        base * n == n * base,
{
}

/// Origin taken from a model transformation matrix, when one is present.
pub open spec fn spec_origin_from_matrix(model_transformation: Option<Vec<i128>>) -> Option<
    (int, int),
> {
    match model_transformation {
        Some(t) => Some((t@[3] as int, t@[7] as int)),
        None => None,
    }
}

} // verus!

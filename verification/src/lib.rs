//! Core engine for addressing and streaming pixel samples out of a tiled or
//! striped raster image: chunk index arithmetic, boundary-padding accounting,
//! a chunk-boundary-aware window cursor, typed raster value reconstruction,
//! and an axis-aligned affine geotransform.
//!
//! The engine works on rasters that have already been decoded into flat
//! sample buffers; decompression and container parsing are collaborators
//! that live outside this crate.

use vstd::prelude::*;

pub mod cursor;
pub mod geo;
pub mod grid;
pub mod reader;
pub mod transform;
pub mod value;

pub use cursor::Pixels;
pub use geo::Coordinate;
pub use grid::PlanarConfiguration;
pub use grid::TileAttributes;
pub use reader::ColorType;
pub use reader::ImageInfo;
pub use reader::PhotometricInterpretation;
pub use reader::RasterReader;
pub use value::ChunkData;
pub use value::RasterValue;

verus! {

/// Error taxonomy of the raster engine.
#[derive(Debug, Clone, Copy, PartialEq, Eq, Structural)]
pub enum GeorasterError {
    /// A raster value could not be converted to the requested numeric type.
    ValueRange,
    /// A band index outside `1..=samples` was selected.
    BandIndex,
    /// An image index outside the available images was selected.
    ImageIndex,
}

pub type GeorasterResult<T> = Result<T, GeorasterError>;

} // verus!

//! Typed raster values and their reconstruction from a chunk's flat,
//! already-decoded sample buffer.

use vstd::prelude::*;

use crate::GeorasterError;

verus! {

/// One raster value: a scalar sample, a multi-channel composite, or the
/// `NoData` sentinel for out-of-range access.
///
/// Floating-point samples are carried as raw bit patterns (`F32` holds the
/// 32 bits of an IEEE 754 single, `F64` the 64 bits of a double); the engine
/// never does arithmetic on them, it only addresses and moves them.
#[derive(Debug, Clone, Copy, PartialEq, Eq, Structural)]
#[non_exhaustive]
pub enum RasterValue {
    NoData,
    U8(u8),
    U16(u16),
    U32(u32),
    U64(u64),
    F32(u32),
    F64(u64),
    I8(i8),
    I16(i16),
    I32(i32),
    I64(i64),
    Rgb8(u8, u8, u8),
    Rgba8(u8, u8, u8, u8),
    Rgb16(u16, u16, u16),
    Rgba16(u16, u16, u16, u16),
}

/// A decoded chunk (tile or stripe): the decompressed, predictor-reversed
/// flat sample buffer together with its element type.
///
/// Floating-point sample buffers are carried as raw bit patterns, matching
/// [`RasterValue::F32`] and [`RasterValue::F64`].
#[derive(Debug, Clone)]
pub enum ChunkData {
    U8(Vec<u8>),
    U16(Vec<u16>),
    U32(Vec<u32>),
    U64(Vec<u64>),
    F32(Vec<u32>),
    F64(Vec<u64>),
    I8(Vec<i8>),
    I16(Vec<i16>),
    I32(Vec<i32>),
    I64(Vec<i64>),
}

impl ChunkData {
    /// Number of sample elements in the buffer.
    pub open spec fn spec_len(self) -> nat {
        match self {
            ChunkData::U8(buf) => buf@.len(),
            ChunkData::U16(buf) => buf@.len(),
            ChunkData::U32(buf) => buf@.len(),
            ChunkData::U64(buf) => buf@.len(),
            ChunkData::F32(buf) => buf@.len(),
            ChunkData::F64(buf) => buf@.len(),
            ChunkData::I8(buf) => buf@.len(),
            ChunkData::I16(buf) => buf@.len(),
            ChunkData::I32(buf) => buf@.len(),
            ChunkData::I64(buf) => buf@.len(),
        }
    }
}

/// The value reconstructed from a chunk buffer at an element offset with
/// `spp` interleaved samples per pixel.
///
/// For 8-bit and 16-bit unsigned buffers, `spp == 3` and `spp == 4` build
/// RGB and RGBA composites from consecutive elements; every other
/// combination reads a single scalar element. Any read past the end of the
/// buffer gives `NoData`.
pub open spec fn spec_raster_value(chunk: ChunkData, offset: int, spp: int) -> RasterValue {
    match chunk {
        ChunkData::U8(buf) => if spp == 3 {
            if 0 <= offset && offset + 3 <= buf@.len() {
                RasterValue::Rgb8(buf@[offset], buf@[offset + 1], buf@[offset + 2])
            } else {
                RasterValue::NoData
            }
        } else if spp == 4 {
            if 0 <= offset && offset + 4 <= buf@.len() {
                RasterValue::Rgba8(
                    buf@[offset],
                    buf@[offset + 1],
                    buf@[offset + 2],
                    buf@[offset + 3],
                )
            } else {
                RasterValue::NoData
            }
        } else {
            if 0 <= offset < buf@.len() {
                RasterValue::U8(buf@[offset])
            } else {
                RasterValue::NoData
            }
        },
        ChunkData::U16(buf) => if spp == 3 {
            if 0 <= offset && offset + 3 <= buf@.len() {
                RasterValue::Rgb16(buf@[offset], buf@[offset + 1], buf@[offset + 2])
            } else {
                RasterValue::NoData
            }
        } else if spp == 4 {
            if 0 <= offset && offset + 4 <= buf@.len() {
                RasterValue::Rgba16(
                    buf@[offset],
                    buf@[offset + 1],
                    buf@[offset + 2],
                    buf@[offset + 3],
                )
            } else {
                RasterValue::NoData
            }
        } else {
            if 0 <= offset < buf@.len() {
                RasterValue::U16(buf@[offset])
            } else {
                RasterValue::NoData
            }
        },
        ChunkData::U32(buf) => if 0 <= offset < buf@.len() {
            RasterValue::U32(buf@[offset])
        } else {
            RasterValue::NoData
        },
        ChunkData::U64(buf) => if 0 <= offset < buf@.len() {
            RasterValue::U64(buf@[offset])
        } else {
            RasterValue::NoData
        },
        ChunkData::F32(buf) => if 0 <= offset < buf@.len() {
            RasterValue::F32(buf@[offset])
        } else {
            RasterValue::NoData
        },
        ChunkData::F64(buf) => if 0 <= offset < buf@.len() {
            RasterValue::F64(buf@[offset])
        } else {
            RasterValue::NoData
        },
        ChunkData::I8(buf) => if 0 <= offset < buf@.len() {
            RasterValue::I8(buf@[offset])
        } else {
            RasterValue::NoData
        },
        ChunkData::I16(buf) => if 0 <= offset < buf@.len() {
            RasterValue::I16(buf@[offset])
        } else {
            RasterValue::NoData
        },
        ChunkData::I32(buf) => if 0 <= offset < buf@.len() {
            RasterValue::I32(buf@[offset])
        } else {
            RasterValue::NoData
        },
        ChunkData::I64(buf) => if 0 <= offset < buf@.len() {
            RasterValue::I64(buf@[offset])
        } else {
            RasterValue::NoData
        },
    }
}

/// Reconstruct the raster value stored in `chunk` at element `offset` with
/// `spp` interleaved samples per pixel. Total: out-of-range reads give
/// `NoData`, never a failure.
pub fn raster_value(chunk: &ChunkData, offset: usize, spp: u8) -> (r: RasterValue)
    ensures
        r == spec_raster_value(*chunk, offset as int, spp as int),
{
    match chunk {
        ChunkData::U8(buf) => {
            if spp == 3 {
                if buf.len() >= 3 && offset <= buf.len() - 3 {
                    RasterValue::Rgb8(buf[offset], buf[offset + 1], buf[offset + 2])
                } else {
                    RasterValue::NoData
                }
            } else if spp == 4 {
                if buf.len() >= 4 && offset <= buf.len() - 4 {
                    RasterValue::Rgba8(
                        buf[offset],
                        buf[offset + 1],
                        buf[offset + 2],
                        buf[offset + 3],
                    )
                } else {
                    RasterValue::NoData
                }
            } else {
                if offset < buf.len() {
                    RasterValue::U8(buf[offset])
                } else {
                    RasterValue::NoData
                }
            }
        },
        ChunkData::U16(buf) => {
            if spp == 3 {
                if buf.len() >= 3 && offset <= buf.len() - 3 {
                    RasterValue::Rgb16(buf[offset], buf[offset + 1], buf[offset + 2])
                } else {
                    RasterValue::NoData
                }
            } else if spp == 4 {
                if buf.len() >= 4 && offset <= buf.len() - 4 {
                    RasterValue::Rgba16(
                        buf[offset],
                        buf[offset + 1],
                        buf[offset + 2],
                        buf[offset + 3],
                    )
                } else {
                    RasterValue::NoData
                }
            } else {
                if offset < buf.len() {
                    RasterValue::U16(buf[offset])
                } else {
                    RasterValue::NoData
                }
            }
        },
        ChunkData::U32(buf) => {
            if offset < buf.len() {
                RasterValue::U32(buf[offset])
            } else {
                RasterValue::NoData
            }
        },
        ChunkData::U64(buf) => {
            if offset < buf.len() {
                RasterValue::U64(buf[offset])
            } else {
                RasterValue::NoData
            }
        },
        ChunkData::F32(buf) => {
            if offset < buf.len() {
                RasterValue::F32(buf[offset])
            } else {
                RasterValue::NoData
            }
        },
        ChunkData::F64(buf) => {
            if offset < buf.len() {
                RasterValue::F64(buf[offset])
            } else {
                RasterValue::NoData
            }
        },
        ChunkData::I8(buf) => {
            if offset < buf.len() {
                RasterValue::I8(buf[offset])
            } else {
                RasterValue::NoData
            }
        },
        ChunkData::I16(buf) => {
            if offset < buf.len() {
                RasterValue::I16(buf[offset])
            } else {
                RasterValue::NoData
            }
        },
        ChunkData::I32(buf) => {
            if offset < buf.len() {
                RasterValue::I32(buf[offset])
            } else {
                RasterValue::NoData
            }
        },
        ChunkData::I64(buf) => {
            if offset < buf.len() {
                RasterValue::I64(buf[offset])
            } else {
                RasterValue::NoData
            }
        },
    }
}

impl RasterValue {
    /// The unsigned integer a value converts to, if any: exactly the
    /// unsigned scalar variants convert.
    pub open spec fn spec_as_u64(self) -> Option<u64> {
        match self {
            RasterValue::U8(v) => Some(v as u64),
            RasterValue::U16(v) => Some(v as u64),
            RasterValue::U32(v) => Some(v as u64),
            RasterValue::U64(v) => Some(v),
            _ => None,
        }
    }

    /// The signed integer a value converts to, if any: exactly the signed
    /// scalar variants and the unsigned ones up to 32 bits convert.
    pub open spec fn spec_as_i64(self) -> Option<i64> {
        match self {
            RasterValue::U8(v) => Some(v as i64),
            RasterValue::U16(v) => Some(v as i64),
            RasterValue::U32(v) => Some(v as i64),
            RasterValue::I8(v) => Some(v as i64),
            RasterValue::I16(v) => Some(v as i64),
            RasterValue::I32(v) => Some(v as i64),
            RasterValue::I64(v) => Some(v),
            _ => None,
        }
    }

    /// Convert an unsigned scalar value to `u64`; every other variant is a
    /// range error.
    pub fn try_to_u64(&self) -> (r: Result<u64, GeorasterError>)
        ensures
            r is Ok <==> self.spec_as_u64() is Some,
            r is Ok ==> r->Ok_0 == self.spec_as_u64()->Some_0,
            r is Err ==> r->Err_0 == GeorasterError::ValueRange,
    {
        match self {
            RasterValue::U8(v) => Ok(*v as u64),
            RasterValue::U16(v) => Ok(*v as u64),
            RasterValue::U32(v) => Ok(*v as u64),
            RasterValue::U64(v) => Ok(*v),
            _ => Err(GeorasterError::ValueRange),
        }
    }

    /// Convert an integer scalar value that fits to `i64`; every other
    /// variant is a range error.
    pub fn try_to_i64(&self) -> (r: Result<i64, GeorasterError>)
        ensures
            r is Ok <==> self.spec_as_i64() is Some,
            r is Ok ==> r->Ok_0 == self.spec_as_i64()->Some_0,
            r is Err ==> r->Err_0 == GeorasterError::ValueRange,
    {
        match self {
            RasterValue::U8(v) => Ok(*v as i64),
            RasterValue::U16(v) => Ok(*v as i64),
            RasterValue::U32(v) => Ok(*v as i64),
            RasterValue::I8(v) => Ok(*v as i64),
            RasterValue::I16(v) => Ok(*v as i64),
            RasterValue::I32(v) => Ok(*v as i64),
            RasterValue::I64(v) => Ok(*v),
            _ => Err(GeorasterError::ValueRange),
        }
    }
}

} // verus!

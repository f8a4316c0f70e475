use georaster::ChunkData;
use georaster::GeorasterError;
use georaster::RasterValue;
use georaster::value::raster_value;

#[test]
fn value_conversion() {
    assert_eq!(
        RasterValue::U32(u32::MAX).try_to_i64().unwrap(),
        4294967295
    );
    assert_eq!(
        RasterValue::U32(u32::MAX).try_to_u64().unwrap(),
        4294967295
    );
    assert_eq!(RasterValue::NoData.try_to_u64().ok(), None);
}

#[test]
fn value_conversion_errors() {
    assert_eq!(
        RasterValue::Rgb8(1, 2, 3).try_to_u64(),
        Err(GeorasterError::ValueRange)
    );
    assert_eq!(
        RasterValue::I8(-1).try_to_u64(),
        Err(GeorasterError::ValueRange)
    );
    assert_eq!(
        RasterValue::NoData.try_to_i64(),
        Err(GeorasterError::ValueRange)
    );
    assert_eq!(RasterValue::I64(-5).try_to_i64(), Ok(-5));
    assert_eq!(RasterValue::U8(7).try_to_i64(), Ok(7));
    assert_eq!(RasterValue::U16(300).try_to_u64(), Ok(300));
}

#[test]
fn rgb8_from_interleaved_buffer() {
    // spp = 3 on an 8-bit buffer reads three consecutive elements
    let chunk = ChunkData::U8(vec![10, 20, 30, 11, 21, 31]);
    assert_eq!(raster_value(&chunk, 0, 3), RasterValue::Rgb8(10, 20, 30));
    assert_eq!(raster_value(&chunk, 3, 3), RasterValue::Rgb8(11, 21, 31));
    // a partial pixel past the end is NoData
    assert_eq!(raster_value(&chunk, 4, 3), RasterValue::NoData);
    assert_eq!(raster_value(&chunk, 6, 3), RasterValue::NoData);
}

#[test]
fn rgba8_from_interleaved_buffer() {
    let chunk = ChunkData::U8(vec![1, 2, 3, 4, 5, 6, 7, 8]);
    assert_eq!(raster_value(&chunk, 0, 4), RasterValue::Rgba8(1, 2, 3, 4));
    assert_eq!(raster_value(&chunk, 4, 4), RasterValue::Rgba8(5, 6, 7, 8));
    assert_eq!(raster_value(&chunk, 5, 4), RasterValue::NoData);
}

#[test]
fn rgb16_from_interleaved_buffer() {
    let chunk = ChunkData::U16(vec![1000, 2000, 3000, 1001, 2001, 3001]);
    assert_eq!(
        raster_value(&chunk, 0, 3),
        RasterValue::Rgb16(1000, 2000, 3000)
    );
    assert_eq!(
        raster_value(&chunk, 3, 3),
        RasterValue::Rgb16(1001, 2001, 3001)
    );
    let chunk = ChunkData::U16(vec![1, 2, 3, 4]);
    assert_eq!(raster_value(&chunk, 0, 4), RasterValue::Rgba16(1, 2, 3, 4));
}

#[test]
fn scalars_from_buffer() {
    assert_eq!(
        raster_value(&ChunkData::U8(vec![9, 8]), 1, 1),
        RasterValue::U8(8)
    );
    assert_eq!(
        raster_value(&ChunkData::U16(vec![500]), 0, 1),
        RasterValue::U16(500)
    );
    assert_eq!(
        raster_value(&ChunkData::U32(vec![70000]), 0, 1),
        RasterValue::U32(70000)
    );
    assert_eq!(
        raster_value(&ChunkData::U64(vec![1 << 40]), 0, 1),
        RasterValue::U64(1 << 40)
    );
    assert_eq!(
        raster_value(&ChunkData::I8(vec![-3]), 0, 1),
        RasterValue::I8(-3)
    );
    assert_eq!(
        raster_value(&ChunkData::I16(vec![-300]), 0, 1),
        RasterValue::I16(-300)
    );
    assert_eq!(
        raster_value(&ChunkData::I32(vec![-70000]), 0, 1),
        RasterValue::I32(-70000)
    );
    assert_eq!(
        raster_value(&ChunkData::I64(vec![-5_000_000_000]), 0, 1),
        RasterValue::I64(-5_000_000_000)
    );
    // floating point samples travel as raw bit patterns
    let bits = 1.5f32.to_bits();
    assert_eq!(
        raster_value(&ChunkData::F32(vec![bits]), 0, 1),
        RasterValue::F32(bits)
    );
    if let RasterValue::F32(b) = raster_value(&ChunkData::F32(vec![bits]), 0, 1) {
        assert_eq!(f32::from_bits(b), 1.5);
    } else {
        panic!("expected an F32 sample");
    }
    let bits64 = (-2.25f64).to_bits();
    assert_eq!(
        raster_value(&ChunkData::F64(vec![bits64]), 0, 1),
        RasterValue::F64(bits64)
    );
    // any scalar read past the end is NoData
    assert_eq!(raster_value(&ChunkData::U8(vec![1]), 1, 1), RasterValue::NoData);
    assert_eq!(raster_value(&ChunkData::I32(vec![]), 0, 1), RasterValue::NoData);
    // an unusual sample count reads a single scalar
    assert_eq!(
        raster_value(&ChunkData::U8(vec![5, 6]), 1, 2),
        RasterValue::U8(6)
    );
}

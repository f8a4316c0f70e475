use georaster::ChunkData;
use georaster::ColorType;
use georaster::GeorasterError;
use georaster::ImageInfo;
use georaster::PlanarConfiguration;
use georaster::RasterReader;
use georaster::RasterValue;

/// An 8x8 grayscale image in 4x4 tiles; pixel (x, y) holds 10*y + x.
fn gray_8x8() -> RasterReader {
    let info = ImageInfo {
        dimensions: Some((8, 8)),
        colortype: Some(ColorType::Gray(8)),
        photometric_interpretation: None,
        planar_config: None,
        samples: 1,
        chunk_dimensions: (4, 4),
    };
    let mut chunks = Vec::new();
    for tile in 0..4u32 {
        let tx = (tile % 2) * 4;
        let ty = (tile / 2) * 4;
        let mut buf = Vec::new();
        for y in 0..4u32 {
            for x in 0..4u32 {
                buf.push((10 * (ty + y) + tx + x) as u8);
            }
        }
        chunks.push(ChunkData::U8(buf));
    }
    RasterReader::new(vec![info], vec![chunks], None, None, None, None, None)
}

/// A 2x2 chunky RGB image in one 4x4 tile (padded on neither side).
fn rgb_2x2() -> RasterReader {
    let info = ImageInfo {
        dimensions: Some((2, 2)),
        colortype: Some(ColorType::RGB(8)),
        photometric_interpretation: None,
        planar_config: Some(PlanarConfiguration::Chunky),
        samples: 3,
        chunk_dimensions: (2, 2),
    };
    let buf = vec![10, 20, 30, 11, 21, 31, 12, 22, 32, 13, 23, 33];
    RasterReader::new(
        vec![info],
        vec![vec![ChunkData::U8(buf)]],
        None,
        None,
        None,
        None,
        None,
    )
}

#[test]
fn read_pixel_gray() {
    let r = gray_8x8();
    assert_eq!(r.read_pixel(0, 0), RasterValue::U8(0));
    assert_eq!(r.read_pixel(5, 5), RasterValue::U8(55));
    assert_eq!(r.read_pixel(7, 0), RasterValue::U8(7));
    assert_eq!(r.read_pixel(0, 7), RasterValue::U8(70));
    assert_eq!(r.read_pixel(3, 4), RasterValue::U8(43));
}

#[test]
fn read_pixel_out_of_image_is_nodata() {
    let r = gray_8x8();
    assert_eq!(r.read_pixel(8, 4), RasterValue::NoData);
    assert_eq!(r.read_pixel(4, 8), RasterValue::NoData);
    assert_eq!(r.read_pixel(8, 8), RasterValue::NoData);
    assert_eq!(r.read_pixel(u32::MAX, 0), RasterValue::NoData);
}

#[test]
fn read_pixel_rgb_chunky() {
    let r = rgb_2x2();
    assert_eq!(r.read_pixel(0, 0), RasterValue::Rgb8(10, 20, 30));
    assert_eq!(r.read_pixel(1, 0), RasterValue::Rgb8(11, 21, 31));
    assert_eq!(r.read_pixel(0, 1), RasterValue::Rgb8(12, 22, 32));
    assert_eq!(r.read_pixel(1, 1), RasterValue::Rgb8(13, 23, 33));
}

#[test]
fn select_raster_band_bounds() {
    let mut r = rgb_2x2();
    assert_eq!(r.select_raster_band(0), Err(GeorasterError::BandIndex));
    assert_eq!(r.select_raster_band(4), Err(GeorasterError::BandIndex));
    assert_eq!(r.select_raster_band(1), Ok(()));
    assert_eq!(r.select_raster_band(3), Ok(()));
}

#[test]
fn seek_to_image_bounds() {
    let small = ImageInfo {
        dimensions: Some((1, 1)),
        colortype: Some(ColorType::Gray(8)),
        photometric_interpretation: None,
        planar_config: None,
        samples: 1,
        chunk_dimensions: (1, 1),
    };
    let big = ImageInfo {
        dimensions: Some((2, 1)),
        colortype: Some(ColorType::Gray(8)),
        photometric_interpretation: None,
        planar_config: None,
        samples: 1,
        chunk_dimensions: (2, 1),
    };
    let chunks = vec![
        vec![ChunkData::U8(vec![7])],
        vec![ChunkData::U8(vec![1, 2])],
    ];
    let mut r = RasterReader::new(
        vec![small, big],
        chunks,
        None,
        None,
        None,
        None,
        None,
    );
    // opening leaves the last image current
    assert_eq!(r.image_info().dimensions, Some((2, 1)));
    assert_eq!(r.read_pixel(1, 0), RasterValue::U8(2));
    assert_eq!(r.seek_to_image(0), Ok(()));
    assert_eq!(r.image_info().dimensions, Some((1, 1)));
    assert_eq!(r.read_pixel(0, 0), RasterValue::U8(7));
    assert_eq!(r.read_pixel(1, 0), RasterValue::NoData);
    assert_eq!(r.seek_to_image(2), Err(GeorasterError::ImageIndex));
    // a failed seek leaves the reader where it was
    assert_eq!(r.image_info().dimensions, Some((1, 1)));
    assert_eq!(r.images().len(), 2);
}

/// A 4x2 planar RGB image in 4x1 stripes, and its chunky equivalent.
fn planar_and_chunky() -> (RasterReader, RasterReader) {
    let planar_info = ImageInfo {
        dimensions: Some((4, 2)),
        colortype: Some(ColorType::RGB(8)),
        photometric_interpretation: None,
        planar_config: Some(PlanarConfiguration::Planar),
        samples: 3,
        chunk_dimensions: (4, 1),
    };
    let chunky_info = ImageInfo {
        dimensions: Some((4, 2)),
        colortype: Some(ColorType::RGB(8)),
        photometric_interpretation: None,
        planar_config: Some(PlanarConfiguration::Chunky),
        samples: 3,
        chunk_dimensions: (4, 1),
    };
    // sample value: channel*100 + y*10 + x
    let mut planar_chunks = Vec::new();
    for band in 0..3u32 {
        for y in 0..2u32 {
            let mut buf = Vec::new();
            for x in 0..4u32 {
                buf.push((band * 100 + y * 10 + x) as u8);
            }
            planar_chunks.push(ChunkData::U8(buf));
        }
    }
    let mut chunky_chunks = Vec::new();
    for y in 0..2u32 {
        let mut buf = Vec::new();
        for x in 0..4u32 {
            for band in 0..3u32 {
                buf.push((band * 100 + y * 10 + x) as u8);
            }
        }
        chunky_chunks.push(ChunkData::U8(buf));
    }
    let planar = RasterReader::new(
        vec![planar_info],
        vec![planar_chunks],
        None,
        None,
        None,
        None,
        None,
    );
    let chunky = RasterReader::new(
        vec![chunky_info],
        vec![chunky_chunks],
        None,
        None,
        None,
        None,
        None,
    );
    (planar, chunky)
}

#[test]
fn planar_bands_match_chunky_channels() {
    let (mut planar, chunky) = planar_and_chunky();
    for y in 0..2u32 {
        for x in 0..4u32 {
            let composite = chunky.read_pixel(x, y);
            let channels = match composite {
                RasterValue::Rgb8(r, g, b) => [r, g, b],
                other => panic!("expected a composite, got {other:?}"),
            };
            for band in 1..=3u8 {
                planar.select_raster_band(band).unwrap();
                assert_eq!(
                    planar.read_pixel(x, y),
                    RasterValue::U8(channels[(band - 1) as usize])
                );
            }
        }
    }
}

#[test]
fn planar_band_values() {
    let (mut planar, _) = planar_and_chunky();
    assert_eq!(planar.read_pixel(0, 0), RasterValue::U8(0));
    planar.select_raster_band(2).unwrap();
    assert_eq!(planar.read_pixel(0, 0), RasterValue::U8(100));
    planar.select_raster_band(3).unwrap();
    assert_eq!(planar.read_pixel(3, 1), RasterValue::U8(213));
}

#[test]
fn float_samples_round_trip_as_bits() {
    let info = ImageInfo {
        dimensions: Some((2, 1)),
        colortype: Some(ColorType::Gray(32)),
        photometric_interpretation: None,
        planar_config: None,
        samples: 1,
        chunk_dimensions: (2, 1),
    };
    let values = [0.0050608707f32, f32::NAN];
    let buf: Vec<u32> = values.iter().map(|v| v.to_bits()).collect();
    let r = RasterReader::new(
        vec![info],
        vec![vec![ChunkData::F32(buf)]],
        None,
        None,
        None,
        None,
        None,
    );
    assert_eq!(
        r.read_pixel(0, 0),
        RasterValue::F32(0.0050608707f32.to_bits())
    );
    if let RasterValue::F32(bits) = r.read_pixel(1, 0) {
        assert!(f32::from_bits(bits).is_nan());
    } else {
        panic!("expected an F32 sample");
    }
    assert_eq!(r.read_pixel(2, 0), RasterValue::NoData);
}

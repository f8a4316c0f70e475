use georaster::ChunkData;
use georaster::ColorType;
use georaster::ImageInfo;
use georaster::PlanarConfiguration;
use georaster::RasterReader;
use georaster::RasterValue;

/// An 8x8 grayscale image in 4x4 tiles; pixel (x, y) holds 10*y + x.
fn gray_8x8() -> RasterReader {
    let info = ImageInfo {
        dimensions: Some((8, 8)),
        colortype: Some(ColorType::Gray(8)),
        photometric_interpretation: None,
        planar_config: None,
        samples: 1,
        chunk_dimensions: (4, 4),
    };
    let mut chunks = Vec::new();
    for tile in 0..4u32 {
        let tx = (tile % 2) * 4;
        let ty = (tile / 2) * 4;
        let mut buf = Vec::new();
        for y in 0..4u32 {
            for x in 0..4u32 {
                buf.push((10 * (ty + y) + tx + x) as u8);
            }
        }
        chunks.push(ChunkData::U8(buf));
    }
    RasterReader::new(vec![info], vec![chunks], None, None, None, None, None)
}

fn collect(r: &RasterReader, x: u32, y: u32, w: u32, h: u32) -> Vec<(u32, u32, RasterValue)> {
    let mut cursor = r.pixels(x, y, w, h);
    let mut out = Vec::new();
    while let Some(item) = cursor.next(r) {
        out.push(item);
    }
    out
}

#[test]
fn window_inside_one_chunk_is_row_major() {
    let r = gray_8x8();
    let pixels = collect(&r, 1, 1, 2, 2);
    assert_eq!(
        pixels,
        vec![
            (1, 1, RasterValue::U8(11)),
            (2, 1, RasterValue::U8(12)),
            (1, 2, RasterValue::U8(21)),
            (2, 2, RasterValue::U8(22)),
        ]
    );
    // every item matches a single-pixel read at the same position
    for (x, y, v) in pixels {
        assert_eq!(r.read_pixel(x, y), v);
    }
}

#[test]
fn window_spanning_chunks_keeps_length_and_values() {
    let r = gray_8x8();
    // 4x4 window centered on the meeting point of all four chunks
    let pixels = collect(&r, 2, 2, 4, 4);
    assert_eq!(pixels.len(), 16);
    for &(x, y, v) in &pixels {
        assert!((2..6).contains(&x) && (2..6).contains(&y));
        assert_eq!(r.read_pixel(x, y), v);
    }
    // each window position appears exactly once
    let mut seen: Vec<(u32, u32)> = pixels.iter().map(|p| (p.0, p.1)).collect();
    seen.sort();
    seen.dedup();
    assert_eq!(seen.len(), 16);
    // the traversal finishes each chunk's share before crossing, starting
    // with the top-left chunk's 2x2 corner
    assert_eq!(
        pixels[..4]
            .iter()
            .map(|p| (p.0, p.1))
            .collect::<Vec<_>>(),
        vec![(2, 2), (3, 2), (2, 3), (3, 3)]
    );
}

#[test]
fn whole_image_window() {
    let r = gray_8x8();
    let pixels = r.pixels_vec(0, 0, 8, 8);
    assert_eq!(pixels.len(), 64);
    for &(x, y, v) in &pixels {
        assert_eq!(r.read_pixel(x, y), v);
    }
}

#[test]
fn zero_size_window_yields_one_pixel() {
    let r = gray_8x8();
    let mut pixels = r.pixels(3, 2, 0, 0);
    assert_eq!(pixels.next(&r), Some((3, 2, RasterValue::U8(23))));
    assert_eq!(pixels.next(&r), None);
    assert_eq!(pixels.next(&r), None);
}

#[test]
fn window_starting_outside_yields_nothing() {
    let r = gray_8x8();
    let mut pixels = r.pixels(8, 0, 1, 1);
    assert_eq!(pixels.next(&r), None);
    let mut pixels = r.pixels(0, 9, 1, 1);
    assert_eq!(pixels.next(&r), None);
    assert!(r.pixels_vec(8, 8, 1, 1).is_empty());
}

#[test]
fn planar_band_window() {
    // a 4x4 planar image in 4x1 stripes; three bands
    let info = ImageInfo {
        dimensions: Some((4, 4)),
        colortype: Some(ColorType::RGB(8)),
        photometric_interpretation: None,
        planar_config: Some(PlanarConfiguration::Planar),
        samples: 3,
        chunk_dimensions: (4, 1),
    };
    let mut chunks = Vec::new();
    for band in 0..3u32 {
        for y in 0..4u32 {
            let mut buf = Vec::new();
            for x in 0..4u32 {
                buf.push((band * 50 + y * 10 + x) as u8);
            }
            chunks.push(ChunkData::U8(buf));
        }
    }
    let mut r = RasterReader::new(vec![info], vec![chunks], None, None, None, None, None);
    r.select_raster_band(2).unwrap();
    let pixels = collect(&r, 1, 1, 2, 2);
    assert_eq!(
        pixels,
        vec![
            (1, 1, RasterValue::U8(61)),
            (2, 1, RasterValue::U8(62)),
            (1, 2, RasterValue::U8(71)),
            (2, 2, RasterValue::U8(72)),
        ]
    );
}

#[test]
fn pixels_vec_matches_cursor() {
    let r = gray_8x8();
    assert_eq!(collect(&r, 2, 2, 4, 4), r.pixels_vec(2, 2, 4, 4));
    assert_eq!(collect(&r, 0, 5, 8, 3), r.pixels_vec(0, 5, 8, 3));
}

#[test]
fn zero_width_window_walks_a_column() {
    // a window of zero width still visits one pixel per requested row
    let r = gray_8x8();
    let pixels = collect(&r, 2, 1, 0, 3);
    assert_eq!(
        pixels,
        vec![
            (2, 1, RasterValue::U8(12)),
            (2, 2, RasterValue::U8(22)),
            (2, 3, RasterValue::U8(32)),
        ]
    );
}

use georaster::ChunkData;
use georaster::ColorType;
use georaster::Coordinate;
use georaster::ImageInfo;
use georaster::RasterReader;
use georaster::RasterValue;

/// One coordinate unit per whole geographic unit keeps the numbers small;
/// any consistent scale works.
fn reader_with_tags(
    pixel_scale: Option<Vec<i128>>,
    model_transformation: Option<Vec<i128>>,
    tie_points: Option<Vec<i128>>,
) -> RasterReader {
    let info = ImageInfo {
        dimensions: Some((8, 8)),
        colortype: Some(ColorType::Gray(8)),
        photometric_interpretation: None,
        planar_config: None,
        samples: 1,
        chunk_dimensions: (8, 8),
    };
    let mut buf = Vec::new();
    for y in 0..8u32 {
        for x in 0..8u32 {
            buf.push((10 * y + x) as u8);
        }
    }
    RasterReader::new(
        vec![info],
        vec![vec![ChunkData::U8(buf)]],
        None,
        None,
        pixel_scale,
        model_transformation,
        tie_points,
    )
}

#[test]
fn coordinate_new_swaps_axes() {
    let c = Coordinate::new(50, 160);
    assert_eq!(c.x, 160);
    assert_eq!(c.y, 50);
    assert_eq!(c, Coordinate { x: 160, y: 50 });
}

#[test]
fn origin_and_pixel_size_from_tags() {
    // tie-points [_,_,_,100,200,_] and pixel scale [2,2,_] resolve to
    // origin (100, 200) and pixel size (2, -2)
    let r = reader_with_tags(
        Some(vec![2, 2, 0]),
        None,
        Some(vec![0, 0, 0, 100, 200, 0]),
    );
    assert_eq!(r.origin(), Some((100, 200)));
    assert_eq!(r.pixel_size(), Some((2, -2)));
    assert_eq!(
        r.pixel_to_coord(1, 1),
        Some(Coordinate { x: 102, y: 198 })
    );
}

#[test]
fn origin_from_matrix_when_tie_points_absent() {
    let mut matrix = vec![0i128; 16];
    matrix[0] = 3;
    matrix[3] = 40;
    matrix[5] = -3;
    matrix[7] = 90;
    let r = reader_with_tags(None, Some(matrix), None);
    assert_eq!(r.origin(), Some((40, 90)));
    assert_eq!(r.pixel_size(), Some((3, -3)));
}

#[test]
fn tie_points_of_wrong_length_fall_back_to_matrix() {
    let mut matrix = vec![0i128; 16];
    matrix[3] = 7;
    matrix[7] = 8;
    let r = reader_with_tags(None, Some(matrix), Some(vec![1, 2, 3]));
    assert_eq!(r.origin(), Some((7, 8)));
}

#[test]
fn no_georeferencing_means_none() {
    let r = reader_with_tags(None, None, None);
    assert_eq!(r.origin(), None);
    assert_eq!(r.pixel_size(), None);
    assert_eq!(r.coord_to_pixel(Coordinate { x: 0, y: 0 }), None);
    assert_eq!(r.pixel_to_coord(0, 0), None);
    assert_eq!(
        r.read_pixel_at_location(Coordinate { x: 0, y: 0 }),
        RasterValue::NoData
    );
}

#[test]
fn coord_to_pixel_rounds_half_away_from_zero() {
    // origin 0, pixel size (2, -2): coordinate 3 lies halfway between
    // pixels 1 and 2 and rounds away from zero
    let r = reader_with_tags(Some(vec![2, 2, 0]), None, Some(vec![0, 0, 0, 0, 0, 0]));
    assert_eq!(r.coord_to_pixel(Coordinate { x: 3, y: -3 }), Some((2, 2)));
    assert_eq!(r.coord_to_pixel(Coordinate { x: 2, y: -2 }), Some((1, 1)));
    assert_eq!(r.coord_to_pixel(Coordinate { x: 1, y: -1 }), Some((1, 1)));
    // a coordinate left of the origin saturates at pixel zero
    assert_eq!(r.coord_to_pixel(Coordinate { x: -9, y: 9 }), Some((0, 0)));
}

#[test]
fn convert_pixel_coordinates_world_grid() {
    // a 400x200 world grid in units of thousandths: origin (-180, 90),
    // pixel size 0.9
    let r = reader_with_tags(
        Some(vec![900, 900, 0]),
        None,
        Some(vec![0, 0, 0, -180_000, 90_000, 0]),
    );
    let location = Coordinate { x: 0, y: 0 };
    let (x, y) = r.coord_to_pixel(location).unwrap();
    assert_eq!(x, 200);
    assert_eq!(y, 100);
    assert_eq!(r.pixel_to_coord(x, y), Some(location));

    let location = Coordinate {
        x: -90_000,
        y: 45_000,
    };
    let (x, y) = r.coord_to_pixel(location).unwrap();
    assert_eq!(x, 100);
    assert_eq!(y, 50);
    assert_eq!(r.pixel_to_coord(x, y), Some(location));
}

#[test]
fn read_pixel_at_location_matches_read_pixel() {
    let r = reader_with_tags(
        Some(vec![1, 1, 0]),
        None,
        Some(vec![0, 0, 0, 0, 8, 0]),
    );
    // origin (0, 8), pixel size (1, -1): coordinate (5, 3) is pixel (5, 5)
    let location = Coordinate { x: 5, y: 3 };
    assert_eq!(r.coord_to_pixel(location), Some((5, 5)));
    assert_eq!(r.read_pixel_at_location(location), r.read_pixel(5, 5));
    assert_eq!(r.read_pixel_at_location(location), RasterValue::U8(55));
    // a location outside the image reads NoData
    let outside = Coordinate { x: 20, y: 8 };
    assert_eq!(r.read_pixel_at_location(outside), RasterValue::NoData);
}

#[test]
fn round_trip_examples() {
    let r = reader_with_tags(
        Some(vec![60, 60, 0]),
        None,
        Some(vec![0, 0, 0, 440_720, 3_751_320, 0]),
    );
    for &(x, y) in &[(0u32, 0u32), (1, 1), (19, 7), (511, 512)] {
        let c = r.pixel_to_coord(x, y).unwrap();
        assert_eq!(r.coord_to_pixel(c), Some((x, y)));
    }
}

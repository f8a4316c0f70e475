use georaster::PlanarConfiguration;
use georaster::TileAttributes;

#[test]
fn chunk_index_and_offset() {
    // an 8x8 grayscale image with 4x4 tiles: pixel (5,5) lives in the
    // bottom-right tile (chunk 3) at in-chunk offset 1*4+1 = 5
    let grid = TileAttributes::from_dims((8, 8), (4, 4), None);
    assert_eq!(grid.tiles_across(), 2);
    assert_eq!(grid.tiles_down(), 2);
    let idx = grid.get_chunk_index(5, 5, 0);
    assert_eq!(idx, 3);
    assert_eq!(grid.get_chunk_offset(idx, 5, 5, 1), 5);
    // the first pixel of each tile
    assert_eq!(grid.get_chunk_index(0, 0, 0), 0);
    assert_eq!(grid.get_chunk_index(4, 0, 0), 1);
    assert_eq!(grid.get_chunk_index(0, 4, 0), 2);
    assert_eq!(grid.get_chunk_offset(0, 0, 0, 1), 0);
}

#[test]
fn chunk_offset_with_spp() {
    let grid = TileAttributes::from_dims((8, 8), (4, 4), None);
    // three interleaved samples per pixel scale the element offset
    assert_eq!(grid.get_chunk_offset(0, 1, 0, 3), 3);
    assert_eq!(grid.get_chunk_offset(0, 1, 1, 3), 15);
}

#[test]
fn boundary_padding() {
    // a 10x6 image with 4x4 tiles: the last tile column misses 2 pixels,
    // the last tile row misses 2 rows
    let grid = TileAttributes::from_dims((10, 6), (4, 4), None);
    assert_eq!(grid.tiles_across(), 3);
    assert_eq!(grid.tiles_down(), 2);
    assert_eq!(grid.get_padding(0), (0, 0));
    assert_eq!(grid.get_padding(2), (2, 0));
    assert_eq!(grid.get_padding(3), (0, 2));
    assert_eq!(grid.get_padding(5), (2, 2));
    // padding shrinks the effective row width used by the offset
    assert_eq!(grid.get_chunk_offset(2, 9, 1, 1), 3);
}

#[test]
fn no_padding_on_exact_fit() {
    let grid = TileAttributes::from_dims((8, 8), (4, 4), None);
    for tile in 0..4 {
        assert_eq!(grid.get_padding(tile), (0, 0));
    }
}

#[test]
fn planar_band_offset() {
    // striped planar layout: each band's stripes follow the previous
    // band's at an offset of image_height / stripe_height
    let grid = TileAttributes::from_dims(
        (4, 2),
        (4, 1),
        Some(PlanarConfiguration::Planar),
    );
    assert_eq!(grid.tiles_across(), 1);
    assert_eq!(grid.tiles_down(), 2);
    assert_eq!(grid.get_chunk_index(0, 0, 0), 0);
    assert_eq!(grid.get_chunk_index(0, 1, 0), 1);
    assert_eq!(grid.get_chunk_index(0, 0, 1), 2);
    assert_eq!(grid.get_chunk_index(0, 1, 2), 5);
}

#[test]
fn stripes_as_chunks() {
    // stripes are chunks whose width is the image width
    let grid = TileAttributes::from_dims((6, 5), (6, 2), None);
    assert_eq!(grid.tiles_across(), 1);
    assert_eq!(grid.tiles_down(), 3);
    assert_eq!(grid.get_chunk_index(4, 3, 0), 1);
    assert_eq!(grid.get_chunk_offset(1, 4, 3, 1), 10);
}

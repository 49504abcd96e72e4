use task_masker::map::tilemap::{
    flipped_pixel_y, tile_pixel_position, MapGridDimensions, SpriteSheetDimensions,
    TileDimensions, TileDrawingOffset, TileGridCoordinates,
};

#[test]
fn map_dimensions_kept() {
    let flat = MapGridDimensions::new(30, 20);
    assert_eq!(30, flat.width());
    assert_eq!(20, flat.height());
    let deep = MapGridDimensions::new_3d(4, 5, 6);
    assert_eq!(4, deep.width());
    assert_eq!(5, deep.height());
    let tile = TileDimensions::new(16, 8);
    assert_eq!(16, tile.width());
    assert_eq!(8, tile.height());
}

#[test]
fn grid_coordinates_kept() {
    let flat = TileGridCoordinates::new(3, 4);
    assert_eq!((3, 4, 0), (flat.x(), flat.y(), flat.z()));
    let deep = TileGridCoordinates::new_3d(3, 4, 5);
    assert_eq!((3, 4, 5), (deep.x(), deep.y(), deep.z()));
    assert_ne!(flat, deep);
}

#[test]
fn pixel_position_adds_offsets_to_grid_place() {
    let offsets = TileDrawingOffset::new(-4, 6);
    let place = TileGridCoordinates::new_3d(2, 3, 1);
    assert_eq!((28, 6 + 10 + 24, 1), tile_pixel_position(&offsets, 10, 16, 8, &place));
    let none = TileDrawingOffset::new(0, 0);
    assert_eq!((0, 0, 0), tile_pixel_position(&none, 0, 16, 8, &TileGridCoordinates::new(0, 0)));
}

#[test]
fn flipped_rows_count_from_the_bottom() {
    assert_eq!(16 * 9, flipped_pixel_y(10, 0, 16));
    assert_eq!(0, flipped_pixel_y(10, 9, 16));
    assert_eq!(16 * 5, flipped_pixel_y(10, 4, 16));
}

#[test]
fn spritesheet_rows_and_columns_from_image() {
    let dims = SpriteSheetDimensions::from_image(256, 128, 16, 32);
    assert_eq!(4, dims.rows());
    assert_eq!(16, dims.columns());
    // partial tiles at the edges do not count
    let partial = SpriteSheetDimensions::from_image(50, 50, 16, 16);
    assert_eq!(3, partial.rows());
    assert_eq!(3, partial.columns());
    let direct = SpriteSheetDimensions::new(2, 7);
    assert_eq!((2, 7), (direct.rows(), direct.columns()));
}

use task_masker::map::path_finding::{HeightedTilePos, TilePos};
use task_masker::map::tiled::convert_tiled_to_bevy_pos;

#[test]
fn tiled_position_converts_to_bevy_position() {
    // a 5x5 island map
    let world_width = 5;
    let tiled_tile_pos = TilePos::new(1, 1);
    let expected_bevy_pos = TilePos::new(1, 3);

    assert_eq!(expected_bevy_pos, convert_tiled_to_bevy_pos(tiled_tile_pos, world_width));
}

#[test]
fn converting_twice_gives_position_back() {
    let world_width = 7;
    for y in 0..world_width {
        let tiled_tile_pos = TilePos::new(2, y);
        let bevy_pos = convert_tiled_to_bevy_pos(tiled_tile_pos, world_width);
        assert_eq!(tiled_tile_pos, convert_tiled_to_bevy_pos(bevy_pos, world_width));
    }
}

#[test]
fn converting_top_row_gives_bottom_row() {
    assert_eq!(TilePos::new(4, 9), convert_tiled_to_bevy_pos(TilePos::new(4, 0), 10));
    assert_eq!(TilePos::new(4, 0), convert_tiled_to_bevy_pos(TilePos::new(4, 9), 10));
}

#[test]
fn flipping_heighted_tile_keeps_x_and_height() {
    let tile = HeightedTilePos::new(TilePos::new(3, 1), 6);
    let flipped = tile.flip(5);
    assert_eq!(HeightedTilePos::new(TilePos::new(3, 3), 6), flipped);
    assert_eq!(tile, flipped.flip(5));
}

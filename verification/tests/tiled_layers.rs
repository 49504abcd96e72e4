use task_masker::map::path_finding::TilePos;
use task_masker::map::tiled::{
    image_offsets, tiles_to_spawn, FiniteLayerGrid, LayerNumber, LayerTileData, SpawnedTile,
    TextureIndexing,
};

fn tile(tileset_index: usize, id: u32) -> Option<LayerTileData> {
    Some(LayerTileData { tileset_index, id, flip_h: false, flip_v: true, flip_d: false })
}

/// A 2 by 2 layer, cells row by row from the top: tileset 0 at the top
/// left, tileset 1 at the top right, nothing at the bottom left, tileset 0
/// at the bottom right.
fn layer() -> FiniteLayerGrid {
    FiniteLayerGrid { width: 2, height: 2, cells: vec![tile(0, 5), tile(1, 6), None, tile(0, 7)] }
}

fn spawned(x: u32, y: u32, texture_index: Option<u32>, layer: usize) -> SpawnedTile {
    SpawnedTile {
        pos: TilePos::new(x, y),
        texture_index,
        flip_x: false,
        flip_y: true,
        flip_d: false,
        layer: LayerNumber(layer),
    }
}

#[test]
fn tiles_of_tileset_placed_with_y_turned_up() {
    let tiles = tiles_to_spawn(&layer(), 0, 3, Some(&TextureIndexing::Single));
    // column 0: (0, 0) is the bottom left cell (empty), (0, 1) the top left
    // column 1: (1, 0) is the bottom right cell, (1, 1) the top right (other tileset)
    assert_eq!(vec![spawned(0, 1, Some(5), 3), spawned(1, 0, Some(7), 3)], tiles);
}

#[test]
fn other_tileset_gets_its_own_tiles() {
    let tiles = tiles_to_spawn(&layer(), 1, 0, None);
    assert_eq!(vec![spawned(1, 1, None, 0)], tiles);
}

#[test]
fn per_tile_images_use_offsets() {
    let offsets = TextureIndexing::PerTile(vec![(7, 1), (5, 0), (7, 9)]);
    let tiles = tiles_to_spawn(&layer(), 0, 2, Some(&offsets));
    assert_eq!(vec![spawned(0, 1, Some(0), 2), spawned(1, 0, Some(1), 2)], tiles);
}

#[test]
fn offsets_count_tiles_with_images() {
    let listed = vec![(4, true), (9, false), (2, true), (3, true)];
    assert_eq!(vec![(4, 0), (2, 1), (3, 2)], image_offsets(&listed));
    assert!(image_offsets(&Vec::new()).is_empty());
}

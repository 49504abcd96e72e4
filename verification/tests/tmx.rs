use task_masker::map::tiled::{tiles_to_spawn, LayerTileData, TextureIndexing};
use task_masker::map::tilemap::tilemap_tiles;
use task_masker::map::tmx::{load_tmx, TilesetTexture};

const MAP: &str = r#"<?xml version="1.0" encoding="UTF-8"?>
<map version="1.10" orientation="orthogonal" renderorder="right-down" width="2" height="2" tilewidth="16" tileheight="16" infinite="0" nextlayerid="3" nextobjectid="1">
 <tileset firstgid="1" name="ground" tilewidth="16" tileheight="16" tilecount="4" columns="2">
  <image source="ground.png" width="32" height="32"/>
 </tileset>
 <tileset firstgid="5" name="props" tilewidth="16" tileheight="32" tilecount="4" columns="0">
  <tile id="0">
   <image source="lamp.png" width="16" height="32"/>
  </tile>
  <tile id="3">
   <image source="tree.png" width="16" height="32"/>
  </tile>
 </tileset>
 <layer id="1" name="Ground" width="2" height="2">
  <data encoding="csv">
1,2,
0,4
</data>
 </layer>
 <layer id="2" name="Props" width="2" height="2">
  <data encoding="csv">
0,0,
8,5
</data>
 </layer>
</map>
"#;

#[test]
fn map_file_gives_tilesets_and_layers() {
    let loaded = load_tmx(MAP.as_bytes(), "maps/test.tmx").expect("the map parses");
    assert_eq!(2, loaded.map.tilesets.len());
    assert_eq!(2, loaded.map.layers.len());
    let ground = loaded.map.layers[0].as_ref().expect("a finite tile layer");
    assert_eq!((2, 2), (ground.width, ground.height));
    let tile = |tileset_index: usize, id: u32| LayerTileData {
        tileset_index,
        id,
        flip_h: false,
        flip_v: false,
        flip_d: false,
    };
    assert_eq!(vec![Some(tile(0, 0)), Some(tile(0, 1)), None, Some(tile(0, 3))], ground.cells);
    let props = loaded.map.layers[1].as_ref().expect("a finite tile layer");
    assert_eq!(vec![None, None, Some(tile(1, 3)), Some(tile(1, 0))], props.cells);
}

#[test]
fn tileset_with_one_image_asks_for_that_image() {
    let loaded = load_tmx(MAP.as_bytes(), "maps/test.tmx").expect("the map parses");
    match &loaded.textures[0] {
        TilesetTexture::Single(source) => assert_eq!("maps/ground.png", source.replace('\\', "/")),
        TilesetTexture::PerTile { .. } => panic!("the ground tileset has one image"),
    }
}

#[test]
fn tileset_of_tile_images_numbers_each_image() {
    let loaded = load_tmx(MAP.as_bytes(), "maps/test.tmx").expect("the map parses");
    assert_eq!(2, loaded.textures.len());
    match &loaded.textures[1] {
        TilesetTexture::PerTile { images, offsets } => {
            assert_eq!(2, images.len());
            assert_eq!(2, offsets.len());
            for (id, offset) in offsets {
                let expected = if *id == 0 { "lamp.png" } else { "tree.png" };
                assert!(images[*offset as usize].ends_with(expected));
            }
        }
        TilesetTexture::Single(_) => panic!("the props tileset has an image per tile"),
    }
}

#[test]
fn spawned_props_use_their_image_offsets() {
    let loaded = load_tmx(MAP.as_bytes(), "maps/test.tmx").expect("the map parses");
    let TilesetTexture::PerTile { images, offsets } = &loaded.textures[1] else {
        panic!("the props tileset has an image per tile");
    };
    let indexing = TextureIndexing::PerTile(offsets.clone());
    let grid = loaded.map.layers[1].as_ref().unwrap();
    let spawned = tiles_to_spawn(grid, 1, 1, Some(&indexing));
    assert_eq!(2, spawned.len());
    // the bottom row of the file is row 0 of the game's grid
    assert_eq!((0, 0), (spawned[0].pos.x, spawned[0].pos.y));
    assert!(images[spawned[0].texture_index.unwrap() as usize].ends_with("tree.png"));
    assert_eq!((1, 0), (spawned[1].pos.x, spawned[1].pos.y));
    assert!(images[spawned[1].texture_index.unwrap() as usize].ends_with("lamp.png"));
}

#[test]
fn bytes_that_hold_no_map_give_nothing() {
    assert!(load_tmx(b"not a map", "maps/test.tmx").is_none());
}

#[test]
fn layer_with_too_few_cells_gives_nothing() {
    let short = MAP.replacen("1,2,\n0,4\n", "1,2\n", 1);
    assert!(load_tmx(short.as_bytes(), "maps/test.tmx").is_none());
}

#[test]
fn tileset_whose_columns_cannot_be_worked_out_gives_nothing() {
    let wide = MAP.replacen(
        r#"<tileset firstgid="1" name="ground" tilewidth="16" tileheight="16" tilecount="4" columns="2">"#,
        r#"<tileset firstgid="1" name="ground" tilewidth="4294967295" tileheight="16" tilecount="4" spacing="1">"#,
        1,
    );
    assert!(load_tmx(wide.as_bytes(), "maps/test.tmx").is_none());
}

const DRAWN_MAP: &str = r#"<?xml version="1.0" encoding="UTF-8"?>
<map version="1.10" orientation="orthogonal" renderorder="right-down" width="2" height="2" tilewidth="16" tileheight="16" infinite="0" nextlayerid="3" nextobjectid="1">
 <tileset firstgid="1" name="ground" tilewidth="16" tileheight="16" tilecount="4" columns="2">
  <tileoffset x="2" y="-4"/>
  <image source="ground.png" width="32" height="32"/>
 </tileset>
 <layer id="1" name="Ground" width="2" height="2">
  <data encoding="csv">
1,2,
0,4
</data>
 </layer>
 <layer id="2" name="Top" width="2" height="2" offsety="8">
  <data encoding="csv">
0,0,
0,3
</data>
 </layer>
</map>
"#;

#[test]
fn map_file_gives_how_it_is_drawn() {
    let loaded = load_tmx(DRAWN_MAP.as_bytes(), "maps/drawn.tmx").expect("the map parses");
    assert_eq!((16, 16), (loaded.map.tile_width, loaded.map.tile_height));
    assert_eq!(vec![(2, -4, 16, 16, Some((32, 32)))], loaded.map.drawing);
    assert_eq!(vec![0, 8], loaded.map.layer_offsets);
}

#[test]
fn every_tile_of_every_layer_is_recorded_in_order() {
    let loaded = load_tmx(DRAWN_MAP.as_bytes(), "maps/drawn.tmx").expect("the map parses");
    let tiles = tilemap_tiles(&loaded.map, loaded.width, loaded.height);
    assert_eq!(8, tiles.len());
    for z in 0..2usize {
        for x in 0..2usize {
            for y in 0..2usize {
                let tile = &tiles[(z * 2 + x) * 2 + y];
                assert_eq!((x, y, z), (tile.grid_pos.x(), tile.grid_pos.y(), tile.grid_pos.z()));
                assert_eq!((16, 16), (tile.dimensions.width(), tile.dimensions.height()));
            }
        }
    }
    // layer 0, column 1, row 0 holds tile 1 of the ground tileset, drawn at
    // its tileset's offset
    let tile = &tiles[(0 * 2 + 1) * 2 + 0];
    assert_eq!((18, -4, 0), tile.pixel_pos);
    let texture = tile.texture.as_ref().expect("a tile is there");
    assert_eq!(1, texture.index);
    assert_eq!("maps/ground.png", texture.image.replace('\\', "/"));
    assert_eq!((2, 2), (texture.dimensions.rows(), texture.dimensions.columns()));
    // layer 0, column 0, row 1 is empty
    let empty = &tiles[(0 * 2 + 0) * 2 + 1];
    assert!(empty.texture.is_none());
    assert_eq!((0, 16, 0), empty.pixel_pos);
    // layer 1, column 1, row 1 holds tile 2, drawn with its layer's offset
    let top = &tiles[(1 * 2 + 1) * 2 + 1];
    assert_eq!((18, 20, 1), top.pixel_pos);
    assert_eq!(2, top.texture.as_ref().unwrap().index);
}

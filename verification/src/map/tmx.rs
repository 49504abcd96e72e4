use vstd::prelude::*;
use std::io::Cursor;
use std::io::Result as IoResult;
use std::path::Path;
use ::tiled::LayerType::Tiles;
use ::tiled::TileLayer::Finite;
use ::tiled::{Image, Loader};
use tokio::runtime::Runtime;

use crate::map::tiled::{image_offsets, image_offsets_of, FiniteLayerGrid, LayerTileData};

verus! {

/// A tileset of a Tiled map: the source of the image holding all its
/// tiles, if it has one, and each of its tiles' id with the source of the
/// tile's own image, if it has one.
pub struct TmxTileset {
    pub image: Option<String>,
    pub tiles: Vec<(u32, Option<String>)>,
}

/// What the game reads of a Tiled map: its tilesets in the order the map
/// numbers them, and its layers in order, with the cells of each finite
/// tile layer (other layers hold none).
pub struct TmxMap {
    pub tilesets: Vec<TmxTileset>,
    pub layers: Vec<Option<FiniteLayerGrid>>,
    /// The size of the map's tiles, in pixels.
    pub tile_width: u32,
    pub tile_height: u32,
    /// How each tileset is drawn, in the order the map numbers them.
    pub drawing: Vec<TilesetDrawing>,
    /// The vertical offset of each layer, in whole pixels.
    pub layer_offsets: Vec<isize>,
}

/// How a tileset's tiles are drawn: the drawing offset of its tiles (x and
/// y, in pixels), the size of its tiles, and the size of its image, if it
/// has one.
pub type TilesetDrawing = (i32, i32, u32, u32, Option<(i32, i32)>);

/// A tileset as values: its image's source, and the image source (if any)
/// of each tile id it has.
pub struct TilesetView {
    pub image: Option<Seq<char>>,
    pub tiles: Map<u32, Option<Seq<char>>>,
}

pub open spec fn source_view(source: Option<String>) -> Option<Seq<char>> {
    match source {
        Some(s) => Some(s@),
        None => None,
    }
}

/// The image source of each tile id listed.
pub open spec fn tiles_by_id(tiles: Seq<(u32, Option<String>)>) -> Map<u32, Option<Seq<char>>>
    decreases tiles.len(),
{
    if tiles.len() == 0 {
        Map::empty()
    } else {
        tiles_by_id(tiles.drop_last()).insert(tiles.last().0, source_view(tiles.last().1))
    }
}

impl View for TmxTileset {
    type V = TilesetView;

    open spec fn view(&self) -> TilesetView {
        TilesetView { image: source_view(self.image), tiles: tiles_by_id(self.tiles@) }
    }
}

/// No tile id is listed twice.
pub open spec fn ids_distinct(tiles: Seq<(u32, Option<String>)>) -> bool {
    forall|i: int, j: int| 0 <= i < j < tiles.len() ==> tiles[i].0 != tiles[j].0
}

/// Each tileset lists a tile id once, and each finite layer holds a cell
/// for every column and row.
pub open spec fn tmx_well_formed(map: TmxMap) -> bool {
    &&& forall|t: int| 0 <= t < map.tilesets@.len() ==> ids_distinct(#[trigger] map.tilesets@[t].tiles@)
    &&& forall|l: int|
        0 <= l < map.layers@.len() ==> (#[trigger] map.layers@[l] matches Some(grid) ==> grid.cells@.len()
            == grid.width * grid.height)
}

/// A map file as values: its width and height in tiles, its tilesets in
/// the order the map numbers them, and its layers in order, a finite tile
/// layer as its cells row by row and any other layer as none; the size of
/// its tiles, how each tileset is drawn, and each layer's vertical offset
/// (the layer's offset in pixels, taken to a whole number as `as` does).
pub struct TmxView {
    pub width: u32,
    pub height: u32,
    pub tilesets: Seq<TilesetView>,
    pub layers: Seq<Option<Seq<Option<LayerTileData>>>>,
    pub tile_width: u32,
    pub tile_height: u32,
    pub drawing: Seq<TilesetDrawing>,
    pub layer_offsets: Seq<isize>,
}

/// What the `tiled` crate reads from the bytes of a map file at the given
/// path (also the bytes of any file the map names), with the cells of each
/// finite tile layer as `FiniteTileLayer::get_tile_data` gives them over the
/// map's width and height; nothing where `tiled` refuses the bytes, or
/// where reading them or taking those cells panics.
pub uninterp spec fn spec_parse_tmx(bytes: Seq<u8>, path: Seq<char>) -> Option<TmxView>;

pub open spec fn tilesets_view(tilesets: Seq<TmxTileset>) -> Seq<TilesetView> {
    tilesets.map_values(|t: TmxTileset| t@)
}

/// A cell as the reader hands it over: tileset index, tile id, and the
/// horizontal, vertical and diagonal flips.
pub type RawCell = Option<(usize, u32, bool, bool, bool)>;

pub open spec fn cell_of(raw: RawCell) -> Option<LayerTileData> {
    match raw {
        Some((tileset_index, id, flip_h, flip_v, flip_d)) => Some(
            LayerTileData { tileset_index, id, flip_h, flip_v, flip_d },
        ),
        None => None,
    }
}

pub open spec fn raw_cells_view(cells: Seq<RawCell>) -> Seq<Option<LayerTileData>> {
    cells.map_values(|c: RawCell| cell_of(c))
}

pub open spec fn raw_layers_view(raw: Seq<Option<Vec<RawCell>>>) -> Seq<Option<Seq<Option<LayerTileData>>>> {
    raw.map_values(
        |layer: Option<Vec<RawCell>>|
            match layer {
                Some(cells) => Some(raw_cells_view(cells@)),
                None => None,
            },
    )
}

pub open spec fn grid_cells(grid: Option<FiniteLayerGrid>) -> Option<Seq<Option<LayerTileData>>> {
    match grid {
        Some(g) => Some(g.cells@),
        None => None,
    }
}

pub open spec fn layers_view(layers: Seq<Option<FiniteLayerGrid>>) -> Seq<Option<Seq<Option<LayerTileData>>>> {
    layers.map_values(|g: Option<FiniteLayerGrid>| grid_cells(g))
}

/// The map as values; `width` and `height` are those of its grids.
pub open spec fn tmx_view(map: TmxMap, width: u32, height: u32) -> TmxView {
    TmxView {
        width,
        height,
        tilesets: tilesets_view(map.tilesets@),
        layers: layers_view(map.layers@),
        tile_width: map.tile_width,
        tile_height: map.tile_height,
        drawing: map.drawing@,
        layer_offsets: map.layer_offsets@,
    }
}

#[verifier::external_type_specification]
#[verifier::external_body]
pub struct ExTiledMap(::tiled::Map);

#[verifier::external_type_specification]
#[verifier::external_body]
pub struct ExRuntime(Runtime);

/// A tokio runtime (`Runtime::new`), or nothing where one cannot be built.
/// Nothing is promised of it.
#[verifier::external_body]
fn new_runtime() -> (runtime: Option<Runtime>) {
    Runtime::new().ok()
}

/// Reads a Tiled map with `tiled::Loader::load_tmx_map` from `bytes` (the
/// file at `path`, and what it names, all read as `bytes`) and takes the
/// cells of its finite tile layers with `FiniteTileLayer::get_tile_data`
/// over the map's width and height, both on a blocking task of the runtime
/// (`Runtime::spawn_blocking`, waited for with `block_on`), so that a panic
/// ends the task and gives nothing. Hands back the layers in order, a
/// finite tile layer as its cells row by row and any other as none.
/// Trusted: where the named read gives nothing, this gives nothing; where
/// this gives layers, they are the named ones, and each has a cell per
/// column and row. Left unsaid: that it gives the layers wherever the named
/// read does (the task may fail for reasons of the machine), and that the
/// thread that calls it runs no tokio runtime (`block_on` panics there).
#[verifier::external_body]
fn read_tmx_layers(rt: &Runtime, bytes: Vec<u8>, path: String) -> (read: Option<Vec<Option<Vec<RawCell>>>>)
    ensures
        spec_parse_tmx(bytes@, path@) is None ==> read is None,
        read matches Some(layers) ==> spec_parse_tmx(bytes@, path@) matches Some(v) && v.layers
            == raw_layers_view(layers@) && forall|l: int|
            0 <= l < layers@.len() ==> (#[trigger] layers@[l] matches Some(cells) ==> cells@.len()
                == v.width * v.height),
{
    rt.block_on(rt.spawn_blocking(move || {
        let m = Loader::with_reader(move |_: &Path| IoResult::Ok(Cursor::new(bytes.clone()))).load_tmx_map(path).ok()?;
        Some(m.layers().map(|l| match l.layer_type() { Tiles(Finite(f)) => Some((0..m.height).flat_map(|y| (0..m.width).map(move |x| f.get_tile_data(x as i32, y as i32).map(|d| (d.tileset_index(), d.id(), d.flip_h, d.flip_v, d.flip_d)))).collect()), _ => None }).collect())
    })).ok()?
}

/// Reads a Tiled map with `tiled::Loader::load_tmx_map`, from `bytes`
/// (the file at `path`, and what it names, all read as `bytes`), where the
/// named read succeeds, and hands back its width, height and tilesets (each
/// with its image's source and its tiles' ids and image sources) together
/// with the `tiled` map itself. Trusted: it reads a map there, with the
/// named width, height and tilesets, and no tileset lists a tile id twice
/// (the tileset keeps its tiles by id). Left unsaid: the order in which a
/// tileset lists its tiles (a hash map's walk).
#[verifier::external_body]
fn read_tmx_tilesets(bytes: &[u8], path: &str) -> (read: Option<(u32, u32, Vec<TmxTileset>, ::tiled::Map)>)
    requires
        spec_parse_tmx(bytes@, path@) is Some,
    ensures
        read matches Some((w, h, tilesets, _)) && spec_parse_tmx(bytes@, path@) matches Some(v) && v.width == w
            && v.height == h && v.tilesets == tilesets_view(tilesets@) && forall|t: int|
            0 <= t < tilesets@.len() ==> ids_distinct(#[trigger] tilesets@[t].tiles@),
{
    let map = Loader::with_reader(move |_: &Path| IoResult::Ok(Cursor::new(bytes.to_vec()))).load_tmx_map(path).ok()?;
    let src = |i: &Option<Image>| i.as_ref().map(|i| i.source.display().to_string());
    let tilesets = map.tilesets().iter().map(|t| TmxTileset { image: src(&t.image), tiles: t.tiles().map(|(id, d)| (id, src(&d.image))).collect() }).collect();
    Some((map.width, map.height, tilesets, map))
}

/// What the drawing reader hands back: the tile size, how each tileset is
/// drawn, and each layer's vertical offset.
pub type DrawingRead = (u32, u32, Vec<TilesetDrawing>, Vec<isize>);

/// Reads a Tiled map with `tiled::Loader::load_tmx_map`, from `bytes`
/// (the file at `path`, and what it names, all read as `bytes`), where the
/// named read succeeds, and hands back how it is drawn: the size of its
/// tiles; for each tileset, its tile offset, its tile size and its image's
/// size; and each layer's `offset_y` taken to an `isize` with `as`.
/// Trusted: it reads a map there, and these are the named ones.
#[verifier::external_body]
fn read_tmx_drawing(bytes: &[u8], path: &str) -> (drawn: Option<DrawingRead>)
    requires
        spec_parse_tmx(bytes@, path@) is Some,
    ensures
        drawn is Some,
        drawn matches Some(r) ==> spec_parse_tmx(bytes@, path@) matches Some(v) && v.tile_width == r.0
            && v.tile_height == r.1 && v.drawing == r.2@ && v.layer_offsets == r.3@,
{
    let m = Loader::with_reader(move |_: &Path| IoResult::Ok(Cursor::new(bytes.to_vec()))).load_tmx_map(path).ok()?;
    let drawing = m.tilesets().iter().map(|t| (t.offset_x, t.offset_y, t.tile_width, t.tile_height, t.image.as_ref().map(|i| (i.width, i.height)))).collect();
    Some((m.tile_width, m.tile_height, drawing, m.layers().map(|l| l.offset_y as isize).collect()))
}

/// A finite layer's grid from the cells the reader hands over.
pub fn grid_from_cells(width: u32, height: u32, raw: &Vec<RawCell>) -> (grid: FiniteLayerGrid)
    ensures
        grid.width == width,
        grid.height == height,
        grid.cells@ == raw_cells_view(raw@),
{
    let mut cells: Vec<Option<LayerTileData>> = Vec::new();
    let mut i: usize = 0;
    while i < raw.len()
        invariant
            0 <= i <= raw@.len(),
            cells@ == raw_cells_view(raw@.subrange(0, i as int)),
        decreases raw@.len() - i,
    {
        let cell = match raw[i] {
            Some((tileset_index, id, flip_h, flip_v, flip_d)) => Some(
                LayerTileData { tileset_index, id, flip_h, flip_v, flip_d },
            ),
            None => None,
        };
        cells.push(cell);
        proof {
            assert(cells@ =~= raw_cells_view(raw@.subrange(0, i as int + 1)));
        }
        i = i + 1;
    }
    proof {
        assert(raw@.subrange(0, raw@.len() as int) =~= raw@);
    }
    FiniteLayerGrid { width, height, cells }
}

/// The grids of a map's layers from what the reader hands over, one per
/// layer, a finite tile layer as a grid of the map's width and height and
/// any other layer as none.
pub fn grids_from_layers(width: u32, height: u32, raw: &Vec<Option<Vec<RawCell>>>) -> (layers: Vec<
    Option<FiniteLayerGrid>,
>)
    ensures
        layers_view(layers@) == raw_layers_view(raw@),
        forall|l: int|
            0 <= l < layers@.len() ==> (#[trigger] layers@[l] matches Some(grid) ==> grid.width == width
                && grid.height == height),
{
    let mut layers: Vec<Option<FiniteLayerGrid>> = Vec::new();
    let mut i: usize = 0;
    while i < raw.len()
        invariant
            0 <= i <= raw@.len(),
            layers@.len() == i,
            layers_view(layers@) == raw_layers_view(raw@.subrange(0, i as int)),
            forall|l: int|
                0 <= l < layers@.len() ==> (#[trigger] layers@[l] matches Some(grid) ==> grid.width == width
                    && grid.height == height),
        decreases raw@.len() - i,
    {
        let layer = match &raw[i] {
            Some(cells) => Some(grid_from_cells(width, height, cells)),
            None => None,
        };
        let ghost before = layers@;
        layers.push(layer);
        proof {
            let next = raw@.subrange(0, i as int + 1);
            assert(next.drop_last() =~= raw@.subrange(0, i as int));
            assert(grid_cells(layer) == raw_layers_view(next)[i as int]);
            assert(layers@.drop_last() =~= before);
            assert forall|k: int| 0 <= k < layers@.len() implies layers_view(layers@)[k] == raw_layers_view(next)[k] by {
                if k < i {
                    assert(layers@[k] == before[k]);
                    assert(layers_view(before)[k] == raw_layers_view(raw@.subrange(0, i as int))[k]);
                }
            }
            assert(layers_view(layers@) =~= raw_layers_view(next));
        }
        i = i + 1;
    }
    proof {
        assert(raw@.subrange(0, raw@.len() as int) =~= raw@);
    }
    layers
}

/// The images a tileset's texture is made of: one image that holds all its
/// tiles, or an image per tile, with each tile's offset among them (by tile
/// id).
pub enum TilesetTexture {
    Single(String),
    PerTile { images: Vec<String>, offsets: Vec<(u32, u32)> },
}

/// The image sources of the tiles that have images, in the order listed.
pub open spec fn tile_image_sources(tiles: Seq<(u32, Option<String>)>) -> Seq<Seq<char>>
    decreases tiles.len(),
{
    if tiles.len() == 0 {
        Seq::empty()
    } else {
        let before = tile_image_sources(tiles.drop_last());
        match tiles.last().1 {
            Some(s) => before.push(s@),
            None => before,
        }
    }
}

/// Each tile id listed, and whether the tile has an image.
pub open spec fn listed_images(tiles: Seq<(u32, Option<String>)>) -> Seq<(u32, bool)> {
    tiles.map_values(|t: (u32, Option<String>)| (t.0, t.1 is Some))
}

/// The texture of a tileset: its own image when it has one; else the
/// images of its tiles in the order listed, with the offset of each tile
/// that has one.
pub open spec fn texture_matches(tileset: TmxTileset, texture: TilesetTexture) -> bool {
    match tileset.image {
        Some(image) => texture matches TilesetTexture::Single(s) && s@ == image@,
        None => texture matches TilesetTexture::PerTile { images, offsets } && images@.map_values(
            |s: String| s@,
        ) == tile_image_sources(tileset.tiles@) && offsets@ == image_offsets_of(listed_images(tileset.tiles@)),
    }
}

/// The textures of the tilesets, one per tileset in order.
pub open spec fn textures_match(tilesets: Seq<TmxTileset>, textures: Seq<TilesetTexture>) -> bool {
    &&& textures.len() == tilesets.len()
    &&& forall|i: int| 0 <= i < tilesets.len() ==> texture_matches(tilesets[i], #[trigger] textures[i])
}

/// The texture of one tileset.
pub fn tileset_texture(tileset: &TmxTileset) -> (texture: TilesetTexture)
    ensures
        texture_matches(*tileset, texture),
{
    match &tileset.image {
        Some(image) => TilesetTexture::Single(image.clone()),
        None => {
            let mut images: Vec<String> = Vec::new();
            let mut listed: Vec<(u32, bool)> = Vec::new();
            let mut i: usize = 0;
            while i < tileset.tiles.len()
                invariant
                    0 <= i <= tileset.tiles@.len(),
                    images@.map_values(|s: String| s@) == tile_image_sources(tileset.tiles@.subrange(0, i as int)),
                    listed@ == listed_images(tileset.tiles@.subrange(0, i as int)),
                decreases tileset.tiles@.len() - i,
            {
                let ghost before = tileset.tiles@.subrange(0, i as int);
                let ghost after = tileset.tiles@.subrange(0, i as int + 1);
                proof {
                    assert(after.drop_last() =~= before);
                }
                let (id, image) = &tileset.tiles[i];
                match image {
                    Some(source) => {
                        images.push(source.clone());
                        listed.push((*id, true));
                    },
                    None => {
                        listed.push((*id, false));
                    },
                }
                proof {
                    assert(images@.map_values(|s: String| s@) =~= tile_image_sources(after));
                    assert(listed@ =~= listed_images(after));
                }
                i = i + 1;
            }
            proof {
                assert(tileset.tiles@.subrange(0, tileset.tiles@.len() as int) =~= tileset.tiles@);
            }
            let offsets = image_offsets(&listed);
            TilesetTexture::PerTile { images, offsets }
        },
    }
}

/// The textures of all tilesets of a map, in the order the map numbers its
/// tilesets.
pub fn tileset_textures(map: &TmxMap) -> (textures: Vec<TilesetTexture>)
    ensures
        textures_match(map.tilesets@, textures@),
{
    let mut textures: Vec<TilesetTexture> = Vec::new();
    let mut i: usize = 0;
    while i < map.tilesets.len()
        invariant
            0 <= i <= map.tilesets@.len(),
            textures@.len() == i,
            forall|k: int| 0 <= k < i ==> texture_matches(map.tilesets@[k], #[trigger] textures@[k]),
        decreases map.tilesets@.len() - i,
    {
        let texture = tileset_texture(&map.tilesets[i]);
        textures.push(texture);
        i = i + 1;
    }
    textures
}

/// A loaded map file: what the game reads of it, the width and height of
/// its grid in tiles, the texture of each of its tilesets, and the `tiled`
/// map itself (for what is drawn in floating point).
pub struct LoadedTmx {
    pub map: TmxMap,
    pub width: u32,
    pub height: u32,
    pub textures: Vec<TilesetTexture>,
    pub source: ::tiled::Map,
}

/// The bytes, in a vector of their own.
fn copy_bytes(bytes: &[u8]) -> (copy: Vec<u8>)
    ensures
        copy@ == bytes@,
{
    let mut copy: Vec<u8> = Vec::new();
    let mut i: usize = 0;
    while i < bytes.len()
        invariant
            0 <= i <= bytes@.len(),
            copy@ == bytes@.subrange(0, i as int),
        decreases bytes@.len() - i,
    {
        copy.push(bytes[i]);
        proof {
            assert(copy@ =~= bytes@.subrange(0, i as int + 1));
        }
        i = i + 1;
    }
    proof {
        assert(bytes@.subrange(0, bytes@.len() as int) =~= bytes@);
    }
    copy
}

/// Returns the map read from the bytes of a map file at the given path,
/// with the textures its tilesets ask for, or nothing if the bytes do not
/// hold a map that can be read.
pub fn load_tmx(bytes: &[u8], path: &str) -> (loaded: Option<LoadedTmx>)
    ensures
        spec_parse_tmx(bytes@, path@) is None ==> loaded is None,
        loaded matches Some(l) ==> {
            &&& spec_parse_tmx(bytes@, path@) == Some(tmx_view(l.map, l.width, l.height))
            &&& tmx_well_formed(l.map)
            &&& forall|k: int|
                0 <= k < l.map.layers@.len() ==> (#[trigger] l.map.layers@[k] matches Some(grid) ==> grid.width
                    == l.width && grid.height == l.height)
            &&& textures_match(l.map.tilesets@, l.textures@)
        },
{
    let rt = match new_runtime() {
        Some(rt) => rt,
        None => return None,
    };
    let raw = match read_tmx_layers(&rt, copy_bytes(bytes), path.to_owned()) {
        Some(raw) => raw,
        None => return None,
    };
    let (width, height, tilesets, source) = match read_tmx_tilesets(bytes, path) {
        Some(read) => read,
        None => return None,
    };
    let (tile_width, tile_height, drawing, layer_offsets) = match read_tmx_drawing(bytes, path) {
        Some(read) => read,
        None => return None,
    };
    let layers = grids_from_layers(width, height, &raw);
    let map = TmxMap { tilesets, layers, tile_width, tile_height, drawing, layer_offsets };
    let textures = tileset_textures(&map);
    proof {
        assert forall|k: int| 0 <= k < map.layers@.len() implies (#[trigger] map.layers@[k] matches Some(
            grid,
        ) ==> grid.cells@.len() == grid.width * grid.height) by {
            if map.layers@[k] is Some {
                let grid = map.layers@[k]->0;
                assert(layers_view(map.layers@)[k] == raw_layers_view(raw@)[k]);
                assert(layers_view(map.layers@)[k] == Some(grid.cells@));
                assert(layers_view(map.layers@).len() == map.layers@.len());
                assert(raw_layers_view(raw@).len() == raw@.len());
                assert(raw@[k] is Some);
                assert(raw_cells_view(raw@[k]->0@).len() == raw@[k]->0@.len());
                assert(grid.width == width && grid.height == height);
            }
        }
        assert(tilesets_view(map.tilesets@) == tilesets_view(tilesets@));
    }
    Some(LoadedTmx { map, width, height, textures, source })
}

} // verus!

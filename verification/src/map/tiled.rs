use vstd::prelude::*;

use crate::map::path_finding::TilePos;

verus! {

/// A layer of a Tiled map: which layer of the map a tile was loaded from.
#[derive(Debug, Clone, Copy, PartialEq, Eq, PartialOrd, Ord, Default, Structural)]
pub struct LayerNumber(pub usize);

/// Maps a position of the Tiled map, whose y axis runs downwards, to the
/// game's grid, whose y axis runs upwards, in a map `width` tiles wide.
pub fn convert_tiled_to_bevy_pos(tile_pos: TilePos, width: u32) -> (bevy_pos: TilePos)
    requires
        tile_pos.y < width,
    ensures
        bevy_pos.x == tile_pos.x,
        bevy_pos.y == width - 1 - tile_pos.y,
{
    let mapped_y = width - 1 - tile_pos.y;

    TilePos::new(tile_pos.x, mapped_y)
}

/// Converting a position twice gives the position back: the two coordinate
/// systems mirror each other.
pub proof fn lemma_tiled_bevy_conversion_involution(tile_pos: TilePos, width: u32)
    requires
        tile_pos.y < width,
    ensures
        width - 1 - tile_pos.y < width,
        width - 1 - (width - 1 - tile_pos.y) == tile_pos.y,
{
}


/// A tile in a cell of a finite tile layer: the tileset it comes from, its
/// id in that tileset, and how it is flipped (horizontally, vertically,
/// diagonally).
#[derive(Debug, Clone, Copy, PartialEq, Eq, Structural)]
pub struct LayerTileData {
    pub tileset_index: usize,
    pub id: u32,
    pub flip_h: bool,
    pub flip_v: bool,
    pub flip_d: bool,
}

/// A finite tile layer of a Tiled map, `width` by `height` cells stored row
/// by row as the map file numbers them (Tiled's y axis runs downwards): the
/// cell at column x and row y is `cells[y * width + x]`.
pub struct FiniteLayerGrid {
    pub width: u32,
    pub height: u32,
    pub cells: Vec<Option<LayerTileData>>,
}

/// How the sprite of a tile is found in its tileset's texture: a single
/// image holds all tiles, numbered by tile id; or every tile has an image
/// of its own, at the offset listed for its id.
pub enum TextureIndexing {
    Single,
    PerTile(Vec<(u32, u32)>),
}

/// A tile to be placed on the game's grid.
#[derive(Debug, Clone, Copy, PartialEq, Eq, Structural)]
pub struct SpawnedTile {
    pub pos: TilePos,
    pub texture_index: Option<u32>,
    pub flip_x: bool,
    pub flip_y: bool,
    pub flip_d: bool,
    pub layer: LayerNumber,
}

/// Some offset is listed for the tile id.
pub open spec fn has_offset(offsets: Seq<(u32, u32)>, id: u32) -> bool {
    exists|i: int| 0 <= i < offsets.len() && offsets[i].0 == id
}

/// The offset listed first for the tile id.
pub open spec fn offset_of(offsets: Seq<(u32, u32)>, id: u32) -> u32
    decreases offsets.len(),
{
    if offsets.len() == 0 {
        0
    } else if offsets[0].0 == id {
        offsets[0].1
    } else {
        offset_of(offsets.drop_first(), id)
    }
}

/// The sprite index of a tile with the given id, if textures are given.
pub open spec fn texture_of(indexing: Option<&TextureIndexing>, id: u32) -> Option<u32> {
    match indexing {
        None => None,
        Some(TextureIndexing::Single) => Some(id),
        Some(TextureIndexing::PerTile(offsets)) => Some(offset_of(offsets@, id)),
    }
}

/// The tile to place at (x, y) of the game's grid (whose y axis runs
/// upwards) from a layer with `width` by `height` cells, when that cell
/// holds a tile of the tileset.
pub open spec fn tile_for(
    cells: Seq<Option<LayerTileData>>,
    width: int,
    height: int,
    x: int,
    y: int,
    tileset_index: usize,
    layer_index: usize,
    indexing: Option<&TextureIndexing>,
) -> Seq<SpawnedTile> {
    match cells[(height - 1 - y) * width + x] {
        None => Seq::empty(),
        Some(tile) => if tile.tileset_index != tileset_index {
            Seq::empty()
        } else {
            seq![
                SpawnedTile {
                    pos: TilePos { x: x as u32, y: y as u32 },
                    texture_index: texture_of(indexing, tile.id),
                    flip_x: tile.flip_h,
                    flip_y: tile.flip_v,
                    flip_d: tile.flip_d,
                    layer: LayerNumber(layer_index),
                },
            ]
        },
    }
}

/// The tiles to place in column x, rows 0 up to `rows`.
pub open spec fn column_tiles(
    cells: Seq<Option<LayerTileData>>,
    width: int,
    height: int,
    x: int,
    rows: nat,
    tileset_index: usize,
    layer_index: usize,
    indexing: Option<&TextureIndexing>,
) -> Seq<SpawnedTile>
    decreases rows,
{
    if rows == 0 {
        Seq::empty()
    } else {
        column_tiles(cells, width, height, x, (rows - 1) as nat, tileset_index, layer_index, indexing)
            + tile_for(cells, width, height, x, rows - 1, tileset_index, layer_index, indexing)
    }
}

/// The tiles to place in columns 0 up to `columns`, column by column.
pub open spec fn layer_tiles(
    cells: Seq<Option<LayerTileData>>,
    width: int,
    height: int,
    columns: nat,
    tileset_index: usize,
    layer_index: usize,
    indexing: Option<&TextureIndexing>,
) -> Seq<SpawnedTile>
    decreases columns,
{
    if columns == 0 {
        Seq::empty()
    } else {
        layer_tiles(cells, width, height, (columns - 1) as nat, tileset_index, layer_index, indexing)
            + column_tiles(
            cells,
            width,
            height,
            columns - 1,
            height as nat,
            tileset_index,
            layer_index,
            indexing,
        )
    }
}

/// Every tile of the tileset in the layer has its offset listed, when the
/// tiles have images of their own.
pub open spec fn offsets_cover(
    cells: Seq<Option<LayerTileData>>,
    tileset_index: usize,
    indexing: Option<&TextureIndexing>,
) -> bool {
    match indexing {
        Some(TextureIndexing::PerTile(offsets)) => forall|i: int|
            0 <= i < cells.len() && (#[trigger] cells[i]) is Some && cells[i]->0.tileset_index
                == tileset_index ==> has_offset(offsets@, cells[i]->0.id),
        _ => true,
    }
}

/// What a spawned tile says of its cell: it lies in the first `columns`
/// columns and within the layer's rows, its cell (row counted from the top,
/// as the map file numbers rows) holds a tile of the tileset, and the
/// spawned tile carries that tile's flips (horizontal as x, vertical as y,
/// diagonal as d), its sprite index and the layer's number.
pub open spec fn spawned_from_cell(
    cells: Seq<Option<LayerTileData>>,
    width: int,
    height: int,
    columns: int,
    tileset_index: usize,
    layer_index: usize,
    indexing: Option<&TextureIndexing>,
    spawned: SpawnedTile,
) -> bool {
    let cell = cells[(height - 1 - spawned.pos.y) * width + spawned.pos.x];
    &&& spawned.pos.x < columns
    &&& spawned.pos.y < height
    &&& cell is Some
    &&& cell->0.tileset_index == tileset_index
    &&& spawned.flip_x == cell->0.flip_h
    &&& spawned.flip_y == cell->0.flip_v
    &&& spawned.flip_d == cell->0.flip_d
    &&& spawned.texture_index == texture_of(indexing, cell->0.id)
    &&& spawned.layer == LayerNumber(layer_index)
}

proof fn lemma_column_tiles_from_cells(
    cells: Seq<Option<LayerTileData>>,
    width: int,
    height: int,
    x: int,
    rows: nat,
    tileset_index: usize,
    layer_index: usize,
    indexing: Option<&TextureIndexing>,
)
    requires
        0 <= x < width <= u32::MAX,
        rows <= height <= u32::MAX,
    ensures
        forall|i: int|
            0 <= i < column_tiles(cells, width, height, x, rows, tileset_index, layer_index, indexing).len()
                ==> #[trigger] column_tiles(cells, width, height, x, rows, tileset_index, layer_index, indexing)[i].pos.x
                == x && spawned_from_cell(
                cells,
                width,
                height,
                x + 1,
                tileset_index,
                layer_index,
                indexing,
                column_tiles(cells, width, height, x, rows, tileset_index, layer_index, indexing)[i],
            ),
    decreases rows,
{
    if rows > 0 {
        lemma_column_tiles_from_cells(cells, width, height, x, (rows - 1) as nat, tileset_index, layer_index, indexing);
        let before = column_tiles(cells, width, height, x, (rows - 1) as nat, tileset_index, layer_index, indexing);
        let last = tile_for(cells, width, height, x, rows - 1, tileset_index, layer_index, indexing);
        let all = column_tiles(cells, width, height, x, rows, tileset_index, layer_index, indexing);
        assert(all == before + last);
        assert forall|i: int| 0 <= i < all.len() implies #[trigger] all[i].pos.x == x && spawned_from_cell(
            cells,
            width,
            height,
            x + 1,
            tileset_index,
            layer_index,
            indexing,
            all[i],
        ) by {
            if i < before.len() {
                assert(all[i] == before[i]);
            } else {
                assert(all[i] == last[i - before.len()]);
            }
        }
    }
}

/// Every tile a layer places is taken from its own cell: it carries that
/// cell's tile of the tileset, with the same flips (horizontal as x,
/// vertical as y, diagonal as d), its sprite index and the layer's number.
pub proof fn lemma_spawned_tiles_copy_cells(
    cells: Seq<Option<LayerTileData>>,
    width: int,
    height: int,
    columns: nat,
    tileset_index: usize,
    layer_index: usize,
    indexing: Option<&TextureIndexing>,
)
    requires
        columns <= width <= u32::MAX,
        0 <= height <= u32::MAX,
    ensures
        forall|i: int|
            0 <= i < layer_tiles(cells, width, height, columns, tileset_index, layer_index, indexing).len()
                ==> spawned_from_cell(
                cells,
                width,
                height,
                columns as int,
                tileset_index,
                layer_index,
                indexing,
                #[trigger] layer_tiles(cells, width, height, columns, tileset_index, layer_index, indexing)[i],
            ),
    decreases columns,
{
    if columns > 0 {
        let x = columns - 1;
        lemma_spawned_tiles_copy_cells(cells, width, height, (columns - 1) as nat, tileset_index, layer_index, indexing);
        lemma_column_tiles_from_cells(cells, width, height, x, height as nat, tileset_index, layer_index, indexing);
        let before = layer_tiles(cells, width, height, (columns - 1) as nat, tileset_index, layer_index, indexing);
        let column = column_tiles(cells, width, height, x, height as nat, tileset_index, layer_index, indexing);
        let all = layer_tiles(cells, width, height, columns, tileset_index, layer_index, indexing);
        assert(all == before + column);
        assert forall|i: int| 0 <= i < all.len() implies spawned_from_cell(
            cells,
            width,
            height,
            columns as int,
            tileset_index,
            layer_index,
            indexing,
            #[trigger] all[i],
        ) by {
            if i < before.len() {
                assert(all[i] == before[i]);
                assert(spawned_from_cell(cells, width, height, x, tileset_index, layer_index, indexing, before[i]));
            } else {
                assert(all[i] == column[i - before.len()]);
                assert(column[i - before.len()].pos.x == x);
            }
        }
    }
}

/// The offset listed first for the tile id, found.
fn find_offset(offsets: &Vec<(u32, u32)>, id: u32) -> (offset: u32)
    requires
        has_offset(offsets@, id),
    ensures
        offset == offset_of(offsets@, id),
{
    let mut i: usize = 0;
    proof {
        assert(offsets@.subrange(0, offsets@.len() as int) =~= offsets@);
    }
    while i < offsets.len()
        invariant
            0 <= i <= offsets@.len(),
            has_offset(offsets@.subrange(i as int, offsets@.len() as int), id),
            offset_of(offsets@, id) == offset_of(offsets@.subrange(i as int, offsets@.len() as int), id),
        decreases offsets@.len() - i,
    {
        let ghost rest = offsets@.subrange(i as int, offsets@.len() as int);
        if offsets[i].0 == id {
            assert(rest[0] == offsets@[i as int]);
            return offsets[i].1;
        }
        proof {
            assert(rest.drop_first() =~= offsets@.subrange(i + 1, offsets@.len() as int));
            let k = choose|k: int| 0 <= k < rest.len() && rest[k].0 == id;
            assert(k != 0);
            assert(rest.drop_first()[k - 1] == rest[k]);
        }
        i = i + 1;
    }
    proof {
        let rest = offsets@.subrange(i as int, offsets@.len() as int);
        let k = choose|k: int| 0 <= k < rest.len() && rest[k].0 == id;
    }
    0
}

/// The tiles of one tileset that a finite layer places on the game's grid,
/// column by column and bottom to top in each column: every cell holding a
/// tile of the tileset gives one, at its place with the y axis turned
/// upwards, with the tile's flips, its sprite index when textures are
/// given, and the layer's number.
pub fn tiles_to_spawn(
    grid: &FiniteLayerGrid,
    tileset_index: usize,
    layer_index: usize,
    indexing: Option<&TextureIndexing>,
) -> (tiles: Vec<SpawnedTile>)
    requires
        grid.cells@.len() == grid.width * grid.height,
        offsets_cover(grid.cells@, tileset_index, indexing),
    ensures
        tiles@ == layer_tiles(
            grid.cells@,
            grid.width as int,
            grid.height as int,
            grid.width as nat,
            tileset_index,
            layer_index,
            indexing,
        ),
        forall|i: int|
            0 <= i < tiles@.len() ==> spawned_from_cell(
                grid.cells@,
                grid.width as int,
                grid.height as int,
                grid.width as int,
                tileset_index,
                layer_index,
                indexing,
                #[trigger] tiles@[i],
            ),
{
    proof {
        lemma_spawned_tiles_copy_cells(
            grid.cells@,
            grid.width as int,
            grid.height as int,
            grid.width as nat,
            tileset_index,
            layer_index,
            indexing,
        );
    }
    let ghost cells = grid.cells@;
    let ghost w = grid.width as int;
    let ghost h = grid.height as int;
    let mut tiles: Vec<SpawnedTile> = Vec::new();
    let n = grid.cells.len();
    let mut x: u32 = 0;
    while x < grid.width
        invariant
            n == cells.len(),
            cells == grid.cells@,
            w == grid.width,
            h == grid.height,
            cells.len() == w * h,
            offsets_cover(cells, tileset_index, indexing),
            0 <= x <= w,
            tiles@ == layer_tiles(cells, w, h, x as nat, tileset_index, layer_index, indexing),
        decreases w - x,
    {
        let mut y: u32 = 0;
        while y < grid.height
            invariant
                n == cells.len(),
                cells == grid.cells@,
                w == grid.width,
                h == grid.height,
                cells.len() == w * h,
                offsets_cover(cells, tileset_index, indexing),
                0 <= x < w,
                0 <= y <= h,
                tiles@ == layer_tiles(cells, w, h, x as nat, tileset_index, layer_index, indexing)
                    + column_tiles(cells, w, h, x as int, y as nat, tileset_index, layer_index, indexing),
            decreases h - y,
        {
            // Transform TMX coords into bevy coords: the y axis is flipped.
            let mapped_y = grid.height - 1 - y;
            proof {
                assert(0 <= mapped_y * w <= mapped_y * w + x < w * h) by (nonlinear_arith)
                    requires
                        0 <= mapped_y < h,
                        0 <= x < w,
                ;
            }
            let cell_idx = (mapped_y as usize) * (grid.width as usize) + (x as usize);
            let ghost before = tiles@;
            match grid.cells[cell_idx] {
                None => {},
                Some(tile) => {
                    if tile.tileset_index == tileset_index {
                        let texture_index = match indexing {
                            None => None,
                            Some(TextureIndexing::Single) => Some(tile.id),
                            Some(TextureIndexing::PerTile(offsets)) => {
                                proof {
                                    assert(cells[cell_idx as int] == Some(tile));
                                }
                                Some(find_offset(offsets, tile.id))
                            },
                        };
                        tiles.push(
                            SpawnedTile {
                                pos: TilePos { x, y },
                                texture_index,
                                flip_x: tile.flip_h,
                                flip_y: tile.flip_v,
                                flip_d: tile.flip_d,
                                layer: LayerNumber(layer_index),
                            },
                        );
                    }
                },
            }
            proof {
                assert((h - 1 - y) * w + x == cell_idx);
                assert(tiles@ =~= layer_tiles(cells, w, h, x as nat, tileset_index, layer_index, indexing)
                    + column_tiles(cells, w, h, x as int, (y + 1) as nat, tileset_index, layer_index, indexing));
            }
            y = y + 1;
        }
        proof {
            assert(tiles@ =~= layer_tiles(cells, w, h, (x + 1) as nat, tileset_index, layer_index, indexing));
        }
        x = x + 1;
    }
    tiles
}

/// The image offsets of a tileset whose tiles have images of their own,
/// from its tiles in the order the tileset lists them (id, and whether it
/// has an image): each tile with an image is numbered by how many tiles
/// with images came before it.
pub open spec fn image_offsets_of(tiles: Seq<(u32, bool)>) -> Seq<(u32, u32)>
    decreases tiles.len(),
{
    if tiles.len() == 0 {
        Seq::empty()
    } else {
        let before = image_offsets_of(tiles.drop_last());
        if tiles.last().1 {
            before.push((tiles.last().0, before.len() as u32))
        } else {
            before
        }
    }
}

/// The image offsets of a tileset whose tiles have images of their own.
pub fn image_offsets(tiles: &Vec<(u32, bool)>) -> (offsets: Vec<(u32, u32)>)
    ensures
        offsets@ == image_offsets_of(tiles@),
{
    let mut offsets: Vec<(u32, u32)> = Vec::new();
    let mut i: usize = 0;
    while i < tiles.len()
        invariant
            0 <= i <= tiles@.len(),
            offsets@ == image_offsets_of(tiles@.subrange(0, i as int)),
        decreases tiles@.len() - i,
    {
        let (id, has_image) = tiles[i];
        proof {
            assert(tiles@.subrange(0, i as int + 1).drop_last() =~= tiles@.subrange(0, i as int));
        }
        if has_image {
            let position = offsets.len() as u32;
            offsets.push((id, position));
        }
        i = i + 1;
    }
    proof {
        assert(tiles@.subrange(0, tiles@.len() as int) =~= tiles@);
    }
    offsets
}

} // verus!

use vstd::prelude::*;
use std::collections::VecDeque;
use vstd::set_lib::{lemma_int_range, lemma_len_subset, set_int_range};

use crate::map::search::{
    lemma_discover, lemma_escape, lemma_finish_node, lemma_link_parent, lemma_search_start,
    lemma_take_front, lemma_walk_drop_last, no_fewer_steps, parent_links, search_state, walk_of_steps, bfs_route, bfs_rounds, bfs_scan,
    bfs_start, bfs_trace, bfs_visit, lemma_distinct_nodes_bound, lemma_rounds_stay, BfsState,
};

verus! {

/// A position on the tile grid, counted in tiles.
#[derive(Debug, Clone, Copy, PartialEq, Eq, Hash, PartialOrd, Ord, Structural)]
pub struct TilePos {
    pub x: u32,
    pub y: u32,
}

impl TilePos {
    pub fn new(x: u32, y: u32) -> (pos: TilePos)
        ensures
            pos.x == x,
            pos.y == y,
    {
        TilePos { x, y }
    }
}

/// The kinds of terrain a graph of tiles can be built for.
#[derive(Debug, Clone, Copy, PartialEq, Eq, Structural)]
pub enum GraphType {
    Ground,
    Air,
    Water,
}

/// The index that a position takes in a grid stored row by row,
/// `world_size` tiles per row.
pub open spec fn grid_index(x: int, y: int, world_size: int) -> int {
    world_size * x + y
}

/// Maps a 2-dimensional (x, y) index into a 1-dimensional array index.
pub fn tilepos_to_idx(x: u32, y: u32, world_size: u32) -> (idx: usize)
    requires
        world_size * x + y <= u32::MAX,
    ensures
        idx == grid_index(x as int, y as int, world_size as int),
{
    proof {
        assert(0 <= world_size * x) by (nonlinear_arith);
    }
    ((world_size * x) + y) as usize
}

/// Transforms a 1D array index into its associated 2-dimensional Tilepos index.
pub fn idx_to_tilepos(mapped_idx: usize, world_size: u32) -> (pos: TilePos)
    requires
        world_size > 0,
    ensures
        pos.x == (mapped_idx / (world_size as usize)) as u32,
        pos.y == (mapped_idx % (world_size as usize)) as u32,
{
    let size = world_size as usize;
    let x = mapped_idx / size;
    proof {
        assert(size * x <= mapped_idx) by (nonlinear_arith)
            requires
                x == mapped_idx / size,
                size > 0,
        ;
        assert(mapped_idx - size * x == mapped_idx % size) by (nonlinear_arith)
            requires
                x == mapped_idx / size,
                size > 0,
        ;
    }
    let y = mapped_idx - (size * x);
    TilePos { x: x as u32, y: y as u32 }
}

/// Going from a position to its grid index and back gives the position again,
/// for every position inside a row of the grid.
pub proof fn lemma_idx_tilepos_roundtrip(x: u32, y: u32, world_size: u32)
    requires
        y < world_size,
        world_size * x + y <= u32::MAX,
    ensures
        ((world_size * x + y) / (world_size as int)) as u32 == x,
        ((world_size * x + y) % (world_size as int)) as u32 == y,
{
    assert((world_size * x + y) / (world_size as int) == x) by (nonlinear_arith)
        requires
            y < world_size,
            0 <= y,
            0 <= x,
    ;
    assert((world_size * x + y) % (world_size as int) == y) by (nonlinear_arith)
        requires
            y < world_size,
            0 <= y,
            0 <= x,
    ;
}

/// A tile position together with the layer (height) the tile lies on.
#[derive(Debug, Clone, Copy, PartialEq, Eq, PartialOrd, Ord, Structural)]
pub struct HeightedTilePos {
    pub xy: TilePos,
    pub z: u32,
}

impl HeightedTilePos {
    pub fn new(tile_pos: TilePos, height: u32) -> (pos: HeightedTilePos)
        ensures
            pos.xy == tile_pos,
            pos.z == height,
    {
        HeightedTilePos { xy: tile_pos, z: height }
    }

    /// Returns a Tile Pos excluding the z value.
    pub fn truncate(&self) -> (pos: TilePos)
        ensures
            pos == self.xy,
    {
        self.xy
    }

    pub fn x(&self) -> (x: u32)
        ensures
            x == self.xy.x,
    {
        self.xy.x
    }

    pub fn y(&self) -> (y: u32)
        ensures
            y == self.xy.y,
    {
        self.xy.y
    }

    pub fn z(&self) -> (z: u32)
        ensures
            z == self.z,
    {
        self.z
    }

    /// Returns a new instance of a HeightedTilePos with its y axis flipped.
    pub fn flip(&self, width: u32) -> (flipped: HeightedTilePos)
        requires
            self.xy.y < width,
        ensures
            flipped.xy.x == self.xy.x,
            flipped.xy.y == width - 1 - self.xy.y,
            flipped.z == self.z,
    {
        let mapped_y = width - 1 - self.y();
        HeightedTilePos::new(TilePos::new(self.x(), mapped_y), self.z())
    }
}

/// Flipping the y axis twice gives back the position flipped.
pub proof fn lemma_flip_involution(pos: HeightedTilePos, width: u32)
    requires
        pos.xy.y < width,
    ensures
        width - 1 - (width - 1 - pos.xy.y) == pos.xy.y,
        (width - 1 - pos.xy.y) < width,
{
}

/// The largest x coordinate among the tiles, or 0 when there is none.
pub open spec fn max_x_of(tiles: Seq<HeightedTilePos>) -> u32
    decreases tiles.len(),
{
    if tiles.len() == 0 {
        0
    } else {
        let rest = max_x_of(tiles.drop_last());
        if rest >= tiles.last().xy.x { rest } else { tiles.last().xy.x }
    }
}

/// The largest z coordinate among the tiles, or 0 when there is none.
pub open spec fn max_z_of(tiles: Seq<HeightedTilePos>) -> u32
    decreases tiles.len(),
{
    if tiles.len() == 0 {
        0
    } else {
        let rest = max_z_of(tiles.drop_last());
        if rest >= tiles.last().z { rest } else { tiles.last().z }
    }
}

/// The bound `dimensions_from` reaches for the y axis: the larger of the
/// largest x coordinate and the y coordinate of the last tile.
pub open spec fn y_bound_of(tiles: Seq<HeightedTilePos>) -> u32 {
    if tiles.len() == 0 {
        0
    } else {
        let mx = max_x_of(tiles);
        if mx >= tiles.last().xy.y { mx } else { tiles.last().xy.y }
    }
}

/// The length of the grid the tiles span.
pub open spec fn length_of(tiles: Seq<HeightedTilePos>) -> int {
    max_x_of(tiles) + 1
}

/// The width `dimensions_from` derives for the tiles.
pub open spec fn width_of(tiles: Seq<HeightedTilePos>) -> int {
    y_bound_of(tiles) + 1
}

/// The number of layers the tiles span.
pub open spec fn height_of(tiles: Seq<HeightedTilePos>) -> int {
    max_z_of(tiles) + 1
}

/// The tiles lie within the bounds that keep `dimensions_from` from overflowing.
pub open spec fn dimensions_fit(tiles: Seq<HeightedTilePos>) -> bool {
    &&& max_x_of(tiles) < u32::MAX
    &&& y_bound_of(tiles) < u32::MAX
    &&& max_z_of(tiles) < u32::MAX
}

proof fn lemma_max_x_bounds(tiles: Seq<HeightedTilePos>)
    ensures
        forall|i: int| 0 <= i < tiles.len() ==> tiles[i].xy.x <= max_x_of(tiles),
        tiles.len() > 0 ==> exists|i: int| 0 <= i < tiles.len() && tiles[i].xy.x == max_x_of(tiles),
    decreases tiles.len(),
{
    if tiles.len() > 0 {
        lemma_max_x_bounds(tiles.drop_last());
        if max_x_of(tiles.drop_last()) < tiles.last().xy.x {
            assert(tiles[tiles.len() - 1].xy.x == max_x_of(tiles));
        } else if tiles.len() > 1 {
            let i = choose|i: int|
                0 <= i < tiles.drop_last().len() && tiles.drop_last()[i].xy.x == max_x_of(
                    tiles.drop_last(),
                );
            assert(tiles[i].xy.x == max_x_of(tiles));
        } else {
            assert(tiles[0].xy.x == max_x_of(tiles));
        }
        assert forall|i: int| 0 <= i < tiles.len() implies tiles[i].xy.x <= max_x_of(tiles) by {
            if i < tiles.len() - 1 {
                assert(tiles.drop_last()[i] == tiles[i]);
            }
        }
    }
}

proof fn lemma_max_z_bounds(tiles: Seq<HeightedTilePos>)
    ensures
        forall|i: int| 0 <= i < tiles.len() ==> tiles[i].z <= max_z_of(tiles),
    decreases tiles.len(),
{
    if tiles.len() > 0 {
        lemma_max_z_bounds(tiles.drop_last());
        assert forall|i: int| 0 <= i < tiles.len() implies tiles[i].z <= max_z_of(tiles) by {
            if i < tiles.len() - 1 {
                assert(tiles.drop_last()[i] == tiles[i]);
            }
        }
    }
}

/// Returns the Length, Width, and Height derived from
/// some collection of Heighted Tile Positions.
pub fn dimensions_from(heighted_tiles: &Vec<HeightedTilePos>) -> (dims: (u32, u32, u32))
    requires
        dimensions_fit(heighted_tiles@),
    ensures
        dims.0 == length_of(heighted_tiles@),
        dims.1 == width_of(heighted_tiles@),
        dims.2 == height_of(heighted_tiles@),
{
    let ghost tiles = heighted_tiles@;
    let mut min_x: u32 = 0;
    let mut max_x: u32 = 0;
    let mut min_y: u32 = 0;
    let mut max_y: u32 = 0;
    let mut min_z: u32 = 0;
    let mut max_z: u32 = 0;
    let n = heighted_tiles.len();
    let mut i: usize = 0;
    while i < n
        invariant
            n == tiles.len(),
            tiles == heighted_tiles@,
            0 <= i <= n,
            min_x == 0 && min_y == 0 && min_z == 0,
            max_x == max_x_of(tiles.subrange(0, i as int)),
            max_z == max_z_of(tiles.subrange(0, i as int)),
            max_y == y_bound_of(tiles.subrange(0, i as int)),
        decreases n - i,
    {
        let heighted_tile = &heighted_tiles[i];
        let x = heighted_tile.x();
        let y = heighted_tile.y();
        let z = heighted_tile.z();

        min_x = if min_x <= x { min_x } else { x };
        max_x = if max_x >= x { max_x } else { x };

        min_y = if min_y <= y { min_y } else { y };
        max_y = if max_x >= y { max_x } else { y };

        min_z = if min_z <= z { min_z } else { z };
        max_z = if max_z >= z { max_z } else { z };

        proof {
            let next = tiles.subrange(0, i + 1);
            assert(next.drop_last() =~= tiles.subrange(0, i as int));
            assert(next.last() == tiles[i as int]);
        }
        i = i + 1;
    }
    proof {
        assert(tiles.subrange(0, n as int) =~= tiles);
    }
    let length = max_x - min_x + 1;
    let width = max_y - min_y + 1;
    let height = max_z - min_z + 1;

    (length, width, height)
}


/// The sort key of a tile: its x, y and z coordinates, compared in that order.
pub open spec fn key_of(tile: HeightedTilePos) -> (u32, u32, u32) {
    (tile.xy.x, tile.xy.y, tile.z)
}

/// Lexicographic order on tile keys.
pub open spec fn key_le(a: (u32, u32, u32), b: (u32, u32, u32)) -> bool {
    ||| a.0 < b.0
    ||| a.0 == b.0 && a.1 < b.1
    ||| a.0 == b.0 && a.1 == b.1 && a.2 <= b.2
}

pub open spec fn keys_sorted(keys: Seq<(u32, u32, u32)>) -> bool {
    forall|i: int, j: int| 0 <= i < j < keys.len() ==> key_le(keys[i], keys[j])
}

/// The keys hold exactly the keys of the tiles.
pub open spec fn same_keys(keys: Seq<(u32, u32, u32)>, tiles: Seq<HeightedTilePos>) -> bool {
    forall|k: (u32, u32, u32)|
        keys.contains(k) <==> exists|i: int| 0 <= i < tiles.len() && key_of(tiles[i]) == k
}

fn key_less(a: (u32, u32, u32), b: (u32, u32, u32)) -> (less: bool)
    ensures
        less == !key_le(b, a),
{
    a.0 < b.0 || (a.0 == b.0 && (a.1 < b.1 || (a.1 == b.1 && a.2 < b.2)))
}

/// Returns the keys of the tiles in lexicographic order.
fn sorted_keys(tiles: &Vec<HeightedTilePos>) -> (sorted: Vec<(u32, u32, u32)>)
    ensures
        keys_sorted(sorted@),
        same_keys(sorted@, tiles@),
{
    let mut sorted: Vec<(u32, u32, u32)> = Vec::new();
    let n = tiles.len();
    let mut i: usize = 0;
    while i < n
        invariant
            n == tiles@.len(),
            0 <= i <= n,
            keys_sorted(sorted@),
            same_keys(sorted@, tiles@.subrange(0, i as int)),
        decreases n - i,
    {
        let key = (tiles[i].xy.x, tiles[i].xy.y, tiles[i].z);
        let mut pos: usize = 0;
        while pos < sorted.len() && !key_less(key, sorted[pos])
            invariant
                0 <= pos <= sorted@.len(),
                forall|j: int| 0 <= j < pos ==> key_le(#[trigger] sorted@[j], key),
            decreases sorted@.len() - pos,
        {
            pos = pos + 1;
        }
        let ghost old_sorted = sorted@;
        sorted.insert(pos, key);
        proof {
            assert forall|a: int, b: int| 0 <= a < b < sorted@.len() implies key_le(
                sorted@[a],
                sorted@[b],
            ) by {
                if b < pos {
                    assert(sorted@[a] == old_sorted[a] && sorted@[b] == old_sorted[b]);
                } else if b == pos {
                    assert(sorted@[a] == old_sorted[a]);
                    assert(key_le(old_sorted[a], key));
                } else if a < pos {
                    assert(sorted@[a] == old_sorted[a] && sorted@[b] == old_sorted[b - 1]);
                    assert(key_le(old_sorted[a], old_sorted[b - 1]));
                } else if a == pos {
                    assert(sorted@[b] == old_sorted[b - 1]);
                    assert(key_le(key, old_sorted[pos as int]));
                    if b - 1 > pos {
                        assert(key_le(old_sorted[pos as int], old_sorted[b - 1]));
                    }
                } else {
                    assert(sorted@[a] == old_sorted[a - 1] && sorted@[b] == old_sorted[b - 1]);
                }
            }
            let prefix = tiles@.subrange(0, i + 1);
            assert forall|k: (u32, u32, u32)| sorted@.contains(k) <==> exists|t: int|
                0 <= t < prefix.len() && key_of(prefix[t]) == k by {
                if sorted@.contains(k) {
                    let w = choose|w: int| 0 <= w < sorted@.len() && sorted@[w] == k;
                    if w == pos {
                        assert(key_of(prefix[i as int]) == k);
                    } else {
                        let w2 = if w < pos { w } else { w - 1 };
                        assert(old_sorted[w2] == k);
                        assert(old_sorted.contains(k));
                        let t = choose|t: int|
                            0 <= t < i && key_of(tiles@.subrange(0, i as int)[t]) == k;
                        assert(prefix[t] == tiles@.subrange(0, i as int)[t]);
                    }
                }
                if exists|t: int| 0 <= t < prefix.len() && key_of(prefix[t]) == k {
                    let t = choose|t: int| 0 <= t < prefix.len() && key_of(prefix[t]) == k;
                    if t == i {
                        assert(sorted@[pos as int] == k);
                    } else {
                        assert(tiles@.subrange(0, i as int)[t] == prefix[t]);
                        assert(old_sorted.contains(k));
                        let w = choose|w: int| 0 <= w < old_sorted.len() && old_sorted[w] == k;
                        if w < pos {
                            assert(sorted@[w] == k);
                        } else {
                            assert(sorted@[w + 1] == k);
                        }
                    }
                }
            }
        }
        i = i + 1;
    }
    proof {
        assert(tiles@.subrange(0, n as int) =~= tiles@);
    }
    sorted
}


/// Counts the layers stacked on a column from layer `h` upwards: the column
/// rises from `h` to `h + 1` as long as layer `h + 1` holds a tile.
pub open spec fn stacked_from(zs: Set<int>, h: int) -> int
    decreases u32::MAX - h,
{
    if 0 <= h < u32::MAX && zs.contains(h + 1) {
        stacked_from(zs, h + 1)
    } else {
        h
    }
}

/// The layers that hold a tile at column (x, y).
pub open spec fn column_zs(tiles: Seq<HeightedTilePos>, x: int, y: int) -> Set<int> {
    Set::new(
        |z: int|
            exists|i: int|
                0 <= i < tiles.len() && tiles[i].xy.x == x && tiles[i].xy.y == y && tiles[i].z
                    == z,
    )
}

/// The height of the ground at column (x, y): the largest `h` such that each of
/// the layers `1..=h` holds a tile there. Tiles above a gap (scenery that does
/// not touch the ground) do not count.
pub open spec fn column_height(tiles: Seq<HeightedTilePos>, x: int, y: int) -> int {
    stacked_from(column_zs(tiles, x, y), 0)
}

/// Every tile lies inside a row of the grid: its y coordinate is below the
/// grid's length, so no two columns share an index.
pub open spec fn rows_within_length(tiles: Seq<HeightedTilePos>) -> bool {
    forall|i: int| 0 <= i < tiles.len() ==> tiles[i].xy.y < length_of(tiles)
}

/// The inputs on which `height_map_from` indexes inside its map.
pub open spec fn height_map_fits(tiles: Seq<HeightedTilePos>) -> bool {
    &&& dimensions_fit(tiles)
    &&& length_of(tiles) * width_of(tiles) <= usize::MAX
    &&& forall|i: int|
        0 <= i < tiles.len() ==> grid_index(
            tiles[i].xy.x as int,
            tiles[i].xy.y as int,
            length_of(tiles),
        ) <= u32::MAX
    &&& forall|i: int|
        0 <= i < tiles.len() ==> grid_index(
            tiles[i].xy.x as int,
            tiles[i].xy.y as int,
            length_of(tiles),
        ) < length_of(tiles) * width_of(tiles)
}

proof fn lemma_stacked_facts(zs: Set<int>, h: int)
    requires
        0 <= h <= u32::MAX,
    ensures
        h <= stacked_from(zs, h) <= u32::MAX,
        forall|k: int| h < k <= stacked_from(zs, h) ==> zs.contains(k),
        stacked_from(zs, h) == u32::MAX || !zs.contains(stacked_from(zs, h) + 1),
    decreases u32::MAX - h,
{
    if 0 <= h < u32::MAX && zs.contains(h + 1) {
        lemma_stacked_facts(zs, h + 1);
    }
}

proof fn lemma_stacked_unique(zs: Set<int>, h: int, r: int)
    requires
        0 <= h <= r <= u32::MAX,
        forall|k: int| h < k <= r ==> zs.contains(k),
        r == u32::MAX || !zs.contains(r + 1),
    ensures
        stacked_from(zs, h) == r,
    decreases r - h,
{
    if h < r {
        assert(zs.contains(h + 1));
        lemma_stacked_unique(zs, h + 1, r);
    }
}

/// Adding a layer at or above every layer already present raises the column
/// by one exactly when the new layer sits right on top of it.
proof fn lemma_stacked_step(zs: Set<int>, z: int)
    requires
        0 <= z <= u32::MAX,
        forall|v: int| zs.contains(v) ==> v <= z,
    ensures
        stacked_from(zs.insert(z), 0) == if z == stacked_from(zs, 0) + 1 {
            stacked_from(zs, 0) + 1
        } else {
            stacked_from(zs, 0)
        },
{
    let r = stacked_from(zs, 0);
    lemma_stacked_facts(zs, 0);
    let zs2 = zs.insert(z);
    if z == r + 1 {
        assert(!zs2.contains(r + 2));
        lemma_stacked_unique(zs2, 0, r + 1);
    } else {
        lemma_stacked_unique(zs2, 0, r);
    }
}

proof fn lemma_grid_index_injective(x1: int, y1: int, x2: int, y2: int, len: int)
    requires
        0 <= y1 < len,
        0 <= y2 < len,
        0 <= x1,
        0 <= x2,
        grid_index(x1, y1, len) == grid_index(x2, y2, len),
    ensures
        x1 == x2,
        y1 == y2,
{
    assert(x1 == x2) by (nonlinear_arith)
        requires
            0 <= y1 < len,
            0 <= y2 < len,
            0 <= x1,
            0 <= x2,
            len * x1 + y1 == len * x2 + y2,
    ;
}

proof fn lemma_grid_index_bound(x: int, y: int, len: int)
    requires
        0 <= x < len,
        0 <= y < len,
    ensures
        0 <= grid_index(x, y, len) < len * len,
{
    assert(0 <= len * x + y < len * len) by (nonlinear_arith)
        requires
            0 <= x < len,
            0 <= y < len,
    ;
}

/// The layers of column (x, y) among the first `count` keys.
pub open spec fn prefix_zs(keys: Seq<(u32, u32, u32)>, count: int, x: int, y: int) -> Set<int> {
    Set::new(
        |z: int| exists|k: int| 0 <= k < count && keys[k].0 == x && keys[k].1 == y && keys[k].2 == z,
    )
}

/// Returns a 1 Dimensional Height Map calculated from some
/// collection of Heighted Tile Positions with respect to
/// the desired length and width.
pub fn height_map_from(ground_tiles: &Vec<HeightedTilePos>) -> (height_map: Vec<usize>)
    requires
        height_map_fits(ground_tiles@),
    ensures
        height_map@.len() == length_of(ground_tiles@) * width_of(ground_tiles@),
        forall|k: int| 0 <= k < height_map@.len() ==> height_map@[k] <= u32::MAX,
        rows_within_length(ground_tiles@) ==> forall|x: int, y: int|
            0 <= x < length_of(ground_tiles@) && 0 <= y < length_of(ground_tiles@)
                ==> #[trigger] height_map@[grid_index(x, y, length_of(ground_tiles@))]
                == column_height(ground_tiles@, x, y),
        rows_within_length(ground_tiles@) ==> forall|k: int|
            length_of(ground_tiles@) * length_of(ground_tiles@) <= k < height_map@.len()
                ==> height_map@[k] == 0,
{
    let ghost tiles = ground_tiles@;
    let ghost len = length_of(tiles);
    let ghost apart = rows_within_length(tiles);
    let (length, width, _height) = dimensions_from(ground_tiles);
    let mut height_map: Vec<usize> = vec![0; length as usize * width as usize];

    // Sorting by Tile Position and Layer number ensures that we won't add
    // a previous node, whether above or to the left, that does not exist
    // yet.
    let ground_tiles_sorted = sorted_keys(ground_tiles);
    let ghost keys = ground_tiles_sorted@;
    proof {
        if apart {
            assert(width_of(tiles) == len) by {
                if tiles.len() > 0 {
                    assert(tiles.last().xy.y < len);
                }
            }
        }
        if apart {
            assert forall|x: int, y: int|
                0 <= x < len && 0 <= y < len implies #[trigger] height_map@[grid_index(x, y, len)]
                == stacked_from(prefix_zs(keys, 0, x, y), 0) by {
                lemma_grid_index_bound(x, y, len);
                assert(!prefix_zs(keys, 0, x, y).contains(1));
            }
        }
    }
    let n = ground_tiles_sorted.len();
    let mut j: usize = 0;
    while j < n
        invariant
            n == keys.len(),
            keys == ground_tiles_sorted@,
            keys_sorted(keys),
            same_keys(keys, tiles),
            tiles == ground_tiles@,
            height_map_fits(tiles),
            len == length_of(tiles),
            length == len,
            width == width_of(tiles),
            apart == rows_within_length(tiles),
            apart ==> width == len,
            0 <= j <= n,
            height_map@.len() == len * width_of(tiles),
            forall|k: int| 0 <= k < height_map@.len() ==> height_map@[k] <= u32::MAX,
            apart ==> forall|x: int, y: int|
                0 <= x < len && 0 <= y < len ==> #[trigger] height_map@[grid_index(x, y, len)]
                    == stacked_from(prefix_zs(keys, j as int, x, y), 0),
            apart ==> forall|k: int| len * len <= k < height_map@.len() ==> height_map@[k] == 0,
        decreases n - j,
    {
        let key = ground_tiles_sorted[j];
        proof {
            assert(keys.contains(key));
            let t = choose|t: int| 0 <= t < tiles.len() && key_of(tiles[t]) == key;
            lemma_max_x_bounds(tiles);
            assert(tiles[t].xy.x <= max_x_of(tiles));
        }
        let height_idx = tilepos_to_idx(key.0, key.1, length);
        let height_entry = height_map[height_idx];

        // The difference of 1 here allows for tiles that are not
        // connected to the ground to be ignored. Think scenery
        // that obscures the vision from the camera that the
        // player can pass through.
        let tile_height = key.2 as usize;
        let ghost old_map = height_map@;
        if tile_height >= height_entry && tile_height - height_entry == 1 {
            height_map.set(height_idx, height_entry + 1);
        }
        proof {
            if apart {
                let x0 = key.0 as int;
                let y0 = key.1 as int;
                let z0 = key.2 as int;
                let t = choose|t: int| 0 <= t < tiles.len() && key_of(tiles[t]) == key;
                assert(y0 < len);
                assert(x0 < len);
                lemma_grid_index_bound(x0, y0, len);
                assert forall|x: int, y: int|
                    0 <= x < len && 0 <= y < len implies #[trigger] height_map@[grid_index(
                    x,
                    y,
                    len,
                )] == stacked_from(prefix_zs(keys, j + 1, x, y), 0) by {
                    lemma_grid_index_bound(x, y, len);
                    if x == x0 && y == y0 {
                        let before = prefix_zs(keys, j as int, x, y);
                        assert(prefix_zs(keys, j + 1, x, y) =~= before.insert(z0));
                        assert forall|v: int| before.contains(v) implies v <= z0 by {
                            let k = choose|k: int|
                                0 <= k < j && keys[k].0 == x && keys[k].1 == y && keys[k].2 == v;
                            assert(key_le(keys[k], keys[j as int]));
                        }
                        lemma_stacked_step(before, z0);
                    } else {
                        assert(prefix_zs(keys, j + 1, x, y) =~= prefix_zs(keys, j as int, x, y));
                        if grid_index(x, y, len) == grid_index(x0, y0, len) {
                            lemma_grid_index_injective(x, y, x0, y0, len);
                        }
                    }
                }
            }
        }
        j = j + 1;
    }
    proof {
        if apart {
            assert forall|x: int, y: int|
                0 <= x < len && 0 <= y < len implies #[trigger] height_map@[grid_index(x, y, len)]
                == column_height(tiles, x, y) by {
                let a = prefix_zs(keys, n as int, x, y);
                let b = column_zs(tiles, x, y);
                assert forall|z: int| a.contains(z) <==> b.contains(z) by {
                    if a.contains(z) {
                        let k = choose|k: int|
                            0 <= k < n && keys[k].0 == x && keys[k].1 == y && keys[k].2 == z;
                        assert(keys.contains(keys[k]));
                        let t = choose|t: int| 0 <= t < tiles.len() && key_of(tiles[t]) == keys[k];
                        assert(tiles[t].xy.x == x && tiles[t].xy.y == y && tiles[t].z == z);
                    }
                    if b.contains(z) {
                        let t = choose|t: int|
                            0 <= t < tiles.len() && tiles[t].xy.x == x && tiles[t].xy.y == y
                                && tiles[t].z == z;
                        assert(exists|i: int| 0 <= i < tiles.len() && key_of(tiles[i]) == key_of(tiles[t]));
                        assert(keys.contains(key_of(tiles[t])));
                        let k = choose|k: int| 0 <= k < keys.len() && keys[k] == key_of(tiles[t]);
                        assert(keys[k].0 == x && keys[k].1 == y && keys[k].2 == z);
                    }
                }
                assert(a =~= b);
            }
        }
    }
    height_map
}


/// The edges of a graph over tile indices: entry `i` lists the nodes that node
/// `i` is linked to.
#[derive(Debug, Clone, PartialEq)]
pub struct NodeEdges(pub Vec<Vec<usize>>);

impl NodeEdges {
    /// The adjacency lists of the graph.
    pub open spec fn adjacency(&self) -> Seq<Seq<usize>> {
        self.0@.map_values(|edges: Vec<usize>| edges@)
    }
}

/// Every column of an `n` by `n` grid holds a tile, where `n` is the grid
/// length of the tiles, and no tile lies outside it.
pub open spec fn full_square_grid(tiles: Seq<HeightedTilePos>) -> bool {
    &&& rows_within_length(tiles)
    &&& forall|x: int, y: int|
        0 <= x < length_of(tiles) && 0 <= y < length_of(tiles) ==> #[trigger] has_column(
            tiles,
            x,
            y,
        )
}

/// Some tile lies at column (x, y).
pub open spec fn has_column(tiles: Seq<HeightedTilePos>, x: int, y: int) -> bool {
    exists|i: int| 0 <= i < tiles.len() && tiles[i].xy.x == x && tiles[i].xy.y == y
}

/// The tiles form a full square grid small enough for its indices to fit a `u32`.
pub open spec fn graph_fits(tiles: Seq<HeightedTilePos>) -> bool {
    &&& dimensions_fit(tiles)
    &&& full_square_grid(tiles)
    &&& length_of(tiles) * length_of(tiles) <= u32::MAX
}

/// Whether the tile deciding a link (the later one in grid order, at height
/// `h_from`) joins the earlier neighbour at height `h_to`.
pub open spec fn links(kind: GraphType, h_from: int, h_to: int) -> bool {
    match kind {
        GraphType::Ground => h_from > 0 && -1 <= h_to - h_from <= 1,
        GraphType::Air => true,
        GraphType::Water => h_from == 0 && h_to == h_from,
    }
}

pub open spec fn opt_node(cond: bool, node: int) -> Seq<usize> {
    if cond {
        seq![node as usize]
    } else {
        Seq::empty()
    }
}

/// The links a tile decides itself: to the tile one row back (x - 1) and to
/// the tile one column back (y - 1).
pub open spec fn own_neighbors(tiles: Seq<HeightedTilePos>, kind: GraphType, x: int, y: int) -> Seq<
    usize,
> {
    let len = length_of(tiles);
    opt_node(
        x > 0 && links(kind, column_height(tiles, x, y), column_height(tiles, x - 1, y)),
        grid_index(x - 1, y, len),
    ) + opt_node(
        y > 0 && links(kind, column_height(tiles, x, y), column_height(tiles, x, y - 1)),
        grid_index(x, y - 1, len),
    )
}

/// The neighbours of tile (x, y) once the first `count` tiles of the grid,
/// in grid order, have been linked.
pub open spec fn partial_neighbors(
    tiles: Seq<HeightedTilePos>,
    kind: GraphType,
    x: int,
    y: int,
    count: int,
) -> Seq<usize> {
    let len = length_of(tiles);
    own_neighbors(tiles, kind, x, y) + opt_node(
        y + 1 < len && grid_index(x, y + 1, len) < count && links(
            kind,
            column_height(tiles, x, y + 1),
            column_height(tiles, x, y),
        ),
        grid_index(x, y + 1, len),
    ) + opt_node(
        x + 1 < len && grid_index(x + 1, y, len) < count && links(
            kind,
            column_height(tiles, x + 1, y),
            column_height(tiles, x, y),
        ),
        grid_index(x + 1, y, len),
    )
}

/// The neighbours of tile (x, y) in the graph of the given kind, in the order
/// the edge lists hold them: back along x, back along y, forward along y,
/// forward along x. Two neighbouring tiles are linked when the terrain allows
/// passing between them.
pub open spec fn grid_neighbors(tiles: Seq<HeightedTilePos>, kind: GraphType, x: int, y: int) -> Seq<
    usize,
> {
    partial_neighbors(tiles, kind, x, y, length_of(tiles) * length_of(tiles))
}

fn link_allowed(kind: GraphType, h_from: usize, h_to: usize) -> (allowed: bool)
    ensures
        allowed == links(kind, h_from as int, h_to as int),
{
    match kind {
        GraphType::Ground => {
            let difference: i128 = h_to as i128 - h_from as i128;
            h_from > 0 && -1 <= difference && difference <= 1
        },
        GraphType::Air => true,
        GraphType::Water => {
            let difference: i128 = h_to as i128 - h_from as i128;
            h_from == 0 && difference == 0
        },
    }
}

proof fn lemma_grid_step(len: int, x: int, y: int)
    requires
        0 <= x,
        0 <= y,
        y + 1 == len,
    ensures
        grid_index(x + 1, 0, len) == grid_index(x, y, len) + 1,
{
    assert(len * (x + 1) == len * x + len) by (nonlinear_arith);
}

proof fn lemma_grid_back(len: int, x: int, y: int)
    requires
        0 < x,
        0 <= y,
    ensures
        grid_index(x - 1, y, len) == grid_index(x, y, len) - len,
{
    assert(len * (x - 1) == len * x - len) by (nonlinear_arith);
}

proof fn lemma_grid_forward(len: int, a: int, b: int)
    ensures
        grid_index(a + 1, b, len) == grid_index(a, b, len) + len,
{
    assert(len * (a + 1) == len * a + len) by (nonlinear_arith);
}

/// What linking tile `count` appends to the list of an earlier tile `g`.
pub open spec fn appended_by(
    g: int,
    top_idx: int,
    top_linked: bool,
    left_idx: int,
    left_linked: bool,
    count: int,
) -> Seq<usize> {
    opt_node(top_linked && g == top_idx, count) + opt_node(left_linked && g == left_idx, count)
}

/// Linking tile (x, y), the next in grid order, turns the edge lists of the
/// tiles before it into those of the tiles up to it.
proof fn lemma_link_step(
    t: Seq<HeightedTilePos>,
    kind: GraphType,
    len: int,
    x: int,
    y: int,
    before: Seq<Vec<usize>>,
    after: Seq<Vec<usize>>,
    current: Seq<usize>,
)
    requires
        len == length_of(t),
        0 <= x < len,
        0 <= y < len,
        before.len() == grid_index(x, y, len),
        forall|a: int, b: int|
            0 <= a < len && 0 <= b < len && grid_index(a, b, len) < grid_index(x, y, len)
                ==> #[trigger] before[grid_index(a, b, len)]@ == partial_neighbors(
                t,
                kind,
                a,
                b,
                grid_index(x, y, len),
            ),
        current =~= own_neighbors(t, kind, x, y),
        after.len() == grid_index(x, y, len) + 1,
        after[grid_index(x, y, len)]@ == current,
        forall|g: int|
            0 <= g < grid_index(x, y, len) ==> #[trigger] after[g]@ == before[g]@ + appended_by(
                g,
                grid_index(x - 1, y, len),
                x > 0 && links(kind, column_height(t, x, y), column_height(t, x - 1, y)),
                grid_index(x, y - 1, len),
                y > 0 && links(kind, column_height(t, x, y), column_height(t, x, y - 1)),
                grid_index(x, y, len),
            ),
    ensures
        forall|a: int, b: int|
            0 <= a < len && 0 <= b < len && grid_index(a, b, len) < grid_index(x, y, len) + 1
                ==> #[trigger] after[grid_index(a, b, len)]@ == partial_neighbors(
                t,
                kind,
                a,
                b,
                grid_index(x, y, len) + 1,
            ),
{
    let c = grid_index(x, y, len);
    assert forall|a: int, b: int|
        0 <= a < len && 0 <= b < len && grid_index(a, b, len) < c + 1
            implies #[trigger] after[grid_index(a, b, len)]@ == partial_neighbors(
            t,
            kind,
            a,
            b,
            c + 1,
        ) by {
        let g = grid_index(a, b, len);
        lemma_grid_forward(len, a, b);
        if g == c {
            lemma_grid_index_injective(a, b, x, y, len);
            assert(partial_neighbors(t, kind, a, b, c + 1) =~= own_neighbors(t, kind, a, b));
        } else {
            let top_linked = x > 0 && links(kind, column_height(t, x, y), column_height(t, x - 1, y));
            let left_linked = y > 0 && links(kind, column_height(t, x, y), column_height(t, x, y - 1));
            lemma_grid_forward(len, x - 1, y);
            if x > 0 && g == grid_index(x - 1, y, len) {
                lemma_grid_index_injective(a, b, x - 1, y, len);
                if len > 1 && y > 0 {
                    assert(g != grid_index(x, y - 1, len));
                }
                if b + 1 < len {
                    assert(grid_index(a, b + 1, len) < c);
                }
                assert(partial_neighbors(t, kind, a, b, c + 1) =~= partial_neighbors(t, kind, a, b, c)
                    + opt_node(top_linked, c));
                assert(appended_by(g, grid_index(x - 1, y, len), top_linked, grid_index(x, y - 1, len), left_linked, c)
                    =~= opt_node(top_linked, c));
            } else if y > 0 && g == grid_index(x, y - 1, len) {
                lemma_grid_index_injective(a, b, x, y - 1, len);
                assert(partial_neighbors(t, kind, a, b, c + 1) =~= partial_neighbors(t, kind, a, b, c)
                    + opt_node(left_linked, c));
                assert(appended_by(g, grid_index(x - 1, y, len), top_linked, grid_index(x, y - 1, len), left_linked, c)
                    =~= opt_node(left_linked, c));
            } else {
                if b + 1 < len && grid_index(a, b + 1, len) == c {
                    lemma_grid_index_injective(a, b + 1, x, y, len);
                }
                if a + 1 < len && grid_index(a + 1, b, len) == c {
                    lemma_grid_index_injective(a + 1, b, x, y, len);
                }
                assert(partial_neighbors(t, kind, a, b, c + 1) =~= partial_neighbors(t, kind, a, b, c));
                assert(appended_by(g, grid_index(x - 1, y, len), top_linked, grid_index(x, y - 1, len), left_linked, c)
                    =~= Seq::<usize>::empty());
            }
        }
    }
}

/// Links every tile of a full square grid to the neighbours that the terrain
/// of the given kind lets it pass to.
#[verifier::rlimit(40)]
fn link_grid(
    kind: GraphType,
    tiles: &Vec<HeightedTilePos>,
    heights: &Vec<usize>,
    length: u32,
) -> (edges: NodeEdges)
    requires
        graph_fits(tiles@),
        length == length_of(tiles@),
        kind != GraphType::Air ==> heights@.len() == length * length,
        kind != GraphType::Air ==> forall|x: int, y: int|
            0 <= x < length && 0 <= y < length ==> #[trigger] heights@[grid_index(
                x,
                y,
                length as int,
            )] == column_height(tiles@, x, y),
    ensures
        edges.0@.len() == length * length,
        forall|x: int, y: int|
            0 <= x < length && 0 <= y < length ==> #[trigger] edges.0@[grid_index(
                x,
                y,
                length as int,
            )]@ == grid_neighbors(tiles@, kind, x, y),
{
    let ghost t = tiles@;
    let ghost len = length as int;
    let mut directed_graph_edges: Vec<Vec<usize>> = Vec::with_capacity(tiles.len());
    let total = length * length;
    let mut count: u32 = 0;
    let mut x: u32 = 0;
    let mut y: u32 = 0;
    while count < total
        invariant
            graph_fits(t),
            t == tiles@,
            len == length_of(t),
            len == length,
            total == len * len,
            kind != GraphType::Air ==> heights@.len() == len * len,
            kind != GraphType::Air ==> forall|a: int, b: int|
                0 <= a < len && 0 <= b < len ==> #[trigger] heights@[grid_index(a, b, len)]
                    == column_height(t, a, b),
            0 <= y < len,
            0 <= x <= len,
            x == len ==> y == 0,
            count == grid_index(x as int, y as int, len),
            count <= total,
            directed_graph_edges@.len() == count,
            forall|a: int, b: int|
                0 <= a < len && 0 <= b < len && grid_index(a, b, len) < count
                    ==> #[trigger] directed_graph_edges@[grid_index(a, b, len)]@
                    == partial_neighbors(t, kind, a, b, count as int),
        decreases total - count,
    {
        proof {
            if x == len {
                assert(len * len == grid_index(x as int, 0, len));
            }
            assert(x < len);
            lemma_grid_index_bound(x as int, y as int, len);
        }
        let tile_idx = tilepos_to_idx(x, y, length);
        let ghost before = directed_graph_edges@;
        let ghost c = count as int;
        let mut current_node_edges: Vec<usize> = Vec::new();
        let mut top_linked = false;
        let mut top_node_idx: usize = 0;

        if x > 0 {
            proof {
                lemma_grid_back(len, x as int, y as int);
                lemma_grid_index_bound(x - 1, y as int, len);
            }
            top_node_idx = tilepos_to_idx(x - 1, y, length);
            top_linked = match kind {
                GraphType::Air => true,
                _ => link_allowed(kind, heights[tile_idx], heights[top_node_idx]),
            };
            if top_linked {
                current_node_edges.push(top_node_idx);
                directed_graph_edges[top_node_idx].push(tile_idx);
            }
        }
        proof {
            assert forall|g: int| 0 <= g < c implies #[trigger] directed_graph_edges@[g]@
                == before[g]@ + opt_node(top_linked && g == top_node_idx, c) by {
                if !(top_linked && g == top_node_idx) {
                    assert(before[g]@ + opt_node(top_linked && g == top_node_idx, c) =~= before[g]@);
                }
            }
        }
        let ghost mid = directed_graph_edges@;
        let mut left_linked = false;
        let mut left_node_idx: usize = 0;

        if y > 0 {
            proof {
                lemma_grid_index_bound(x as int, y - 1, len);
            }
            left_node_idx = tilepos_to_idx(x, y - 1, length);
            left_linked = match kind {
                GraphType::Air => true,
                _ => link_allowed(kind, heights[tile_idx], heights[left_node_idx]),
            };
            if left_linked {
                current_node_edges.push(left_node_idx);
                directed_graph_edges[left_node_idx].push(tile_idx);
            }
        }
        proof {
            assert forall|g: int| 0 <= g < c implies #[trigger] directed_graph_edges@[g]@
                == before[g]@ + appended_by(
                g,
                grid_index(x - 1, y as int, len),
                x > 0 && links(kind, column_height(t, x as int, y as int), column_height(t, x - 1, y as int)),
                grid_index(x as int, y - 1, len),
                y > 0 && links(kind, column_height(t, x as int, y as int), column_height(t, x as int, y - 1)),
                c,
            ) by {
                assert(mid[g]@ == before[g]@ + opt_node(top_linked && g == top_node_idx, c));
                if !(left_linked && g == left_node_idx) {
                    assert(mid[g]@ + opt_node(left_linked && g == left_node_idx, c) =~= mid[g]@);
                }
                assert(directed_graph_edges@[g]@ == mid[g]@ + opt_node(left_linked && g == left_node_idx, c));
                if x > 0 {
                    lemma_grid_back(len, x as int, y as int);
                }
                assert(top_linked == (x > 0 && links(kind, column_height(t, x as int, y as int), column_height(t, x - 1, y as int))));
                assert(left_linked == (y > 0 && links(kind, column_height(t, x as int, y as int), column_height(t, x as int, y - 1))));
                assert(before[g]@ + appended_by(
                    g,
                    grid_index(x - 1, y as int, len),
                    top_linked,
                    grid_index(x as int, y - 1, len),
                    left_linked,
                    c,
                ) =~= before[g]@ + opt_node(top_linked && g == top_node_idx, c) + opt_node(left_linked && g == left_node_idx, c));
            }
        }

        directed_graph_edges.push(current_node_edges);

        proof {
            if x > 0 {
                lemma_grid_back(len, x as int, y as int);
            }
            assert(current_node_edges@ =~= own_neighbors(t, kind, x as int, y as int));
            lemma_link_step(t, kind, len, x as int, y as int, before, directed_graph_edges@, current_node_edges@);
        }

        count = count + 1;
        if y + 1 == length {
            proof {
                lemma_grid_step(len, x as int, y as int);
            }
            y = 0;
            x = x + 1;
        } else {
            y = y + 1;
        }
    }
    proof {
        assert forall|a: int, b: int| 0 <= a < len && 0 <= b < len implies #[trigger]
            directed_graph_edges@[grid_index(a, b, len)]@ == grid_neighbors(t, kind, a, b) by {
            lemma_grid_index_bound(a, b, len);
        }
    }
    NodeEdges(directed_graph_edges)
}


proof fn lemma_graph_fits_height_map(tiles: Seq<HeightedTilePos>)
    requires
        graph_fits(tiles),
    ensures
        height_map_fits(tiles),
        width_of(tiles) == length_of(tiles),
{
    let len = length_of(tiles);
    lemma_max_x_bounds(tiles);
    if tiles.len() > 0 {
        assert(tiles.last().xy.y < len);
    }
    assert forall|i: int| 0 <= i < tiles.len() implies grid_index(
        tiles[i].xy.x as int,
        tiles[i].xy.y as int,
        len,
    ) < len * len by {
        lemma_grid_index_bound(tiles[i].xy.x as int, tiles[i].xy.y as int, len);
    }
}

impl NodeEdges {
    /// Returns a set of Node Edges derived from a collection of Tiles
    /// designated for Ground traversal: neighbouring tiles are linked when
    /// the later one stands on ground and their heights differ by at most one.
    pub fn from_ground_tiles(ground_tiles: Vec<HeightedTilePos>) -> (edges: NodeEdges)
        requires
            graph_fits(ground_tiles@),
        ensures
            edges.0@.len() == length_of(ground_tiles@) * length_of(ground_tiles@),
            forall|x: int, y: int|
                0 <= x < length_of(ground_tiles@) && 0 <= y < length_of(ground_tiles@)
                    ==> #[trigger] edges.adjacency()[grid_index(x, y, length_of(ground_tiles@))]
                    == grid_neighbors(ground_tiles@, GraphType::Ground, x, y),
    {
        proof {
            lemma_graph_fits_height_map(ground_tiles@);
        }
        let height_map: Vec<usize> = height_map_from(&ground_tiles);
        let (length, _width, _height) = dimensions_from(&ground_tiles);
        let edges = link_grid(GraphType::Ground, &ground_tiles, &height_map, length);
        proof {
            lemma_adjacency_of(edges, ground_tiles@, GraphType::Ground);
        }
        edges
    }

    /// Returns a set of Node Edges derived from a collection of Tiles
    /// designated for Air traversal: every tile is linked to all of its
    /// neighbours.
    pub fn from_air_tiles(air_tiles: Vec<HeightedTilePos>) -> (edges: NodeEdges)
        requires
            graph_fits(air_tiles@),
        ensures
            edges.0@.len() == length_of(air_tiles@) * length_of(air_tiles@),
            forall|x: int, y: int|
                0 <= x < length_of(air_tiles@) && 0 <= y < length_of(air_tiles@)
                    ==> #[trigger] edges.adjacency()[grid_index(x, y, length_of(air_tiles@))]
                    == grid_neighbors(air_tiles@, GraphType::Air, x, y),
    {
        let (length, _width, _height) = dimensions_from(&air_tiles);
        let no_heights: Vec<usize> = Vec::new();
        let edges = link_grid(GraphType::Air, &air_tiles, &no_heights, length);
        proof {
            lemma_adjacency_of(edges, air_tiles@, GraphType::Air);
        }
        edges
    }

    /// Returns a set of Node Edges derived from a collection of Tiles
    /// designated for Water traversal: neighbouring tiles are linked when
    /// both lie at height zero.
    pub fn from_water_tiles(water_tiles: Vec<HeightedTilePos>) -> (edges: NodeEdges)
        requires
            graph_fits(water_tiles@),
        ensures
            edges.0@.len() == length_of(water_tiles@) * length_of(water_tiles@),
            forall|x: int, y: int|
                0 <= x < length_of(water_tiles@) && 0 <= y < length_of(water_tiles@)
                    ==> #[trigger] edges.adjacency()[grid_index(x, y, length_of(water_tiles@))]
                    == grid_neighbors(water_tiles@, GraphType::Water, x, y),
    {
        proof {
            lemma_graph_fits_height_map(water_tiles@);
        }
        let height_map: Vec<usize> = height_map_from(&water_tiles);
        let (length, _width, _height) = dimensions_from(&water_tiles);
        let edges = link_grid(GraphType::Water, &water_tiles, &height_map, length);
        proof {
            lemma_adjacency_of(edges, water_tiles@, GraphType::Water);
        }
        edges
    }
}

proof fn lemma_adjacency_of(edges: NodeEdges, tiles: Seq<HeightedTilePos>, kind: GraphType)
    requires
        forall|x: int, y: int|
            0 <= x < length_of(tiles) && 0 <= y < length_of(tiles) ==> #[trigger] edges.0@[grid_index(
                x,
                y,
                length_of(tiles),
            )]@ == grid_neighbors(tiles, kind, x, y),
        edges.0@.len() == length_of(tiles) * length_of(tiles),
    ensures
        forall|x: int, y: int|
            0 <= x < length_of(tiles) && 0 <= y < length_of(tiles)
                ==> #[trigger] edges.adjacency()[grid_index(x, y, length_of(tiles))]
                == grid_neighbors(tiles, kind, x, y),
{
    assert forall|x: int, y: int|
        0 <= x < length_of(tiles) && 0 <= y < length_of(tiles)
            implies #[trigger] edges.adjacency()[grid_index(x, y, length_of(tiles))]
        == grid_neighbors(tiles, kind, x, y) by {
        lemma_grid_index_bound(x, y, length_of(tiles));
        assert(edges.0@[grid_index(x, y, length_of(tiles))]@ == grid_neighbors(tiles, kind, x, y));
    }
}

/// Tiles (x1, y1) and (x2, y2) are side by side and the terrain lets one pass
/// between them.
pub open spec fn linked_pair(
    tiles: Seq<HeightedTilePos>,
    kind: GraphType,
    x1: int,
    y1: int,
    x2: int,
    y2: int,
) -> bool {
    let len = length_of(tiles);
    let h1 = column_height(tiles, x1, y1);
    let h2 = column_height(tiles, x2, y2);
    ||| x2 == x1 - 1 && y2 == y1 && x1 > 0 && links(kind, h1, h2)
    ||| x2 == x1 && y2 == y1 - 1 && y1 > 0 && links(kind, h1, h2)
    ||| x2 == x1 && y2 == y1 + 1 && y2 < len && links(kind, h2, h1)
    ||| x2 == x1 + 1 && y2 == y1 && x2 < len && links(kind, h2, h1)
}

proof fn lemma_concat_contains(a: Seq<usize>, b: Seq<usize>, v: usize)
    ensures
        (a + b).contains(v) <==> a.contains(v) || b.contains(v),
{
    if (a + b).contains(v) {
        let k = choose|k: int| 0 <= k < (a + b).len() && (a + b)[k] == v;
        if k < a.len() {
            assert(a[k] == v);
        } else {
            assert(b[k - a.len()] == v);
        }
    }
    if a.contains(v) {
        let k = choose|k: int| 0 <= k < a.len() && a[k] == v;
        assert((a + b)[k] == v);
    }
    if b.contains(v) {
        let k = choose|k: int| 0 <= k < b.len() && b[k] == v;
        assert((a + b)[k + a.len()] == v);
    }
}

proof fn lemma_opt_node_contains(cond: bool, node: int, v: usize)
    requires
        0 <= node <= usize::MAX,
    ensures
        opt_node(cond, node).contains(v) <==> cond && v == node,
{
    if cond {
        assert(opt_node(cond, node)[0] == node as usize);
    }
}

/// A tile's neighbour list holds exactly the tiles it is linked to.
pub proof fn lemma_grid_neighbors_contains(
    tiles: Seq<HeightedTilePos>,
    kind: GraphType,
    x1: int,
    y1: int,
    x2: int,
    y2: int,
)
    requires
        graph_fits(tiles),
        0 <= x1 < length_of(tiles),
        0 <= y1 < length_of(tiles),
        0 <= x2 < length_of(tiles),
        0 <= y2 < length_of(tiles),
    ensures
        grid_neighbors(tiles, kind, x1, y1).contains(grid_index(x2, y2, length_of(tiles)) as usize)
            <==> linked_pair(tiles, kind, x1, y1, x2, y2),
{
    let len = length_of(tiles);
    let target = grid_index(x2, y2, len);
    let v = target as usize;
    let h1 = column_height(tiles, x1, y1);
    lemma_grid_index_bound(x2, y2, len);
    lemma_grid_forward(len, x1, y1);
    lemma_grid_back_any(len, x1, y1);
    let c_top = x1 > 0 && links(kind, h1, column_height(tiles, x1 - 1, y1));
    let c_left = y1 > 0 && links(kind, h1, column_height(tiles, x1, y1 - 1));
    let c_right = y1 + 1 < len && grid_index(x1, y1 + 1, len) < len * len && links(
        kind,
        column_height(tiles, x1, y1 + 1),
        h1,
    );
    let c_bottom = x1 + 1 < len && grid_index(x1 + 1, y1, len) < len * len && links(
        kind,
        column_height(tiles, x1 + 1, y1),
        h1,
    );
    let i_top = grid_index(x1 - 1, y1, len);
    let i_left = grid_index(x1, y1 - 1, len);
    let i_right = grid_index(x1, y1 + 1, len);
    let i_bottom = grid_index(x1 + 1, y1, len);
    if x1 > 0 {
        lemma_grid_index_bound(x1 - 1, y1, len);
    }
    if y1 > 0 {
        lemma_grid_index_bound(x1, y1 - 1, len);
    }
    if y1 + 1 < len {
        lemma_grid_index_bound(x1, y1 + 1, len);
    }
    if x1 + 1 < len {
        lemma_grid_index_bound(x1 + 1, y1, len);
    }
    let a = opt_node(c_top, i_top);
    let b = opt_node(c_left, i_left);
    let c = opt_node(c_right, i_right);
    let d = opt_node(c_bottom, i_bottom);
    assert(grid_neighbors(tiles, kind, x1, y1) == a + b + c + d);
    lemma_concat_contains(a + b + c, d, v);
    lemma_concat_contains(a + b, c, v);
    lemma_concat_contains(a, b, v);
    if c_top {
        lemma_opt_node_contains(c_top, i_top, v);
    } else {
        assert(!a.contains(v));
    }
    if c_left {
        lemma_opt_node_contains(c_left, i_left, v);
    } else {
        assert(!b.contains(v));
    }
    if c_right {
        lemma_opt_node_contains(c_right, i_right, v);
    } else {
        assert(!c.contains(v));
    }
    if c_bottom {
        lemma_opt_node_contains(c_bottom, i_bottom, v);
    } else {
        assert(!d.contains(v));
    }
    if c_top && v == i_top {
        lemma_grid_index_injective(x1 - 1, y1, x2, y2, len);
    }
    if c_left && v == i_left {
        lemma_grid_index_injective(x1, y1 - 1, x2, y2, len);
    }
    if c_right && v == i_right {
        lemma_grid_index_injective(x1, y1 + 1, x2, y2, len);
    }
    if c_bottom && v == i_bottom {
        lemma_grid_index_injective(x1 + 1, y1, x2, y2, len);
    }
}

proof fn lemma_grid_back_any(len: int, x: int, y: int)
    ensures
        grid_index(x - 1, y, len) == grid_index(x, y, len) - len,
{
    assert(len * (x - 1) == len * x - len) by (nonlinear_arith);
}

/// The graphs built from tiles are undirected: tile (x1, y1) lists tile
/// (x2, y2) among its neighbours exactly when (x2, y2) lists (x1, y1).
pub proof fn lemma_grid_links_symmetric(
    tiles: Seq<HeightedTilePos>,
    kind: GraphType,
    x1: int,
    y1: int,
    x2: int,
    y2: int,
)
    requires
        graph_fits(tiles),
        0 <= x1 < length_of(tiles),
        0 <= y1 < length_of(tiles),
        0 <= x2 < length_of(tiles),
        0 <= y2 < length_of(tiles),
    ensures
        grid_neighbors(tiles, kind, x1, y1).contains(grid_index(x2, y2, length_of(tiles)) as usize)
            <==> grid_neighbors(tiles, kind, x2, y2).contains(
            grid_index(x1, y1, length_of(tiles)) as usize,
        ),
{
    lemma_grid_neighbors_contains(tiles, kind, x1, y1, x2, y2);
    lemma_grid_neighbors_contains(tiles, kind, x2, y2, x1, y1);
}

proof fn lemma_no_repeats_concat(a: Seq<usize>, b: Seq<usize>)
    requires
        no_repeats(a),
        no_repeats(b),
        forall|v: usize| a.contains(v) ==> !b.contains(v),
    ensures
        no_repeats(a + b),
{
    let s = a + b;
    assert forall|i: int, j: int| 0 <= i < j < s.len() implies s[i] != s[j] by {
        if j < a.len() {
            assert(s[i] == a[i] && s[j] == a[j]);
        } else if i >= a.len() {
            assert(s[i] == b[i - a.len()] && s[j] == b[j - a.len()]);
        } else {
            assert(s[i] == a[i]);
            assert(a.contains(a[i]));
            assert(s[j] == b[j - a.len()]);
            assert(b.contains(b[j - a.len()]));
        }
    }
}

/// No tile lists a neighbour twice, and none lists itself.
pub proof fn lemma_grid_neighbors_distinct(tiles: Seq<HeightedTilePos>, kind: GraphType, x: int, y: int)
    requires
        graph_fits(tiles),
        0 <= x < length_of(tiles),
        0 <= y < length_of(tiles),
    ensures
        no_repeats(grid_neighbors(tiles, kind, x, y)),
        !grid_neighbors(tiles, kind, x, y).contains(grid_index(x, y, length_of(tiles)) as usize),
{
    let len = length_of(tiles);
    let g = grid_index(x, y, len);
    let h = column_height(tiles, x, y);
    lemma_grid_index_bound(x, y, len);
    lemma_grid_forward(len, x, y);
    lemma_grid_back_any(len, x, y);
    let c_top = x > 0 && links(kind, h, column_height(tiles, x - 1, y));
    let c_left = y > 0 && links(kind, h, column_height(tiles, x, y - 1));
    let c_right = y + 1 < len && grid_index(x, y + 1, len) < len * len && links(
        kind,
        column_height(tiles, x, y + 1),
        h,
    );
    let c_bottom = x + 1 < len && grid_index(x + 1, y, len) < len * len && links(
        kind,
        column_height(tiles, x + 1, y),
        h,
    );
    let i_top = grid_index(x - 1, y, len);
    let i_left = grid_index(x, y - 1, len);
    let i_right = grid_index(x, y + 1, len);
    let i_bottom = grid_index(x + 1, y, len);
    if x > 0 {
        lemma_grid_index_bound(x - 1, y, len);
    }
    if y > 0 {
        lemma_grid_index_bound(x, y - 1, len);
    }
    if y + 1 < len {
        lemma_grid_index_bound(x, y + 1, len);
    }
    if x + 1 < len {
        lemma_grid_index_bound(x + 1, y, len);
    }
    let a = opt_node(c_top, i_top);
    let b = opt_node(c_left, i_left);
    let c = opt_node(c_right, i_right);
    let d = opt_node(c_bottom, i_bottom);
    assert(grid_neighbors(tiles, kind, x, y) == a + b + c + d);
    // each part holds at most one index, and the four indices differ
    assert forall|v: usize| #![trigger a.contains(v)] #![trigger b.contains(v)] #![trigger c.contains(v)]
        #![trigger d.contains(v)]
        (a.contains(v) ==> v == i_top && c_top) && (b.contains(v) ==> v == i_left && c_left) && (c.contains(v)
            ==> v == i_right && c_right) && (d.contains(v) ==> v == i_bottom && c_bottom) by {
        if c_top {
            lemma_opt_node_contains(c_top, i_top, v);
        }
        if c_left {
            lemma_opt_node_contains(c_left, i_left, v);
        }
        if c_right {
            lemma_opt_node_contains(c_right, i_right, v);
        }
        if c_bottom {
            lemma_opt_node_contains(c_bottom, i_bottom, v);
        }
    }
    assert(no_repeats(a) && no_repeats(b) && no_repeats(c) && no_repeats(d));
    lemma_no_repeats_concat(a, b);
    assert forall|v: usize| (a + b).contains(v) implies !c.contains(v) by {
        lemma_concat_contains(a, b, v);
    }
    lemma_no_repeats_concat(a + b, c);
    assert forall|v: usize| (a + b + c).contains(v) implies !d.contains(v) by {
        lemma_concat_contains(a + b, c, v);
        lemma_concat_contains(a, b, v);
    }
    lemma_no_repeats_concat(a + b + c, d);
    let own = g as usize;
    lemma_concat_contains(a + b + c, d, own);
    lemma_concat_contains(a + b, c, own);
    lemma_concat_contains(a, b, own);
}

/// The edge lists built from the tiles of a full square grid describe an
/// undirected graph of side-by-side tiles: a tile lists another exactly
/// when that one lists it back; it lists only tiles next to it on the grid
/// between which the terrain lets one pass (for ground, heights that differ
/// by at most one); it never lists itself, and no neighbour twice; and every
/// listed index is a tile of the grid.
pub proof fn lemma_tile_graph_undirected(tiles: Seq<HeightedTilePos>, kind: GraphType, adj: Seq<Seq<usize>>)
    requires
        graph_fits(tiles),
        adj.len() == length_of(tiles) * length_of(tiles),
        forall|x: int, y: int|
            0 <= x < length_of(tiles) && 0 <= y < length_of(tiles) ==> #[trigger] adj[grid_index(
                x,
                y,
                length_of(tiles),
            )] == grid_neighbors(tiles, kind, x, y),
    ensures
        edges_in_range(adj),
        forall|i: int, j: int|
            0 <= i < adj.len() && 0 <= j < adj.len() ==> (#[trigger] adj[i].contains(j as usize)
                <==> #[trigger] adj[j].contains(i as usize)),
        forall|i: int, j: int|
            0 <= i < adj.len() && 0 <= j < adj.len() && #[trigger] adj[i].contains(j as usize)
                ==> linked_pair(
                tiles,
                kind,
                i / length_of(tiles),
                i % length_of(tiles),
                j / length_of(tiles),
                j % length_of(tiles),
            ),
        forall|i: int|
            0 <= i < adj.len() ==> no_repeats(#[trigger] adj[i]) && !adj[i].contains(i as usize),
{
    let len = length_of(tiles);
    assert forall|i: int|
        0 <= i < adj.len() implies 0 <= #[trigger] (i / len) < len && 0 <= i % len < len && grid_index(
        i / len,
        i % len,
        len,
    ) == i by {
        let x = i / len;
        let y = i % len;
        assert(0 <= x < len && 0 <= y < len && grid_index(x, y, len) == i) by (nonlinear_arith)
            requires
                len > 0,
                0 <= i < len * len,
                x == i / len,
                y == i % len,
        ;
    }
    assert forall|i: int, k: int| 0 <= i < adj.len() && 0 <= k < adj[i].len() implies adj[i][k] < adj.len() by {
        let x = i / len;
        let y = i % len;
        assert(adj[grid_index(x, y, len)] == grid_neighbors(tiles, kind, x, y));
        lemma_grid_neighbors_in_range(tiles, kind, x, y);
    }
    assert forall|i: int, j: int| #![trigger adj[i].contains(j as usize)]
        0 <= i < adj.len() && 0 <= j < adj.len() implies (adj[i].contains(
        j as usize,
    ) <==> adj[j].contains(i as usize)) && (adj[i].contains(j as usize) ==> linked_pair(
        tiles,
        kind,
        i / len,
        i % len,
        j / len,
        j % len,
    )) by {
        let (x1, y1) = (i / len, i % len);
        let (x2, y2) = (j / len, j % len);
        assert(adj[grid_index(x1, y1, len)] == grid_neighbors(tiles, kind, x1, y1));
        assert(adj[grid_index(x2, y2, len)] == grid_neighbors(tiles, kind, x2, y2));
        lemma_grid_links_symmetric(tiles, kind, x1, y1, x2, y2);
        lemma_grid_neighbors_contains(tiles, kind, x1, y1, x2, y2);
    }
    assert forall|i: int| 0 <= i < adj.len() implies no_repeats(#[trigger] adj[i]) && !adj[i].contains(
        i as usize,
    ) by {
        let (x, y) = (i / len, i % len);
        assert(adj[grid_index(x, y, len)] == grid_neighbors(tiles, kind, x, y));
        lemma_grid_neighbors_distinct(tiles, kind, x, y);
    }
}

/// The number of steps between two grid nodes moving only along rows and
/// columns (the Manhattan distance of their positions).
pub open spec fn manhattan(a: int, b: int, len: int) -> int {
    let dx = a / len - b / len;
    let dy = a % len - b % len;
    (if dx < 0 { -dx } else { dx }) + (if dy < 0 { -dy } else { dy })
}

/// The air graph built from the tiles of a full square grid.
pub open spec fn air_graph_of(tiles: Seq<HeightedTilePos>, adj: Seq<Seq<usize>>) -> bool {
    &&& graph_fits(tiles)
    &&& adj.len() == length_of(tiles) * length_of(tiles)
    &&& forall|x: int, y: int|
        0 <= x < length_of(tiles) && 0 <= y < length_of(tiles) ==> #[trigger] adj[grid_index(
            x,
            y,
            length_of(tiles),
        )] == grid_neighbors(tiles, GraphType::Air, x, y)
}

proof fn lemma_node_coordinates(v: int, len: int)
    requires
        len > 0,
        0 <= v < len * len,
    ensures
        0 <= v / len < len,
        0 <= v % len < len,
        grid_index(v / len, v % len, len) == v,
{
    let x = v / len;
    let y = v % len;
    assert(0 <= x < len && 0 <= y < len && grid_index(x, y, len) == v) by (nonlinear_arith)
        requires
            len > 0,
            0 <= v < len * len,
            x == v / len,
            y == v % len,
    ;
}

proof fn lemma_index_coordinates(x: int, y: int, len: int)
    requires
        0 <= x < len,
        0 <= y < len,
    ensures
        grid_index(x, y, len) / len == x,
        grid_index(x, y, len) % len == y,
{
    assert((len * x + y) / len == x && (len * x + y) % len == y) by (nonlinear_arith)
        requires
            0 <= x < len,
            0 <= y < len,
    ;
}

/// A walk through the air between two tiles that takes as many steps as
/// their Manhattan distance: first along x, then along y.
proof fn lemma_air_walk(tiles: Seq<HeightedTilePos>, adj: Seq<Seq<usize>>, x1: int, y1: int, x2: int, y2: int)
    requires
        air_graph_of(tiles, adj),
        0 <= x1 < length_of(tiles),
        0 <= y1 < length_of(tiles),
        0 <= x2 < length_of(tiles),
        0 <= y2 < length_of(tiles),
    ensures
        walk_of_steps(
            adj,
            grid_index(x1, y1, length_of(tiles)),
            grid_index(x2, y2, length_of(tiles)),
            (if x1 < x2 { x2 - x1 } else { x1 - x2 }) + (if y1 < y2 { y2 - y1 } else { y1 - y2 }),
        ),
    decreases (if x1 < x2 { x2 - x1 } else { x1 - x2 }) + (if y1 < y2 { y2 - y1 } else { y1 - y2 }),
{
    let len = length_of(tiles);
    let here = grid_index(x1, y1, len);
    lemma_grid_index_bound(x1, y1, len);
    lemma_grid_index_bound(x2, y2, len);
    if x1 == x2 && y1 == y2 {
        let route = seq![here as usize];
        assert(is_walk(adj, route));
    } else {
        let (nx, ny) = if x1 < x2 {
            (x1 + 1, y1)
        } else if x1 > x2 {
            (x1 - 1, y1)
        } else if y1 < y2 {
            (x1, y1 + 1)
        } else {
            (x1, y1 - 1)
        };
        lemma_air_walk(tiles, adj, nx, ny, x2, y2);
        let next = grid_index(nx, ny, len);
        lemma_grid_index_bound(nx, ny, len);
        let steps = (if nx < x2 { x2 - nx } else { nx - x2 }) + (if ny < y2 { y2 - ny } else { ny - y2 });
        let rest = choose|route: Seq<usize>|
            #[trigger] is_walk(adj, route) && route[0] == next && route.last() == grid_index(x2, y2, len)
                && route.len() == steps + 1;
        lemma_grid_neighbors_contains(tiles, GraphType::Air, x1, y1, nx, ny);
        assert(adj[here] == grid_neighbors(tiles, GraphType::Air, x1, y1));
        let route = seq![here as usize] + rest;
        assert forall|i: int| 0 <= i < route.len() - 1 implies adj[route[i] as int].contains(
            #[trigger] route[i + 1],
        ) by {
            if i > 0 {
                assert(route[i] == rest[i - 1] && route[i + 1] == rest[i - 1 + 1]);
                assert(adj[rest[i - 1] as int].contains(rest[i - 1 + 1]));
            } else {
                assert(route[1] == rest[0]);
            }
        }
        assert forall|i: int| 0 <= i < route.len() implies route[i] < adj.len() by {
            if i > 0 {
                assert(route[i] == rest[i - 1]);
            }
        }
        assert(is_walk(adj, route));
        assert(route.last() == rest.last());
    }
}

/// No walk through the air takes fewer steps than the Manhattan distance
/// between its ends: each step moves to a tile next to the last.
proof fn lemma_air_walk_length(tiles: Seq<HeightedTilePos>, adj: Seq<Seq<usize>>, route: Seq<usize>)
    requires
        air_graph_of(tiles, adj),
        is_walk(adj, route),
    ensures
        manhattan(route[0] as int, route.last() as int, length_of(tiles)) <= route.len() - 1,
    decreases route.len(),
{
    if route.len() > 1 {
        let len = length_of(tiles);
        lemma_walk_drop_last(adj, route);
        let shorter = route.drop_last();
        lemma_air_walk_length(tiles, adj, shorter);
        let prev = shorter.last() as int;
        let last = route.last() as int;
        lemma_tile_graph_undirected(tiles, GraphType::Air, adj);
        assert(adj[prev].contains(last as usize));
        assert(linked_pair(tiles, GraphType::Air, prev / len, prev % len, last / len, last % len));
    }
}

/// Every non-player character can travel to any point of the map: in the
/// air graph of a full square map every tile reaches every other, and the
/// shortest routes between two tiles take as many steps as the Manhattan
/// distance between them.
pub proof fn lemma_air_reaches_everywhere(tiles: Seq<HeightedTilePos>, adj: Seq<Seq<usize>>, a: int, b: int)
    requires
        air_graph_of(tiles, adj),
        0 <= a < adj.len(),
        0 <= b < adj.len(),
    ensures
        reachable(adj, a as usize, b as usize),
        walk_of_steps(adj, a, b, manhattan(a, b, length_of(tiles))),
        no_fewer_steps(adj, a, b, manhattan(a, b, length_of(tiles))),
{
    let len = length_of(tiles);
    lemma_node_coordinates(a, len);
    lemma_node_coordinates(b, len);
    lemma_air_walk(tiles, adj, a / len, a % len, b / len, b % len);
    let route = choose|route: Seq<usize>|
        #[trigger] is_walk(adj, route) && route[0] == a && route.last() == b && route.len() == manhattan(a, b, len)
            + 1;
    assert(route[0] == a as usize && route.last() == b as usize);
    assert forall|r: Seq<usize>| #[trigger] is_walk(adj, r) && r[0] == a && r.last() == b implies r.len() >= manhattan(
        a,
        b,
        len,
    ) + 1 by {
        lemma_air_walk_length(tiles, adj, r);
    }
}

/// Any two edge lists that list, for every tile of a full square grid, the
/// neighbours `grid_neighbors` gives are the same: `UndirectedGraph::from_tiles`
/// and the `from_ground_tiles`, `from_air_tiles` and `from_water_tiles`
/// builders make the same graph for the same kind.
pub proof fn lemma_tile_graphs_agree(
    tiles: Seq<HeightedTilePos>,
    kind: GraphType,
    first: Seq<Seq<usize>>,
    second: Seq<Seq<usize>>,
)
    requires
        graph_fits(tiles),
        first.len() == length_of(tiles) * length_of(tiles),
        second.len() == length_of(tiles) * length_of(tiles),
        forall|x: int, y: int|
            0 <= x < length_of(tiles) && 0 <= y < length_of(tiles) ==> #[trigger] first[grid_index(
                x,
                y,
                length_of(tiles),
            )] == grid_neighbors(tiles, kind, x, y),
        forall|x: int, y: int|
            0 <= x < length_of(tiles) && 0 <= y < length_of(tiles) ==> #[trigger] second[grid_index(
                x,
                y,
                length_of(tiles),
            )] == grid_neighbors(tiles, kind, x, y),
    ensures
        first == second,
{
    let len = length_of(tiles);
    assert forall|i: int| 0 <= i < first.len() implies first[i] == second[i] by {
        lemma_node_coordinates(i, len);
        assert(first[grid_index(i / len, i % len, len)] == second[grid_index(i / len, i % len, len)]);
    }
    assert(first =~= second);
}

/// Walkers step between side-by-side tiles that both stand on ground and
/// whose heights differ by at most one layer, up or down; they never cross
/// a step of two layers or more.
pub proof fn lemma_ground_steps(tiles: Seq<HeightedTilePos>, x1: int, y1: int, x2: int, y2: int)
    requires
        graph_fits(tiles),
        0 <= x1 < length_of(tiles),
        0 <= y1 < length_of(tiles),
        0 <= x2 < length_of(tiles),
        0 <= y2 < length_of(tiles),
        (x1 == x2 && (y2 == y1 + 1 || y1 == y2 + 1)) || (y1 == y2 && (x2 == x1 + 1 || x1 == x2 + 1)),
    ensures
        ({
            let h1 = column_height(tiles, x1, y1);
            let h2 = column_height(tiles, x2, y2);
            h1 > 0 && h2 > 0 && h1 - 1 <= h2 <= h1 + 1
        }) ==> grid_neighbors(tiles, GraphType::Ground, x1, y1).contains(
            grid_index(x2, y2, length_of(tiles)) as usize,
        ),
        ({
            let h1 = column_height(tiles, x1, y1);
            let h2 = column_height(tiles, x2, y2);
            h2 > h1 + 1 || h1 > h2 + 1
        }) ==> !grid_neighbors(tiles, GraphType::Ground, x1, y1).contains(
            grid_index(x2, y2, length_of(tiles)) as usize,
        ),
{
    lemma_grid_neighbors_contains(tiles, GraphType::Ground, x1, y1, x2, y2);
}

/// Swimmers pass between side-by-side tiles exactly when both lie at water
/// level (height zero).
pub proof fn lemma_water_level(tiles: Seq<HeightedTilePos>, x1: int, y1: int, x2: int, y2: int)
    requires
        graph_fits(tiles),
        0 <= x1 < length_of(tiles),
        0 <= y1 < length_of(tiles),
        0 <= x2 < length_of(tiles),
        0 <= y2 < length_of(tiles),
        (x1 == x2 && (y2 == y1 + 1 || y1 == y2 + 1)) || (y1 == y2 && (x2 == x1 + 1 || x1 == x2 + 1)),
    ensures
        grid_neighbors(tiles, GraphType::Water, x1, y1).contains(grid_index(x2, y2, length_of(tiles)) as usize)
            <==> (column_height(tiles, x1, y1) == 0 && column_height(tiles, x2, y2) == 0),
{
    lemma_grid_neighbors_contains(tiles, GraphType::Water, x1, y1, x2, y2);
}


/// A route through the graph, as the tile indices to visit in order.
pub struct Path(pub VecDeque<usize>);

/// Every edge of the graph leads to a node of the graph.
pub open spec fn edges_in_range(adj: Seq<Seq<usize>>) -> bool {
    forall|i: int, k: int| 0 <= i < adj.len() && 0 <= k < adj[i].len() ==> adj[i][k] < adj.len()
}

/// `route` walks the graph: it is not empty, it stays on nodes of the graph,
/// and each step follows an edge.
pub open spec fn is_walk(adj: Seq<Seq<usize>>, route: Seq<usize>) -> bool {
    &&& route.len() > 0
    &&& forall|i: int| 0 <= i < route.len() ==> route[i] < adj.len()
    &&& forall|i: int| 0 <= i < route.len() - 1 ==> adj[route[i] as int].contains(#[trigger] route[i + 1])
}

/// Some walk through the graph leads from `source` to `target`.
pub open spec fn reachable(adj: Seq<Seq<usize>>, source: usize, target: usize) -> bool {
    exists|route: Seq<usize>|
        #[trigger] is_walk(adj, route) && route[0] == source && route.last() == target
}

/// One step back along the parents: the route back from `child` followed
/// by the rest of a path that starts at `child` is the route back from its
/// parent followed by the whole path.
proof fn lemma_trace_back(parents: Seq<i32>, source: usize, child: usize, parent: usize, fuel: nat, path: Seq<usize>)
    requires
        fuel > 0,
        child != source,
        parents[child as int] != -1,
        parents[child as int] as usize == parent,
        path.len() > 0,
        path[0] == child,
    ensures
        bfs_trace(parents, source, child, fuel) + path.drop_first() == bfs_trace(
            parents,
            source,
            parent,
            (fuel - 1) as nat,
        ) + path,
{
    assert(path =~= seq![child] + path.drop_first());
    assert(bfs_trace(parents, source, parent, (fuel - 1) as nat).push(child) + path.drop_first() =~= bfs_trace(
        parents,
        source,
        parent,
        (fuel - 1) as nat,
    ) + path);
}

/// The nodes of a path, if there is one.
pub open spec fn route_of(path: Option<Path>) -> Option<Seq<usize>> {
    match path {
        Some(p) => Some(p.0@),
        None => None,
    }
}

/// No node appears twice on the route.
pub open spec fn no_repeats(route: Seq<usize>) -> bool {
    forall|i: int, j: int| 0 <= i < j < route.len() ==> route[i] != route[j]
}

impl NodeEdges {
    /// Returns a Single Shortest Path between a source and target Tile
    /// Position, or nothing if none were found. The nodes are searched
    /// breadth first from the source, each marked as it is queued, so no
    /// walk between the two is shorter than the path found; the path is the
    /// one `bfs_route` describes, the same for the same graph and ends.
    #[verifier::rlimit(40)]
    pub fn shortest_path(&self, source: TilePos, target: TilePos, length: u32) -> (path: Option<Path>)
        requires
            edges_in_range(self.adjacency()),
            self.adjacency().len() <= i32::MAX + 1,
            grid_index(source.x as int, source.y as int, length as int) < self.adjacency().len(),
            grid_index(target.x as int, target.y as int, length as int) < self.adjacency().len(),
            grid_index(source.x as int, source.y as int, length as int) <= u32::MAX,
            grid_index(target.x as int, target.y as int, length as int) <= u32::MAX,
        ensures
            path is Some <==> reachable(
                self.adjacency(),
                grid_index(source.x as int, source.y as int, length as int) as usize,
                grid_index(target.x as int, target.y as int, length as int) as usize,
            ),
            path matches Some(p) ==> {
                &&& is_walk(self.adjacency(), p.0@)
                &&& p.0@[0] == grid_index(source.x as int, source.y as int, length as int)
                &&& p.0@.last() == grid_index(target.x as int, target.y as int, length as int)
                &&& no_repeats(p.0@)
                &&& no_fewer_steps(
                    self.adjacency(),
                    grid_index(source.x as int, source.y as int, length as int),
                    grid_index(target.x as int, target.y as int, length as int),
                    p.0@.len() - 1,
                )
            },
            route_of(path) == bfs_route(
                self.adjacency(),
                grid_index(source.x as int, source.y as int, length as int) as usize,
                grid_index(target.x as int, target.y as int, length as int) as usize,
            ),
    {
        let ghost adj = self.adjacency();
        let graph_node_edges = &self.0;
        let n = graph_node_edges.len();

        let mut node_parents: Vec<i32> = vec![-1; n];
        let mut node_visited: Vec<bool> = vec![false; n];

        let mapped_source_idx = tilepos_to_idx(source.x, source.y, length);
        let mut mapped_target_idx = tilepos_to_idx(target.x, target.y, length);
        let src = mapped_source_idx;
        let tgt = mapped_target_idx;

        node_visited.set(mapped_source_idx, true);
        let mut bfs_queue: VecDeque<usize> = VecDeque::new();
        bfs_queue.push_back(mapped_source_idx);

        let ghost mut seen: Set<int> = Set::empty().insert(src as int);
        let ghost mut done: Set<int> = Set::empty();
        let ghost mut dist: Map<int, int> = Map::empty().insert(src as int, 0);
        let ghost mut lv: int = 0;
        let ghost mut cur: int = -1;
        let ghost mut rounds: nat = 0;
        let ghost start = bfs_start(n as nat, src);
        let mut found = false;
        proof {
            lemma_int_range(0, n as int);
            assert(bfs_queue@ =~= seq![src]);
            lemma_search_start(adj, src, node_parents@);
            assert(node_visited@ =~= start.visited);
            assert(node_parents@ =~= start.parents);
        }

        while !found && bfs_queue.len() > 0
            invariant
                adj == self.adjacency(),
                adj.len() == n,
                n == graph_node_edges@.len(),
                graph_node_edges == &self.0,
                edges_in_range(adj),
                n <= i32::MAX + 1,
                src < n,
                tgt < n,
                mapped_target_idx == tgt,
                mapped_source_idx == src,
                node_visited@.len() == n,
                node_parents@.len() == n,
                set_int_range(0, n as int).finite(),
                set_int_range(0, n as int).len() == n,
                done.finite(),
                done.subset_of(set_int_range(0, n as int)),
                forall|v: int| 0 <= v < n ==> (node_visited@[v] <==> #[trigger] seen.contains(v)),
                search_state(adj, src as int, seen, done, dist, bfs_queue@, lv, cur),
                parent_links(adj, src as int, seen, dist, node_parents@),
                !found ==> cur == -1 && !done.contains(tgt as int),
                found ==> seen.contains(tgt as int),
                start == bfs_start(adj.len(), src),
                (BfsState { visited: node_visited@, parents: node_parents@, queue: bfs_queue@, found })
                    == bfs_rounds(adj, tgt, start, rounds),
                rounds == done.len() + if found { 1int } else { 0int },
            decreases n - done.len(), bfs_queue@.len(),
        {
            let ghost old_queue = bfs_queue@;
            let ghost before = BfsState { visited: node_visited@, parents: node_parents@, queue: bfs_queue@, found };
            let current_node_idx = match bfs_queue.pop_front() {
                Some(node) => node,
                None => {
                    proof {
                        assert(false);
                    }
                    0
                },
            };
            proof {
                assert(current_node_idx == old_queue[0]);
                assert(bfs_queue@ =~= old_queue.drop_first());
                lemma_take_front(adj, src as int, seen, done, dist, old_queue, lv);
                lv = dist[current_node_idx as int];
                cur = current_node_idx as int;
            }
            let ghost popped = BfsState { queue: bfs_queue@, ..before };
            if current_node_idx == mapped_target_idx {
                found = true;
                proof {
                    rounds = rounds + 1;
                }
            } else {
                let neighbors = &graph_node_edges[current_node_idx];
                let degree = neighbors.len();
                let mut j: usize = 0;
                while j < degree
                    invariant
                        adj == self.adjacency(),
                        adj.len() == n,
                        n == graph_node_edges@.len(),
                        graph_node_edges == &self.0,
                        neighbors@ == adj[cur],
                        current_node_idx == cur,
                        degree == adj[cur].len(),
                        0 <= cur < n,
                        edges_in_range(adj),
                        n <= i32::MAX + 1,
                        0 <= j <= degree,
                        node_visited@.len() == n,
                        node_parents@.len() == n,
                        forall|v: int| 0 <= v < n ==> (node_visited@[v] <==> #[trigger] seen.contains(v)),
                        search_state(adj, src as int, seen, done, dist, bfs_queue@, lv, cur),
                        parent_links(adj, src as int, seen, dist, node_parents@),
                        seen.contains(src as int),
                        seen.contains(cur),
                        dist[cur] == lv,
                        forall|k: int| 0 <= k < j ==> seen.contains(#[trigger] adj[cur][k] as int),
                        (BfsState { visited: node_visited@, parents: node_parents@, queue: bfs_queue@, found: false })
                            == bfs_scan(adj, popped, current_node_idx, j as nat),
                    decreases degree - j,
                {
                    let node_edge = neighbors[j];
                    proof {
                        assert(adj[cur][j as int] < n);
                        assert(node_edge == adj[cur][j as int]);
                        assert(adj[cur].contains(node_edge));
                    }
                    let ghost scanned = BfsState { visited: node_visited@, parents: node_parents@, queue: bfs_queue@, found: false };
                    if !node_visited[node_edge] {
                        let parent_idx = current_node_idx as i32;
                        proof {
                            assert(!seen.contains(node_edge as int));
                            lemma_discover(adj, src as int, seen, done, dist, bfs_queue@, lv, cur, node_edge);
                            lemma_link_parent(
                                adj,
                                src as int,
                                seen,
                                dist,
                                node_parents@,
                                lv,
                                cur,
                                parent_idx,
                                node_edge,
                            );
                        }
                        node_visited.set(node_edge, true);
                        node_parents.set(node_edge, parent_idx);
                        bfs_queue.push_back(node_edge);
                        proof {
                            seen = seen.insert(node_edge as int);
                            dist = dist.insert(node_edge as int, lv + 1);
                        }
                    }
                    proof {
                        assert(seen.contains(adj[cur][j as int] as int));
                        assert(bfs_scan(adj, popped, current_node_idx, (j + 1) as nat) == bfs_visit(
                            scanned,
                            current_node_idx,
                            node_edge,
                        ));
                        assert((BfsState { visited: node_visited@, parents: node_parents@, queue: bfs_queue@, found: false })
                            =~= bfs_visit(scanned, current_node_idx, node_edge));
                    }
                    j = j + 1;
                }
                proof {
                    lemma_finish_node(adj, src as int, seen, done, dist, bfs_queue@, lv, cur);
                    lemma_len_subset(done.insert(cur), set_int_range(0, n as int));
                    done = done.insert(cur);
                    cur = -1;
                    rounds = rounds + 1;
                }
            }
        }

        proof {
            lemma_len_subset(done, set_int_range(0, n as int));
            lemma_rounds_stay(adj, tgt, start, rounds, (n + 1 - rounds) as nat);
            assert(bfs_rounds(adj, tgt, start, (n + 1) as nat) == bfs_rounds(adj, tgt, start, rounds));
        }
        let ghost final_parents = node_parents@;
        if !node_visited[mapped_target_idx] {
            proof {
                assert(!found);
                assert(bfs_queue@.len() == 0);
                if reachable(adj, src, tgt) {
                    let route = choose|route: Seq<usize>|
                        #[trigger] is_walk(adj, route) && route[0] == src && route.last() == tgt;
                    lemma_escape(adj, src as int, seen, done, dist, bfs_queue@, lv, cur, route);
                    let j = choose|j: int|
                        0 <= j < route.len() && #[trigger] seen.contains(route[j] as int) && !done.contains(
                            route[j] as int,
                        ) && dist[route[j] as int] <= j;
                    reveal(search_state);
                    assert(bfs_queue@.contains(route[j]));
                }
            }
            return None;
        }

        let mut path: VecDeque<usize> = VecDeque::new();
        path.push_back(mapped_target_idx);
        proof {
            reveal(search_state);
            assert(seen.contains(tgt as int));
            assert(path@ =~= seq![tgt]);
            assert(path@.drop_first() =~= Seq::<usize>::empty());
            assert(bfs_trace(final_parents, src, tgt, n as nat) + path@.drop_first() =~= bfs_trace(
                final_parents,
                src,
                tgt,
                n as nat,
            ));
        }
        while mapped_source_idx != mapped_target_idx
            invariant
                node_parents@ == final_parents,
                path@.len() <= n,
                bfs_trace(final_parents, src, tgt, n as nat) == bfs_trace(
                    final_parents,
                    src,
                    mapped_target_idx,
                    (n - (path@.len() - 1)) as nat,
                ) + path@.drop_first(),
                adj == self.adjacency(),
                adj.len() == n,
                node_parents@.len() == n,
                src < n,
                mapped_source_idx == src,
                mapped_target_idx < n,
                seen.contains(mapped_target_idx as int),
                search_state(adj, src as int, seen, done, dist, bfs_queue@, lv, cur),
                parent_links(adj, src as int, seen, dist, node_parents@),
                is_walk(adj, path@),
                path@[0] == mapped_target_idx,
                path@.last() == tgt,
                forall|i: int| 0 <= i < path@.len() ==> #[trigger] dist[path@[i] as int] == dist[mapped_target_idx as int] + i,
                path@.len() == dist[tgt as int] - dist[mapped_target_idx as int] + 1,
            ensures
                mapped_source_idx == mapped_target_idx,
                bfs_trace(final_parents, src, tgt, n as nat) == bfs_trace(
                    final_parents,
                    src,
                    mapped_target_idx,
                    (n - (path@.len() - 1)) as nat,
                ) + path@.drop_first(),
                is_walk(adj, path@),
                path@[0] == mapped_target_idx,
                path@.last() == tgt,
                forall|i: int| 0 <= i < path@.len() ==> #[trigger] dist[path@[i] as int] == dist[mapped_target_idx as int] + i,
                path@.len() == dist[tgt as int] - dist[mapped_target_idx as int] + 1,
            decreases dist[mapped_target_idx as int],
        {
            let ghost old_path = path@;
            let ghost child = mapped_target_idx as int;
            proof {
                reveal(parent_links);
                reveal(search_state);
                assert(seen.contains(child) && child != src);
                assert(0 <= dist[node_parents@[child] as int]);
            }
            let node_parent = node_parents[mapped_target_idx];
            if node_parent == -1 {
                proof {
                    assert(false);
                }
                break;
            }
            mapped_target_idx = node_parent as usize;
            path.push_front(mapped_target_idx);
            proof {
                assert(adj[mapped_target_idx as int].contains(old_path[0]));
                assert(path@[0] == mapped_target_idx);
                assert(path@[1] == old_path[0]);
                assert forall|i: int| 0 <= i < path@.len() implies path@[i] < adj.len() by {
                    if i > 0 {
                        assert(path@[i] == old_path[i - 1]);
                    }
                }
                assert forall|i: int| 0 <= i < path@.len() - 1 implies adj[path@[i] as int].contains(
                    #[trigger] path@[i + 1],
                ) by {
                    if i > 0 {
                        assert(adj[old_path[i - 1] as int].contains(old_path[i - 1 + 1]));
                        assert(path@[i] == old_path[i - 1]);
                        assert(path@[i + 1] == old_path[i]);
                    }
                }
                assert forall|i: int| 0 <= i < path@.len() implies #[trigger] dist[path@[i] as int]
                    == dist[mapped_target_idx as int] + i by {
                    if i > 0 {
                        assert(path@[i] == old_path[i - 1]);
                        assert(dist[old_path[i - 1] as int] == dist[child] + (i - 1));
                    }
                }
                // the new route has distinct nodes, so it fits the graph
                assert forall|i: int, k: int| 0 <= i < k < path@.len() implies path@[i] != path@[k] by {
                    assert(dist[path@[i] as int] == dist[mapped_target_idx as int] + i);
                    assert(dist[path@[k] as int] == dist[mapped_target_idx as int] + k);
                }
                lemma_distinct_nodes_bound(path@, n as int);
                assert(path@.drop_first() =~= old_path);
                lemma_trace_back(final_parents, src, child as usize, mapped_target_idx, (n - (old_path.len() - 1)) as nat, old_path);
            }
        }
        proof {
            reveal(search_state);
            assert forall|i: int, k: int| 0 <= i < k < path@.len() implies path@[i] != path@[k] by {
                assert(dist[path@[i] as int] == dist[mapped_target_idx as int] + i);
                assert(dist[path@[k] as int] == dist[mapped_target_idx as int] + k);
            }
            assert(path@[0] == src);
            assert(bfs_trace(final_parents, src, src, (n - (path@.len() - 1)) as nat) == seq![src]);
            assert(seq![src] + path@.drop_first() =~= path@);
            assert(is_walk(adj, path@));
            assert(reachable(adj, src, tgt));
            assert(no_fewer_steps(adj, src as int, src as int, dist[src as int]));
            assert(is_walk(adj, seq![src]));
            assert(dist[src as int] == 0);
            assert(no_fewer_steps(adj, src as int, tgt as int, dist[tgt as int]));
        }

        Some(Path(path))
    }
}


/// Position `a` comes before position `b`: first by x, then by y.
pub open spec fn pos_lt(a: TilePos, b: TilePos) -> bool {
    a.x < b.x || (a.x == b.x && a.y < b.y)
}

/// Returns a collection of Tile Positions sorted and extracted
/// from Heighted Tile Positions: each position that some tile lies on,
/// once, ordered by x and then by y.
pub fn unique_tiles_from(tiles: &Vec<HeightedTilePos>) -> (unique_tiles: Vec<TilePos>)
    ensures
        forall|i: int, j: int|
            0 <= i < j < unique_tiles@.len() ==> pos_lt(unique_tiles@[i], unique_tiles@[j]),
        forall|p: TilePos|
            unique_tiles@.contains(p) <==> exists|i: int| 0 <= i < tiles@.len() && tiles@[i].xy == p,
{
    let mut unique_tiles: Vec<TilePos> = Vec::new();
    let n = tiles.len();
    let mut i: usize = 0;
    while i < n
        invariant
            n == tiles@.len(),
            0 <= i <= n,
            forall|a: int, b: int|
                0 <= a < b < unique_tiles@.len() ==> pos_lt(unique_tiles@[a], unique_tiles@[b]),
            forall|p: TilePos|
                unique_tiles@.contains(p) <==> exists|t: int| 0 <= t < i && tiles@[t].xy == p,
        decreases n - i,
    {
        let tile = tiles[i].xy;
        let mut pos: usize = 0;
        while pos < unique_tiles.len() && (unique_tiles[pos].x < tile.x || (unique_tiles[pos].x
            == tile.x && unique_tiles[pos].y < tile.y))
            invariant
                0 <= pos <= unique_tiles@.len(),
                forall|j: int| 0 <= j < pos ==> pos_lt(#[trigger] unique_tiles@[j], tile),
            decreases unique_tiles@.len() - pos,
        {
            pos = pos + 1;
        }
        let already = pos < unique_tiles.len() && unique_tiles[pos].x == tile.x
            && unique_tiles[pos].y == tile.y;
        let ghost old_tiles = unique_tiles@;
        if !already {
            unique_tiles.insert(pos, tile);
        }
        proof {
            if !already {
                assert forall|a: int, b: int|
                    0 <= a < b < unique_tiles@.len() implies pos_lt(
                    unique_tiles@[a],
                    unique_tiles@[b],
                ) by {
                    if b < pos {
                        assert(unique_tiles@[a] == old_tiles[a] && unique_tiles@[b] == old_tiles[b]);
                    } else if b == pos {
                        assert(unique_tiles@[a] == old_tiles[a]);
                    } else if a < pos {
                        assert(unique_tiles@[a] == old_tiles[a] && unique_tiles@[b] == old_tiles[b - 1]);
                    } else if a == pos {
                        assert(unique_tiles@[b] == old_tiles[b - 1]);
                        assert(pos_lt(tile, old_tiles[pos as int]));
                        if b - 1 > pos {
                            assert(pos_lt(old_tiles[pos as int], old_tiles[b - 1]));
                        }
                    } else {
                        assert(unique_tiles@[a] == old_tiles[a - 1] && unique_tiles@[b] == old_tiles[b - 1]);
                    }
                }
            }
            assert forall|p: TilePos| unique_tiles@.contains(p) <==> exists|t: int|
                0 <= t < i + 1 && tiles@[t].xy == p by {
                if unique_tiles@.contains(p) {
                    let w = choose|w: int| 0 <= w < unique_tiles@.len() && unique_tiles@[w] == p;
                    if !already && w == pos {
                        assert(tiles@[i as int].xy == p);
                    } else {
                        let w2 = if already || w < pos { w } else { w - 1 };
                        assert(old_tiles[w2] == p);
                        assert(old_tiles.contains(p));
                    }
                }
                if exists|t: int| 0 <= t < i + 1 && tiles@[t].xy == p {
                    let t = choose|t: int| 0 <= t < i + 1 && tiles@[t].xy == p;
                    if t == i {
                        if already {
                            assert(unique_tiles@[pos as int] == p);
                        } else {
                            assert(unique_tiles@[pos as int] == p);
                        }
                    } else {
                        assert(old_tiles.contains(p));
                        let w = choose|w: int| 0 <= w < old_tiles.len() && old_tiles[w] == p;
                        if already || w < pos {
                            assert(unique_tiles@[w] == p);
                        } else {
                            assert(unique_tiles@[w + 1] == p);
                        }
                    }
                }
            }
        }
        i = i + 1;
    }
    unique_tiles
}


/// A route from `source` to `target` through the graph that visits no node twice.
pub open spec fn route_between(adj: Seq<Seq<usize>>, route: Seq<usize>, source: int, target: int) -> bool {
    &&& is_walk(adj, route)
    &&& route[0] == source
    &&& route.last() == target
    &&& no_repeats(route)
}

/// A route from `source` to `target` through the graph that visits no node
/// twice and that no walk between the two beats in number of steps.
pub open spec fn shortest_route(adj: Seq<Seq<usize>>, route: Seq<usize>, source: int, target: int) -> bool {
    &&& route_between(adj, route, source, target)
    &&& no_fewer_steps(adj, source, target, route.len() - 1)
}

/// Every neighbour a tile of the grid lists is a tile of the grid.
#[verifier::spinoff_prover]
#[verifier::rlimit(40)]
proof fn lemma_grid_neighbors_in_range(tiles: Seq<HeightedTilePos>, kind: GraphType, x: int, y: int)
    requires
        graph_fits(tiles),
        0 <= x < length_of(tiles),
        0 <= y < length_of(tiles),
    ensures
        forall|k: int|
            0 <= k < grid_neighbors(tiles, kind, x, y).len() ==> #[trigger] grid_neighbors(
                tiles,
                kind,
                x,
                y,
            )[k] < length_of(tiles) * length_of(tiles),
{
    let len = length_of(tiles);
    let n = grid_neighbors(tiles, kind, x, y);
    lemma_grid_forward(len, x, y);
    lemma_grid_back_any(len, x, y);
    if x > 0 {
        lemma_grid_index_bound(x - 1, y, len);
    }
    if y > 0 {
        lemma_grid_index_bound(x, y - 1, len);
    }
    if y + 1 < len {
        lemma_grid_index_bound(x, y + 1, len);
    }
    if x + 1 < len {
        lemma_grid_index_bound(x + 1, y, len);
    }
    let h = column_height(tiles, x, y);
    let a = opt_node(x > 0 && links(kind, h, column_height(tiles, x - 1, y)), grid_index(x - 1, y, len));
    let b = opt_node(y > 0 && links(kind, h, column_height(tiles, x, y - 1)), grid_index(x, y - 1, len));
    let c = opt_node(
        y + 1 < len && grid_index(x, y + 1, len) < len * len && links(kind, column_height(tiles, x, y + 1), h),
        grid_index(x, y + 1, len),
    );
    let d = opt_node(
        x + 1 < len && grid_index(x + 1, y, len) < len * len && links(kind, column_height(tiles, x + 1, y), h),
        grid_index(x + 1, y, len),
    );
    assert(n == a + b + c + d);
    assert forall|k: int| 0 <= k < n.len() implies #[trigger] n[k] < len * len by {
        let v = n[k];
        assert(n.contains(v));
        lemma_concat_contains(a + b + c, d, v);
        lemma_concat_contains(a + b, c, v);
        lemma_concat_contains(a, b, v);
        if a.contains(v) {
            assert(a[0] == v);
        } else if b.contains(v) {
            assert(b[0] == v);
        } else if c.contains(v) {
            assert(c[0] == v);
        } else {
            assert(d[0] == v);
        }
    }
}

/// The largest x coordinate, the y bound and the largest z coordinate of
/// the tiles, as `dimensions_from` derives them before adding one.
fn tile_maxima(heighted_tiles: &Vec<HeightedTilePos>) -> (maxima: (u32, u32, u32))
    ensures
        maxima.0 == max_x_of(heighted_tiles@),
        maxima.1 == y_bound_of(heighted_tiles@),
        maxima.2 == max_z_of(heighted_tiles@),
{
    let ghost tiles = heighted_tiles@;
    let mut max_x: u32 = 0;
    let mut max_y: u32 = 0;
    let mut max_z: u32 = 0;
    let n = heighted_tiles.len();
    let mut i: usize = 0;
    while i < n
        invariant
            n == tiles.len(),
            tiles == heighted_tiles@,
            0 <= i <= n,
            max_x == max_x_of(tiles.subrange(0, i as int)),
            max_z == max_z_of(tiles.subrange(0, i as int)),
            max_y == y_bound_of(tiles.subrange(0, i as int)),
        decreases n - i,
    {
        let x = heighted_tiles[i].x();
        let y = heighted_tiles[i].y();
        let z = heighted_tiles[i].z();
        max_x = if max_x >= x { max_x } else { x };
        max_y = if max_x >= y { max_x } else { y };
        max_z = if max_z >= z { max_z } else { z };
        proof {
            let next = tiles.subrange(0, i + 1);
            assert(next.drop_last() =~= tiles.subrange(0, i as int));
            assert(next.last() == tiles[i as int]);
        }
        i = i + 1;
    }
    proof {
        assert(tiles.subrange(0, n as int) =~= tiles);
    }
    (max_x, max_y, max_z)
}

/// Whether the tiles form a full square grid small enough for a graph:
/// the inputs `UndirectedGraph::from_tiles` accepts.
pub fn graph_fits_tiles(tiles: &Vec<HeightedTilePos>) -> (fits: bool)
    ensures
        fits == (graph_fits(tiles@) && length_of(tiles@) * length_of(tiles@) <= i32::MAX + 1),
{
    let ghost t = tiles@;
    let (max_x, y_bound, max_z) = tile_maxima(tiles);
    if max_x == u32::MAX || y_bound == u32::MAX || max_z == u32::MAX {
        return false;
    }
    let len: u64 = max_x as u64 + 1;
    proof {
        assert(len * len <= u64::MAX) by (nonlinear_arith)
            requires
                1 <= len <= u32::MAX,
        ;
    }
    if len * len > 0x8000_0000u64 {
        proof {
            assert(length_of(t) == len);
        }
        return false;
    }
    proof {
        assert(length_of(t) == len);
        assert(len * len <= u32::MAX);
    }
    let n = tiles.len();
    // every tile lies inside a row of the grid
    let mut i: usize = 0;
    while i < n
        invariant
            t == tiles@,
            n == t.len(),
            0 <= i <= n,
            len == length_of(t),
            forall|k: int| 0 <= k < i ==> t[k].xy.y < len,
        decreases n - i,
    {
        if tiles[i].y() as u64 >= len {
            return false;
        }
        i = i + 1;
    }
    proof {
        lemma_max_x_bounds(t);
    }
    let cells = (len * len) as usize;
    let mut seen: Vec<bool> = vec![false; cells];
    let mut k: usize = 0;
    while k < n
        invariant
            t == tiles@,
            n == t.len(),
            0 <= k <= n,
            len == length_of(t),
            len * len <= u32::MAX,
            cells == len * len,
            seen@.len() == cells,
            forall|j: int| 0 <= j < n ==> t[j].xy.y < len,
            forall|j: int| 0 <= j < t.len() ==> t[j].xy.x <= max_x_of(t),
            forall|c: int|
                0 <= c < cells ==> (#[trigger] seen@[c] <==> exists|j: int|
                    0 <= j < k && grid_index(t[j].xy.x as int, t[j].xy.y as int, len as int) == c),
        decreases n - k,
    {
        let x = tiles[k].x() as u64;
        let y = tiles[k].y() as u64;
        proof {
            assert(x < len);
            assert(0 <= len * x + y < len * len) by (nonlinear_arith)
                requires
                    x < len,
                    y < len,
            ;
        }
        let c = (len * x + y) as usize;
        seen.set(c, true);
        proof {
            assert forall|d: int| 0 <= d < cells implies (#[trigger] seen@[d] <==> exists|j: int|
                0 <= j < k + 1 && grid_index(t[j].xy.x as int, t[j].xy.y as int, len as int) == d) by {
                if d == c {
                    assert(grid_index(t[k as int].xy.x as int, t[k as int].xy.y as int, len as int) == d);
                }
            }
        }
        k = k + 1;
    }
    let mut c: usize = 0;
    while c < cells
        invariant
            0 <= c <= cells,
            len > 0,
            cells == len * len,
            seen@.len() == cells,
            t == tiles@,
            n == t.len(),
            len == length_of(t),
            forall|d: int|
                0 <= d < cells ==> (#[trigger] seen@[d] <==> exists|j: int|
                    0 <= j < n && grid_index(t[j].xy.x as int, t[j].xy.y as int, len as int) == d),
            forall|d: int| 0 <= d < c ==> #[trigger] seen@[d],
        decreases cells - c,
    {
        if !seen[c] {
            proof {
                let ci = c as int;
                let li = len as int;
                let x = ci / li;
                let y = ci % li;
                assert(0 <= x < li && 0 <= y < li && grid_index(x, y, li) == ci) by (nonlinear_arith)
                    requires
                        li > 0,
                        0 <= ci < li * li,
                        x == ci / li,
                        y == ci % li,
                ;
                if has_column(t, x, y) {
                    let j = choose|j: int| 0 <= j < t.len() && t[j].xy.x == x && t[j].xy.y == y;
                    assert(grid_index(t[j].xy.x as int, t[j].xy.y as int, len as int) == ci);
                    assert(seen@[ci]);
                }
                assert(!full_square_grid(t));
            }
            return false;
        }
        c = c + 1;
    }
    proof {
        assert forall|x: int, y: int| 0 <= x < len && 0 <= y < len implies #[trigger] has_column(t, x, y) by {
            lemma_grid_index_bound(x, y, len as int);
            let g = grid_index(x, y, len as int);
            assert(seen@[g]);
            let j = choose|j: int| 0 <= j < n && grid_index(t[j].xy.x as int, t[j].xy.y as int, len as int) == g;
            lemma_grid_index_injective(t[j].xy.x as int, t[j].xy.y as int, x, y, len as int);
        }
    }
    true
}

/// A graph over the tiles of a map for one kind of traversal. (The world
/// positions of its nodes are kept beside it by the game.)
pub struct UndirectedGraph {
    tile_type: GraphType,
    length: u32,
    edges: NodeEdges,
}

impl UndirectedGraph {
    pub closed spec fn spec_type(&self) -> GraphType {
        self.tile_type
    }

    /// The number of tiles per row of the grid the graph was built from.
    pub closed spec fn spec_length(&self) -> u32 {
        self.length
    }

    pub closed spec fn spec_adjacency(&self) -> Seq<Seq<usize>> {
        self.edges.adjacency()
    }

    /// The graph covers a square grid, its edges stay inside it, and its
    /// node indices fit the parent links of the search.
    pub open spec fn wf(&self) -> bool {
        &&& edges_in_range(self.spec_adjacency())
        &&& self.spec_adjacency().len() == self.spec_length() * self.spec_length()
        &&& self.spec_adjacency().len() <= i32::MAX + 1
    }

    /// Converts a Tile map with layers into an Undirected Graph depending on
    /// the type of Tiles being considered.
    pub fn from_tiles(tile_type: GraphType, tiles: Vec<HeightedTilePos>) -> (graph: UndirectedGraph)
        requires
            graph_fits(tiles@),
            length_of(tiles@) * length_of(tiles@) <= i32::MAX + 1,
        ensures
            graph.wf(),
            graph.spec_type() == tile_type,
            graph.spec_length() == length_of(tiles@),
            forall|x: int, y: int|
                0 <= x < length_of(tiles@) && 0 <= y < length_of(tiles@)
                    ==> #[trigger] graph.spec_adjacency()[grid_index(x, y, length_of(tiles@))]
                    == grid_neighbors(tiles@, tile_type, x, y),
    {
        let ghost t = tiles@;
        let (length, _width, _height) = dimensions_from(&tiles);
        let edges = match tile_type {
            GraphType::Ground => NodeEdges::from_ground_tiles(tiles),
            GraphType::Air => NodeEdges::from_air_tiles(tiles),
            GraphType::Water => NodeEdges::from_water_tiles(tiles),
        };
        let graph = UndirectedGraph { tile_type, length, edges };
        proof {
            let len = length as int;
            let adj = graph.spec_adjacency();
            assert forall|i: int, k: int| 0 <= i < adj.len() && 0 <= k < adj[i].len() implies adj[i][k]
                < adj.len() by {
                let x = i / len;
                let y = i % len;
                assert(0 <= x < len && 0 <= y < len && grid_index(x, y, len) == i) by (nonlinear_arith)
                    requires
                        len > 0,
                        0 <= i < len * len,
                        x == i / len,
                        y == i % len,
                ;
                lemma_grid_neighbors_in_range(t, tile_type, x, y);
                assert(adj[grid_index(x, y, len)] == grid_neighbors(t, tile_type, x, y));
            }
        }
        graph
    }

    /// Returns a Shortest Path for some start and destination
    /// Tile Positions.
    pub fn shortest_path(&self, start: TilePos, end: TilePos) -> (path: Option<Path>)
        requires
            self.wf(),
            grid_index(start.x as int, start.y as int, self.spec_length() as int)
                < self.spec_adjacency().len(),
            grid_index(end.x as int, end.y as int, self.spec_length() as int)
                < self.spec_adjacency().len(),
        ensures
            path is Some <==> reachable(
                self.spec_adjacency(),
                grid_index(start.x as int, start.y as int, self.spec_length() as int) as usize,
                grid_index(end.x as int, end.y as int, self.spec_length() as int) as usize,
            ),
            path matches Some(p) ==> shortest_route(
                self.spec_adjacency(),
                p.0@,
                grid_index(start.x as int, start.y as int, self.spec_length() as int),
                grid_index(end.x as int, end.y as int, self.spec_length() as int),
            ),
            route_of(path) == graph_route(self, start, end),
    {
        self.edges.shortest_path(start, end, self.length)
    }

    /// Whether the graph has a node for the tile.
    pub fn contains_tile(&self, pos: TilePos) -> (contains: bool)
        ensures
            contains == (grid_index(pos.x as int, pos.y as int, self.spec_length() as int)
                < self.spec_adjacency().len()),
    {
        let length = self.length as u64;
        let x = pos.x as u64;
        proof {
            assert(length * x <= (u32::MAX as int) * (u32::MAX as int)) by (nonlinear_arith)
                requires
                    length <= u32::MAX,
                    x <= u32::MAX,
            ;
        }
        let node = length * x + pos.y as u64;
        node < self.edges.0.len() as u64
    }

    /// Returns what type of Nodes are being held in
    /// the Undirected Graph.
    pub fn get_node_type(&self) -> (kind: GraphType)
        ensures
            kind == self.spec_type(),
    {
        self.tile_type
    }

    /// Returns a reference to the edges recorded in the
    /// undirected graph.
    pub fn edges(&self) -> (edges: &NodeEdges)
        ensures
            edges.adjacency() == self.spec_adjacency(),
    {
        &self.edges
    }

    /// The number of tiles per row of the grid the graph was built from.
    pub fn length(&self) -> (length: u32)
        ensures
            length == self.spec_length(),
    {
        self.length
    }
}

/// The direction an entity faces on the isometric map.
#[derive(Debug, PartialEq, Eq, Clone, Copy, Structural)]
pub enum Direction {
    TopLeft,
    TopRight,
    BottomLeft,
    BottomRight,
}

/// The direction an entity faces when heading for a target, from whether
/// the target lies towards positive x and towards positive y (the game
/// compares the world positions and calls this only when they differ).
pub fn direction_for_signs(x_positive: bool, y_positive: bool) -> (direction: Direction)
    ensures
        direction == match (x_positive, y_positive) {
            (false, false) => Direction::BottomLeft,
            (true, false) => Direction::BottomRight,
            (false, true) => Direction::TopLeft,
            (true, true) => Direction::TopRight,
        },
{
    match (x_positive, y_positive) {
        (false, false) => Direction::BottomLeft,
        (true, false) => Direction::BottomRight,
        (false, true) => Direction::TopLeft,
        (true, true) => Direction::TopRight,
    }
}

/// The graph an entity travels on: the ground for walkers, the air for
/// fliers, and the water for everyone else.
pub fn graph_type_for(entity_type: crate::entities::GameEntityType) -> (kind: GraphType)
    ensures
        kind == match entity_type {
            crate::entities::GameEntityType::Walk => GraphType::Ground,
            crate::entities::GameEntityType::Fly => GraphType::Air,
            _ => GraphType::Water,
        },
{
    match entity_type {
        crate::entities::GameEntityType::Walk => GraphType::Ground,
        crate::entities::GameEntityType::Fly => GraphType::Air,
        _ => GraphType::Water,
    }
}

/// The area of a map size (tiles along x times tiles along y).
pub open spec fn area(size: (u32, u32)) -> int {
    size.0 * size.1
}

/// Picks the largest of the map sizes by area; of several equally large the
/// last one wins. None when there are no sizes.
pub fn largest_world_size(sizes: &Vec<(u32, u32)>) -> (largest: Option<(u32, u32)>)
    requires
        forall|i: int| 0 <= i < sizes@.len() ==> area(#[trigger] sizes@[i]) <= u32::MAX,
    ensures
        largest is None <==> sizes@.len() == 0,
        largest matches Some(size) ==> {
            &&& exists|i: int|
                0 <= i < sizes@.len() && sizes@[i] == size && forall|j: int|
                    i < j < sizes@.len() ==> area(#[trigger] sizes@[j]) < area(size)
            &&& forall|j: int| 0 <= j < sizes@.len() ==> area(#[trigger] sizes@[j]) <= area(size)
        },
{
    if sizes.len() == 0 {
        return None;
    }
    let mut best = sizes[0];
    let ghost mut best_idx: int = 0;
    let mut i: usize = 1;
    while i < sizes.len()
        invariant
            1 <= i <= sizes@.len(),
            forall|k: int| 0 <= k < sizes@.len() ==> area(#[trigger] sizes@[k]) <= u32::MAX,
            0 <= best_idx < i,
            sizes@[best_idx] == best,
            forall|j: int| best_idx < j < i ==> area(#[trigger] sizes@[j]) < area(best),
            forall|j: int| 0 <= j < i ==> area(#[trigger] sizes@[j]) <= area(best),
        decreases sizes@.len() - i,
    {
        let candidate = sizes[i];
        proof {
            assert(area(sizes@[i as int]) <= u32::MAX);
            assert(area(sizes@[best_idx]) <= u32::MAX);
        }
        let candidate_area = candidate.0 * candidate.1;
        let best_area = best.0 * best.1;
        if candidate_area >= best_area {
            best = candidate;
            proof {
                best_idx = i as int;
            }
        }
        i = i + 1;
    }
    Some(best)
}

/// Takes the next waypoint off an entity's path when the entity has no
/// target yet: the grid index to head for and the tile it stands for, in a
/// world `world_height` tiles high. Leaves the path alone and returns None
/// while the entity still travels to a target or has nowhere to go.
pub fn update_movement_target(path: &mut Path, has_target: bool, world_height: u32) -> (waypoint: Option<(usize, TilePos)>)
    requires
        world_height > 0,
    ensures
        (has_target || old(path).0@.len() == 0) ==> waypoint is None && final(path).0@ == old(path).0@,
        (!has_target && old(path).0@.len() > 0) ==> {
            &&& final(path).0@ == old(path).0@.drop_first()
            &&& waypoint == Some((
                old(path).0@[0],
                TilePos {
                    x: (old(path).0@[0] / (world_height as usize)) as u32,
                    y: (old(path).0@[0] % (world_height as usize)) as u32,
                },
            ))
        },
{
    if has_target || path.0.len() == 0 {
        return None;
    }
    let new_target = match path.0.pop_front() {
        Some(node) => node,
        None => {
            proof {
                assert(false);
            }
            0
        },
    };
    proof {
        assert(path.0@ =~= old(path).0@.drop_first());
    }
    let target_tile_pos = idx_to_tilepos(new_target, world_height);
    Some((new_target, target_tile_pos))
}

/// Some tile lies at position `p`.
pub open spec fn has_position(tiles: Seq<HeightedTilePos>, p: TilePos) -> bool {
    exists|i: int| 0 <= i < tiles.len() && tiles[i].xy == p
}

/// Some entry of `layers` is for position `p`.
pub open spec fn lists_position(layers: Seq<(TilePos, usize)>, p: TilePos) -> bool {
    exists|i: int| 0 <= i < layers.len() && layers[i].0 == p
}

/// For each tile position of the map, in the order of `unique_tiles_from`,
/// the layer whose transform places it: the height of the ground there.
pub fn layer_per_tile(heighted_tiles: &Vec<HeightedTilePos>) -> (layers: Vec<(TilePos, usize)>)
    requires
        height_map_fits(heighted_tiles@),
    ensures
        forall|i: int, j: int| 0 <= i < j < layers@.len() ==> pos_lt(layers@[i].0, layers@[j].0),
        forall|p: TilePos| #[trigger] lists_position(layers@, p) <==> has_position(heighted_tiles@, p),
        rows_within_length(heighted_tiles@) ==> forall|i: int|
            0 <= i < layers@.len() ==> #[trigger] layers@[i].1 == column_height(
                heighted_tiles@,
                layers@[i].0.x as int,
                layers@[i].0.y as int,
            ),
{
    let ghost t = heighted_tiles@;
    let tile_height_map = height_map_from(heighted_tiles);
    let unique_tiles = unique_tiles_from(heighted_tiles);
    let (length, _width, _height) = dimensions_from(heighted_tiles);
    let mut layers: Vec<(TilePos, usize)> = Vec::new();
    let n = unique_tiles.len();
    let mut i: usize = 0;
    proof {
        lemma_max_x_bounds(t);
        if rows_within_length(t) && t.len() > 0 {
            assert(t.last().xy.y < length_of(t));
        }
    }
    while i < n
        invariant
            t == heighted_tiles@,
            height_map_fits(t),
            n == unique_tiles@.len(),
            length == length_of(t),
            tile_height_map@.len() == length_of(t) * width_of(t),
            rows_within_length(t) ==> width_of(t) == length_of(t),
            forall|k: int| 0 <= k < t.len() ==> t[k].xy.x <= max_x_of(t),
            rows_within_length(t) ==> forall|x: int, y: int|
                0 <= x < length_of(t) && 0 <= y < length_of(t) ==> #[trigger] tile_height_map@[grid_index(
                    x,
                    y,
                    length_of(t),
                )] == column_height(t, x, y),
            forall|a: int, b: int| 0 <= a < b < unique_tiles@.len() ==> pos_lt(unique_tiles@[a], unique_tiles@[b]),
            forall|p: TilePos|
                unique_tiles@.contains(p) <==> exists|k: int| 0 <= k < t.len() && t[k].xy == p,
            0 <= i <= n,
            layers@.len() == i,
            forall|k: int| 0 <= k < i ==> #[trigger] layers@[k].0 == unique_tiles@[k],
            rows_within_length(t) ==> forall|k: int|
                0 <= k < i ==> #[trigger] layers@[k].1 == column_height(
                    t,
                    layers@[k].0.x as int,
                    layers@[k].0.y as int,
                ),
        decreases n - i,
    {
        let tile = unique_tiles[i];
        proof {
            assert(unique_tiles@.contains(tile));
            let k = choose|k: int| 0 <= k < t.len() && t[k].xy == tile;
            assert(t[k].xy.x <= max_x_of(t));
        }
        let tile_idx = tilepos_to_idx(tile.x, tile.y, length);
        let tile_height = tile_height_map[tile_idx];
        layers.push((tile, tile_height));
        proof {
            if rows_within_length(t) {
                let k = choose|k: int| 0 <= k < t.len() && t[k].xy == tile;
                assert(tile_height_map@[grid_index(tile.x as int, tile.y as int, length_of(t))]
                    == column_height(t, tile.x as int, tile.y as int));
            }
        }
        i = i + 1;
    }
    proof {
        assert forall|p: TilePos| #[trigger] lists_position(layers@, p) <==> has_position(t, p) by {
            if exists|i: int| 0 <= i < layers@.len() && layers@[i].0 == p {
                let i = choose|i: int| 0 <= i < layers@.len() && layers@[i].0 == p;
                assert(unique_tiles@[i] == p);
                assert(unique_tiles@.contains(p));
            }
            if exists|k: int| 0 <= k < t.len() && t[k].xy == p {
                assert(unique_tiles@.contains(p));
                let i = choose|i: int| 0 <= i < unique_tiles@.len() && unique_tiles@[i] == p;
                assert(layers@[i].0 == p);
            }
        }
        assert forall|a: int, b: int| 0 <= a < b < layers@.len() implies pos_lt(layers@[a].0, layers@[b].0) by {
            assert(layers@[a].0 == unique_tiles@[a]);
            assert(layers@[b].0 == unique_tiles@[b]);
        }
    }
    layers
}


/// The tiles an entity was asked to go to, oldest request first.
pub struct DestinationQueue(VecDeque<TilePos>);

impl DestinationQueue {
    /// The requested destinations, oldest first.
    pub closed spec fn pending(&self) -> Seq<TilePos> {
        self.0@
    }

    pub fn new() -> (queue: DestinationQueue)
        ensures
            queue.pending() == Seq::<TilePos>::empty(),
    {
        DestinationQueue(VecDeque::new())
    }

    /// Adds a requested destination behind those already waiting.
    pub fn push_back(&mut self, destination: TilePos)
        ensures
            final(self).pending() == old(self).pending().push(destination),
    {
        self.0.push_back(destination);
    }

    /// Takes the oldest requested destination, if any.
    pub fn pop_front(&mut self) -> (destination: Option<TilePos>)
        ensures
            old(self).pending().len() == 0 ==> destination is None && final(self).pending()
                == old(self).pending(),
            old(self).pending().len() > 0 ==> destination == Some(old(self).pending()[0])
                && final(self).pending() == old(self).pending().drop_first(),
    {
        let destination = self.0.pop_front();
        proof {
            if old(self).pending().len() > 0 {
                assert(self.0@ =~= old(self).pending().drop_first());
            }
        }
        destination
    }

    pub fn is_empty(&self) -> (empty: bool)
        ensures
            empty == (self.pending().len() == 0),
    {
        self.0.len() == 0
    }

    pub fn len(&self) -> (len: usize)
        ensures
            len == self.pending().len(),
    {
        self.0.len()
    }

    /// The oldest requested destination, if any.
    pub fn front(&self) -> (destination: Option<TilePos>)
        ensures
            self.pending().len() == 0 ==> destination is None,
            self.pending().len() > 0 ==> destination == Some(self.pending()[0]),
    {
        if self.0.len() == 0 {
            None
        } else {
            Some(self.0[0])
        }
    }
}

/// The tile an entity first appeared on, where it returns to.
#[derive(Debug, Clone, Copy, PartialEq, Eq, Structural)]
pub struct SpawnPoint(pub TilePos);

/// The grid node of a position lies inside the graph.
pub open spec fn in_graph(graph: &UndirectedGraph, pos: TilePos) -> bool {
    grid_index(pos.x as int, pos.y as int, graph.spec_length() as int) < graph.spec_adjacency().len()
}

/// The route the graph's breadth-first search gives between two positions,
/// if any.
pub open spec fn graph_route(graph: &UndirectedGraph, from: TilePos, to: TilePos) -> Option<Seq<usize>> {
    bfs_route(graph.spec_adjacency(), node_of(graph, from) as usize, node_of(graph, to) as usize)
}

/// The grid node a position stands for in the graph.
pub open spec fn node_of(graph: &UndirectedGraph, pos: TilePos) -> int {
    grid_index(pos.x as int, pos.y as int, graph.spec_length() as int)
}

} // verus!

use vstd::prelude::*;

use crate::map::tiled::LayerTileData;
use crate::map::tmx::TmxMap;

verus! {

/// The size of a tile map, counted in tiles.
#[derive(Debug, PartialEq, Eq, Clone, Copy, Structural)]
pub struct MapGridDimensions {
    width: usize,
    height: usize,
    depth: usize,
}

impl MapGridDimensions {
    pub closed spec fn spec_width(&self) -> usize {
        self.width
    }

    pub closed spec fn spec_height(&self) -> usize {
        self.height
    }

    pub closed spec fn spec_depth(&self) -> usize {
        self.depth
    }

    /// A map of a single layer.
    pub fn new(num_tiles_width: usize, num_tiles_height: usize) -> (dims: MapGridDimensions)
        ensures
            dims.spec_width() == num_tiles_width,
            dims.spec_height() == num_tiles_height,
            dims.spec_depth() == 1,
    {
        Self { width: num_tiles_width, height: num_tiles_height, depth: 1 }
    }

    pub fn new_3d(width: usize, height: usize, depth: usize) -> (dims: MapGridDimensions)
        ensures
            dims.spec_width() == width,
            dims.spec_height() == height,
            dims.spec_depth() == depth,
    {
        Self { width, height, depth }
    }

    /// Returns the width in tiles.
    pub fn width(&self) -> (width: usize)
        ensures
            width == self.spec_width(),
    {
        self.width
    }

    /// Returns the height in tiles.
    pub fn height(&self) -> (height: usize)
        ensures
            height == self.spec_height(),
    {
        self.height
    }
}

/// The size of a tile, in pixels.
#[derive(Debug, PartialEq, Eq, Clone, Copy, Structural)]
pub struct TileDimensions {
    width: usize,
    height: usize,
}

impl TileDimensions {
    pub closed spec fn spec_width(&self) -> usize {
        self.width
    }

    pub closed spec fn spec_height(&self) -> usize {
        self.height
    }

    pub fn new(width: usize, height: usize) -> (dims: TileDimensions)
        ensures
            dims.spec_width() == width,
            dims.spec_height() == height,
    {
        Self { width, height }
    }

    /// Returns the width in pixels.
    pub fn width(&self) -> (width: usize)
        ensures
            width == self.spec_width(),
    {
        self.width
    }

    /// Returns the height in pixels.
    pub fn height(&self) -> (height: usize)
        ensures
            height == self.spec_height(),
    {
        self.height
    }
}

/// How far a tile's image is drawn away from its place, in pixels.
#[derive(Debug, PartialEq, Eq, Clone, Copy, Structural)]
pub struct TileDrawingOffset {
    x: isize,
    y: isize,
}

impl TileDrawingOffset {
    pub closed spec fn spec_x(&self) -> isize {
        self.x
    }

    pub closed spec fn spec_y(&self) -> isize {
        self.y
    }

    pub fn new(x: isize, y: isize) -> (offset: TileDrawingOffset)
        ensures
            offset.spec_x() == x,
            offset.spec_y() == y,
    {
        Self { x, y }
    }

    /// Returns the horizontal offset (x) in pixels.
    pub fn x(&self) -> (x: isize)
        ensures
            x == self.spec_x(),
    {
        self.x
    }

    /// Returns the vertical offset (y) in pixels.
    pub fn y(&self) -> (y: isize)
        ensures
            y == self.spec_y(),
    {
        self.y
    }
}

/// The place of a tile in the map: column x, row y and layer z.
#[derive(Debug, PartialEq, Eq, Clone, Copy, Structural)]
pub struct TileGridCoordinates {
    x: usize,
    y: usize,
    z: usize,
}

impl TileGridCoordinates {
    pub closed spec fn spec_x(&self) -> usize {
        self.x
    }

    pub closed spec fn spec_y(&self) -> usize {
        self.y
    }

    pub closed spec fn spec_z(&self) -> usize {
        self.z
    }

    /// A place on the bottom layer.
    pub fn new(x: usize, y: usize) -> (coords: TileGridCoordinates)
        ensures
            coords.spec_x() == x,
            coords.spec_y() == y,
            coords.spec_z() == 0,
    {
        Self { x, y, z: 0 }
    }

    pub fn new_3d(x: usize, y: usize, z: usize) -> (coords: TileGridCoordinates)
        ensures
            coords.spec_x() == x,
            coords.spec_y() == y,
            coords.spec_z() == z,
    {
        Self { x, y, z }
    }

    /// Returns the x grid coordinate.
    pub fn x(&self) -> (x: usize)
        ensures
            x == self.spec_x(),
    {
        self.x
    }

    /// Returns the y grid coordinate.
    pub fn y(&self) -> (y: usize)
        ensures
            y == self.spec_y(),
    {
        self.y
    }

    /// Returns the z grid coordinate.
    pub fn z(&self) -> (z: usize)
        ensures
            z == self.spec_z(),
    {
        self.z
    }
}

/// Two places are the same exactly when their columns, rows and layers are.
pub proof fn lemma_coordinates_equal(a: TileGridCoordinates, b: TileGridCoordinates)
    ensures
        (a == b) <==> (a.spec_x() == b.spec_x() && a.spec_y() == b.spec_y() && a.spec_z()
            == b.spec_z()),
{
}

/// The rows and columns of sprites that a spritesheet holds.
#[derive(Debug, PartialEq, Eq, Clone, Copy, Structural)]
pub struct SpriteSheetDimensions {
    num_rows: usize,
    num_columns: usize,
}

impl SpriteSheetDimensions {
    pub closed spec fn spec_rows(&self) -> usize {
        self.num_rows
    }

    pub closed spec fn spec_columns(&self) -> usize {
        self.num_columns
    }

    pub fn new(num_rows: usize, num_columns: usize) -> (dims: SpriteSheetDimensions)
        ensures
            dims.spec_rows() == num_rows,
            dims.spec_columns() == num_columns,
    {
        Self { num_rows, num_columns }
    }

    /// Returns the number of rows found in the recorded spritesheet.
    pub fn rows(&self) -> (rows: usize)
        ensures
            rows == self.spec_rows(),
    {
        self.num_rows
    }

    /// Returns the number of columns found in the recorded spritesheet.
    pub fn columns(&self) -> (columns: usize)
        ensures
            columns == self.spec_columns(),
    {
        self.num_columns
    }

    /// The rows and columns of tiles that fit in an image of a tileset,
    /// whose sizes are given in pixels.
    pub fn from_image(image_width: i32, image_height: i32, tile_width: u32, tile_height: u32) -> (dims:
        SpriteSheetDimensions)
        requires
            tile_width > 0,
            tile_height > 0,
        ensures
            dims.spec_rows() == (image_height as u32) / tile_height,
            dims.spec_columns() == (image_width as u32) / tile_width,
    {
        let num_rows = ((image_height as u32) / tile_height) as usize;
        let num_columns = ((image_width as u32) / tile_width) as usize;
        SpriteSheetDimensions::new(num_rows, num_columns)
    }
}

/// The pixel position at which a tile of the map is drawn, before any
/// flipping: the drawing offset of its tileset plus the offset of its layer
/// plus its place in the grid times the tile size.
pub fn tile_pixel_position(
    drawing_offsets: &TileDrawingOffset,
    vertical_layer_offset: isize,
    tile_width: usize,
    tile_height: usize,
    grid_pos: &TileGridCoordinates,
) -> (px: (isize, isize, isize))
    requires
        tile_width * grid_pos.spec_x() <= isize::MAX,
        tile_height * grid_pos.spec_y() <= isize::MAX,
        grid_pos.spec_z() <= isize::MAX,
        isize::MIN <= drawing_offsets.spec_x() + tile_width * grid_pos.spec_x() <= isize::MAX,
        isize::MIN <= drawing_offsets.spec_y() + vertical_layer_offset <= isize::MAX,
        isize::MIN <= drawing_offsets.spec_y() + vertical_layer_offset + tile_height
            * grid_pos.spec_y() <= isize::MAX,
    ensures
        px.0 == drawing_offsets.spec_x() + tile_width * grid_pos.spec_x(),
        px.1 == drawing_offsets.spec_y() + vertical_layer_offset + tile_height * grid_pos.spec_y(),
        px.2 == grid_pos.spec_z(),
{
    let x = grid_pos.x();
    let y = grid_pos.y();
    let z = grid_pos.z();
    let across = tile_width * x;
    let down = tile_height * y;
    let tile_px_x = drawing_offsets.x() + across as isize;
    let tile_px_y = drawing_offsets.y() + vertical_layer_offset + down as isize;
    let tile_px_z = z as isize;
    (tile_px_x, tile_px_y, tile_px_z)
}

/// The pixel row a tile is drawn at once the y axis of the map, `map_height`
/// tiles high, is turned upside down.
pub fn flipped_pixel_y(map_height: usize, grid_y: usize, tile_height: usize) -> (px_y: usize)
    requires
        grid_y < map_height,
        tile_height * (map_height - grid_y - 1) <= usize::MAX,
    ensures
        px_y == tile_height * (map_height - grid_y - 1),
{
    let recalculated_y = map_height - grid_y - 1;
    tile_height * recalculated_y
}

/// The path components that follow the last component named `assets`, or all
/// of them when none is.
pub open spec fn after_assets(components: Seq<Seq<char>>) -> Seq<Seq<char>>
    decreases components.len(),
{
    if components.len() == 0 {
        components
    } else if components.last() == "assets"@ {
        Seq::empty()
    } else {
        after_assets(components.drop_last()).push(components.last())
    }
}

pub open spec fn component_views(components: Seq<String>) -> Seq<Seq<char>> {
    components.map_values(|c: String| c@)
}

/// Returns a relative path pointing to some asset in
/// the assets folder, or returns the path as-is if the
/// assets folder is not found. The path is given and returned as its
/// components.
pub fn to_bevy_path(input_path: Vec<String>) -> (new_path: Vec<String>)
    ensures
        component_views(new_path@) == after_assets(component_views(input_path@)),
{
    let ghost input = component_views(input_path@);
    let assets = "assets".to_owned();
    let mut path_element_stack: Vec<String> = Vec::new();
    let n = input_path.len();
    let mut i: usize = n;
    let mut reached_assets = false;
    proof {
        assert(input.subrange(0, n as int) =~= input);
        assert(component_views(path_element_stack@).reverse() =~= Seq::<Seq<char>>::empty());
        assert(input + Seq::<Seq<char>>::empty() =~= input);
    }
    // Walks back from the last component, collecting components until
    // `assets` is reached.
    while i > 0 && !reached_assets
        invariant
            0 <= i <= n,
            n == input_path@.len(),
            input == component_views(input_path@),
            assets@ == "assets"@,
            reached_assets ==> i < n && input[i as int] == "assets"@ && after_assets(
                input.subrange(0, i as int + 1),
            ) == Seq::<Seq<char>>::empty(),
            reached_assets ==> after_assets(input) == component_views(
                path_element_stack@,
            ).reverse(),
            !reached_assets ==> after_assets(input) == after_assets(input.subrange(0, i as int))
                + component_views(path_element_stack@).reverse(),
        decreases i,
    {
        let element = &input_path[i - 1];
        if *element == assets {
            reached_assets = true;
            proof {
                let prefix = input.subrange(0, i as int);
                assert(prefix.last() == "assets"@);
                assert(after_assets(input) == component_views(path_element_stack@).reverse()) by {
                    assert(after_assets(prefix) == Seq::<Seq<char>>::empty());
                    assert(Seq::<Seq<char>>::empty() + component_views(path_element_stack@).reverse()
                        =~= component_views(path_element_stack@).reverse());
                }
            }
            i = i - 1;
        } else {
            let ghost old_stack = component_views(path_element_stack@);
            path_element_stack.push(element.clone());
            proof {
                let prefix = input.subrange(0, i as int);
                assert(prefix.drop_last() =~= input.subrange(0, i - 1));
                assert(prefix.last() == input_path@[i - 1]@);
                assert(component_views(path_element_stack@) =~= old_stack.push(input_path@[i - 1]@));
                assert(after_assets(prefix) == after_assets(input.subrange(0, i - 1)).push(
                    input_path@[i - 1]@,
                ));
                assert(after_assets(input.subrange(0, i - 1)).push(input_path@[i - 1]@)
                    + old_stack.reverse() =~= after_assets(input.subrange(0, i - 1))
                    + old_stack.push(input_path@[i - 1]@).reverse());
            }
            i = i - 1;
        }
    }
    proof {
        if !reached_assets {
            assert(input.subrange(0, 0) =~= Seq::<Seq<char>>::empty());
            assert(Seq::<Seq<char>>::empty() + component_views(path_element_stack@).reverse()
                =~= component_views(path_element_stack@).reverse());
        }
    }

    let mut new_path: Vec<String> = Vec::new();
    let m = path_element_stack.len();
    let mut k: usize = m;
    while k > 0
        invariant
            0 <= k <= m,
            m == path_element_stack@.len(),
            component_views(new_path@) == component_views(path_element_stack@).reverse().subrange(
                0,
                (m - k) as int,
            ),
        decreases k,
    {
        let ghost before = component_views(new_path@);
        new_path.push(path_element_stack[k - 1].clone());
        proof {
            let rev = component_views(path_element_stack@).reverse();
            assert(rev[(m - k) as int] == path_element_stack@[k - 1]@);
            assert(component_views(new_path@) =~= before.push(path_element_stack@[k - 1]@));
            assert(component_views(new_path@) =~= rev.subrange(0, (m - k + 1) as int));
        }
        k = k - 1;
    }
    proof {
        let rev = component_views(path_element_stack@).reverse();
        assert(rev.subrange(0, m as int) =~= rev);
    }
    new_path
}


/// The texture of a drawn tile: the source of its tileset's image, the
/// tile's index in that image, and the rows and columns of tiles the image
/// holds.
pub struct TileTextureRecord {
    pub image: String,
    pub index: usize,
    pub dimensions: SpriteSheetDimensions,
}

/// A tile of a tile map as it is drawn: the map's tile size, where it is
/// drawn in pixels (before any flipping), its place in the map, and its
/// texture where the layer has a tile.
pub struct TileRecord {
    pub dimensions: TileDimensions,
    pub pixel_pos: (isize, isize, isize),
    pub grid_pos: TileGridCoordinates,
    pub texture: Option<TileTextureRecord>,
}

/// The position of the record of layer z, column x, row y among the
/// records: layer by layer, column by column, row by row.
pub open spec fn record_index(z: int, x: int, y: int, width: int, height: int) -> int {
    (z * width + x) * height + y
}

/// The tile in layer z at column x and row y (rows as the map file numbers
/// them), if any.
pub open spec fn cell_at(map: TmxMap, width: int, z: int, x: int, y: int) -> Option<LayerTileData> {
    match map.layers@[z] {
        Some(grid) => grid.cells@[y * width + x],
        None => None,
    }
}

/// The drawing offset of the tile at a place: that of its tileset, or none
/// where the layer has no tile.
pub open spec fn cell_offsets(map: TmxMap, width: int, z: int, x: int, y: int) -> (int, int) {
    match cell_at(map, width, z, x, y) {
        Some(tile) => (map.drawing@[tile.tileset_index as int].0 as int, map.drawing@[tile.tileset_index as int].1 as int),
        None => (0, 0),
    }
}

/// Where the tile at a place is drawn: its drawing offset plus its layer's
/// offset plus its place times the tile size, as `tile_pixel_position`
/// computes it.
pub open spec fn pixel_at(map: TmxMap, width: int, z: int, x: int, y: int) -> (int, int, int) {
    let offsets = cell_offsets(map, width, z, x, y);
    (
        offsets.0 + map.tile_width * x,
        offsets.1 + map.layer_offsets@[z] + map.tile_height * y,
        z,
    )
}

/// The texture of a tile: where the layer has a tile, its tileset's image,
/// the tile's id as its index, and the rows and columns of the image; where
/// it has none, no texture.
pub open spec fn texture_at(map: TmxMap, cell: Option<LayerTileData>, texture: Option<TileTextureRecord>) -> bool {
    match cell {
        None => texture is None,
        Some(tile) => {
            let drawing = map.drawing@[tile.tileset_index as int];
            let size = drawing.4->0;
            &&& texture matches Some(t)
            &&& t.index == tile.id
            &&& t.image@ == map.tilesets@[tile.tileset_index as int].image->0@
            &&& t.dimensions.spec_rows() == (size.1 as u32) / drawing.3
            &&& t.dimensions.spec_columns() == (size.0 as u32) / drawing.2
        },
    }
}

/// The record of layer z, column x, row y.
pub open spec fn record_at(map: TmxMap, width: int, z: int, x: int, y: int, record: TileRecord) -> bool {
    let px = pixel_at(map, width, z, x, y);
    &&& record.grid_pos.spec_x() == x
    &&& record.grid_pos.spec_y() == y
    &&& record.grid_pos.spec_z() == z
    &&& record.dimensions.spec_width() == map.tile_width
    &&& record.dimensions.spec_height() == map.tile_height
    &&& record.pixel_pos.0 == px.0
    &&& record.pixel_pos.1 == px.1
    &&& record.pixel_pos.2 == px.2
    &&& texture_at(map, cell_at(map, width, z, x, y), record.texture)
}

/// The sprite sheet of a drawn tile counts the whole tiles its tileset
/// image holds: as many rows as tile heights fit in the image's height, and
/// as many columns as tile widths fit in its width.
pub open spec fn sheet_counts_whole_tiles(map: TmxMap, cell: Option<LayerTileData>, texture: Option<TileTextureRecord>) -> bool {
    cell matches Some(tile) ==> {
        let drawing = map.drawing@[tile.tileset_index as int];
        let size = drawing.4->0;
        let image_width = (size.0 as u32) as int;
        let image_height = (size.1 as u32) as int;
        let tile_width = drawing.2 as int;
        let tile_height = drawing.3 as int;
        &&& texture matches Some(t)
        &&& t.dimensions.spec_rows() * tile_height <= image_height < (t.dimensions.spec_rows() + 1) * tile_height
        &&& t.dimensions.spec_columns() * tile_width <= image_width < (t.dimensions.spec_columns() + 1) * tile_width
    }
}

/// A drawn tile of a tileset with tiles of some size has a sprite sheet of
/// as many rows as tile heights fit in the image's height and as many
/// columns as tile widths fit in its width.
pub proof fn lemma_sheet_counts_whole_tiles(map: TmxMap, width: int, z: int, x: int, y: int, record: TileRecord)
    requires
        record_at(map, width, z, x, y, record),
        cell_at(map, width, z, x, y) matches Some(tile) ==> map.drawing@[tile.tileset_index as int].2 > 0
            && map.drawing@[tile.tileset_index as int].3 > 0,
    ensures
        sheet_counts_whole_tiles(map, cell_at(map, width, z, x, y), record.texture),
{
    if let Some(tile) = cell_at(map, width, z, x, y) {
        let drawing = map.drawing@[tile.tileset_index as int];
        let size = drawing.4->0;
        let iw = (size.0 as u32) as int;
        let ih = (size.1 as u32) as int;
        let tw = drawing.2 as int;
        let th = drawing.3 as int;
        let t = record.texture->0;
        let rows = t.dimensions.spec_rows() as int;
        let columns = t.dimensions.spec_columns() as int;
        assert(rows == ih / th);
        assert(columns == iw / tw);
        assert(rows * th <= ih < (rows + 1) * th) by (nonlinear_arith)
            requires
                th > 0,
                ih >= 0,
                rows == ih / th,
        ;
        assert(columns * tw <= iw < (columns + 1) * tw) by (nonlinear_arith)
            requires
                tw > 0,
                iw >= 0,
                columns == iw / tw,
        ;
    }
}

/// A map can be drawn tile by tile: every layer is a finite tile layer of
/// the given width and height with its offset; every tile's tileset is one
/// of the map's, has an image and tiles of some size; and every pixel
/// position fits an `isize`.
pub open spec fn map_drawable(map: TmxMap, width: u32, height: u32) -> bool {
    &&& map.layer_offsets@.len() == map.layers@.len()
    &&& map.drawing@.len() == map.tilesets@.len()
    &&& forall|z: int|
        0 <= z < map.layers@.len() ==> (#[trigger] map.layers@[z] matches Some(grid) && grid.width == width
            && grid.height == height && grid.cells@.len() == width * height)
    &&& forall|z: int, x: int, y: int|
        0 <= z < map.layers@.len() && 0 <= x < width && 0 <= y < height
            ==> (#[trigger] cell_at(map, width as int, z, x, y) matches Some(tile) ==> {
            &&& tile.tileset_index < map.tilesets@.len()
            &&& map.tilesets@[tile.tileset_index as int].image is Some
            &&& map.drawing@[tile.tileset_index as int].4 is Some
            &&& map.drawing@[tile.tileset_index as int].2 > 0
            &&& map.drawing@[tile.tileset_index as int].3 > 0
        })
    &&& forall|z: int, x: int, y: int|
        0 <= z < map.layers@.len() && 0 <= x < width && 0 <= y < height ==> {
            let offsets = #[trigger] cell_offsets(map, width as int, z, x, y);
            &&& map.tile_width * x <= isize::MAX
            &&& map.tile_height * y <= isize::MAX
            &&& z <= isize::MAX
            &&& isize::MIN <= offsets.0 + map.tile_width * x <= isize::MAX
            &&& isize::MIN <= offsets.1 + map.layer_offsets@[z] <= isize::MAX
            &&& isize::MIN <= offsets.1 + map.layer_offsets@[z] + map.tile_height * y <= isize::MAX
        }
}

proof fn lemma_record_index_order(z1: int, x1: int, y1: int, z2: int, x2: int, y2: int, width: int, height: int)
    requires
        0 <= z1,
        0 <= x1 < width,
        0 <= y1 < height,
        0 <= z2,
        0 <= x2 <= width,
        0 <= y2 <= height,
        z1 < z2 || (z1 == z2 && x1 < x2) || (z1 == z2 && x1 == x2 && y1 < y2),
    ensures
        0 <= record_index(z1, x1, y1, width, height) < record_index(z2, x2, y2, width, height),
{
    let a = z1 * width + x1;
    let b = z2 * width + x2;
    assert(0 <= a) by (nonlinear_arith)
        requires
            0 <= z1,
            0 <= x1,
            width > 0,
            a == z1 * width + x1,
    ;
    if z1 < z2 {
        assert((z1 + 1) * width <= z2 * width) by (nonlinear_arith)
            requires
                z1 + 1 <= z2,
                width > 0,
        ;
        assert((z1 + 1) * width == z1 * width + width) by (nonlinear_arith);
    }
    if a < b {
        assert(a * height + y1 < b * height + y2) by (nonlinear_arith)
            requires
                a + 1 <= b,
                0 <= y1 < height,
                0 <= y2,
        ;
    }
    assert(0 <= a * height + y1) by (nonlinear_arith)
        requires
            0 <= a,
            0 <= y1,
            height > 0,
    ;
}

/// Every tile of every layer of a map, as it is drawn: layer by layer,
/// column by column, row by row, each with its place, the map's tile size,
/// its pixel position and, exactly where the layer has a tile, its texture.
#[verifier::rlimit(60)]
pub fn tilemap_tiles(map: &TmxMap, width: u32, height: u32) -> (tiles: Vec<TileRecord>)
    requires
        map_drawable(*map, width, height),
    ensures
        tiles@.len() == map.layers@.len() * width * height,
        forall|z: int, x: int, y: int|
            0 <= z < map.layers@.len() && 0 <= x < width && 0 <= y < height ==> record_at(
                *map,
                width as int,
                z,
                x,
                y,
                #[trigger] tiles@[record_index(z, x, y, width as int, height as int)],
            ),
        forall|z: int, x: int, y: int|
            0 <= z < map.layers@.len() && 0 <= x < width && 0 <= y < height ==> sheet_counts_whole_tiles(
                *map,
                cell_at(*map, width as int, z, x, y),
                (#[trigger] tiles@[record_index(z, x, y, width as int, height as int)]).texture,
            ),
{
    let ghost w = width as int;
    let ghost h = height as int;
    let depth = map.layers.len();
    let mut tiles: Vec<TileRecord> = Vec::new();
    let mut z: usize = 0;
    proof {
        assert(record_index(0, 0, 0, w, h) == 0) by (nonlinear_arith);
    }
    while z < depth
        invariant
            depth == map.layers@.len(),
            map_drawable(*map, width, height),
            w == width,
            h == height,
            0 <= z <= depth,
            tiles@.len() == record_index(z as int, 0, 0, w, h),
            forall|z1: int, x1: int, y1: int|
                0 <= z1 < z && 0 <= x1 < w && 0 <= y1 < h ==> record_at(
                    *map,
                    w,
                    z1,
                    x1,
                    y1,
                    #[trigger] tiles@[record_index(z1, x1, y1, w, h)],
                ),
        decreases depth - z,
    {
        assert(map.layers@[z as int] is Some);
        let layer = match &map.layers[z] {
            Some(grid) => grid,
            None => {
                return tiles;
            },
        };
        let layer_offset = map.layer_offsets[z];
        let mut x: u32 = 0;
        while x < width
            invariant
                depth == map.layers@.len(),
                map_drawable(*map, width, height),
                w == width,
                h == height,
                0 <= z < depth,
                map.layers@[z as int] == Some(*layer),
                layer_offset == map.layer_offsets@[z as int],
                0 <= x <= w,
                tiles@.len() == record_index(z as int, x as int, 0, w, h),
                forall|z1: int, x1: int, y1: int|
                    (0 <= z1 < z || (z1 == z && x1 < x)) && 0 <= x1 < w && 0 <= y1 < h ==> record_at(
                        *map,
                        w,
                        z1,
                        x1,
                        y1,
                        #[trigger] tiles@[record_index(z1, x1, y1, w, h)],
                    ),
            decreases w - x,
        {
            let mut y: u32 = 0;
            while y < height
                invariant
                    depth == map.layers@.len(),
                    map_drawable(*map, width, height),
                    w == width,
                    h == height,
                    0 <= z < depth,
                    map.layers@[z as int] == Some(*layer),
                    layer_offset == map.layer_offsets@[z as int],
                    0 <= x < w,
                    0 <= y <= h,
                    tiles@.len() == record_index(z as int, x as int, y as int, w, h),
                    forall|z1: int, x1: int, y1: int|
                        (0 <= z1 < z || (z1 == z && x1 < x) || (z1 == z && x1 == x && y1 < y)) && 0 <= x1 < w
                            && 0 <= y1 < h ==> record_at(
                            *map,
                            w,
                            z1,
                            x1,
                            y1,
                            #[trigger] tiles@[record_index(z1, x1, y1, w, h)],
                        ),
                decreases h - y,
            {
                let n_cells = layer.cells.len();
                assert(layer.cells@.len() == w * h);
                assert(0 <= y * w + x < w * h) by (nonlinear_arith)
                    requires
                        0 <= y < h,
                        0 <= x < w,
                ;
                assert(0 <= y * w <= y * w + x) by (nonlinear_arith)
                    requires
                        0 <= y,
                        0 <= x,
                        0 <= w,
                ;
                let cell_idx = (y as usize) * (width as usize) + (x as usize);
                let cell = layer.cells[cell_idx];
                assert(cell == cell_at(*map, w, z as int, x as int, y as int));
                let ghost offsets_spec = cell_offsets(*map, w, z as int, x as int, y as int);
                let (offsets, texture) = match cell {
                    None => (TileDrawingOffset::new(0, 0), None),
                    Some(tile) => {
                        let drawing = map.drawing[tile.tileset_index];
                        let texture = match (&map.tilesets[tile.tileset_index].image, drawing.4) {
                            (Some(image), Some((image_width, image_height))) => Some(
                                TileTextureRecord {
                                    image: image.clone(),
                                    index: tile.id as usize,
                                    dimensions: SpriteSheetDimensions::from_image(
                                        image_width,
                                        image_height,
                                        drawing.2,
                                        drawing.3,
                                    ),
                                },
                            ),
                            _ => None,
                        };
                        (TileDrawingOffset::new(drawing.0 as isize, drawing.1 as isize), texture)
                    },
                };
                let grid_pos = TileGridCoordinates::new_3d(x as usize, y as usize, z);
                let pixel_pos = tile_pixel_position(
                    &offsets,
                    layer_offset,
                    map.tile_width as usize,
                    map.tile_height as usize,
                    &grid_pos,
                );
                let ghost before = tiles@;
                let record = TileRecord {
                    dimensions: TileDimensions::new(map.tile_width as usize, map.tile_height as usize),
                    pixel_pos,
                    grid_pos,
                    texture,
                };
                proof {
                    assert(record_at(*map, w, z as int, x as int, y as int, record));
                }
                tiles.push(record);
                proof {
                    assert forall|z1: int, x1: int, y1: int|
                        (0 <= z1 < z || (z1 == z && x1 < x) || (z1 == z && x1 == x && y1 < y + 1)) && 0 <= x1
                            < w && 0 <= y1 < h implies record_at(
                        *map,
                        w,
                        z1,
                        x1,
                        y1,
                        #[trigger] tiles@[record_index(z1, x1, y1, w, h)],
                    ) by {
                        if z1 == z && x1 == x && y1 == y {
                            assert(tiles@[record_index(z1, x1, y1, w, h)] == record);
                        } else {
                            lemma_record_index_order(z1, x1, y1, z as int, x as int, y as int, w, h);
                            assert(tiles@[record_index(z1, x1, y1, w, h)] == before[record_index(z1, x1, y1, w, h)]);
                        }
                    }
                }
                y = y + 1;
            }
            proof {
                assert(record_index(z as int, x as int, h, w, h) == record_index(z as int, x as int + 1, 0, w, h))
                    by (nonlinear_arith);
            }
            x = x + 1;
        }
        proof {
            assert(record_index(z as int, w, 0, w, h) == record_index(z as int + 1, 0, 0, w, h)) by (nonlinear_arith);
        }
        z = z + 1;
    }
    proof {
        assert forall|z1: int, x1: int, y1: int|
            0 <= z1 < map.layers@.len() && 0 <= x1 < width && 0 <= y1 < height implies sheet_counts_whole_tiles(
            *map,
            cell_at(*map, width as int, z1, x1, y1),
            (#[trigger] tiles@[record_index(z1, x1, y1, width as int, height as int)]).texture,
        ) by {
            assert(cell_at(*map, w, z1, x1, y1) matches Some(tile) ==> map.drawing@[tile.tileset_index as int].2 > 0
                && map.drawing@[tile.tileset_index as int].3 > 0);
            lemma_sheet_counts_whole_tiles(*map, w, z1, x1, y1, tiles@[record_index(z1, x1, y1, w, h)]);
        }
        assert(record_index(depth as int, 0, 0, w, h) == depth * width * height) by (nonlinear_arith)
            requires
                w == width,
                h == height,
        ;
    }
    tiles
}

} // verus!

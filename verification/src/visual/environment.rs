use vstd::prelude::*;

use crate::map::path_finding::Direction;
use crate::map::tilemap::{lemma_coordinates_equal, TileGridCoordinates};

verus! {

/// The layer of the map the campfire's tile is placed on.
pub const CAMPFIRE_LAYER_NUM: usize = 20;

/// The tile just left of the campfire, where the streamer sits by it.
pub open spec fn left_of_campfire(campfire_pos: TileGridCoordinates) -> (usize, usize) {
    (campfire_pos.spec_x(), (campfire_pos.spec_y() - 1) as usize)
}

/// Makes the Streamer face towards the Campfire when
/// next to it: on the tile left of the campfire the streamer faces the
/// bottom right, elsewhere its direction stays.
pub fn make_streamer_face_campfire(
    streamer_pos: TileGridCoordinates,
    campfire_pos: TileGridCoordinates,
    direction: &mut Direction,
)
    requires
        campfire_pos.spec_y() >= 1,
    ensures
        *final(direction) == if streamer_pos.spec_x() == left_of_campfire(campfire_pos).0
            && streamer_pos.spec_y() == left_of_campfire(campfire_pos).1 && streamer_pos.spec_z()
            == 0 {
            Direction::BottomRight
        } else {
            *old(direction)
        },
{
    let left_of_campfire = TileGridCoordinates::new(campfire_pos.x(), campfire_pos.y() - 1);
    proof {
        lemma_coordinates_equal(streamer_pos, left_of_campfire);
    }
    if streamer_pos != left_of_campfire {
        return;
    }
    *direction = Direction::BottomRight;
}

} // verus!

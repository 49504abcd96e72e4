use vstd::prelude::*;

use crate::entities::{trigger_random_queue, TriggerQueue};
use crate::map::path_finding::{grid_index, tilepos_to_idx, TilePos};

verus! {

/// The layer of the map the fruit tiles are placed on.
pub const FRUIT_LAYER_NUM: usize = 17;

/// The layer of the ground a fruit falls onto.
pub const FALLEN_FRUIT_LAYER_NUM: usize = FRUIT_LAYER_NUM - 4;

/// Where a fruit is in its life.
#[derive(Debug, PartialEq, Eq, Clone, Copy, Structural)]
pub enum FruitState {
    Hanging,
    Falling,
    Dropped,
}

/// The tile a fruit falls to from the tile it hangs on: three tiles
/// further along x and three back along y.
pub open spec fn fall_tile(hanging_at: TilePos) -> TilePos {
    TilePos { x: (hanging_at.x + 3) as u32, y: (hanging_at.y - 3) as u32 }
}

/// The state after a fall is asked for: a hanging fruit with a request
/// waiting starts falling.
pub open spec fn state_after_fall(state: FruitState, pending: nat) -> FruitState {
    if pending > 0 && state == FruitState::Hanging {
        FruitState::Falling
    } else {
        state
    }
}

/// The state once the fruit has no target left: a falling fruit has dropped.
pub open spec fn state_after_drop(state: FruitState, has_target: bool) -> FruitState {
    if state == FruitState::Falling && !has_target {
        FruitState::Dropped
    } else {
        state
    }
}

/// The state after the streamer comes by: a dropped fruit the streamer
/// stands on hangs again.
pub open spec fn state_after_pickup(state: FruitState, streamer_on_fruit: bool) -> FruitState {
    if state == FruitState::Dropped && streamer_on_fruit {
        FruitState::Hanging
    } else {
        state
    }
}

/// A hanging fruit with a request to fall starts falling towards the ground
/// tile below it. Returns that tile and its index in the ground graph, a
/// grid `world_width` tiles per row; nothing when the fruit stays.
pub fn make_fruit_fall(
    fruit_pos: TilePos,
    state: &mut FruitState,
    triggers: &TriggerQueue,
    world_width: u32,
) -> (fall: Option<(usize, TilePos)>)
    requires
        (triggers.pending() > 0 && *old(state) == FruitState::Hanging) ==> {
            &&& fruit_pos.y >= 3
            &&& fruit_pos.x + 3 <= u32::MAX
            &&& grid_index(fruit_pos.x + 3, fruit_pos.y - 3, world_width as int) <= u32::MAX
        },
    ensures
        *final(state) == state_after_fall(*old(state), triggers.pending()),
        fall is Some <==> (triggers.pending() > 0 && *old(state) == FruitState::Hanging),
        fall matches Some((idx, target)) ==> {
            &&& target == fall_tile(fruit_pos)
            &&& idx == grid_index(target.x as int, target.y as int, world_width as int)
        },
{
    if triggers.is_empty() {
        return None;
    }
    if *state != FruitState::Hanging {
        return None;
    }
    let target = TilePos { x: fruit_pos.x + 3, y: fruit_pos.y - 3 };
    let idx = tilepos_to_idx(target.x, target.y, world_width);
    *state = FruitState::Falling;
    Some((idx, target))
}

/// A falling fruit that has reached its target has dropped.
pub fn make_fruit_dropped(state: &mut FruitState, has_target: bool)
    ensures
        *final(state) == state_after_drop(*old(state), has_target),
{
    if *state != FruitState::Falling {
        return;
    }
    if has_target {
        return;
    }
    *state = FruitState::Dropped;
}

/// Where the streamer is sent for a fruit: to a dropped fruit.
pub fn pathfind_streamer_to_fruit(state: FruitState, fruit_pos: TilePos) -> (destination: Option<TilePos>)
    ensures
        destination == if state == FruitState::Dropped {
            Some(fruit_pos)
        } else {
            None
        },
{
    if state != FruitState::Dropped {
        return None;
    }
    Some(fruit_pos)
}

/// The streamer picks up a dropped fruit by standing on it: the request is
/// done, and the fruit hangs again at its respawn point. Returns whether
/// that happened.
pub fn respawn_fruit(
    state: &mut FruitState,
    fruit_pos: &mut TilePos,
    respawn_pos: TilePos,
    streamer_pos: TilePos,
    triggers: &mut TriggerQueue,
) -> (respawned: bool)
    ensures
        respawned == (*old(state) == FruitState::Dropped && streamer_pos == *old(fruit_pos)),
        *final(state) == state_after_pickup(*old(state), streamer_pos == *old(fruit_pos)),
        *final(fruit_pos) == if respawned {
            respawn_pos
        } else {
            *old(fruit_pos)
        },
        final(triggers).pending() == if respawned && old(triggers).pending() > 0 {
            (old(triggers).pending() - 1) as nat
        } else {
            old(triggers).pending()
        },
{
    if *state != FruitState::Dropped {
        return false;
    }
    if streamer_pos != *fruit_pos {
        return false;
    }
    triggers.pop_trigger();
    *fruit_pos = respawn_pos;
    *state = FruitState::Hanging;
    true
}

/// Picks a fruit at random and, when the key is pressed, asks it to fall.
pub fn drop_random_fruit_on_f_key(fruit_queues: &mut Vec<TriggerQueue>, f_pressed: bool) -> (picked: Option<usize>)
    ensures
        final(fruit_queues)@.len() == old(fruit_queues)@.len(),
        picked is None <==> old(fruit_queues)@.len() == 0,
        picked matches Some(i) ==> i < old(fruit_queues)@.len(),
        forall|k: int|
            0 <= k < old(fruit_queues)@.len() ==> #[trigger] final(fruit_queues)@[k].pending() == if f_pressed
                && picked == Some(k as usize) {
                old(fruit_queues)@[k].pending() + 1
            } else {
                old(fruit_queues)@[k].pending()
            },
{
    trigger_random_queue(fruit_queues, f_pressed)
}

/// The sound a fruit makes on entering a state: falling, and being picked
/// up (hanging again).
pub fn play_sound_for_fruit(state: FruitState) -> (sound: Option<&'static str>)
    ensures
        state == FruitState::Falling ==> sound == Some("sfx/fruit_dropped.wav"),
        state == FruitState::Hanging ==> sound == Some("sfx/fruit_pickedup.wav"),
        state == FruitState::Dropped ==> sound is None,
{
    match state {
        FruitState::Falling => Some("sfx/fruit_dropped.wav"),
        FruitState::Hanging => Some("sfx/fruit_pickedup.wav"),
        FruitState::Dropped => None,
    }
}

/// A fruit asked to fall goes through its whole life and hangs again: it
/// falls, drops once it arrives, and hangs once the streamer picks it up.
pub proof fn lemma_fruit_cycle(pending: nat)
    requires
        pending > 0,
    ensures
        state_after_fall(FruitState::Hanging, pending) == FruitState::Falling,
        state_after_drop(FruitState::Falling, false) == FruitState::Dropped,
        state_after_pickup(FruitState::Dropped, true) == FruitState::Hanging,
        state_after_pickup(
            state_after_drop(state_after_fall(FruitState::Hanging, pending), false),
            true,
        ) == FruitState::Hanging,
{
}

} // verus!

use vstd::prelude::*;

use crate::entities::GameEntityType;
use crate::map::path_finding::{tilepos_to_idx, Direction};

verus! {

/// The sprites of one animation: from `start_idx` up to, not including,
/// `end_idx`.
#[derive(Debug, PartialEq, Eq, Clone, Copy, Structural)]
pub struct AnimationIndices {
    pub start_idx: usize,
    pub end_idx: usize,
}

/// The number of sprites in a row of an entity's sprite sheet.
pub open spec fn spec_movement_type_len(entity_type: GameEntityType) -> usize {
    match entity_type {
        GameEntityType::Walk => 4,
        GameEntityType::Fly => 8,
        GameEntityType::Swim => 16,
        GameEntityType::Environment => 23,
    }
}

/// The number of sprites in a row of an entity's sprite sheet.
pub fn movement_type_len(entity_type: &GameEntityType) -> (len: usize)
    ensures
        len == spec_movement_type_len(*entity_type),
{
    match entity_type {
        GameEntityType::Walk => 4,
        GameEntityType::Fly => 8,
        GameEntityType::Swim => 16,
        // "Environment" is Campfire for the time being.
        GameEntityType::Environment => 23,
    }
}

/// The first sprite of the streamer's walk towards a direction: the row of
/// the sprite sheet for it, four sprites to a row.
pub open spec fn spec_ground_directional_index(direction: Direction) -> usize {
    match direction {
        Direction::BottomLeft => 28,
        Direction::BottomRight => 32,
        Direction::TopLeft => 20,
        Direction::TopRight => 24,
    }
}

fn ground_directional_index_from(direction: &Direction) -> (idx: usize)
    ensures
        idx == spec_ground_directional_index(*direction),
{
    let num_ground_sprites_in_row = 4u32;
    match direction {
        Direction::BottomLeft => tilepos_to_idx(7, 0, num_ground_sprites_in_row),
        Direction::BottomRight => tilepos_to_idx(8, 0, num_ground_sprites_in_row),
        Direction::TopLeft => tilepos_to_idx(5, 0, num_ground_sprites_in_row),
        Direction::TopRight => tilepos_to_idx(6, 0, num_ground_sprites_in_row),
    }
}

/// The first sprite of a chatter's flight: the second row of its sheet,
/// whatever the direction.
fn fly_directional_index_from(_direction: &Direction) -> (idx: usize)
    ensures
        idx == 8,
{
    let num_flying_sprites_in_row = 8u32;
    tilepos_to_idx(1, 0, num_flying_sprites_in_row)
}

/// The sprite of a subscriber: the second row of its sheet, whatever the
/// direction.
fn swim_directional_index_from(_direction: &Direction) -> (idx: usize)
    ensures
        idx == 16,
{
    let num_swim_sprites_in_row = 16u32;
    tilepos_to_idx(1, 0, num_swim_sprites_in_row)
}

/// The first sprite an entity shows when facing a direction.
pub open spec fn spec_row_index(direction: Direction, entity_type: GameEntityType) -> usize {
    match entity_type {
        GameEntityType::Walk => spec_ground_directional_index(direction),
        GameEntityType::Fly => 8,
        GameEntityType::Swim => 16,
        _ => 0,
    }
}

/// The first sprite an entity shows when facing a direction.
pub fn direction_to_row_index(direction: &Direction, entity_type: &GameEntityType) -> (idx: usize)
    ensures
        idx == spec_row_index(*direction, *entity_type),
{
    match entity_type {
        GameEntityType::Walk => ground_directional_index_from(direction),
        GameEntityType::Fly => fly_directional_index_from(direction),
        GameEntityType::Swim => swim_directional_index_from(direction),
        _ => 0,
    }
}

/// The animation an entity starts with: facing the bottom right (the
/// campfire has a single row, from the first sprite on).
pub fn insert_animation_information(entity_type: &GameEntityType) -> (indices: AnimationIndices)
    ensures
        indices.start_idx == match *entity_type {
            GameEntityType::Environment => 0,
            _ => spec_row_index(Direction::BottomRight, *entity_type),
        },
        indices.end_idx == indices.start_idx + spec_movement_type_len(*entity_type),
{
    let start_idx = match entity_type {
        GameEntityType::Walk => ground_directional_index_from(&Direction::BottomRight),
        GameEntityType::Fly => fly_directional_index_from(&Direction::BottomRight),
        GameEntityType::Swim => swim_directional_index_from(&Direction::BottomRight),
        // This represents the Campfire for now, which consists of a single row.
        GameEntityType::Environment => 0,
    };
    let end_idx = start_idx + movement_type_len(entity_type);
    AnimationIndices { start_idx, end_idx }
}

/// Whether a subscriber's or chatter's sprite is mirrored for a direction:
/// those two have no animation per direction, so facing right mirrors the
/// sprite. None for other entities.
pub fn change_fish_or_chatter_direction(entity_type: &GameEntityType, direction: &Direction) -> (flip_x: Option<bool>)
    ensures
        flip_x == if *entity_type == GameEntityType::Swim || *entity_type == GameEntityType::Fly {
            Some(*direction == Direction::BottomRight || *direction == Direction::TopRight)
        } else {
            None
        },
{
    if *entity_type == GameEntityType::Swim || *entity_type == GameEntityType::Fly {
        match direction {
            Direction::BottomLeft | Direction::TopLeft => Some(false),
            Direction::BottomRight | Direction::TopRight => Some(true),
        }
    } else {
        None
    }
}

/// On a change of direction, an animated entity switches to the row of its
/// sprite sheet for that direction and shows the row's first sprite.
/// Subscribers and chatters are left alone.
pub fn change_sprite_direction(
    indices: &mut AnimationIndices,
    sprite_index: &mut usize,
    entity_type: &GameEntityType,
    direction: &Direction,
)
    ensures
        (*entity_type == GameEntityType::Swim || *entity_type == GameEntityType::Fly) ==> {
            &&& *final(indices) == *old(indices)
            &&& *final(sprite_index) == *old(sprite_index)
        },
        !(*entity_type == GameEntityType::Swim || *entity_type == GameEntityType::Fly) ==> {
            &&& final(indices).start_idx == spec_row_index(*direction, *entity_type)
            &&& final(indices).end_idx == final(indices).start_idx + spec_movement_type_len(*entity_type)
            &&& *final(sprite_index) == final(indices).start_idx
        },
{
    if *entity_type == GameEntityType::Swim || *entity_type == GameEntityType::Fly {
        return;
    }
    indices.start_idx = direction_to_row_index(direction, entity_type);
    indices.end_idx = indices.start_idx + movement_type_len(entity_type);
    *sprite_index = indices.start_idx;
}

/// The streamer's animation is paused while it has no path to follow.
pub fn check_if_idle(path_is_empty: bool) -> (paused: bool)
    ensures
        paused == path_is_empty,
{
    path_is_empty
}

/// The sprite after `index` in an animation running from `lower_bound` up
/// to, not including, `upper_bound`: the next one, or the first again after
/// the last.
pub open spec fn next_frame(index: int, lower_bound: int, upper_bound: int) -> int {
    if index + 1 >= upper_bound {
        lower_bound
    } else {
        index + 1
    }
}

/// The sprite after `index` in an animation running from `lower_bound` up
/// to, not including, `upper_bound`: the next one, or the first again after
/// the last.
pub fn bound_add_for_index(index: usize, lower_bound: usize, upper_bound: usize) -> (next: usize)
    requires
        index < usize::MAX,
    ensures
        next == next_frame(index as int, lower_bound as int, upper_bound as int),
{
    let new_index = index + 1;
    if new_index >= upper_bound {
        return lower_bound;
    }
    new_index
}

/// The sprite an animated entity shows after one frame: subscribers have
/// no animation, a paused animation shows its first sprite, and otherwise
/// the animation moves on when its timer has run out.
pub fn animate(
    entity_type: &GameEntityType,
    paused: bool,
    timer_finished: bool,
    indices: &AnimationIndices,
    sprite_index: usize,
) -> (shown: usize)
    requires
        !(*entity_type == GameEntityType::Swim) && !paused && timer_finished ==> sprite_index
            < usize::MAX,
    ensures
        shown == if *entity_type == GameEntityType::Swim {
            sprite_index as int
        } else if paused {
            indices.start_idx as int
        } else if !timer_finished {
            sprite_index as int
        } else {
            next_frame(sprite_index as int, indices.start_idx as int, indices.end_idx as int)
        },
{
    // Fish do not have animation, at least with the
    // currently used sprite sheet.
    if *entity_type == GameEntityType::Swim {
        return sprite_index;
    }
    if paused {
        return indices.start_idx;
    }
    if !timer_finished {
        return sprite_index;
    }
    bound_add_for_index(sprite_index, indices.start_idx, indices.end_idx)
}

/// The sprite shown after `steps` frames of an animation started on
/// `index`.
pub open spec fn frames_after(index: int, lower_bound: int, upper_bound: int, steps: nat) -> int
    decreases steps,
{
    if steps == 0 {
        index
    } else {
        next_frame(frames_after(index, lower_bound, upper_bound, (steps - 1) as nat), lower_bound, upper_bound)
    }
}

proof fn lemma_frames_count(lower_bound: int, upper_bound: int, steps: nat)
    requires
        lower_bound < upper_bound,
        steps < upper_bound - lower_bound,
    ensures
        frames_after(lower_bound, lower_bound, upper_bound, steps) == lower_bound + steps,
    decreases steps,
{
    if steps > 0 {
        lemma_frames_count(lower_bound, upper_bound, (steps - 1) as nat);
    }
}

/// An animation never leaves its row, and, started on its first sprite,
/// shows each sprite of the row in turn and is back on the first after as
/// many frames as the row has sprites.
pub proof fn lemma_animation_cycles(index: int, lower_bound: int, upper_bound: int)
    requires
        lower_bound < upper_bound,
        lower_bound <= index < upper_bound,
    ensures
        lower_bound <= next_frame(index, lower_bound, upper_bound) < upper_bound,
        forall|steps: nat|
            steps < upper_bound - lower_bound ==> #[trigger] frames_after(
                lower_bound,
                lower_bound,
                upper_bound,
                steps,
            ) == lower_bound + steps,
        frames_after(lower_bound, lower_bound, upper_bound, (upper_bound - lower_bound) as nat)
            == lower_bound,
{
    assert forall|steps: nat| steps < upper_bound - lower_bound implies #[trigger] frames_after(
        lower_bound,
        lower_bound,
        upper_bound,
        steps,
    ) == lower_bound + steps by {
        lemma_frames_count(lower_bound, upper_bound, steps);
    }
    lemma_frames_count(lower_bound, upper_bound, (upper_bound - lower_bound - 1) as nat);
}

} // verus!

use vstd::prelude::*;

use crate::entities::{trigger_random_queue, TriggerQueue};
use crate::map::path_finding::TilePos;

verus! {

/// The number of sprites a crop goes through from seed to harvest.
pub const CROP_NUM_STAGES: usize = 7;

/// The layer of the map the crop tiles are placed on.
pub const CROP_LAYER_NUM: usize = 13;

/// Whether a crop can be harvested yet.
#[derive(Debug, PartialEq, Eq, Clone, Copy, Structural)]
pub enum CropState {
    Growing,
    Grown,
}

/// The sprite index of a crop's last stage.
#[derive(Debug, PartialEq, Eq, Clone, Copy, Structural)]
pub struct CropEndIdx(usize);

impl CropEndIdx {
    pub closed spec fn spec_idx(&self) -> usize {
        self.0
    }

    /// The last stage of a crop whose first sprite is `start_idx`.
    pub fn for_start(start_idx: usize) -> (end: CropEndIdx)
        requires
            start_idx + CROP_NUM_STAGES <= usize::MAX,
        ensures
            end.spec_idx() == start_idx + CROP_NUM_STAGES - 1,
    {
        CropEndIdx(start_idx + CROP_NUM_STAGES - 1)
    }

    pub fn idx(&self) -> (idx: usize)
        ensures
            idx == self.spec_idx(),
    {
        self.0
    }
}

/// A crop's state and sprite after one request to grow was served.
pub open spec fn after_growth(state: CropState, sprite: int, end: int) -> (CropState, int) {
    if state == CropState::Growing {
        let next = sprite + 1;
        (if next >= end { CropState::Grown } else { CropState::Growing }, next)
    } else {
        (state, sprite)
    }
}

/// A crop's state and sprite after `steps` requests to grow were served.
pub open spec fn after_growths(state: CropState, sprite: int, end: int, steps: nat) -> (CropState, int)
    decreases steps,
{
    if steps == 0 {
        (state, sprite)
    } else {
        let before = after_growths(state, sprite, end, (steps - 1) as nat);
        after_growth(before.0, before.1, end)
    }
}

/// A crop's state and sprite after the streamer came by.
pub open spec fn after_pickup(state: CropState, sprite: int, streamer_on_crop: bool) -> (CropState, int) {
    if state == CropState::Grown && streamer_on_crop {
        (CropState::Growing, sprite - (CROP_NUM_STAGES - 1))
    } else {
        (state, sprite)
    }
}

/// A growing crop with a request waiting grows one stage: the request is
/// served, the sprite moves on, and at the last stage the crop is grown.
/// Returns whether it grew (and makes its sound).
pub fn grow_crops(
    triggers: &mut TriggerQueue,
    state: &mut CropState,
    sprite: &mut usize,
    end: CropEndIdx,
) -> (grew: bool)
    requires
        (*old(state) == CropState::Growing && old(triggers).pending() > 0) ==> *old(sprite)
            < usize::MAX,
    ensures
        grew == (*old(state) == CropState::Growing && old(triggers).pending() > 0),
        grew ==> {
            &&& final(triggers).pending() == old(triggers).pending() - 1
            &&& (*final(state), *final(sprite) as int) == after_growth(
                *old(state),
                *old(sprite) as int,
                end.spec_idx() as int,
            )
        },
        !grew ==> {
            &&& final(triggers).pending() == old(triggers).pending()
            &&& *final(state) == *old(state)
            &&& *final(sprite) == *old(sprite)
        },
{
    if *state != CropState::Growing {
        return false;
    }
    if triggers.is_empty() {
        return false;
    }
    triggers.pop_trigger();
    *sprite = *sprite + 1;
    if *sprite >= end.idx() {
        *state = CropState::Grown;
    }
    true
}

/// Where the streamer is sent for a crop: to a grown one.
pub fn pathfind_streamer_to_crops(state: CropState, crop_pos: TilePos) -> (destination: Option<TilePos>)
    ensures
        destination == if state == CropState::Grown {
            Some(crop_pos)
        } else {
            None
        },
{
    if state != CropState::Grown {
        return None;
    }
    Some(crop_pos)
}

/// The streamer harvests a grown crop by standing on it: the crop starts
/// over from its first stage. Returns whether that happened.
pub fn pick_up_crops(state: &mut CropState, sprite: &mut usize, crop_pos: TilePos, streamer_pos: TilePos) -> (picked: bool)
    requires
        (*old(state) == CropState::Grown && streamer_pos == crop_pos) ==> *old(sprite)
            >= CROP_NUM_STAGES - 1,
    ensures
        picked == (*old(state) == CropState::Grown && streamer_pos == crop_pos),
        (*final(state), *final(sprite) as int) == after_pickup(
            *old(state),
            *old(sprite) as int,
            streamer_pos == crop_pos,
        ),
{
    if *state != CropState::Grown {
        return false;
    }
    if streamer_pos != crop_pos {
        return false;
    }
    *sprite = *sprite - (CROP_NUM_STAGES - 1);
    *state = CropState::Growing;
    true
}

/// Picks a crop at random and, when the key is pressed, asks it to grow.
pub fn grow_crop_on_c_key(crop_queues: &mut Vec<TriggerQueue>, c_pressed: bool) -> (picked: Option<usize>)
    ensures
        final(crop_queues)@.len() == old(crop_queues)@.len(),
        picked is None <==> old(crop_queues)@.len() == 0,
        picked matches Some(i) ==> i < old(crop_queues)@.len(),
        forall|k: int|
            0 <= k < old(crop_queues)@.len() ==> #[trigger] final(crop_queues)@[k].pending() == if c_pressed
                && picked == Some(k as usize) {
                old(crop_queues)@[k].pending() + 1
            } else {
                old(crop_queues)@[k].pending()
            },
{
    trigger_random_queue(crop_queues, c_pressed)
}

proof fn lemma_growths_count(start: int, steps: nat)
    requires
        steps <= CROP_NUM_STAGES - 1,
    ensures
        after_growths(CropState::Growing, start, start + CROP_NUM_STAGES - 1, steps) == (
            if steps == CROP_NUM_STAGES - 1 {
                CropState::Grown
            } else {
                CropState::Growing
            },
            start + steps,
        ),
    decreases steps,
{
    if steps > 0 {
        lemma_growths_count(start, (steps - 1) as nat);
    }
}

/// A freshly planted crop is grown after one request per stage past the
/// first, and not before; harvesting it brings it back to its first sprite,
/// growing.
pub proof fn lemma_crop_cycle(start: int)
    ensures
        forall|steps: nat|
            steps < CROP_NUM_STAGES - 1 ==> #[trigger] after_growths(
                CropState::Growing,
                start,
                start + CROP_NUM_STAGES - 1,
                steps,
            ).0 == CropState::Growing,
        after_growths(CropState::Growing, start, start + CROP_NUM_STAGES - 1, (CROP_NUM_STAGES - 1) as nat)
            == (CropState::Grown, start + CROP_NUM_STAGES - 1),
        after_pickup(CropState::Grown, start + CROP_NUM_STAGES - 1, true) == (CropState::Growing, start),
{
    assert forall|steps: nat| steps < CROP_NUM_STAGES - 1 implies #[trigger] after_growths(
        CropState::Growing,
        start,
        start + CROP_NUM_STAGES - 1,
        steps,
    ).0 == CropState::Growing by {
        lemma_growths_count(start, steps);
    }
    lemma_growths_count(start, (CROP_NUM_STAGES - 1) as nat);
}

} // verus!

use task_masker::entities::GameEntityType;
use task_masker::map::path_finding::Direction;
use task_masker::map::tilemap::TileGridCoordinates;
use task_masker::visual::animations::{
    animate, bound_add_for_index, check_if_idle, change_fish_or_chatter_direction, change_sprite_direction,
    direction_to_row_index, insert_animation_information, movement_type_len, AnimationIndices,
};
use task_masker::visual::environment::{make_streamer_face_campfire, CAMPFIRE_LAYER_NUM};

#[test]
fn rows_have_sprites_per_entity() {
    assert_eq!(4, movement_type_len(&GameEntityType::Walk));
    assert_eq!(8, movement_type_len(&GameEntityType::Fly));
    assert_eq!(16, movement_type_len(&GameEntityType::Swim));
    assert_eq!(23, movement_type_len(&GameEntityType::Environment));
}

#[test]
fn entities_start_facing_bottom_right() {
    assert_eq!(
        AnimationIndices { start_idx: 32, end_idx: 36 },
        insert_animation_information(&GameEntityType::Walk)
    );
    assert_eq!(
        AnimationIndices { start_idx: 8, end_idx: 16 },
        insert_animation_information(&GameEntityType::Fly)
    );
    assert_eq!(
        AnimationIndices { start_idx: 16, end_idx: 32 },
        insert_animation_information(&GameEntityType::Swim)
    );
    assert_eq!(
        AnimationIndices { start_idx: 0, end_idx: 23 },
        insert_animation_information(&GameEntityType::Environment)
    );
}

#[test]
fn streamer_rows_per_direction() {
    let walk = GameEntityType::Walk;
    assert_eq!(28, direction_to_row_index(&Direction::BottomLeft, &walk));
    assert_eq!(32, direction_to_row_index(&Direction::BottomRight, &walk));
    assert_eq!(20, direction_to_row_index(&Direction::TopLeft, &walk));
    assert_eq!(24, direction_to_row_index(&Direction::TopRight, &walk));
    assert_eq!(8, direction_to_row_index(&Direction::TopLeft, &GameEntityType::Fly));
    assert_eq!(16, direction_to_row_index(&Direction::TopLeft, &GameEntityType::Swim));
    assert_eq!(0, direction_to_row_index(&Direction::TopLeft, &GameEntityType::Environment));
}

#[test]
fn frames_wrap_around_row() {
    assert_eq!(3, bound_add_for_index(2, 0, 4));
    assert_eq!(0, bound_add_for_index(3, 0, 4));
    assert_eq!(33, bound_add_for_index(32, 32, 36));
    assert_eq!(32, bound_add_for_index(35, 32, 36));
}

#[test]
fn animation_cycles_back_to_first_sprite() {
    let indices = AnimationIndices { start_idx: 20, end_idx: 24 };
    let mut shown = indices.start_idx;
    let mut seen = Vec::new();
    for _ in 0..4 {
        shown = animate(&GameEntityType::Walk, false, true, &indices, shown);
        seen.push(shown);
    }
    assert_eq!(vec![21, 22, 23, 20], seen);
}

#[test]
fn animation_waits_pauses_and_skips_fish() {
    let indices = AnimationIndices { start_idx: 20, end_idx: 24 };
    assert_eq!(22, animate(&GameEntityType::Walk, false, false, &indices, 22));
    assert_eq!(20, animate(&GameEntityType::Walk, true, true, &indices, 22));
    assert_eq!(17, animate(&GameEntityType::Swim, false, true, &indices, 17));
}

#[test]
fn fish_and_chatters_mirror_when_facing_right() {
    assert_eq!(
        Some(true),
        change_fish_or_chatter_direction(&GameEntityType::Swim, &Direction::BottomRight)
    );
    assert_eq!(
        Some(true),
        change_fish_or_chatter_direction(&GameEntityType::Fly, &Direction::TopRight)
    );
    assert_eq!(
        Some(false),
        change_fish_or_chatter_direction(&GameEntityType::Fly, &Direction::TopLeft)
    );
    assert_eq!(
        None,
        change_fish_or_chatter_direction(&GameEntityType::Walk, &Direction::TopLeft)
    );
}

#[test]
fn turning_switches_row() {
    let mut indices = AnimationIndices { start_idx: 32, end_idx: 36 };
    let mut sprite = 34;
    change_sprite_direction(&mut indices, &mut sprite, &GameEntityType::Walk, &Direction::TopLeft);
    assert_eq!(AnimationIndices { start_idx: 20, end_idx: 24 }, indices);
    assert_eq!(20, sprite);

    let mut fish = AnimationIndices { start_idx: 16, end_idx: 32 };
    let mut fish_sprite = 16;
    change_sprite_direction(&mut fish, &mut fish_sprite, &GameEntityType::Swim, &Direction::TopLeft);
    assert_eq!(AnimationIndices { start_idx: 16, end_idx: 32 }, fish);
    assert_eq!(16, fish_sprite);
}

#[test]
fn streamer_faces_campfire_from_its_left() {
    assert_eq!(20, CAMPFIRE_LAYER_NUM);
    let campfire = TileGridCoordinates::new(10, 5);
    let mut direction = Direction::TopLeft;
    make_streamer_face_campfire(TileGridCoordinates::new(10, 4), campfire, &mut direction);
    assert_eq!(Direction::BottomRight, direction);

    let mut elsewhere = Direction::TopLeft;
    make_streamer_face_campfire(TileGridCoordinates::new(9, 4), campfire, &mut elsewhere);
    assert_eq!(Direction::TopLeft, elsewhere);
}

#[test]
fn animation_pauses_without_path() {
    assert!(check_if_idle(true));
    assert!(!check_if_idle(false));
}

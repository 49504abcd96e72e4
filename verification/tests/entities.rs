use std::collections::VecDeque;

use task_masker::entities::chatter::{
    add_chat_msg_to_queue, trigger_flying_to_streamer, LONG_CHAT_MSG,
    chatter_waits_to_leave_from_streamer, fly_to_streamer_to_speak,
    follow_streamer_while_approaching_for_chatter, follow_streamer_while_speaking,
    leave_from_streamer_from_chatter, return_chatter_to_idle, speak_to_streamer_from_chatter,
    ChatMessageQueue, ChatMsg, ChatterStatus, CHATTER_LAYER_NUM, DIST_AWAY_FROM_STREAMER,
};
use task_masker::entities::crop::{
    grow_crop_on_c_key, grow_crops, pathfind_streamer_to_crops, pick_up_crops, CropEndIdx,
    CropState, CROP_NUM_STAGES,
};
use task_masker::entities::fruit::{
    drop_random_fruit_on_f_key, make_fruit_dropped, make_fruit_fall, pathfind_streamer_to_fruit,
    respawn_fruit, play_sound_for_fruit, FruitState, FALLEN_FRUIT_LAYER_NUM, FRUIT_LAYER_NUM,
};
use task_masker::entities::streamer::{
    queue_destination_for_streamer,
    move_streamer_on_status_change, make_streamer_idle_when_not_moving, move_streamer,
    change_status_for_streamer, streamer_spawn_position, update_status_when_speaking, OnlineStatus,
    StreamerState, STREAMER_LAYER_NUM,
};
use task_masker::entities::subscriber::{
    trigger_swimming_to_streamer,
    include_nodes_only_from, leave_from_streamer_from_subscriber, return_subscriber_to_idle,
    speak_to_streamer_from_subscriber, subscriber_waits_to_leave_from_streamer,
    swim_to_streamer_to_speak, SubscriberMsg, SubscriberStatus, SUBSCRIBER_LAYER_NUM,
};
use task_masker::entities::{GameEntityType, MovementType, TriggerQueue};
use task_masker::map::path_finding::{
    DestinationQueue, GraphType, HeightedTilePos, NodeEdges, Path, SpawnPoint, TilePos,
    UndirectedGraph,
};
use task_masker::ui::chatting::{ChattingStatus, Msg, MsgPriority, TypingMsg};

fn grid(length: u32, height: u32) -> Vec<HeightedTilePos> {
    let mut tiles = Vec::new();
    for x in 0..length {
        for y in 0..length {
            for z in 0..=height {
                tiles.push(HeightedTilePos::new(TilePos::new(x, y), z));
            }
        }
    }
    tiles
}

fn nodes(path: &Path) -> Vec<usize> {
    path.0.iter().copied().collect()
}

fn chat_msg(name: &str, text: &str) -> ChatMsg {
    ChatMsg { name: String::from(name), msg: String::from(text) }
}

fn typed(name: &str, text: &str, role: GameEntityType) -> TypingMsg {
    let mut typing = TypingMsg::new(Msg::new(String::from(name), String::from(text), role));
    while !typing.at_end() {
        typing.to_next_char();
    }
    typing
}

#[test]
fn layers_of_entities() {
    assert_eq!(19, CHATTER_LAYER_NUM);
    assert_eq!(18, SUBSCRIBER_LAYER_NUM);
    assert_eq!(6, STREAMER_LAYER_NUM);
    assert_eq!(17, FRUIT_LAYER_NUM);
    assert_eq!(13, FALLEN_FRUIT_LAYER_NUM);
    assert_eq!(7, CROP_NUM_STAGES);
    assert_eq!(2, DIST_AWAY_FROM_STREAMER);
    assert_eq!(MovementType::Fly, MovementType::default());
}

#[test]
fn trigger_queue_counts_requests() {
    let mut triggers = TriggerQueue::new();
    assert!(triggers.is_empty());
    triggers.push_trigger();
    triggers.push_trigger();
    triggers.pop_trigger();
    assert!(!triggers.is_empty());
    triggers.pop_trigger();
    triggers.pop_trigger();
    assert!(triggers.is_empty());
}

#[test]
fn chatter_flies_to_streamer_and_stops_short() {
    let air = UndirectedGraph::from_tiles(GraphType::Air, grid(5, 0));
    let mut queue = ChatMessageQueue::new();
    let mut status = ChatterStatus::Idle;

    // nothing to say: the chatter stays
    assert!(fly_to_streamer_to_speak(&air, TilePos::new(0, 0), TilePos::new(4, 0), &mut status, &queue)
        .is_none());
    assert_eq!(ChatterStatus::Idle, status);

    queue.push_back(chat_msg("Bob", "hi"));
    let path = fly_to_streamer_to_speak(&air, TilePos::new(0, 0), TilePos::new(4, 0), &mut status, &queue)
        .expect("the air connects chatter and streamer");
    assert_eq!(vec![0, 5, 10], nodes(&path));
    assert_eq!(ChatterStatus::Approaching, status);

    // already approaching: no new path
    assert!(fly_to_streamer_to_speak(&air, TilePos::new(0, 0), TilePos::new(4, 0), &mut status, &queue)
        .is_none());
}

#[test]
fn chatter_next_to_streamer_keeps_nothing_of_route() {
    let air = UndirectedGraph::from_tiles(GraphType::Air, grid(3, 0));
    let mut queue = ChatMessageQueue::new();
    queue.push_back(chat_msg("Bob", "hi"));
    let mut status = ChatterStatus::Idle;
    let path = fly_to_streamer_to_speak(&air, TilePos::new(0, 0), TilePos::new(0, 1), &mut status, &queue)
        .expect("neighbours are connected");
    assert!(path.0.is_empty());
    assert_eq!(ChatterStatus::Approaching, status);
}

#[test]
fn chatter_speaks_oldest_message_on_arrival() {
    let mut queue = ChatMessageQueue::new();
    queue.push_back(chat_msg("Bob", "first"));
    queue.push_back(chat_msg("Bob", "second"));
    let mut status = ChatterStatus::Approaching;

    // still travelling
    assert!(speak_to_streamer_from_chatter(&mut queue, false, false, &mut status, GameEntityType::Fly)
        .is_none());
    assert!(speak_to_streamer_from_chatter(&mut queue, true, true, &mut status, GameEntityType::Fly)
        .is_none());
    assert_eq!(2, queue.len());

    let spoken = speak_to_streamer_from_chatter(&mut queue, true, false, &mut status, GameEntityType::Fly)
        .expect("the chatter has arrived");
    assert_eq!("Bob", spoken.speaker_name);
    assert_eq!("first", spoken.msg);
    assert_eq!(GameEntityType::Fly, spoken.speaker_role);
    assert_eq!(MsgPriority::Low, spoken.priority());
    assert_eq!(ChatterStatus::Speaking, status);
    assert_eq!(1, queue.len());
    assert_eq!("second", queue.front().unwrap().msg);
}

#[test]
fn chatter_with_more_to_say_sets_off_again() {
    let mut queue = ChatMessageQueue::new();
    queue.push_back(chat_msg("Bob", "more"));
    let mut status = ChatterStatus::Speaking;
    let typing = typed("Bob", "hi", GameEntityType::Fly);
    assert!(!chatter_waits_to_leave_from_streamer(&mut status, &typing, &queue));
    assert_eq!(ChatterStatus::Idle, status);
}

#[test]
fn chatter_done_speaking_waits_to_leave() {
    let typing = typed("Bob", "hi", GameEntityType::Fly);

    let empty = ChatMessageQueue::new();
    let mut status = ChatterStatus::Speaking;
    assert!(chatter_waits_to_leave_from_streamer(&mut status, &typing, &empty));
    assert_eq!(ChatterStatus::Speaking, status);

    let mut other = ChatMessageQueue::new();
    other.push_back(chat_msg("Alice", "hello"));
    assert!(chatter_waits_to_leave_from_streamer(&mut status, &typing, &other));
    assert_eq!(ChatterStatus::Speaking, status);
}

#[test]
fn chatter_still_typing_does_not_leave() {
    let typing = TypingMsg::new(Msg::new(String::from("Bob"), String::from("hi"), GameEntityType::Fly));
    let queue = ChatMessageQueue::new();
    let mut status = ChatterStatus::Speaking;
    assert!(!chatter_waits_to_leave_from_streamer(&mut status, &typing, &queue));
    assert_eq!(ChatterStatus::Speaking, status);
}

#[test]
fn chatter_leaves_back_to_spawn_and_idles() {
    let air = UndirectedGraph::from_tiles(GraphType::Air, grid(5, 0));
    let mut status = ChatterStatus::Speaking;
    let path = leave_from_streamer_from_chatter(&air, TilePos::new(4, 0), SpawnPoint(TilePos::new(0, 0)), &mut status)
        .expect("the air connects every tile");
    assert_eq!(vec![20, 15, 10, 5, 0], nodes(&path));
    assert_eq!(ChatterStatus::Leaving, status);

    return_chatter_to_idle(&mut status, false, false);
    assert_eq!(ChatterStatus::Leaving, status);
    return_chatter_to_idle(&mut status, true, true);
    assert_eq!(ChatterStatus::Leaving, status);
    return_chatter_to_idle(&mut status, true, false);
    assert_eq!(ChatterStatus::Idle, status);
}

#[test]
fn speaking_chatter_follows_moving_streamer_at_distance() {
    let streamer_path = Path(VecDeque::from(vec![0, 1, 6]));
    let mut chatter_path = Path(VecDeque::new());
    follow_streamer_while_speaking(StreamerState::Moving, &streamer_path, ChatterStatus::Speaking, &mut chatter_path, 5);
    // (0, 0) -> (2, 2), (0, 1) -> (2, 3), (1, 1) -> (3, 3)
    assert_eq!(vec![12, 13, 18], nodes(&chatter_path));

    let mut idle_path = Path(VecDeque::new());
    follow_streamer_while_speaking(StreamerState::Idle, &streamer_path, ChatterStatus::Speaking, &mut idle_path, 5);
    assert!(idle_path.0.is_empty());

    let mut busy_path = Path(VecDeque::from(vec![3]));
    follow_streamer_while_speaking(StreamerState::Moving, &streamer_path, ChatterStatus::Speaking, &mut busy_path, 5);
    assert_eq!(vec![3], nodes(&busy_path));
}

#[test]
fn approaching_chatter_changes_course_with_streamer() {
    let air = UndirectedGraph::from_tiles(GraphType::Air, grid(5, 0));
    let streamer_path = Path(VecDeque::from(vec![5, 6]));
    let mut chatter_path = Path(VecDeque::from(vec![1]));
    follow_streamer_while_approaching_for_chatter(
        StreamerState::Moving,
        &streamer_path,
        &air,
        ChatterStatus::Approaching,
        TilePos::new(0, 0),
        &mut chatter_path,
        5,
    );
    // the streamer heads for (1, 1); the chatter for (3, 3)
    assert_eq!(Some(&0), chatter_path.0.front());
    assert_eq!(Some(&18), chatter_path.0.back());
    assert_eq!(7, chatter_path.0.len());

    // already heading there: the path stays
    let mut heading = Path(VecDeque::from(vec![17, 18]));
    follow_streamer_while_approaching_for_chatter(
        StreamerState::Moving,
        &streamer_path,
        &air,
        ChatterStatus::Approaching,
        TilePos::new(3, 1),
        &mut heading,
        5,
    );
    assert_eq!(vec![17, 18], nodes(&heading));
}

#[test]
fn subscriber_swims_only_through_water() {
    let edges = NodeEdges(vec![vec![1], vec![0], vec![], vec![2]]);
    let stripped = include_nodes_only_from(Path(VecDeque::from(vec![0, 1, 2, 3])), &edges);
    assert_eq!(vec![0, 1], nodes(&stripped));
    let none = include_nodes_only_from(Path(VecDeque::from(vec![2, 0])), &edges);
    assert!(none.0.is_empty());
}

/// A 3 by 3 map whose row x = 2 is land; the rest is water.
fn water_map() -> (UndirectedGraph, UndirectedGraph) {
    let air = UndirectedGraph::from_tiles(GraphType::Air, grid(3, 0));
    let mut tiles = grid(3, 0);
    for y in 0..3 {
        tiles.push(HeightedTilePos::new(TilePos::new(2, y), 1));
    }
    let water = UndirectedGraph::from_tiles(GraphType::Water, tiles);
    (air, water)
}

#[test]
fn subscriber_swims_to_shore_near_streamer() {
    let (air, water) = water_map();
    let mut status = SubscriberStatus::Idle;
    assert!(swim_to_streamer_to_speak(&air, &water, TilePos::new(0, 0), TilePos::new(2, 0), false, &mut status)
        .is_none());
    assert_eq!(SubscriberStatus::Idle, status);

    let path = swim_to_streamer_to_speak(&air, &water, TilePos::new(0, 0), TilePos::new(2, 0), true, &mut status)
        .expect("the air leads to the streamer");
    assert_eq!(vec![0, 3], nodes(&path));
    assert_eq!(SubscriberStatus::Approaching, status);
}

#[test]
fn subscriber_speaks_waits_and_leaves() {
    let message = SubscriberMsg { name: String::from("Fishu"), msg: String::from("'ello Caveman!") };
    let mut status = SubscriberStatus::Approaching;
    assert!(speak_to_streamer_from_subscriber(&message, false, false, &mut status, GameEntityType::Swim)
        .is_none());
    let spoken = speak_to_streamer_from_subscriber(&message, true, false, &mut status, GameEntityType::Swim)
        .expect("the subscriber has arrived");
    assert_eq!("Fishu", spoken.speaker_name);
    assert_eq!("'ello Caveman!", spoken.msg);
    assert_eq!(SubscriberStatus::Speaking, status);

    let typing = typed("Fishu", "'ello Caveman!", GameEntityType::Swim);
    assert!(subscriber_waits_to_leave_from_streamer(status, &typing));
    assert!(!subscriber_waits_to_leave_from_streamer(SubscriberStatus::Approaching, &typing));

    let (_air, water) = water_map();
    let path = leave_from_streamer_from_subscriber(&water, TilePos::new(1, 0), SpawnPoint(TilePos::new(0, 0)), &mut status)
        .expect("the water connects both tiles");
    assert_eq!(vec![3, 0], nodes(&path));
    assert_eq!(SubscriberStatus::Leaving, status);

    return_subscriber_to_idle(&mut status, true, false);
    assert_eq!(SubscriberStatus::Idle, status);
}

#[test]
fn streamer_walks_to_requested_destination() {
    let ground = UndirectedGraph::from_tiles(GraphType::Ground, grid(3, 1));
    let mut destinations = DestinationQueue::new();
    let mut state = StreamerState::Idle;

    // nothing requested
    assert!(move_streamer(&ground, TilePos::new(0, 0), true, false, &mut destinations, &mut state).is_none());

    destinations.push_back(TilePos::new(2, 2));
    // still under way: the request waits
    assert!(move_streamer(&ground, TilePos::new(0, 0), false, false, &mut destinations, &mut state).is_none());
    assert_eq!(1, destinations.len());

    let path = move_streamer(&ground, TilePos::new(0, 0), true, false, &mut destinations, &mut state)
        .expect("level ground connects every tile");
    assert_eq!(Some(&0), path.0.front());
    assert_eq!(Some(&8), path.0.back());
    assert_eq!(5, path.0.len());
    assert_eq!(StreamerState::Moving, state);
    assert!(destinations.is_empty());

    make_streamer_idle_when_not_moving(&mut state, 3, false);
    assert_eq!(StreamerState::Moving, state);
    make_streamer_idle_when_not_moving(&mut state, 0, false);
    assert_eq!(StreamerState::Idle, state);
}

#[test]
fn streamer_online_status_and_speaking() {
    assert_eq!(Some(OnlineStatus::Online), change_status_for_streamer(true, true));
    assert_eq!(Some(OnlineStatus::Away), change_status_for_streamer(false, true));
    assert_eq!(None, change_status_for_streamer(false, false));
    assert_eq!(TilePos::new(41, 49), move_streamer_on_status_change(OnlineStatus::Online));
    assert_eq!(TilePos::new(39, 40), move_streamer_on_status_change(OnlineStatus::Away));
    assert_eq!(TilePos::new(39, 40), streamer_spawn_position());

    let mut state = StreamerState::Idle;
    update_status_when_speaking(ChattingStatus::Speaking(GameEntityType::Fly), &mut state);
    assert_eq!(StreamerState::Idle, state);
    update_status_when_speaking(ChattingStatus::Speaking(GameEntityType::Walk), &mut state);
    assert_eq!(StreamerState::Speaking, state);
}

#[test]
fn fruit_falls_drops_and_respawns() {
    let mut triggers = TriggerQueue::new();
    let mut state = FruitState::Hanging;
    let mut fruit_pos = TilePos::new(2, 5);

    // no request: the fruit hangs on
    assert_eq!(None, make_fruit_fall(fruit_pos, &mut state, &triggers, 10));
    assert_eq!(FruitState::Hanging, state);

    triggers.push_trigger();
    assert_eq!(Some((52, TilePos::new(5, 2))), make_fruit_fall(fruit_pos, &mut state, &triggers, 10));
    assert_eq!(FruitState::Falling, state);
    assert_eq!(None, pathfind_streamer_to_fruit(state, fruit_pos));

    make_fruit_dropped(&mut state, true);
    assert_eq!(FruitState::Falling, state);
    make_fruit_dropped(&mut state, false);
    assert_eq!(FruitState::Dropped, state);

    fruit_pos = TilePos::new(5, 2);
    assert_eq!(Some(fruit_pos), pathfind_streamer_to_fruit(state, fruit_pos));

    // the streamer is elsewhere
    assert!(!respawn_fruit(&mut state, &mut fruit_pos, TilePos::new(2, 5), TilePos::new(0, 0), &mut triggers));
    assert!(respawn_fruit(&mut state, &mut fruit_pos, TilePos::new(2, 5), TilePos::new(5, 2), &mut triggers));
    assert_eq!(FruitState::Hanging, state);
    assert_eq!(TilePos::new(2, 5), fruit_pos);
    assert!(triggers.is_empty());
}

#[test]
fn fruit_sounds() {
    assert_eq!(Some("sfx/fruit_dropped.wav"), play_sound_for_fruit(FruitState::Falling));
    assert_eq!(Some("sfx/fruit_pickedup.wav"), play_sound_for_fruit(FruitState::Hanging));
    assert_eq!(None, play_sound_for_fruit(FruitState::Dropped));
}

#[test]
fn random_fruit_gets_request_on_key() {
    let mut queues = vec![TriggerQueue::new(), TriggerQueue::new(), TriggerQueue::new()];
    let picked = drop_random_fruit_on_f_key(&mut queues, false).expect("fruit exists");
    assert!(picked < 3);
    assert!(queues.iter().all(|q| q.is_empty()));

    let picked = drop_random_fruit_on_f_key(&mut queues, true).expect("fruit exists");
    for (i, queue) in queues.iter().enumerate() {
        assert_eq!(i != picked, queue.is_empty());
    }
    assert_eq!(None, drop_random_fruit_on_f_key(&mut Vec::new(), true));
}

#[test]
fn crop_grows_through_stages_and_is_harvested() {
    let end = CropEndIdx::for_start(10);
    assert_eq!(16, end.idx());
    let mut triggers = TriggerQueue::new();
    let mut state = CropState::Growing;
    let mut sprite = 10;

    assert!(!grow_crops(&mut triggers, &mut state, &mut sprite, end));
    for stage in 1..=6 {
        triggers.push_trigger();
        assert!(grow_crops(&mut triggers, &mut state, &mut sprite, end));
        assert_eq!(10 + stage, sprite);
        let expected = if stage == 6 { CropState::Grown } else { CropState::Growing };
        assert_eq!(expected, state);
    }
    // a grown crop grows no further
    triggers.push_trigger();
    assert!(!grow_crops(&mut triggers, &mut state, &mut sprite, end));
    assert_eq!(16, sprite);

    let crop_pos = TilePos::new(3, 4);
    assert_eq!(Some(crop_pos), pathfind_streamer_to_crops(state, crop_pos));
    assert!(!pick_up_crops(&mut state, &mut sprite, crop_pos, TilePos::new(0, 0)));
    assert!(pick_up_crops(&mut state, &mut sprite, crop_pos, crop_pos));
    assert_eq!(CropState::Growing, state);
    assert_eq!(10, sprite);
    assert_eq!(None, pathfind_streamer_to_crops(state, crop_pos));
}

#[test]
fn random_crop_gets_request_on_key() {
    let mut queues = vec![TriggerQueue::new(), TriggerQueue::new()];
    let picked = grow_crop_on_c_key(&mut queues, true).expect("crops exist");
    assert!(!queues[picked].is_empty());
    assert!(queues[1 - picked].is_empty());
}

#[test]
fn chatter_queue_keeps_arrival_order() {
    let mut queue = ChatMessageQueue::new();
    add_chat_msg_to_queue(&mut queue, vec![chat_msg("Bob", "one"), chat_msg("Alice", "two")]);
    add_chat_msg_to_queue(&mut queue, vec![chat_msg("Bob", "three")]);
    assert_eq!(3, queue.len());
    assert_eq!("one", queue.pop_front().unwrap().msg);
    assert_eq!("two", queue.pop_front().unwrap().msg);
    assert_eq!("three", queue.pop_front().unwrap().msg);
    assert!(queue.pop_front().is_none());
}

#[test]
fn keys_send_test_messages() {
    assert!(trigger_flying_to_streamer(false).is_none());
    let chat_msg = trigger_flying_to_streamer(true).expect("the key is pressed");
    assert_eq!("Bob", chat_msg.name);
    assert_eq!(LONG_CHAT_MSG, chat_msg.msg);
    assert!(chat_msg.msg.starts_with("So, if you're learning a subject of math"));

    assert!(trigger_swimming_to_streamer(false).is_none());
    let subscriber_msg = trigger_swimming_to_streamer(true).expect("the key is pressed");
    assert_eq!("Fishu", subscriber_msg.name);
    assert_eq!("'ello Caveman!", subscriber_msg.msg);
}

#[test]
fn streamer_destinations_queue_in_order() {
    let mut destinations = DestinationQueue::new();
    queue_destination_for_streamer(&mut destinations, vec![TilePos::new(1, 2), TilePos::new(3, 4)]);
    queue_destination_for_streamer(&mut destinations, vec![TilePos::new(5, 6)]);
    assert_eq!(3, destinations.len());
    assert_eq!(Some(TilePos::new(1, 2)), destinations.pop_front());
    assert_eq!(Some(TilePos::new(3, 4)), destinations.pop_front());
    assert_eq!(Some(TilePos::new(5, 6)), destinations.pop_front());
    assert_eq!(None, destinations.pop_front());
}

use task_masker::entities::GameEntityType;
use task_masker::ui::chatting::{
    chat_header, load_msg_into_queue, load_queued_msg_into_textfield, play_typing_noise, priority_rank, teletype_current_message,
    unload_msg_on_timeup, ChattingStatus, MessageQueue, Msg, MsgPriority, TypingMsg,
};

fn msg(name: &str, text: &str, role: GameEntityType) -> Msg {
    Msg::new(String::from(name), String::from(text), role)
}

#[test]
fn streamer_messages_have_high_priority() {
    assert_eq!(MsgPriority::High, msg("divarktech", "hi", GameEntityType::Walk).priority());
    assert_eq!(MsgPriority::Low, msg("Bob", "hi", GameEntityType::Fly).priority());
    assert_eq!(MsgPriority::Low, msg("Fishu", "hi", GameEntityType::Swim).priority());
    assert_eq!(MsgPriority::Low, msg("fire", "crackle", GameEntityType::Environment).priority());
    assert_eq!(2, priority_rank(MsgPriority::High));
    assert_eq!(1, priority_rank(MsgPriority::Medium));
    assert_eq!(0, priority_rank(MsgPriority::Low));
}

#[test]
fn streamer_message_shown_before_earlier_ones() {
    let mut queue = MessageQueue::new();
    assert!(queue.is_empty());
    assert!(queue.peek().is_none());
    queue.push(msg("Bob", "first", GameEntityType::Fly));
    queue.push(msg("Fishu", "second", GameEntityType::Swim));
    queue.push(msg("divarktech", "third", GameEntityType::Walk));
    assert_eq!(3, queue.len());

    assert_eq!("third", queue.peek().unwrap().msg);
    assert_eq!("third", queue.pop().unwrap().msg);
    assert_eq!("first", queue.pop().unwrap().msg);
    assert_eq!("second", queue.pop().unwrap().msg);
    assert!(queue.pop().is_none());
    assert_eq!(0, queue.len());
}

#[test]
fn loaded_message_starts_untyped() {
    let mut queue = MessageQueue::new();
    assert!(load_queued_msg_into_textfield(&queue).is_none());
    queue.push(msg("Bob", "hey", GameEntityType::Fly));
    let (typing, status) = load_queued_msg_into_textfield(&queue).expect("a message waits");
    assert_eq!(ChattingStatus::Speaking(GameEntityType::Fly), status);
    assert_eq!(0, typing.idx());
    assert!(!typing.at_end());
    assert_eq!(GameEntityType::Fly, typing.speaker_role());
    assert_eq!("Bob", typing.speaker_name().as_str());
    // loading leaves the message in the queue
    assert_eq!(1, queue.len());
}

#[test]
fn teletype_reveals_one_section_at_a_time() {
    let mut typing = TypingMsg::new(msg("Bob", "ab c", GameEntityType::Fly));
    assert_eq!(Some(1), teletype_current_message(&mut typing));
    assert_eq!(Some(2), teletype_current_message(&mut typing));
    assert_eq!(Some(3), teletype_current_message(&mut typing));
    assert_eq!(Some(4), teletype_current_message(&mut typing));
    assert!(typing.at_end());
    assert_eq!(None, teletype_current_message(&mut typing));
    assert_eq!(4, typing.idx());
}

#[test]
fn typing_stops_at_end_of_message() {
    let mut typing = TypingMsg::new(msg("Bob", "hi", GameEntityType::Fly));
    for _ in 0..5 {
        typing.to_next_char();
    }
    assert_eq!(2, typing.idx());
    assert!(typing.at_end());
}

#[test]
fn message_length_counts_characters() {
    // a thumbs-up takes four bytes but is one character
    let mut typing = TypingMsg::new(msg("A", "\u{1F44D}a", GameEntityType::Walk));
    typing.to_next_char();
    assert!(!typing.at_end());
    typing.to_next_char();
    assert_eq!(2, typing.idx());
    assert!(typing.at_end());
    typing.to_next_char();
    assert_eq!(2, typing.idx());
    assert_eq!(None, teletype_current_message(&mut typing));
}

#[test]
fn header_names_speaker() {
    assert_eq!("Bob:\n", chat_header("Bob"));
    assert_eq!(":\n", chat_header(""));
}

#[test]
fn spaces_are_typed_silently() {
    assert!(!play_typing_noise(" "));
    assert!(play_typing_noise("a"));
    assert!(play_typing_noise("  "));
}

#[test]
fn shown_message_leaves_queue() {
    let mut queue = MessageQueue::new();
    queue.push(msg("Bob", "one", GameEntityType::Fly));
    queue.push(msg("divarktech", "two", GameEntityType::Walk));
    let mut status = ChattingStatus::Speaking(GameEntityType::Walk);
    unload_msg_on_timeup(&mut queue, &mut status);
    assert_eq!(ChattingStatus::Idle, status);
    assert_eq!(1, queue.len());
    assert_eq!("one", queue.peek().unwrap().msg);

    let mut empty = MessageQueue::new();
    let mut status = ChattingStatus::Speaking(GameEntityType::Fly);
    unload_msg_on_timeup(&mut empty, &mut status);
    assert_eq!(ChattingStatus::Idle, status);
    assert!(empty.is_empty());
}

#[test]
fn received_messages_join_queue_in_order() {
    let mut queue = MessageQueue::new();
    queue.push(msg("Bob", "one", GameEntityType::Fly));
    load_msg_into_queue(
        &mut queue,
        vec![msg("Alice", "two", GameEntityType::Fly), msg("Fishu", "three", GameEntityType::Swim)],
    );
    assert_eq!(3, queue.len());
    assert_eq!("one", queue.pop().unwrap().msg);
    assert_eq!("two", queue.pop().unwrap().msg);
    assert_eq!("three", queue.pop().unwrap().msg);
    load_msg_into_queue(&mut queue, Vec::new());
    assert!(queue.is_empty());
}

use task_masker::chat_interactions::twitch_chat_reader::{
    convert_notification_to_msg, Notification, NotificationType, TwitchPrivmsg, TwitchRole,
    CHANNEL_NAME,
};

fn privmsg(sender: &str, text: &str, badges: usize) -> Notification {
    Notification::new(Some(TwitchPrivmsg {
        sender_name: String::from(sender),
        message_text: String::from(text),
        badge_count: badges,
    }))
}

#[test]
fn roles_from_sender_and_badges() {
    assert_eq!(
        Some(NotificationType::Msg(TwitchRole::Streamer)),
        privmsg(CHANNEL_NAME, "hello chat", 3).msg_type()
    );
    assert_eq!(
        Some(NotificationType::Msg(TwitchRole::Subscriber)),
        privmsg("Fishu", "'ello Caveman!", 1).msg_type()
    );
    assert_eq!(
        Some(NotificationType::Msg(TwitchRole::Chatter)),
        privmsg("Bob", "hi", 0).msg_type()
    );
    assert_eq!(None, Notification::new(None).msg_type());
}

#[test]
fn chat_message_carries_sender_and_text() {
    let notification = privmsg("Bob", "hi there", 0);
    let chat_msg = notification.as_chat_msg().expect("a chat message");
    assert_eq!("Bob", chat_msg.name);
    assert_eq!("hi there", chat_msg.msg);
    let subscriber_msg = notification.as_subscriber_msg().expect("a chat message");
    assert_eq!("Bob", subscriber_msg.name);
    assert_eq!("hi there", subscriber_msg.msg);
    assert!(Notification::new(None).as_chat_msg().is_none());
    assert!(Notification::new(None).as_subscriber_msg().is_none());
}

#[test]
fn chatter_message_passed_on_once() {
    let (chat_msg, subscriber_msg) = convert_notification_to_msg(&privmsg("Bob", "hi", 0));
    let chat_msg = chat_msg.expect("a chat message");
    assert_eq!("Bob", chat_msg.name);
    assert_eq!("hi", chat_msg.msg);
    assert!(subscriber_msg.is_none());
}

#[test]
fn subscriber_message_goes_to_subscribers_only() {
    let (chat_msg, subscriber_msg) =
        convert_notification_to_msg(&privmsg("Fishu", "'ello Caveman!", 2));
    assert!(chat_msg.is_none());
    let subscriber_msg = subscriber_msg.expect("a subscriber message");
    assert_eq!("Fishu", subscriber_msg.name);
    assert_eq!("'ello Caveman!", subscriber_msg.msg);
}

#[test]
fn other_server_messages_dropped() {
    let (chat_msg, subscriber_msg) = convert_notification_to_msg(&Notification::new(None));
    assert!(chat_msg.is_none());
    assert!(subscriber_msg.is_none());
}

use vstd::prelude::*;

use crate::entities::chatter::ChatMsg;
use crate::entities::subscriber::SubscriberMsg;

verus! {

/// The Twitch channel of the streamer.
pub const CHANNEL_NAME: &'static str = "divarktech";

/// Represents a chatter's role sending
/// messages from Twitch.
#[derive(Debug, PartialEq, Eq, Clone, Copy, Structural)]
pub enum TwitchRole {
    Chatter,
    Subscriber,
    Streamer,
}

/// Represents the different type of
/// Twitch events for some Notification.
#[derive(Debug, PartialEq, Eq, Clone, Copy, Structural)]
pub enum NotificationType {
    Msg(TwitchRole),
}

/// What the game reads of a chat message sent to the channel: who sent it,
/// what it says, and how many badges the sender wears.
#[derive(Debug, Clone, PartialEq, Eq)]
pub struct TwitchPrivmsg {
    pub sender_name: String,
    pub message_text: String,
    pub badge_count: usize,
}

/// A Message found from Twitch that has not been parsed
/// yet: a chat message, or None for any other message of the server.
pub struct Notification {
    msg: Option<TwitchPrivmsg>,
}

/// The sender of a chat message is the streamer.
pub open spec fn sent_by_streamer(chat_msg: TwitchPrivmsg) -> bool {
    chat_msg.sender_name@ == CHANNEL_NAME@
}

/// A chat message is the streamer's exactly when its sender's name is the
/// channel's name, whatever the sender wears: badges make a subscriber of
/// anyone else, never the streamer.
pub proof fn lemma_streamer_is_the_channel(chat_msg: TwitchPrivmsg)
    ensures
        sent_by_streamer(chat_msg) <==> chat_msg.sender_name@ == CHANNEL_NAME@,
        forall|badges: usize|
            sent_by_streamer(TwitchPrivmsg { badge_count: badges, ..chat_msg }) == sent_by_streamer(chat_msg),
{
}

impl Notification {
    /// The chat message the notification carries, if it is one.
    pub closed spec fn spec_msg(&self) -> Option<TwitchPrivmsg> {
        self.msg
    }

    pub fn new(chat_msg: Option<TwitchPrivmsg>) -> (notification: Notification)
        ensures
            notification.spec_msg() == chat_msg,
    {
        Self { msg: chat_msg }
    }

    /// Converts the contents of the Notification into
    /// a Msg if possible, or returns None otherwise.
    pub fn as_chat_msg(&self) -> (chat_msg: Option<ChatMsg>)
        ensures
            chat_msg is None <==> self.spec_msg() is None,
            chat_msg matches Some(m) ==> {
                &&& m.name@ == self.spec_msg()->0.sender_name@
                &&& m.msg@ == self.spec_msg()->0.message_text@
            },
    {
        match &self.msg {
            Some(current_msg) => Some(
                ChatMsg { name: current_msg.sender_name.clone(), msg: current_msg.message_text.clone() },
            ),
            None => None,
        }
    }

    /// Converts the contents of the Notification into a
    /// SubscriberMsg if possible, or returns None otherwise.
    pub fn as_subscriber_msg(&self) -> (subscriber_msg: Option<SubscriberMsg>)
        ensures
            subscriber_msg is None <==> self.spec_msg() is None,
            subscriber_msg matches Some(m) ==> {
                &&& m.name@ == self.spec_msg()->0.sender_name@
                &&& m.msg@ == self.spec_msg()->0.message_text@
            },
    {
        match &self.msg {
            Some(current_msg) => Some(
                SubscriberMsg {
                    name: current_msg.sender_name.clone(),
                    msg: current_msg.message_text.clone(),
                },
            ),
            None => None,
        }
    }

    /// Returns the type of chat message that was captured
    /// from Twitch: the streamer's own, a subscriber's (a sender with
    /// badges), or a chatter's.
    pub fn msg_type(&self) -> (found: Option<NotificationType>)
        ensures
            found == match self.spec_msg() {
                None => None,
                Some(m) => Some(
                    NotificationType::Msg(
                        if sent_by_streamer(m) {
                            TwitchRole::Streamer
                        } else if m.badge_count > 0 {
                            TwitchRole::Subscriber
                        } else {
                            TwitchRole::Chatter
                        },
                    ),
                ),
            },
            self.spec_msg() matches Some(m) ==> (found == Some(NotificationType::Msg(TwitchRole::Streamer))
                <==> m.sender_name@ == CHANNEL_NAME@),
            self.spec_msg() matches Some(m) ==> (m.sender_name@ != CHANNEL_NAME@ && m.badge_count > 0 ==> found
                == Some(NotificationType::Msg(TwitchRole::Subscriber))),
            self.spec_msg() matches Some(m) ==> (m.sender_name@ != CHANNEL_NAME@ && m.badge_count == 0 ==> found
                == Some(NotificationType::Msg(TwitchRole::Chatter))),
    {
        proof {
            if let Some(m) = self.spec_msg() {
                lemma_streamer_is_the_channel(m);
            }
        }
        match &self.msg {
            None => None,
            Some(current_msg) => {
                let channel = CHANNEL_NAME.to_owned();
                if current_msg.sender_name == channel {
                    return Some(NotificationType::Msg(TwitchRole::Streamer));
                }
                let is_subscriber = current_msg.badge_count > 0;
                if is_subscriber {
                    return Some(NotificationType::Msg(TwitchRole::Subscriber));
                }
                Some(NotificationType::Msg(TwitchRole::Chatter))
            },
        }
    }
}

/// Converts a notification from Twitch into the message it makes the game
/// show: a chatter's chat message goes to the chatters, a subscriber's to the
/// subscribers, and anything else is dropped. The streamer's own messages are
/// not handled.
pub fn convert_notification_to_msg(notification: &Notification) -> (converted: (
    Option<ChatMsg>,
    Option<SubscriberMsg>,
))
    requires
        notification.spec_msg() matches Some(m) ==> !sent_by_streamer(m),
    ensures
        notification.spec_msg() is None ==> converted.0 is None && converted.1 is None,
        notification.spec_msg() matches Some(m) ==> {
            &&& (m.badge_count == 0) == (converted.0 is Some)
            &&& (m.badge_count > 0) == (converted.1 is Some)
            &&& converted.0 matches Some(c) ==> c.name@ == m.sender_name@ && c.msg@ == m.message_text@
            &&& converted.1 matches Some(s) ==> s.name@ == m.sender_name@ && s.msg@ == m.message_text@
        },
{
    match notification.msg_type() {
        Some(NotificationType::Msg(TwitchRole::Chatter)) => (notification.as_chat_msg(), None),
        Some(NotificationType::Msg(TwitchRole::Subscriber)) => (None, notification.as_subscriber_msg()),
        _ => (None, None),
    }
}

} // verus!

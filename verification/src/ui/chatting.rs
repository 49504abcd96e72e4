use vstd::prelude::*;

use crate::entities::GameEntityType;
use vstd::string::StrSliceExecFns;

verus! {

/// Whether the chat box is showing a message, and whose.
#[derive(Debug, PartialEq, Eq, Clone, Copy, Structural)]
pub enum ChattingStatus {
    Idle,
    Speaking(GameEntityType),
}

/// How urgently a message should be shown.
#[derive(Debug, Clone, Copy, PartialEq, Eq, PartialOrd, Ord, Structural)]
pub enum MsgPriority {
    Low,
    Medium,
    High,
}

/// The rank of a priority: higher ranks are shown first.
pub open spec fn rank(priority: MsgPriority) -> int {
    match priority {
        MsgPriority::Low => 0,
        MsgPriority::Medium => 1,
        MsgPriority::High => 2,
    }
}

/// The rank of a priority, computed.
pub fn priority_rank(priority: MsgPriority) -> (r: u8)
    ensures
        r == rank(priority),
{
    match priority {
        MsgPriority::Low => 0,
        MsgPriority::Medium => 1,
        MsgPriority::High => 2,
    }
}

/// The priority a speaker's messages get: the streamer's come first.
pub open spec fn priority_for(role: GameEntityType) -> MsgPriority {
    match role {
        GameEntityType::Walk => MsgPriority::High,
        _ => MsgPriority::Low,
    }
}

/// A chat message waiting to be shown, with who said it.
#[derive(Debug, Clone, PartialEq, Eq)]
pub struct Msg {
    pub speaker_name: String,
    pub msg: String,
    pub speaker_role: GameEntityType,
    speaker_priority: MsgPriority,
}

impl Msg {
    pub closed spec fn spec_priority(&self) -> MsgPriority {
        self.speaker_priority
    }

    /// Who said the message.
    pub closed spec fn spec_speaker(&self) -> Seq<char> {
        self.speaker_name@
    }

    /// What was said.
    pub closed spec fn spec_text(&self) -> Seq<char> {
        self.msg@
    }

    /// The kind of entity that said it.
    pub closed spec fn spec_role(&self) -> GameEntityType {
        self.speaker_role
    }

    pub fn new(speaker_name: String, speaker_msg: String, speaker_role: GameEntityType) -> (msg: Msg)
        ensures
            msg.spec_speaker() == speaker_name@,
            msg.spec_text() == speaker_msg@,
            msg.spec_role() == speaker_role,
            msg.spec_priority() == priority_for(speaker_role),
    {
        let speaker_priority = match speaker_role {
            GameEntityType::Walk => MsgPriority::High,
            _ => MsgPriority::Low,
        };

        Msg { speaker_name, msg: speaker_msg, speaker_role, speaker_priority }
    }

    /// The priority the message is shown with.
    pub fn priority(&self) -> (priority: MsgPriority)
        ensures
            priority == self.spec_priority(),
    {
        self.speaker_priority
    }
}

/// The position of the message to show next: the earliest of those with the
/// highest priority. `None` for an empty queue.
pub open spec fn top_index(msgs: Seq<Msg>) -> int
    decreases msgs.len(),
{
    if msgs.len() <= 1 {
        0
    } else {
        let rest = top_index(msgs.drop_last());
        if rank(msgs.last().spec_priority()) > rank(msgs[rest].spec_priority()) {
            msgs.len() - 1
        } else {
            rest
        }
    }
}

/// The top message: a valid index whose priority no message beats, and
/// that every message before it has a lower priority than.
pub proof fn lemma_top_index(msgs: Seq<Msg>)
    requires
        msgs.len() > 0,
    ensures
        0 <= top_index(msgs) < msgs.len(),
        forall|i: int|
            0 <= i < msgs.len() ==> rank(#[trigger] msgs[i].spec_priority()) <= rank(
                msgs[top_index(msgs)].spec_priority(),
            ),
        forall|i: int|
            0 <= i < top_index(msgs) ==> rank(#[trigger] msgs[i].spec_priority()) < rank(
                msgs[top_index(msgs)].spec_priority(),
            ),
    decreases msgs.len(),
{
    if msgs.len() > 1 {
        let init = msgs.drop_last();
        lemma_top_index(init);
        assert forall|i: int| 0 <= i < init.len() implies msgs[i] == init[i] by {}
    }
}

/// A Priority Queue that ensures that a Streamer's messages
/// are always seen right away.
pub struct MessageQueue(Vec<Msg>);

impl MessageQueue {
    /// The waiting messages, in the order they arrived.
    pub closed spec fn pending(&self) -> Seq<Msg> {
        self.0@
    }

    pub fn new() -> (queue: MessageQueue)
        ensures
            queue.pending() == Seq::<Msg>::empty(),
    {
        MessageQueue(Vec::new())
    }

    pub fn len(&self) -> (len: usize)
        ensures
            len == self.pending().len(),
    {
        self.0.len()
    }

    pub fn is_empty(&self) -> (empty: bool)
        ensures
            empty == (self.pending().len() == 0),
    {
        self.0.len() == 0
    }

    /// Adds a recently captured message.
    pub fn push(&mut self, msg: Msg)
        ensures
            final(self).pending() == old(self).pending().push(msg),
    {
        self.0.push(msg);
    }

    fn top_position(&self) -> (pos: usize)
        requires
            self.pending().len() > 0,
        ensures
            pos == top_index(self.pending()),
            pos < self.pending().len(),
    {
        let ghost msgs = self.0@;
        let mut best: usize = 0;
        let mut i: usize = 1;
        while i < self.0.len()
            invariant
                msgs == self.0@,
                1 <= i <= msgs.len(),
                best == top_index(msgs.subrange(0, i as int)),
                best < i,
            decreases msgs.len() - i,
        {
            let ghost prefix = msgs.subrange(0, i as int + 1);
            proof {
                assert(prefix.drop_last() =~= msgs.subrange(0, i as int));
                assert(prefix[best as int] == msgs[best as int]);
                assert(prefix.last() == msgs[i as int]);
            }
            if priority_rank(self.0[i].priority()) > priority_rank(self.0[best].priority()) {
                best = i;
            }
            i = i + 1;
        }
        proof {
            assert(msgs.subrange(0, msgs.len() as int) =~= msgs);
            lemma_top_index(msgs);
        }
        best
    }

    /// Returns the message to show next, if any: one of the highest priority,
    /// the earliest of those.
    pub fn peek(&self) -> (next: Option<&Msg>)
        ensures
            next is None <==> self.pending().len() == 0,
            next matches Some(m) ==> *m == self.pending()[top_index(self.pending())],
    {
        if self.0.len() == 0 {
            None
        } else {
            let pos = self.top_position();
            Some(&self.0[pos])
        }
    }

    /// Removes the message shown and returns it.
    pub fn pop(&mut self) -> (shown: Option<Msg>)
        ensures
            shown is None <==> old(self).pending().len() == 0,
            old(self).pending().len() == 0 ==> final(self).pending() == old(self).pending(),
            shown matches Some(m) ==> {
                &&& m == old(self).pending()[top_index(old(self).pending())]
                &&& final(self).pending() == old(self).pending().remove(
                    top_index(old(self).pending()),
                )
            },
    {
        if self.0.len() == 0 {
            None
        } else {
            let pos = self.top_position();
            Some(self.0.remove(pos))
        }
    }
}

/// Adds recently captured messages into the pending messages queue, in the
/// order they arrived.
pub fn load_msg_into_queue(pending_messages: &mut MessageQueue, received: Vec<Msg>)
    ensures
        final(pending_messages).pending() == old(pending_messages).pending() + received@,
{
    let mut received = received;
    let ghost all = received@;
    while received.len() > 0
        invariant
            pending_messages.pending() + received@ == old(pending_messages).pending() + all,
        decreases received@.len(),
    {
        let ghost before = received@;
        let received_msg = received.remove(0);
        pending_messages.push(received_msg);
        proof {
            assert(pending_messages.pending() + received@ =~= old(pending_messages).pending() + all) by {
                assert(before =~= seq![received_msg] + received@);
            }
        }
    }
    proof {
        assert(received@ =~= Seq::<Msg>::empty());
        assert(pending_messages.pending() + received@ =~= pending_messages.pending());
    }
}

/// The message a queue shows next has the highest priority of all waiting
/// messages; a message of the streamer is shown before any other.
pub proof fn lemma_streamer_messages_first(msgs: Seq<Msg>)
    requires
        msgs.len() > 0,
        forall|i: int|
            0 <= i < msgs.len() ==> #[trigger] msgs[i].spec_priority() == priority_for(
                msgs[i].spec_role(),
            ),
    ensures
        0 <= top_index(msgs) < msgs.len(),
        forall|i: int|
            0 <= i < msgs.len() ==> rank(#[trigger] msgs[i].spec_priority()) <= rank(
                msgs[top_index(msgs)].spec_priority(),
            ),
        (exists|i: int| 0 <= i < msgs.len() && msgs[i].spec_role() == GameEntityType::Walk)
            ==> msgs[top_index(msgs)].spec_role() == GameEntityType::Walk,
{
    lemma_top_index(msgs);
    if exists|i: int| 0 <= i < msgs.len() && msgs[i].spec_role() == GameEntityType::Walk {
        let i = choose|i: int| 0 <= i < msgs.len() && msgs[i].spec_role() == GameEntityType::Walk;
        assert(rank(msgs[i].spec_priority()) == 2);
        assert(msgs[top_index(msgs)].spec_priority() == priority_for(msgs[top_index(msgs)].spec_role()));
    }
}

/// The number of characters of a text: each is typed, and shown, on its own.
pub open spec fn char_len(text: Seq<char>) -> int {
    text.len() as int
}

/// A message being typed into the chat box one character at a time.
pub struct TypingMsg {
    msg: Msg,
    msg_idx: usize,
}

impl TypingMsg {
    /// The typing position never passes the end of the message.
    #[verifier::type_invariant]
    spec fn within_msg(self) -> bool {
        self.msg_idx <= char_len(self.msg.msg@)
    }

    pub closed spec fn spec_msg(&self) -> Msg {
        self.msg
    }

    /// How far the message has been typed.
    pub closed spec fn spec_idx(&self) -> usize {
        self.msg_idx
    }

    pub fn new(msg_contents: Msg) -> (typing: TypingMsg)
        ensures
            typing.spec_msg() == msg_contents,
            typing.spec_idx() == 0,
    {
        Self { msg: msg_contents, msg_idx: 0 }
    }

    /// Returns the Entity's type for the currently
    /// loaded message.
    pub fn speaker_role(&self) -> (role: GameEntityType)
        ensures
            role == self.spec_msg().spec_role(),
    {
        self.msg.speaker_role
    }

    /// The name of who is speaking.
    pub fn speaker_name(&self) -> (name: &String)
        ensures
            name@ == self.spec_msg().spec_speaker(),
    {
        &self.msg.speaker_name
    }

    /// Returns whether the read message is at the last
    /// character or not.
    pub fn at_end(&self) -> (done: bool)
        ensures
            done == (self.spec_idx() == char_len(self.spec_msg().spec_text())),
            char_len(self.spec_msg().spec_text()) <= usize::MAX,
    {
        self.msg_idx == self.msg.msg.as_str().unicode_len()
    }

    /// Returns the index of the current character within
    /// the message.
    pub fn idx(&self) -> (idx: usize)
        ensures
            idx == self.spec_idx(),
            idx <= char_len(self.spec_msg().spec_text()),
    {
        proof {
            use_type_invariant(self);
        }
        self.msg_idx
    }

    /// Adjusts the index to point to the next character within
    /// the message, unless the end has been reached.
    pub fn to_next_char(&mut self)
        ensures
            final(self).spec_msg() == old(self).spec_msg(),
            final(self).spec_idx() == if old(self).spec_idx() < char_len(old(self).spec_msg().spec_text()) {
                old(self).spec_idx() + 1
            } else {
                old(self).spec_idx() as int
            },
            final(self).spec_idx() <= char_len(final(self).spec_msg().spec_text()),
    {
        proof {
            use_type_invariant(&*self);
        }
        let len = self.msg.msg.as_str().unicode_len();
        if self.msg_idx >= len {
            return;
        }
        self.msg_idx = self.msg_idx + 1;
    }
}

/// The index after `steps` calls of `to_next_char` from `start`, in a
/// message of `len` characters.
pub open spec fn typed_after(start: int, len: int, steps: nat) -> int
    decreases steps,
{
    if steps == 0 {
        start
    } else {
        let before = typed_after(start, len, (steps - 1) as nat);
        if before < len {
            before + 1
        } else {
            before
        }
    }
}

/// Typing never runs past the end of a message, and a freshly loaded message
/// is fully typed after as many steps as it has characters.
pub proof fn lemma_typing_reaches_end(len: nat, steps: nat)
    ensures
        typed_after(0, len as int, steps) == if steps <= len {
            steps as int
        } else {
            len as int
        },
    decreases steps,
{
    if steps > 0 {
        lemma_typing_reaches_end(len, (steps - 1) as nat);
    }
}

/// The chat box shows the next queued message when it shows none: the typing
/// state for it and the status naming its speaker.
pub fn load_queued_msg_into_textfield(pending_msgs: &MessageQueue) -> (loaded: Option<(TypingMsg, ChattingStatus)>)
    ensures
        loaded is None <==> pending_msgs.pending().len() == 0,
        loaded matches Some((typing, status)) ==> {
            &&& typing.spec_msg() == pending_msgs.pending()[top_index(pending_msgs.pending())]
            &&& typing.spec_idx() == 0
            &&& status == ChattingStatus::Speaking(typing.spec_msg().spec_role())
        },
{
    match pending_msgs.peek() {
        None => None,
        Some(recent_msg) => {
            let status = ChattingStatus::Speaking(recent_msg.speaker_role);
            let shown = Msg {
                speaker_name: recent_msg.speaker_name.clone(),
                msg: recent_msg.msg.clone(),
                speaker_role: recent_msg.speaker_role,
                speaker_priority: recent_msg.speaker_priority,
            };
            Some((TypingMsg::new(shown), status))
        },
    }
}

/// The first text section of the chat box: the speaker's name, a colon and
/// a line break.
pub fn chat_header(speaker_name: &str) -> (header: String)
    ensures
        header@ == speaker_name@ + seq![':', '\n'],
{
    let mut header = speaker_name.to_owned();
    header.append(":\n");
    proof {
        reveal_strlit(":\n");
    }
    header
}

/// Reveals the next character of the message being typed: returns the index
/// of the text section to show (the sections after the speaker's name hold
/// the characters) and moves on, or None when the message is fully typed.
pub fn teletype_current_message(typing_msg: &mut TypingMsg) -> (revealed: Option<usize>)
    ensures
        old(typing_msg).spec_idx() == char_len(old(typing_msg).spec_msg().spec_text()) ==> {
            &&& revealed is None
            &&& *final(typing_msg) == *old(typing_msg)
        },
        old(typing_msg).spec_idx() != char_len(old(typing_msg).spec_msg().spec_text()) ==> {
            &&& revealed == Some((old(typing_msg).spec_idx() + 1) as usize)
            &&& final(typing_msg).spec_msg() == old(typing_msg).spec_msg()
            &&& final(typing_msg).spec_idx() == old(typing_msg).spec_idx() + 1
        },
{
    if typing_msg.at_end() {
        return None;
    }
    let idx = typing_msg.idx();
    let section = idx + 1;
    typing_msg.to_next_char();
    Some(section)
}

/// Whether revealing a character makes the typing noise: spaces are typed silently.
pub fn play_typing_noise(revealed_text: &str) -> (noise: bool)
    ensures
        noise == (revealed_text@ != " "@),
{
    let space = " ".to_owned();
    let text = revealed_text.to_owned();
    !(text == space)
}

/// Once a message has waited its time, it leaves the queue and the chat box
/// goes idle.
pub fn unload_msg_on_timeup(pending_msgs: &mut MessageQueue, chatting_status: &mut ChattingStatus)
    ensures
        old(pending_msgs).pending().len() == 0 ==> final(pending_msgs).pending() == old(
            pending_msgs,
        ).pending(),
        old(pending_msgs).pending().len() > 0 ==> final(pending_msgs).pending() == old(
            pending_msgs,
        ).pending().remove(top_index(old(pending_msgs).pending())),
        *final(chatting_status) == ChattingStatus::Idle,
{
    let _shown = pending_msgs.pop();
    *chatting_status = ChattingStatus::Idle;
}

} // verus!

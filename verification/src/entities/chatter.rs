use vstd::prelude::*;
use std::collections::VecDeque;

use crate::entities::streamer::StreamerState;
use crate::entities::GameEntityType;
use crate::map::path_finding::{
    graph_route, grid_index, idx_to_tilepos, in_graph, node_of, reachable, route_of, shortest_route,
    tilepos_to_idx, Path,
    SpawnPoint, TilePos, UndirectedGraph,
};
use crate::ui::chatting::{char_len, priority_for, Msg, TypingMsg};

verus! {

/// The layer of the map the chatter's tile is placed on.
pub const CHATTER_LAYER_NUM: usize = 19;

/// How many tiles away from the streamer a chatter stays.
pub const DIST_AWAY_FROM_STREAMER: usize = 2;

/// What a chatter is doing.
#[derive(Debug, PartialEq, Eq, Clone, Copy, Structural)]
pub enum ChatterStatus {
    Idle,
    Approaching,
    Speaking,
    Leaving,
}

/// A message of the chat, with the name of who wrote it.
#[derive(Debug, Clone, PartialEq, Eq)]
pub struct ChatMsg {
    pub name: String,
    pub msg: String,
}

/// The chat messages a chatter still has to say, oldest first.
pub struct ChatMessageQueue(VecDeque<ChatMsg>);

impl ChatMessageQueue {
    /// The waiting messages, oldest first.
    pub closed spec fn pending(&self) -> Seq<ChatMsg> {
        self.0@
    }

    pub fn new() -> (queue: ChatMessageQueue)
        ensures
            queue.pending() == Seq::<ChatMsg>::empty(),
    {
        ChatMessageQueue(VecDeque::new())
    }

    /// Adds a recently broadcasted chat message behind the waiting ones.
    pub fn push_back(&mut self, chat_msg: ChatMsg)
        ensures
            final(self).pending() == old(self).pending().push(chat_msg),
    {
        self.0.push_back(chat_msg);
    }

    /// Takes the oldest waiting message, if any.
    pub fn pop_front(&mut self) -> (chat_msg: Option<ChatMsg>)
        ensures
            old(self).pending().len() == 0 ==> chat_msg is None && final(self).pending() == old(
                self,
            ).pending(),
            old(self).pending().len() > 0 ==> chat_msg == Some(old(self).pending()[0])
                && final(self).pending() == old(self).pending().drop_first(),
    {
        let chat_msg = self.0.pop_front();
        proof {
            if old(self).pending().len() > 0 {
                assert(self.0@ =~= old(self).pending().drop_first());
            }
        }
        chat_msg
    }

    /// The oldest waiting message, if any.
    pub fn front(&self) -> (chat_msg: Option<&ChatMsg>)
        ensures
            self.pending().len() == 0 ==> chat_msg is None,
            self.pending().len() > 0 ==> chat_msg == Some(&self.pending()[0]),
    {
        if self.0.len() == 0 {
            None
        } else {
            Some(&self.0[0])
        }
    }

    pub fn is_empty(&self) -> (empty: bool)
        ensures
            empty == (self.pending().len() == 0),
    {
        self.0.len() == 0
    }

    pub fn len(&self) -> (len: usize)
        ensures
            len == self.pending().len(),
    {
        self.0.len()
    }
}

/// Adds recently broadcasted chat messages into a chatter's queue, in the
/// order they arrived.
pub fn add_chat_msg_to_queue(chatter_queue: &mut ChatMessageQueue, received: Vec<ChatMsg>)
    ensures
        final(chatter_queue).pending() == old(chatter_queue).pending() + received@,
{
    let mut received = received;
    let ghost all = received@;
    while received.len() > 0
        invariant
            chatter_queue.pending() + received@ == old(chatter_queue).pending() + all,
        decreases received@.len(),
    {
        let ghost before = received@;
        let received_chat_msg = received.remove(0);
        chatter_queue.push_back(received_chat_msg);
        proof {
            assert(chatter_queue.pending() + received@ =~= old(chatter_queue).pending() + all) by {
                assert(before =~= seq![received_chat_msg] + received@);
            }
        }
    }
    proof {
        assert(received@ =~= Seq::<ChatMsg>::empty());
        assert(chatter_queue.pending() + received@ =~= chatter_queue.pending());
    }
}

/// The message a chatter gets when the key for it is pressed: a long one,
/// to watch a chatter speak at length.
pub fn trigger_flying_to_streamer(g_pressed: bool) -> (chat_msg: Option<ChatMsg>)
    ensures
        chat_msg is Some <==> g_pressed,
        chat_msg matches Some(m) ==> m.name@ == "Bob"@ && m.msg@ == LONG_CHAT_MSG@,
{
    if !g_pressed {
        return None;
    }
    Some(ChatMsg { name: "Bob".to_owned(), msg: LONG_CHAT_MSG.to_owned() })
}

/// The long message of `trigger_flying_to_streamer`.
pub const LONG_CHAT_MSG: &'static str = "So, if you're learning a subject of math for the first time, it's helpful to actually learn about the concepts behind it before going into the course, since you're otherwise being overloaded with a bunch of terminology. Doing it this way, it's important to do so with the angle of finding how it's important to your work, using analogies and metaphors to make the knowledge personal";

/// The route without its last `count` nodes (nothing left when it is
/// shorter).
pub open spec fn without_last(route: Seq<usize>, count: nat) -> Seq<usize> {
    if route.len() >= count {
        route.subrange(0, route.len() - count)
    } else {
        Seq::empty()
    }
}

/// A chatter with something to say sets off towards the streamer through
/// the air, stopping short of the streamer by `DIST_AWAY_FROM_STREAMER`
/// tiles, and is approaching from then on. Returns the new path; nothing
/// changes when the chatter is busy, has nothing to say, or cannot reach the
/// streamer.
pub fn fly_to_streamer_to_speak(
    air_graph: &UndirectedGraph,
    chatter_pos: TilePos,
    streamer_pos: TilePos,
    status: &mut ChatterStatus,
    queue: &ChatMessageQueue,
) -> (new_path: Option<Path>)
    requires
        air_graph.wf(),
        (queue.pending().len() > 0 && *old(status) == ChatterStatus::Idle) ==> {
            &&& in_graph(air_graph, chatter_pos)
            &&& in_graph(air_graph, streamer_pos)
        },
    ensures
        (queue.pending().len() == 0 || *old(status) != ChatterStatus::Idle) ==> {
            &&& new_path is None
            &&& *final(status) == *old(status)
        },
        (queue.pending().len() > 0 && *old(status) == ChatterStatus::Idle) ==> {
            &&& new_path is Some <==> reachable(
                air_graph.spec_adjacency(),
                node_of(air_graph, chatter_pos) as usize,
                node_of(air_graph, streamer_pos) as usize,
            )
            &&& new_path matches Some(p) ==> exists|route: Seq<usize>|
                graph_route(air_graph, chatter_pos, streamer_pos) == Some(route) && shortest_route(
                    air_graph.spec_adjacency(),
                    route,
                    node_of(air_graph, chatter_pos),
                    node_of(air_graph, streamer_pos),
                ) && p.0@ == without_last(route, DIST_AWAY_FROM_STREAMER as nat)
            &&& *final(status) == if new_path is Some {
                ChatterStatus::Approaching
            } else {
                ChatterStatus::Idle
            }
        },
{
    if queue.is_empty() || *status != ChatterStatus::Idle {
        return None;
    }
    match air_graph.shortest_path(chatter_pos, streamer_pos) {
        None => None,
        Some(mut path) => {
            let ghost route = path.0@;
            // The chatter should not be directly on top of the
            // streamer, so we provide some distance by adjusting
            // the path to not go straight to the streamer.
            let mut i: usize = 0;
            while i < DIST_AWAY_FROM_STREAMER
                invariant
                    i <= DIST_AWAY_FROM_STREAMER,
                    path.0@ == without_last(route, i as nat),
                decreases DIST_AWAY_FROM_STREAMER - i,
            {
                path.0.pop_back();
                proof {
                    if route.len() >= i + 1 {
                        assert(path.0@ =~= without_last(route, (i + 1) as nat));
                    } else {
                        assert(path.0@ =~= without_last(route, (i + 1) as nat));
                    }
                }
                i = i + 1;
            }
            *status = ChatterStatus::Approaching;
            Some(path)
        },
    }
}

/// A chatter that has arrived speaks its oldest message: the message leaves
/// its queue and is returned as a chat box message of the chatter's kind,
/// and the chatter is speaking. Nothing changes while it is still on its way,
/// has nothing to say, or is not approaching.
pub fn speak_to_streamer_from_chatter(
    queue: &mut ChatMessageQueue,
    path_is_empty: bool,
    has_target: bool,
    status: &mut ChatterStatus,
    chatter_type: GameEntityType,
) -> (request: Option<Msg>)
    ensures
        (!path_is_empty || has_target || old(queue).pending().len() == 0 || *old(status)
            != ChatterStatus::Approaching) ==> {
            &&& request is None
            &&& final(queue).pending() == old(queue).pending()
            &&& *final(status) == *old(status)
        },
        (path_is_empty && !has_target && old(queue).pending().len() > 0 && *old(status)
            == ChatterStatus::Approaching) ==> {
            &&& final(queue).pending() == old(queue).pending().drop_first()
            &&& *final(status) == ChatterStatus::Speaking
            &&& request matches Some(m) && {
                &&& m.spec_speaker() == old(queue).pending()[0].name@
                &&& m.spec_text() == old(queue).pending()[0].msg@
                &&& m.spec_role() == chatter_type
                &&& m.spec_priority() == priority_for(chatter_type)
            }
        },
{
    if !path_is_empty || has_target || queue.is_empty() || *status != ChatterStatus::Approaching {
        return None;
    }
    match queue.pop_front() {
        None => None,
        Some(recent_chat_msg) => {
            *status = ChatterStatus::Speaking;
            Some(Msg::new(recent_chat_msg.name, recent_chat_msg.msg, chatter_type))
        },
    }
}

/// Once a speaking chatter's message is fully typed, it either speaks its
/// next message (when that is its own, it is idle again and sets off anew)
/// or starts waiting to leave, which is what the result says.
pub fn chatter_waits_to_leave_from_streamer(
    status: &mut ChatterStatus,
    typing_msg: &TypingMsg,
    queue: &ChatMessageQueue,
) -> (wait_to_leave: bool)
    ensures
        (*old(status) != ChatterStatus::Speaking || typing_msg.spec_idx() != char_len(
            typing_msg.spec_msg().spec_text(),
        )) ==> !wait_to_leave && *final(status) == *old(status),
        (*old(status) == ChatterStatus::Speaking && typing_msg.spec_idx() == char_len(
            typing_msg.spec_msg().spec_text(),
        )) ==> {
            let speaks_again = queue.pending().len() > 0 && queue.pending()[0].name@
                == typing_msg.spec_msg().spec_speaker();
            &&& wait_to_leave == !speaks_again
            &&& *final(status) == if speaks_again {
                ChatterStatus::Idle
            } else {
                ChatterStatus::Speaking
            }
        },
{
    if *status != ChatterStatus::Speaking {
        return false;
    }
    if !typing_msg.at_end() {
        return false;
    }
    match queue.front() {
        None => true,
        Some(next_message) => {
            if next_message.name == *typing_msg.speaker_name() {
                *status = ChatterStatus::Idle;
                false
            } else {
                true
            }
        },
    }
}

/// Once a chatter has waited to leave, it heads back through the air from
/// where it stands to its spawn point and is leaving; nothing changes when
/// the air graph does not connect the two.
pub fn leave_from_streamer_from_chatter(
    air_graph: &UndirectedGraph,
    start: TilePos,
    spawn: SpawnPoint,
    status: &mut ChatterStatus,
) -> (new_path: Option<Path>)
    requires
        air_graph.wf(),
        in_graph(air_graph, start),
        in_graph(air_graph, spawn.0),
    ensures
        new_path is Some <==> reachable(
            air_graph.spec_adjacency(),
            node_of(air_graph, start) as usize,
            node_of(air_graph, spawn.0) as usize,
        ),
        new_path matches Some(p) ==> shortest_route(
            air_graph.spec_adjacency(),
            p.0@,
            node_of(air_graph, start),
            node_of(air_graph, spawn.0),
        ),
        route_of(new_path) == graph_route(air_graph, start, spawn.0),
        *final(status) == if new_path is Some {
            ChatterStatus::Leaving
        } else {
            *old(status)
        },
{
    let found = air_graph.shortest_path(start, spawn.0);
    if found.is_some() {
        *status = ChatterStatus::Leaving;
    }
    found
}

/// A leaving chatter that is back at its starting position (no path and no
/// target left) is idle again.
pub fn return_chatter_to_idle(status: &mut ChatterStatus, path_is_empty: bool, has_target: bool)
    ensures
        *final(status) == if *old(status) == ChatterStatus::Leaving && path_is_empty && !has_target {
            ChatterStatus::Idle
        } else {
            *old(status)
        },
{
    if *status != ChatterStatus::Leaving {
        return;
    }
    if !path_is_empty {
        return;
    }
    if has_target {
        return;
    }
    *status = ChatterStatus::Idle;
}

/// The tile a grid node stands for, in a grid `width` tiles per row.
pub open spec fn tile_of(node: int, width: int) -> TilePos {
    TilePos { x: (node / width) as u32, y: (node % width) as u32 }
}

/// The node `DIST_AWAY_FROM_STREAMER` tiles further along both axes than
/// `node`, in a grid `width` tiles per row.
pub open spec fn offset_node(node: int, width: int) -> int {
    grid_index(node / width + DIST_AWAY_FROM_STREAMER, node % width + DIST_AWAY_FROM_STREAMER, width)
}

/// The node can be moved away from the streamer without leaving `u32`.
pub open spec fn offset_fits(node: int, width: int) -> bool {
    offset_node(node, width) <= u32::MAX
}

/// The streamer's route, each node moved `DIST_AWAY_FROM_STREAMER` tiles
/// further along both axes.
fn offset_route(streamer_path: &Path, width: u32) -> (route: Path)
    requires
        width > 0,
        forall|i: int|
            0 <= i < streamer_path.0@.len() ==> offset_fits(#[trigger] streamer_path.0@[i] as int, width as int),
    ensures
        route.0@.len() == streamer_path.0@.len(),
        forall|i: int|
            0 <= i < route.0@.len() ==> #[trigger] route.0@[i] == offset_node(
                streamer_path.0@[i] as int,
                width as int,
            ),
{
    let mut route = Path(VecDeque::new());
    let n = streamer_path.0.len();
    let mut i: usize = 0;
    while i < n
        invariant
            width > 0,
            n == streamer_path.0@.len(),
            forall|k: int|
                0 <= k < streamer_path.0@.len() ==> offset_fits(#[trigger] streamer_path.0@[k] as int, width as int),
            0 <= i <= n,
            route.0@.len() == i,
            forall|k: int|
                0 <= k < i ==> #[trigger] route.0@[k] == offset_node(streamer_path.0@[k] as int, width as int),
        decreases n - i,
    {
        let target = streamer_path.0[i];
        let tilepos = idx_to_tilepos(target, width);
        proof {
            let w = width as int;
            let t = target as int;
            assert(offset_fits(t, w));
            assert(t / w + 2 <= w * (t / w + 2)) by (nonlinear_arith)
                requires
                    w > 0,
                    t >= 0,
            ;
            assert(0 <= t / w) by (nonlinear_arith)
                requires
                    w > 0,
                    t >= 0,
            ;
            assert(0 <= t % w < w) by (nonlinear_arith)
                requires
                    w > 0,
            ;
            assert(w * (t / w + 2) + t % w + 2 <= u32::MAX);
        }
        let x = tilepos.x + 2;
        let y = tilepos.y + 2;
        let node = tilepos_to_idx(x, y, width);
        route.0.push_back(node);
        i = i + 1;
    }
    route
}

/// While the streamer moves, a speaking chatter with no path of its own
/// follows it, keeping `DIST_AWAY_FROM_STREAMER` tiles away along both axes:
/// its path becomes the streamer's, each node moved that far. Otherwise the
/// chatter's path stays as it is.
pub fn follow_streamer_while_speaking(
    streamer_state: StreamerState,
    streamer_path: &Path,
    status: ChatterStatus,
    chatter_path: &mut Path,
    width: u32,
)
    requires
        width > 0,
        (streamer_state == StreamerState::Moving && status == ChatterStatus::Speaking
            && old(chatter_path).0@.len() == 0) ==> forall|i: int|
            0 <= i < streamer_path.0@.len() ==> offset_fits(#[trigger] streamer_path.0@[i] as int, width as int),
    ensures
        !(streamer_state == StreamerState::Moving && status == ChatterStatus::Speaking
            && old(chatter_path).0@.len() == 0) ==> final(chatter_path).0@ == old(chatter_path).0@,
        (streamer_state == StreamerState::Moving && status == ChatterStatus::Speaking
            && old(chatter_path).0@.len() == 0) ==> {
            &&& final(chatter_path).0@.len() == streamer_path.0@.len()
            &&& forall|i: int|
                0 <= i < streamer_path.0@.len() ==> #[trigger] final(chatter_path).0@[i]
                    == offset_node(streamer_path.0@[i] as int, width as int)
        },
{
    if streamer_state != StreamerState::Moving {
        return;
    }
    if status != ChatterStatus::Speaking || chatter_path.0.len() != 0 {
        return;
    }
    *chatter_path = offset_route(streamer_path, width);
}

/// The tile `DIST_AWAY_FROM_STREAMER` tiles further along both axes than
/// the tile of `node`.
pub open spec fn distanced_tile(node: int, width: int) -> TilePos {
    TilePos {
        x: (node / width + DIST_AWAY_FROM_STREAMER) as u32,
        y: (node % width + DIST_AWAY_FROM_STREAMER) as u32,
    }
}

/// The streamer is moving somewhere and an approaching chatter has a path of
/// its own.
pub open spec fn approach_follows(
    streamer_state: StreamerState,
    streamer_route: Seq<usize>,
    status: ChatterStatus,
    chatter_route: Seq<usize>,
) -> bool {
    &&& streamer_state == StreamerState::Moving
    &&& streamer_route.len() > 0
    &&& status == ChatterStatus::Approaching
    &&& chatter_route.len() > 0
}

/// While the streamer moves, an approaching chatter changes course for the
/// tile `DIST_AWAY_FROM_STREAMER` tiles past the streamer's destination
/// along both axes, unless it already heads there or stands there, and
/// unless the air graph does not lead there.
pub fn follow_streamer_while_approaching_for_chatter(
    streamer_state: StreamerState,
    streamer_path: &Path,
    air_graph: &UndirectedGraph,
    status: ChatterStatus,
    chatter_pos: TilePos,
    chatter_path: &mut Path,
    width: u32,
)
    requires
        width > 0,
        air_graph.wf(),
        approach_follows(streamer_state, streamer_path.0@, status, old(chatter_path).0@) ==> {
            let dest = streamer_path.0@.last() as int;
            &&& in_graph(air_graph, chatter_pos)
            &&& dest / (width as int) + DIST_AWAY_FROM_STREAMER <= u32::MAX
            &&& dest % (width as int) + DIST_AWAY_FROM_STREAMER <= u32::MAX
            &&& in_graph(air_graph, distanced_tile(dest, width as int))
        },
    ensures
        !approach_follows(streamer_state, streamer_path.0@, status, old(chatter_path).0@)
            ==> final(chatter_path).0@ == old(chatter_path).0@,
        approach_follows(streamer_state, streamer_path.0@, status, old(chatter_path).0@) ==> {
            let goal = distanced_tile(streamer_path.0@.last() as int, width as int);
            let settled = tile_of(old(chatter_path).0@.last() as int, width as int) == goal
                || chatter_pos == goal;
            let leads = reachable(
                air_graph.spec_adjacency(),
                node_of(air_graph, chatter_pos) as usize,
                node_of(air_graph, goal) as usize,
            );
            &&& (settled || !leads) ==> final(chatter_path).0@ == old(chatter_path).0@
            &&& (!settled && leads) ==> shortest_route(
                air_graph.spec_adjacency(),
                final(chatter_path).0@,
                node_of(air_graph, chatter_pos),
                node_of(air_graph, goal),
            )
            &&& (!settled && leads) ==> graph_route(air_graph, chatter_pos, goal) == Some(
                final(chatter_path).0@,
            )
        },
{
    if streamer_state != StreamerState::Moving {
        return;
    }
    let streamer_len = streamer_path.0.len();
    if streamer_len == 0 {
        return;
    }
    let chatter_len = chatter_path.0.len();
    if status != ChatterStatus::Approaching || chatter_len == 0 {
        return;
    }
    let streamer_destination = streamer_path.0[streamer_len - 1];
    let destination_tile = idx_to_tilepos(streamer_destination, width);
    let goal = TilePos { x: destination_tile.x + 2, y: destination_tile.y + 2 };
    let current_destination = idx_to_tilepos(chatter_path.0[chatter_len - 1], width);
    // We do not want to re-populate the path if the Chatter is already
    // going to the desired destination.
    if current_destination == goal {
        return;
    }
    // This accounts for the situation when the Chatter
    // arrives before the Streamer does, and the Chatter
    // is just waiting.
    if chatter_pos == goal {
        return;
    }
    if let Some(path) = air_graph.shortest_path(chatter_pos, goal) {
        *chatter_path = path;
    }
}

} // verus!

use vstd::prelude::*;

use crate::entities::GameEntityType;
use crate::map::path_finding::{
    graph_route, in_graph, node_of, reachable, route_of, shortest_route, DestinationQueue, Path, TilePos,
    UndirectedGraph,
};
use crate::ui::chatting::ChattingStatus;

verus! {

/// The layer of the map the streamer's tile is placed on.
pub const STREAMER_LAYER_NUM: usize = 6;

/// What the streamer is doing in the game.
#[derive(PartialEq, Eq, Copy, Clone, Debug, Hash, Structural)]
pub enum StreamerState {
    Idle,
    Moving,
    Speaking,
}

/// This represents the Online presense of the
/// Streamer, unlike the StreamerState, which
/// represents the Streamer Entity's State in the
/// game.
#[derive(PartialEq, Eq, Copy, Clone, Debug, Structural)]
pub enum OnlineStatus {
    Online,
    Away,
}

/// The tile the streamer is spawned on.
pub fn streamer_spawn_position() -> (pos: TilePos)
    ensures
        pos == (TilePos { x: 39, y: 40 }),
{
    TilePos { x: 39, y: 40 }
}

/// Starts the streamer towards the oldest requested destination once it has
/// arrived where it was going: the destination leaves the queue, and when the
/// ground graph connects it to the streamer the route is returned and the
/// streamer is moving. Nothing changes while the streamer is still under way
/// or nothing is requested.
pub fn move_streamer(
    ground_graph: &UndirectedGraph,
    streamer_pos: TilePos,
    path_is_empty: bool,
    has_target: bool,
    destinations: &mut DestinationQueue,
    state: &mut StreamerState,
) -> (route: Option<Path>)
    requires
        ground_graph.wf(),
        (path_is_empty && !has_target && old(destinations).pending().len() > 0) ==> {
            &&& in_graph(ground_graph, streamer_pos)
            &&& in_graph(ground_graph, old(destinations).pending()[0])
        },
    ensures
        (!path_is_empty || has_target || old(destinations).pending().len() == 0) ==> {
            &&& route is None
            &&& final(destinations).pending() == old(destinations).pending()
            &&& *final(state) == *old(state)
        },
        (path_is_empty && !has_target && old(destinations).pending().len() > 0) ==> {
            let goal = old(destinations).pending()[0];
            &&& final(destinations).pending() == old(destinations).pending().drop_first()
            &&& route is Some <==> reachable(
                ground_graph.spec_adjacency(),
                node_of(ground_graph, streamer_pos) as usize,
                node_of(ground_graph, goal) as usize,
            )
            &&& route matches Some(p) ==> shortest_route(
                ground_graph.spec_adjacency(),
                p.0@,
                node_of(ground_graph, streamer_pos),
                node_of(ground_graph, goal),
            )
            &&& route_of(route) == graph_route(ground_graph, streamer_pos, goal)
            &&& *final(state) == if route is Some {
                StreamerState::Moving
            } else {
                *old(state)
            }
        },
{
    if !path_is_empty || has_target {
        return None;
    }
    if destinations.is_empty() {
        return None;
    }
    let goal = match destinations.pop_front() {
        Some(goal) => goal,
        None => {
            return None;
        },
    };
    proof {
        assert(in_graph(ground_graph, old(destinations).pending()[0]));
    }
    let found = ground_graph.shortest_path(streamer_pos, goal);
    if found.is_some() {
        *state = StreamerState::Moving;
    }
    found
}

/// Adds requested destinations behind those the streamer already has, in
/// the order they were requested.
pub fn queue_destination_for_streamer(destinations: &mut DestinationQueue, requested: Vec<TilePos>)
    ensures
        final(destinations).pending() == old(destinations).pending() + requested@,
{
    let mut i: usize = 0;
    while i < requested.len()
        invariant
            0 <= i <= requested@.len(),
            destinations.pending() == old(destinations).pending() + requested@.subrange(0, i as int),
        decreases requested@.len() - i,
    {
        destinations.push_back(requested[i]);
        proof {
            assert(requested@.subrange(0, i as int + 1) =~= requested@.subrange(0, i as int).push(
                requested@[i as int],
            ));
        }
        i = i + 1;
    }
    proof {
        assert(requested@.subrange(0, requested@.len() as int) =~= requested@);
    }
}

/// The streamer is idle again once it has no path left and no target.
pub fn make_streamer_idle_when_not_moving(state: &mut StreamerState, path_len: usize, has_target: bool)
    ensures
        *final(state) == if path_len == 0 && !has_target {
            StreamerState::Idle
        } else {
            *old(state)
        },
{
    if path_len == 0 && !has_target {
        *state = StreamerState::Idle;
    }
}

/// The online status that the pressed keys ask for: the first key means
/// online, else the second means away.
pub fn change_status_for_streamer(one_pressed: bool, two_pressed: bool) -> (status: Option<OnlineStatus>)
    ensures
        status == if one_pressed {
            Some(OnlineStatus::Online)
        } else if two_pressed {
            Some(OnlineStatus::Away)
        } else {
            None
        },
{
    if one_pressed {
        Some(OnlineStatus::Online)
    } else if two_pressed {
        Some(OnlineStatus::Away)
    } else {
        None
    }
}

/// Where the streamer goes for an online status: the desk when online, the
/// spawn point when away.
pub fn move_streamer_on_status_change(status: OnlineStatus) -> (destination: TilePos)
    ensures
        destination == match status {
            OnlineStatus::Online => TilePos { x: 41, y: 49 },
            OnlineStatus::Away => TilePos { x: 39, y: 40 },
        },
{
    match status {
        OnlineStatus::Online => TilePos { x: 41, y: 49 },
        OnlineStatus::Away => TilePos { x: 39, y: 40 },
    }
}

/// The streamer is speaking whenever the chat box shows one of its messages.
pub fn update_status_when_speaking(chatting_status: ChattingStatus, state: &mut StreamerState)
    ensures
        *final(state) == if chatting_status == ChattingStatus::Speaking(GameEntityType::Walk) {
            StreamerState::Speaking
        } else {
            *old(state)
        },
{
    if chatting_status == ChattingStatus::Speaking(GameEntityType::Walk) {
        *state = StreamerState::Speaking;
    }
}

} // verus!

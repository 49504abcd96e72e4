use vstd::prelude::*;
use std::collections::VecDeque;

use crate::entities::chatter::tile_of;
use crate::entities::streamer::StreamerState;
use crate::entities::GameEntityType;
use crate::map::path_finding::{
    graph_route, idx_to_tilepos, in_graph, node_of, reachable, route_of, shortest_route, NodeEdges, Path,
    SpawnPoint,
    TilePos, UndirectedGraph,
};
use crate::ui::chatting::{char_len, priority_for, Msg, TypingMsg};

verus! {

/// The layer of the map the subscribers' tiles are placed on.
pub const SUBSCRIBER_LAYER_NUM: usize = 18;

/// The layer whose placement the subscribers take over.
pub const DESIRED_SUBSCRIBER_LAYER_NUM: usize = 1;

/// What a subscriber is doing.
#[derive(Debug, PartialEq, Eq, Clone, Copy, Structural)]
pub enum SubscriberStatus {
    Idle,
    Approaching,
    Speaking,
    Leaving,
}

/// A message of a subscriber, with the subscriber's name.
#[derive(Debug, Clone, PartialEq, Eq)]
pub struct SubscriberMsg {
    pub name: String,
    pub msg: String,
}

/// The message a subscriber gets when the key for it is pressed.
pub fn trigger_swimming_to_streamer(u_pressed: bool) -> (subscriber_msg: Option<SubscriberMsg>)
    ensures
        subscriber_msg is Some <==> u_pressed,
        subscriber_msg matches Some(m) ==> m.name@ == "Fishu"@ && m.msg@ == "'ello Caveman!"@,
{
    if !u_pressed {
        return None;
    }
    Some(SubscriberMsg { name: "Fishu".to_owned(), msg: "'ello Caveman!".to_owned() })
}

/// The longest start of `route` whose nodes all have an edge in the graph
/// `adj`.
pub open spec fn nodes_only_from(route: Seq<usize>, adj: Seq<Seq<usize>>) -> Seq<usize> {
    route.take(first_without_edges(route, adj))
}

/// The position of the first node of `route` with no edge in `adj`, or the
/// length of the route when there is none.
pub open spec fn first_without_edges(route: Seq<usize>, adj: Seq<Seq<usize>>) -> int
    decreases route.len(),
{
    if route.len() == 0 {
        0
    } else if adj[route[0] as int].len() == 0 {
        0
    } else {
        1 + first_without_edges(route.drop_first(), adj)
    }
}

proof fn lemma_first_without_edges(route: Seq<usize>, adj: Seq<Seq<usize>>)
    ensures
        0 <= first_without_edges(route, adj) <= route.len(),
        forall|i: int|
            0 <= i < first_without_edges(route, adj) ==> adj[#[trigger] route[i] as int].len() > 0,
        first_without_edges(route, adj) < route.len() ==> adj[route[first_without_edges(
            route,
            adj,
        )] as int].len() == 0,
    decreases route.len(),
{
    if route.len() > 0 && adj[route[0] as int].len() > 0 {
        let rest = route.drop_first();
        lemma_first_without_edges(rest, adj);
        assert forall|i: int| 0 <= i < first_without_edges(route, adj) implies adj[#[trigger] route[i] as int].len()
            > 0 by {
            if i > 0 {
                assert(route[i] == rest[i - 1]);
            }
        }
        if first_without_edges(route, adj) < route.len() {
            assert(route[first_without_edges(route, adj)] == rest[first_without_edges(rest, adj)]);
        }
    }
}

/// Returns a Path consisting of nodes only contained in
/// the Graph found in the Node Edges: the path up to its first node without
/// edges there.
pub fn include_nodes_only_from(path_to_streamer: Path, water_graph_edges: &NodeEdges) -> (stripped: Path)
    requires
        forall|i: int|
            0 <= i < path_to_streamer.0@.len() ==> #[trigger] path_to_streamer.0@[i]
                < water_graph_edges.adjacency().len(),
    ensures
        stripped.0@ == nodes_only_from(path_to_streamer.0@, water_graph_edges.adjacency()),
{
    let ghost route = path_to_streamer.0@;
    let ghost adj = water_graph_edges.adjacency();
    proof {
        lemma_first_without_edges(route, adj);
    }
    let mut stripped_path = Path(VecDeque::new());
    let n = path_to_streamer.0.len();
    let mut i: usize = 0;
    while i < n
        invariant
            route == path_to_streamer.0@,
            adj == water_graph_edges.adjacency(),
            n == route.len(),
            forall|k: int| 0 <= k < route.len() ==> #[trigger] route[k] < adj.len(),
            0 <= first_without_edges(route, adj) <= route.len(),
            forall|k: int| 0 <= k < first_without_edges(route, adj) ==> adj[#[trigger] route[k] as int].len() > 0,
            first_without_edges(route, adj) < route.len() ==> adj[route[first_without_edges(
                route,
                adj,
            )] as int].len() == 0,
            0 <= i <= first_without_edges(route, adj),
            stripped_path.0@ == route.take(i as int),
        ensures
            i == first_without_edges(route, adj),
            stripped_path.0@ == route.take(i as int),
        decreases n - i,
    {
        let node = path_to_streamer.0[i];
        proof {
            assert(route[i as int] < adj.len());
        }
        if water_graph_edges.0[node].len() == 0 {
            break;
        }
        stripped_path.0.push_back(node);
        proof {
            assert(stripped_path.0@ =~= route.take(i as int + 1));
        }
        i = i + 1;
    }
    stripped_path
}

/// The water graph has a node for every node of the air graph.
pub open spec fn water_covers_air(air_graph: &UndirectedGraph, water_graph: &UndirectedGraph) -> bool {
    air_graph.spec_adjacency().len() <= water_graph.spec_adjacency().len()
}

/// The route the air graph's search gives from `from` to `to` (a shortest
/// one), kept up to where the water ends.
pub open spec fn swims_along(
    air_graph: &UndirectedGraph,
    water_graph: &UndirectedGraph,
    swim: Seq<usize>,
    from: TilePos,
    to: TilePos,
) -> bool {
    exists|route: Seq<usize>|
        graph_route(air_graph, from, to) == Some(route) && shortest_route(
            air_graph.spec_adjacency(),
            route,
            node_of(air_graph, from),
            node_of(air_graph, to),
        ) && swim == nodes_only_from(route, water_graph.spec_adjacency())
}

/// The air route from `from` to `to`, cut where the water ends.
fn route_to_shore(
    air_graph: &UndirectedGraph,
    water_graph: &UndirectedGraph,
    from: TilePos,
    to: TilePos,
) -> (swim: Option<Path>)
    requires
        air_graph.wf(),
        water_covers_air(air_graph, water_graph),
        in_graph(air_graph, from),
        in_graph(air_graph, to),
    ensures
        swim is Some <==> reachable(
            air_graph.spec_adjacency(),
            node_of(air_graph, from) as usize,
            node_of(air_graph, to) as usize,
        ),
        swim matches Some(p) ==> swims_along(air_graph, water_graph, p.0@, from, to),
{
    // Anyone who can fly has total coverage of the whole map, which makes the
    // air a good reference for a first path before the tiles a subscriber
    // cannot swim through are stripped away.
    match air_graph.shortest_path(from, to) {
        None => None,
        Some(path) => {
            let ghost route = path.0@;
            let swim = include_nodes_only_from(path, water_graph.edges());
            proof {
                assert(shortest_route(
                    air_graph.spec_adjacency(),
                    route,
                    node_of(air_graph, from),
                    node_of(air_graph, to),
                ));
            }
            Some(swim)
        },
    }
}

/// A subscriber with a message sets off towards the streamer, swimming
/// along the air route as far as the water goes, and is approaching from
/// then on. Returns the new path; nothing changes when there is no message,
/// the subscriber is busy, or the air does not lead to the streamer.
pub fn swim_to_streamer_to_speak(
    air_graph: &UndirectedGraph,
    water_graph: &UndirectedGraph,
    subscriber_pos: TilePos,
    streamer_pos: TilePos,
    has_msg: bool,
    status: &mut SubscriberStatus,
) -> (new_path: Option<Path>)
    requires
        air_graph.wf(),
        (has_msg && *old(status) == SubscriberStatus::Idle) ==> {
            &&& water_covers_air(air_graph, water_graph)
            &&& in_graph(air_graph, subscriber_pos)
            &&& in_graph(air_graph, streamer_pos)
        },
    ensures
        (!has_msg || *old(status) != SubscriberStatus::Idle) ==> {
            &&& new_path is None
            &&& *final(status) == *old(status)
        },
        (has_msg && *old(status) == SubscriberStatus::Idle) ==> {
            &&& new_path is Some <==> reachable(
                air_graph.spec_adjacency(),
                node_of(air_graph, subscriber_pos) as usize,
                node_of(air_graph, streamer_pos) as usize,
            )
            &&& new_path matches Some(p) ==> swims_along(
                air_graph,
                water_graph,
                p.0@,
                subscriber_pos,
                streamer_pos,
            )
            &&& *final(status) == if new_path is Some {
                SubscriberStatus::Approaching
            } else {
                SubscriberStatus::Idle
            }
        },
{
    if !has_msg || *status != SubscriberStatus::Idle {
        return None;
    }
    let swim = route_to_shore(air_graph, water_graph, subscriber_pos, streamer_pos);
    if swim.is_some() {
        *status = SubscriberStatus::Approaching;
    }
    swim
}

/// A subscriber that has arrived speaks its message, as a chat box message
/// of the subscriber's kind, and is speaking. Nothing changes while it is
/// still on its way or not approaching.
pub fn speak_to_streamer_from_subscriber(
    subscriber_msg: &SubscriberMsg,
    path_is_empty: bool,
    has_target: bool,
    status: &mut SubscriberStatus,
    subscriber_type: GameEntityType,
) -> (request: Option<Msg>)
    ensures
        (!path_is_empty || has_target || *old(status) != SubscriberStatus::Approaching) ==> {
            &&& request is None
            &&& *final(status) == *old(status)
        },
        (path_is_empty && !has_target && *old(status) == SubscriberStatus::Approaching) ==> {
            &&& *final(status) == SubscriberStatus::Speaking
            &&& request matches Some(m) && {
                &&& m.spec_speaker() == subscriber_msg.name@
                &&& m.spec_text() == subscriber_msg.msg@
                &&& m.spec_role() == subscriber_type
                &&& m.spec_priority() == priority_for(subscriber_type)
            }
        },
{
    if !path_is_empty || has_target || *status != SubscriberStatus::Approaching {
        return None;
    }
    *status = SubscriberStatus::Speaking;
    Some(Msg::new(subscriber_msg.name.clone(), subscriber_msg.msg.clone(), subscriber_type))
}

/// A speaking subscriber starts waiting to leave once its message is fully
/// typed.
pub fn subscriber_waits_to_leave_from_streamer(status: SubscriberStatus, typing_msg: &TypingMsg) -> (wait_to_leave: bool)
    ensures
        wait_to_leave == (status == SubscriberStatus::Speaking && typing_msg.spec_idx() == char_len(
            typing_msg.spec_msg().spec_text(),
        )),
{
    status == SubscriberStatus::Speaking && typing_msg.at_end()
}

/// Once a subscriber has waited to leave, it swims back from where it stands
/// to its spawn point and is leaving; nothing changes when the water does
/// not connect the two.
pub fn leave_from_streamer_from_subscriber(
    water_graph: &UndirectedGraph,
    start: TilePos,
    spawn: SpawnPoint,
    status: &mut SubscriberStatus,
) -> (new_path: Option<Path>)
    requires
        water_graph.wf(),
        in_graph(water_graph, start),
        in_graph(water_graph, spawn.0),
    ensures
        new_path is Some <==> reachable(
            water_graph.spec_adjacency(),
            node_of(water_graph, start) as usize,
            node_of(water_graph, spawn.0) as usize,
        ),
        new_path matches Some(p) ==> shortest_route(
            water_graph.spec_adjacency(),
            p.0@,
            node_of(water_graph, start),
            node_of(water_graph, spawn.0),
        ),
        route_of(new_path) == graph_route(water_graph, start, spawn.0),
        *final(status) == if new_path is Some {
            SubscriberStatus::Leaving
        } else {
            *old(status)
        },
{
    let found = water_graph.shortest_path(start, spawn.0);
    if found.is_some() {
        *status = SubscriberStatus::Leaving;
    }
    found
}

/// A leaving subscriber that is back at its starting position (no path and
/// no target left) is idle again.
pub fn return_subscriber_to_idle(status: &mut SubscriberStatus, path_is_empty: bool, has_target: bool)
    ensures
        *final(status) == if *old(status) == SubscriberStatus::Leaving && path_is_empty
            && !has_target {
            SubscriberStatus::Idle
        } else {
            *old(status)
        },
{
    if *status != SubscriberStatus::Leaving {
        return;
    }
    if !path_is_empty {
        return;
    }
    if has_target {
        return;
    }
    *status = SubscriberStatus::Idle;
}

/// The streamer is moving somewhere and an approaching subscriber has a
/// path of its own.
pub open spec fn swim_follows(
    streamer_state: StreamerState,
    streamer_route: Seq<usize>,
    status: SubscriberStatus,
    subscriber_route: Seq<usize>,
) -> bool {
    &&& streamer_state == StreamerState::Moving
    &&& streamer_route.len() > 0
    &&& status == SubscriberStatus::Approaching
    &&& subscriber_route.len() > 0
}

/// While the streamer moves, an approaching subscriber changes course
/// towards the streamer's destination, swimming as far as the water goes,
/// unless it already heads for the same end or stands there.
pub fn follow_streamer_while_approaching_for_subscriber(
    streamer_state: StreamerState,
    streamer_path: &Path,
    air_graph: &UndirectedGraph,
    water_graph: &UndirectedGraph,
    status: SubscriberStatus,
    subscriber_pos: TilePos,
    subscriber_path: &mut Path,
    map_height: u32,
)
    requires
        map_height > 0,
        air_graph.wf(),
        swim_follows(streamer_state, streamer_path.0@, status, old(subscriber_path).0@) ==> {
            let dest = tile_of(streamer_path.0@.last() as int, map_height as int);
            &&& water_covers_air(air_graph, water_graph)
            &&& in_graph(air_graph, subscriber_pos)
            &&& in_graph(air_graph, dest)
            &&& reachable(
                air_graph.spec_adjacency(),
                node_of(air_graph, subscriber_pos) as usize,
                node_of(air_graph, dest) as usize,
            )
            &&& water_graph.spec_adjacency()[node_of(air_graph, subscriber_pos)].len() > 0
        },
    ensures
        !swim_follows(streamer_state, streamer_path.0@, status, old(subscriber_path).0@)
            ==> final(subscriber_path).0@ == old(subscriber_path).0@,
        swim_follows(streamer_state, streamer_path.0@, status, old(subscriber_path).0@) ==> {
            let dest = tile_of(streamer_path.0@.last() as int, map_height as int);
            exists|swim: Seq<usize>|
                {
                    &&& swims_along(air_graph, water_graph, swim, subscriber_pos, dest)
                    &&& swim.len() > 0
                    &&& final(subscriber_path).0@ == if tile_of(swim.last() as int, map_height as int)
                        == tile_of(old(subscriber_path).0@.last() as int, map_height as int) || tile_of(
                        swim.last() as int,
                        map_height as int,
                    ) == subscriber_pos {
                        old(subscriber_path).0@
                    } else {
                        swim
                    }
                }
        },
{
    if streamer_state != StreamerState::Moving {
        return;
    }
    let streamer_len = streamer_path.0.len();
    if streamer_len == 0 {
        return;
    }
    let subscriber_len = subscriber_path.0.len();
    if status != SubscriberStatus::Approaching || subscriber_len == 0 {
        return;
    }
    let streamer_destination = idx_to_tilepos(streamer_path.0[streamer_len - 1], map_height);
    let current_destination = idx_to_tilepos(subscriber_path.0[subscriber_len - 1], map_height);
    let path_to_shore = match route_to_shore(air_graph, water_graph, subscriber_pos, streamer_destination) {
        Some(path) => path,
        None => {
            return;
        },
    };
    proof {
        let route = choose|route: Seq<usize>|
            graph_route(air_graph, subscriber_pos, streamer_destination) == Some(route) && shortest_route(
                air_graph.spec_adjacency(),
                route,
                node_of(air_graph, subscriber_pos),
                node_of(air_graph, streamer_destination),
            ) && path_to_shore.0@ == nodes_only_from(route, water_graph.spec_adjacency());
        lemma_first_without_edges(route, water_graph.spec_adjacency());
        assert(route[0] == node_of(air_graph, subscriber_pos));
    }
    let ghost swim = path_to_shore.0@;
    let shore_len = path_to_shore.0.len();
    if shore_len == 0 {
        return;
    }
    let next_destination = idx_to_tilepos(path_to_shore.0[shore_len - 1], map_height);
    // We do not want to re-populate the path if the Subscriber is already
    // going to the desired destination.
    if current_destination == next_destination {
        return;
    }
    // This accounts for the situation when the Subscriber
    // arrives before the Streamer does, and the Subscriber
    // is just waiting.
    if subscriber_pos == next_destination {
        return;
    }
    *subscriber_path = path_to_shore;
}

} // verus!

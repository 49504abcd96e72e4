use vstd::prelude::*;

use crate::map::path_finding::is_walk;

verus! {

/// Some walk from `source` reaches `target` in exactly `steps` steps.
pub open spec fn walk_of_steps(adj: Seq<Seq<usize>>, source: int, target: int, steps: int) -> bool {
    exists|route: Seq<usize>|
        #[trigger] is_walk(adj, route) && route[0] == source && route.last() == target && route.len()
            == steps + 1
}

/// No walk from `source` to `target` takes fewer than `steps` steps.
pub open spec fn no_fewer_steps(adj: Seq<Seq<usize>>, source: int, target: int, steps: int) -> bool {
    forall|route: Seq<usize>|
        #[trigger] is_walk(adj, route) && route[0] == source && route.last() == target ==> route.len()
            >= steps + 1
}

/// What a breadth-first search from `source` knows at a moment of its run.
/// `seen` holds the nodes it has put in its queue so far, `done` those whose
/// edges it has followed, `queue` those still waiting, and `cur` the node
/// whose edges it is following (-1 between two nodes). Each seen node lies
/// at level `dist`, its distance from the source; the levels in the queue
/// rise from `lv`, the level of the node taken off the queue last, to at
/// most one past it; and every edge out of a done node leads to a seen node.
#[verifier::opaque]
pub open spec fn search_state(
    adj: Seq<Seq<usize>>,
    source: int,
    seen: Set<int>,
    done: Set<int>,
    dist: Map<int, int>,
    queue: Seq<usize>,
    lv: int,
    cur: int,
) -> bool {
    &&& lv >= 0
    &&& seen.contains(source)
    &&& forall|v: int| #[trigger] seen.contains(v) ==> 0 <= v < adj.len() && 0 <= dist[v]
    &&& forall|v: int| #[trigger] seen.contains(v) ==> walk_of_steps(adj, source, v, dist[v])
    &&& forall|v: int| #[trigger] seen.contains(v) ==> no_fewer_steps(adj, source, v, dist[v])
    &&& forall|v: int| #[trigger]
        seen.contains(v) ==> done.contains(v) || v == cur || queue.contains(v as usize)
    &&& forall|v: int| #[trigger] done.contains(v) ==> seen.contains(v) && v != cur && dist[v] <= lv
    &&& forall|i: int|
        0 <= i < queue.len() ==> seen.contains(#[trigger] queue[i] as int) && !done.contains(
            queue[i] as int,
        ) && queue[i] != cur && lv <= dist[queue[i] as int] <= lv + 1
    &&& forall|i: int, j: int|
        0 <= i < j < queue.len() ==> #[trigger] queue[i] != #[trigger] queue[j] && dist[queue[i] as int]
            <= dist[queue[j] as int]
    &&& cur != -1 ==> seen.contains(cur) && dist[cur] == lv
    &&& forall|v: int, k: int|
        done.contains(v) && 0 <= k < adj[v].len() ==> seen.contains(#[trigger] adj[v][k] as int)
}

/// Each node the search has seen, but the source, has a parent: a seen node
/// one level nearer the source, with an edge to it.
#[verifier::opaque]
pub open spec fn parent_links(
    adj: Seq<Seq<usize>>,
    source: int,
    seen: Set<int>,
    dist: Map<int, int>,
    parents: Seq<i32>,
) -> bool {
    &&& 0 <= source < parents.len()
    &&& parents[source] == -1
    &&& forall|v: int| #[trigger]
        seen.contains(v) && v != source ==> {
            let p = parents[v] as int;
            &&& 0 <= v < parents.len()
            &&& 0 <= p < adj.len()
            &&& seen.contains(p)
            &&& adj[p].contains(v as usize)
            &&& dist[v] == dist[p] + 1
        }
}

/// A walk followed by an edge out of its last node is a walk.
pub proof fn lemma_walk_push(adj: Seq<Seq<usize>>, route: Seq<usize>, next: usize)
    requires
        is_walk(adj, route),
        next < adj.len(),
        adj[route.last() as int].contains(next),
    ensures
        is_walk(adj, route.push(next)),
        route.push(next)[0] == route[0],
        route.push(next).last() == next,
        route.push(next).len() == route.len() + 1,
{
    let longer = route.push(next);
    assert forall|i: int| 0 <= i < longer.len() - 1 implies adj[longer[i] as int].contains(#[trigger] longer[i + 1]) by {
        if i < route.len() - 1 {
            assert(adj[route[i] as int].contains(route[i + 1]));
        }
    }
}

/// A walk of more than one node, less its last node, is a walk.
pub proof fn lemma_walk_drop_last(adj: Seq<Seq<usize>>, route: Seq<usize>)
    requires
        is_walk(adj, route),
        route.len() > 1,
    ensures
        is_walk(adj, route.drop_last()),
        route.drop_last()[0] == route[0],
        adj[route.drop_last().last() as int].contains(route.last()),
{
    let shorter = route.drop_last();
    assert forall|i: int| 0 <= i < shorter.len() - 1 implies adj[shorter[i] as int].contains(
        #[trigger] shorter[i + 1],
    ) by {
        assert(adj[route[i] as int].contains(route[i + 1]));
    }
    assert(adj[route[route.len() - 2] as int].contains(route[route.len() - 2 + 1]));
}

/// The search at its start: only the source is seen, at level 0, and waits
/// in the queue.
pub proof fn lemma_search_start(adj: Seq<Seq<usize>>, source: usize, parents: Seq<i32>)
    requires
        source < adj.len(),
        source < parents.len(),
        parents[source as int] == -1,
    ensures
        search_state(
            adj,
            source as int,
            Set::empty().insert(source as int),
            Set::empty(),
            Map::empty().insert(source as int, 0),
            seq![source],
            0,
            -1,
        ),
        parent_links(
            adj,
            source as int,
            Set::empty().insert(source as int),
            Map::empty().insert(source as int, 0),
            parents,
        ),
{
    reveal(search_state);
    reveal(parent_links);
    let route = seq![source];
    assert(is_walk(adj, route));
    assert(walk_of_steps(adj, source as int, source as int, 0));
    assert(seq![source][0] == source);
}

/// Every walk from the source that ends outside the done nodes passes a
/// node that is seen but not done, after at least as many steps as that
/// node's level.
pub proof fn lemma_escape(
    adj: Seq<Seq<usize>>,
    source: int,
    seen: Set<int>,
    done: Set<int>,
    dist: Map<int, int>,
    queue: Seq<usize>,
    lv: int,
    cur: int,
    route: Seq<usize>,
)
    requires
        search_state(adj, source, seen, done, dist, queue, lv, cur),
        is_walk(adj, route),
        route[0] == source,
        !done.contains(route.last() as int),
    ensures
        exists|j: int|
            0 <= j < route.len() && #[trigger] seen.contains(route[j] as int) && !done.contains(
                route[j] as int,
            ) && dist[route[j] as int] <= j,
    decreases route.len(),
{
    reveal(search_state);
    let last = route.last() as int;
    if route.len() == 1 {
        assert(no_fewer_steps(adj, source, source, dist[source]));
        assert(seen.contains(route[0] as int));
    } else {
        lemma_walk_drop_last(adj, route);
        let shorter = route.drop_last();
        let prev = shorter.last() as int;
        if !done.contains(prev) {
            lemma_escape(adj, source, seen, done, dist, queue, lv, cur, shorter);
            let j = choose|j: int|
                0 <= j < shorter.len() && #[trigger] seen.contains(shorter[j] as int) && !done.contains(
                    shorter[j] as int,
                ) && dist[shorter[j] as int] <= j;
            assert(route[j] == shorter[j]);
            assert(seen.contains(route[j] as int));
        } else {
            let k = choose|k: int| 0 <= k < adj[prev].len() && adj[prev][k] == route.last();
            assert(seen.contains(adj[prev][k] as int));
            assert(no_fewer_steps(adj, source, last, dist[last]));
            assert(seen.contains(route[route.len() - 1] as int));
        }
    }
}

/// Taking the front node off the queue makes it the node whose edges are
/// followed, at its level.
pub proof fn lemma_take_front(
    adj: Seq<Seq<usize>>,
    source: int,
    seen: Set<int>,
    done: Set<int>,
    dist: Map<int, int>,
    queue: Seq<usize>,
    lv: int,
)
    requires
        search_state(adj, source, seen, done, dist, queue, lv, -1),
        queue.len() > 0,
    ensures
        search_state(adj, source, seen, done, dist, queue.drop_first(), dist[queue[0] as int], queue[0] as int),
        seen.contains(queue[0] as int),
        !done.contains(queue[0] as int),
        queue[0] < adj.len(),
        seen.contains(source),
{
    reveal(search_state);
    let q = queue.drop_first();
    let x = queue[0] as int;
    let l = dist[x];
    assert(seen.contains(queue[0] as int));
    assert forall|v: int| #[trigger] seen.contains(v) implies done.contains(v) || v == x || q.contains(v as usize) by {
        if !done.contains(v) && v != x {
            assert(queue.contains(v as usize));
            let i = choose|i: int| 0 <= i < queue.len() && queue[i] == v as usize;
            assert(i != 0);
            assert(q[i - 1] == queue[i]);
        }
    }
    assert forall|i: int|
        0 <= i < q.len() implies seen.contains(#[trigger] q[i] as int) && !done.contains(q[i] as int)
        && q[i] != x && l <= dist[q[i] as int] <= l + 1 by {
        assert(q[i] == queue[i + 1]);
        assert(queue[0] != queue[i + 1]);
        assert(seen.contains(queue[i + 1] as int));
    }
    assert forall|i: int, j: int|
        0 <= i < j < q.len() implies #[trigger] q[i] != #[trigger] q[j] && dist[q[i] as int] <= dist[q[j] as int] by {
        assert(q[i] == queue[i + 1] && q[j] == queue[j + 1]);
        assert(queue[i + 1] != queue[j + 1]);
    }
}

/// Finding an edge from the node being followed to a node not yet seen, and
/// queueing that node one level further, keeps what the search knows: no
/// walk reaches the new node in fewer steps.
pub proof fn lemma_discover(
    adj: Seq<Seq<usize>>,
    source: int,
    seen: Set<int>,
    done: Set<int>,
    dist: Map<int, int>,
    queue: Seq<usize>,
    lv: int,
    cur: int,
    u: usize,
)
    requires
        search_state(adj, source, seen, done, dist, queue, lv, cur),
        cur != -1,
        adj[cur].contains(u),
        u < adj.len(),
        !seen.contains(u as int),
    ensures
        search_state(
            adj,
            source,
            seen.insert(u as int),
            done,
            dist.insert(u as int, lv + 1),
            queue.push(u),
            lv,
            cur,
        ),
{
    reveal(search_state);
    let seen2 = seen.insert(u as int);
    let dist2 = dist.insert(u as int, lv + 1);
    let q = queue.push(u);
    assert(seen.contains(cur));
    // a walk to `cur`, one step on
    assert(walk_of_steps(adj, source, cur, dist[cur]));
    let to_cur = choose|route: Seq<usize>|
        #[trigger] is_walk(adj, route) && route[0] == source && route.last() == cur && route.len()
            == dist[cur] + 1;
    lemma_walk_push(adj, to_cur, u);
    assert(walk_of_steps(adj, source, u as int, lv + 1)) by {
        assert(is_walk(adj, to_cur.push(u)));
    }
    // no shorter walk: it would leave the done nodes at a node of level at
    // least `lv` that is not `u`
    assert(no_fewer_steps(adj, source, u as int, lv + 1)) by {
        assert forall|route: Seq<usize>|
            #[trigger] is_walk(adj, route) && route[0] == source && route.last() == u implies route.len()
                >= lv + 2 by {
            lemma_escape(adj, source, seen, done, dist, queue, lv, cur, route);
            let j = choose|j: int|
                0 <= j < route.len() && #[trigger] seen.contains(route[j] as int) && !done.contains(
                    route[j] as int,
                ) && dist[route[j] as int] <= j;
            let w = route[j] as int;
            if w != cur {
                assert(queue.contains(w as usize));
                let i = choose|i: int| 0 <= i < queue.len() && queue[i] == w as usize;
                assert(lv <= dist[queue[i] as int]);
            }
            assert(w != u as int);
            assert(j != route.len() - 1);
        }
    }
    assert forall|v: int| #[trigger] seen2.contains(v) implies 0 <= v < adj.len() && 0 <= dist2[v] by {
        if v != u as int {
            assert(seen.contains(v));
        }
    }
    assert forall|v: int| #[trigger] seen2.contains(v) implies walk_of_steps(adj, source, v, dist2[v]) by {
        if v != u as int {
            assert(seen.contains(v));
        }
    }
    assert forall|v: int| #[trigger] seen2.contains(v) implies no_fewer_steps(adj, source, v, dist2[v]) by {
        if v != u as int {
            assert(seen.contains(v));
        }
    }
    assert forall|v: int| #[trigger] seen2.contains(v) implies done.contains(v) || v == cur || q.contains(v as usize) by {
        if v == u as int {
            assert(q[queue.len() as int] == u);
        } else {
            assert(seen.contains(v));
            if !done.contains(v) && v != cur {
                let i = choose|i: int| 0 <= i < queue.len() && queue[i] == v as usize;
                assert(q[i] == queue[i]);
            }
        }
    }
    assert forall|v: int| #[trigger] done.contains(v) implies seen2.contains(v) && v != cur && dist2[v] <= lv by {
        assert(seen.contains(v));
        assert(v != u as int);
    }
    assert forall|i: int|
        0 <= i < q.len() implies seen2.contains(#[trigger] q[i] as int) && !done.contains(q[i] as int)
        && q[i] != cur && lv <= dist2[q[i] as int] <= lv + 1 by {
        if i < queue.len() {
            assert(q[i] == queue[i]);
            assert(seen.contains(queue[i] as int));
            assert(queue[i] != u);
        } else {
            assert(q[i] == u);
            assert(!done.contains(u as int));
        }
    }
    assert forall|i: int, j: int|
        0 <= i < j < q.len() implies #[trigger] q[i] != #[trigger] q[j] && dist2[q[i] as int] <= dist2[q[j] as int] by {
        assert(q[i] == queue[i]);
        assert(seen.contains(queue[i] as int));
        if j < queue.len() {
            assert(q[j] == queue[j]);
            assert(queue[i] != queue[j]);
            assert(seen.contains(queue[j] as int));
        } else {
            assert(q[j] == u);
        }
    }
    assert forall|v: int, k: int|
        done.contains(v) && 0 <= k < adj[v].len() implies seen2.contains(#[trigger] adj[v][k] as int) by {
        assert(seen.contains(adj[v][k] as int));
    }
}

/// Once every edge of the node being followed leads to a seen node, that
/// node is done.
pub proof fn lemma_finish_node(
    adj: Seq<Seq<usize>>,
    source: int,
    seen: Set<int>,
    done: Set<int>,
    dist: Map<int, int>,
    queue: Seq<usize>,
    lv: int,
    cur: int,
)
    requires
        search_state(adj, source, seen, done, dist, queue, lv, cur),
        cur != -1,
        forall|k: int| 0 <= k < adj[cur].len() ==> seen.contains(#[trigger] adj[cur][k] as int),
    ensures
        search_state(adj, source, seen, done.insert(cur), dist, queue, lv, -1),
        !done.contains(cur),
        0 <= cur < adj.len(),
{
    reveal(search_state);
    assert(seen.contains(cur));
    assert forall|v: int, k: int|
        done.insert(cur).contains(v) && 0 <= k < adj[v].len() implies seen.contains(#[trigger] adj[v][k] as int) by {
        if v != cur {
            assert(done.contains(v));
        }
    }
}

/// Queueing a node not yet seen with the node being followed as its parent
/// keeps the parent links.
pub proof fn lemma_link_parent(
    adj: Seq<Seq<usize>>,
    source: int,
    seen: Set<int>,
    dist: Map<int, int>,
    parents: Seq<i32>,
    lv: int,
    cur: int,
    parent: i32,
    u: usize,
)
    requires
        parent_links(adj, source, seen, dist, parents),
        seen.contains(source),
        seen.contains(cur),
        0 <= cur < adj.len(),
        dist[cur] == lv,
        parent as int == cur,
        adj[cur].contains(u),
        u < parents.len(),
        !seen.contains(u as int),
    ensures
        parent_links(
            adj,
            source,
            seen.insert(u as int),
            dist.insert(u as int, lv + 1),
            parents.update(u as int, parent),
        ),
{
    reveal(parent_links);
    let seen2 = seen.insert(u as int);
    let dist2 = dist.insert(u as int, lv + 1);
    let parents2 = parents.update(u as int, parent);
    assert(u as int != source);
    assert forall|v: int| #[trigger] seen2.contains(v) && v != source implies {
        let p = parents2[v] as int;
        &&& 0 <= v < parents2.len()
        &&& 0 <= p < adj.len()
        &&& seen2.contains(p)
        &&& adj[p].contains(v as usize)
        &&& dist2[v] == dist2[p] + 1
    } by {
        if v != u as int {
            assert(seen.contains(v));
            assert(parents2[v] == parents[v]);
            let p = parents[v] as int;
            assert(seen.contains(p));
            assert(p != u as int);
        } else {
            assert(parents2[v] == parent);
            assert(cur != u as int);
        }
    }
}


/// The state of the breadth-first search as the code keeps it: which nodes
/// it has marked, each node's parent (-1 for none), the nodes waiting, and
/// whether it has taken the target off the queue.
pub struct BfsState {
    pub visited: Seq<bool>,
    pub parents: Seq<i32>,
    pub queue: Seq<usize>,
    pub found: bool,
}

/// The search at its start, over `n` nodes: only the source is marked and
/// waits.
pub open spec fn bfs_start(n: nat, source: usize) -> BfsState {
    BfsState {
        visited: Seq::new(n, |i: int| false).update(source as int, true),
        parents: Seq::new(n, |i: int| -1i32),
        queue: seq![source],
        found: false,
    }
}

/// Following the edge from `cur` to `u`: an unmarked `u` is marked, gets
/// `cur` as its parent and joins the queue.
pub open spec fn bfs_visit(st: BfsState, cur: usize, u: usize) -> BfsState {
    if st.visited[u as int] {
        st
    } else {
        BfsState {
            visited: st.visited.update(u as int, true),
            parents: st.parents.update(u as int, cur as i32),
            queue: st.queue.push(u),
            found: st.found,
        }
    }
}

/// The state after following the first `j` edges of `cur`, in order.
pub open spec fn bfs_scan(adj: Seq<Seq<usize>>, st: BfsState, cur: usize, j: nat) -> BfsState
    decreases j,
{
    if j == 0 {
        st
    } else {
        bfs_visit(bfs_scan(adj, st, cur, (j - 1) as nat), cur, adj[cur as int][j - 1])
    }
}

/// One round of the search: once the target has come off the queue, or
/// the queue is empty, nothing changes; else the front node comes off, and
/// unless it is the target, its edges are followed.
pub open spec fn bfs_step(adj: Seq<Seq<usize>>, target: usize, st: BfsState) -> BfsState {
    if st.found || st.queue.len() == 0 {
        st
    } else {
        let cur = st.queue[0];
        let popped = BfsState { queue: st.queue.drop_first(), ..st };
        if cur == target {
            BfsState { found: true, ..popped }
        } else {
            bfs_scan(adj, popped, cur, adj[cur as int].len())
        }
    }
}

/// The state after `k` rounds.
pub open spec fn bfs_rounds(adj: Seq<Seq<usize>>, target: usize, st: BfsState, k: nat) -> BfsState
    decreases k,
{
    if k == 0 {
        st
    } else {
        bfs_step(adj, target, bfs_rounds(adj, target, st, (k - 1) as nat))
    }
}

/// The route back from `node` along the parents to the source (at most
/// `fuel` steps back), source first.
pub open spec fn bfs_trace(parents: Seq<i32>, source: usize, node: usize, fuel: nat) -> Seq<usize>
    decreases fuel,
{
    if fuel == 0 || node == source || parents[node as int] == -1 {
        seq![node]
    } else {
        bfs_trace(parents, source, parents[node as int] as usize, (fuel - 1) as nat).push(node)
    }
}

/// The route the breadth-first search from `source` gives to `target`:
/// once the search has stopped (it stops within as many rounds as there are
/// nodes, and one more), the route back along the parents from the target,
/// if the target was marked.
pub open spec fn bfs_route(adj: Seq<Seq<usize>>, source: usize, target: usize) -> Option<Seq<usize>> {
    let st = bfs_rounds(adj, target, bfs_start(adj.len(), source), adj.len() + 1);
    if st.visited[target as int] {
        Some(bfs_trace(st.parents, source, target, adj.len()))
    } else {
        None
    }
}

/// Once the search has stopped, further rounds change nothing.
pub proof fn lemma_rounds_stay(adj: Seq<Seq<usize>>, target: usize, st: BfsState, k: nat, m: nat)
    requires
        bfs_rounds(adj, target, st, k).found || bfs_rounds(adj, target, st, k).queue.len() == 0,
    ensures
        bfs_rounds(adj, target, st, k + m) == bfs_rounds(adj, target, st, k),
    decreases m,
{
    if m > 0 {
        lemma_rounds_stay(adj, target, st, k, (m - 1) as nat);
        assert(bfs_rounds(adj, target, st, k + m) == bfs_step(adj, target, bfs_rounds(adj, target, st, (k + m - 1) as nat)));
    }
}

/// A route of distinct nodes below `n` has at most `n` nodes.
pub proof fn lemma_distinct_nodes_bound(route: Seq<usize>, n: int)
    requires
        forall|i: int, j: int| 0 <= i < j < route.len() ==> route[i] != route[j],
        forall|i: int| 0 <= i < route.len() ==> route[i] < n,
        n >= 0,
    ensures
        route.len() <= n,
{
    let ints = route.map_values(|v: usize| v as int);
    assert(ints.no_duplicates()) by {
        assert forall|i: int, j: int| 0 <= i < ints.len() && 0 <= j < ints.len() && i != j implies ints[i]
            != ints[j] by {
            if i < j {
                assert(route[i] != route[j]);
            } else {
                assert(route[j] != route[i]);
            }
        }
    }
    ints.unique_seq_to_set();
    vstd::set_lib::lemma_int_range(0, n);
    assert(ints.to_set().subset_of(vstd::set_lib::set_int_range(0, n))) by {
        assert forall|v: int| ints.to_set().contains(v) implies vstd::set_lib::set_int_range(0, n).contains(v) by {
            let i = choose|i: int| 0 <= i < ints.len() && ints[i] == v;
            assert(route[i] < n);
        }
    }
    vstd::set_lib::lemma_len_subset(ints.to_set(), vstd::set_lib::set_int_range(0, n));
}

} // verus!

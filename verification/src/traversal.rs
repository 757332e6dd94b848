//! Breadth-first traversal of an object graph, in the abstract.
//!
//! A walk keeps a queue of nodes to look at, the set of nodes that are done,
//! and the order in which it visited nodes. The push and the fetch traversal
//! both follow such a walk; what is proved here of the walk holds of both.

use vstd::prelude::*;

verus! {

/// The state of a walk.
pub struct Walk {
    /// The nodes waiting to be looked at, first in first out.
    pub queue: Seq<Seq<u8>>,
    /// The nodes that need no visit.
    pub done: Set<Seq<u8>>,
    /// The nodes visited so far, in the order of their visits.
    pub order: Seq<Seq<u8>>,
}

/// Those of `targets` that are not in `done`, in their order.
pub open spec fn unrecorded(done: Set<Seq<u8>>, targets: Seq<Seq<u8>>) -> Seq<Seq<u8>>
    decreases targets.len(),
{
    if targets.len() == 0 {
        Seq::empty()
    } else if done.contains(targets[0]) {
        unrecorded(done, targets.skip(1))
    } else {
        seq![targets[0]] + unrecorded(done, targets.skip(1))
    }
}

/// What the visit of a node with these `targets` adds to the queue: all of
/// them, or, in a selective walk, only those that are not done.
pub open spec fn enqueued(selective: bool, done: Set<Seq<u8>>, targets: Seq<Seq<u8>>) -> Seq<
    Seq<u8>,
> {
    if selective {
        unrecorded(done, targets)
    } else {
        targets
    }
}

/// One step of a walk: the first node of the queue is passed over if it is
/// done, and visited otherwise. A visit marks the node done and puts its
/// targets at the end of the queue.
pub open spec fn walk_step(graph: Map<Seq<u8>, Seq<Seq<u8>>>, selective: bool, w: Walk) -> Walk {
    if w.queue.len() == 0 {
        w
    } else if w.done.contains(w.queue[0]) {
        Walk { queue: w.queue.skip(1), done: w.done, order: w.order }
    } else {
        Walk {
            queue: w.queue.skip(1) + enqueued(selective, w.done, graph[w.queue[0]]),
            done: w.done.insert(w.queue[0]),
            order: w.order.push(w.queue[0]),
        }
    }
}

/// The walk after `steps` steps.
pub open spec fn walk_run(
    graph: Map<Seq<u8>, Seq<Seq<u8>>>,
    selective: bool,
    w: Walk,
    steps: nat,
) -> Walk
    decreases steps,
{
    if steps == 0 {
        w
    } else {
        walk_run(graph, selective, walk_step(graph, selective, w), (steps - 1) as nat)
    }
}

/// The walk that starts at `root` with the nodes in `done` already done.
pub open spec fn walk_start(root: Seq<u8>, done: Set<Seq<u8>>) -> Walk {
    Walk { queue: seq![root], done, order: Seq::empty() }
}

/// Every node of `nodes` has its targets in the graph, and they are nodes
/// of `nodes` again.
pub open spec fn closed(graph: Map<Seq<u8>, Seq<Seq<u8>>>, nodes: Set<Seq<u8>>) -> bool {
    forall|x: Seq<u8>| #[trigger]
        nodes.contains(x) ==> graph.dom().contains(x) && forall|j: int|
            0 <= j < graph[x].len() ==> nodes.contains(#[trigger] graph[x][j])
}

/// `path` leads along links of the graph.
pub open spec fn is_path(graph: Map<Seq<u8>, Seq<Seq<u8>>>, path: Seq<Seq<u8>>) -> bool {
    path.len() > 0 && forall|i: int|
        0 <= i < path.len() - 1 ==> graph.dom().contains(#[trigger] path[i])
            && graph[path[i]].contains(path[i + 1])
}

/// Some path leads from `root` to `x`.
pub open spec fn reachable(graph: Map<Seq<u8>, Seq<Seq<u8>>>, root: Seq<u8>, x: Seq<u8>) -> bool {
    exists|path: Seq<Seq<u8>>| #[trigger]
        is_path(graph, path) && path[0] == root && path.last() == x
}

/// `root` is a node of `nodes`, and every node of `nodes` can be reached
/// from it.
pub open spec fn rooted(
    graph: Map<Seq<u8>, Seq<Seq<u8>>>,
    nodes: Set<Seq<u8>>,
    root: Seq<u8>,
) -> bool {
    nodes.contains(root) && forall|x: Seq<u8>| #[trigger]
        nodes.contains(x) ==> reachable(graph, root, x)
}

/// What holds of a walk over `nodes` at every step: the nodes done are those
/// done at the start and those visited; no node was visited twice; only
/// nodes of `nodes` are visited or queued; and the root and each target of
/// a visited node is either visited or waits in the queue.
pub open spec fn walk_inv(
    graph: Map<Seq<u8>, Seq<Seq<u8>>>,
    nodes: Set<Seq<u8>>,
    root: Seq<u8>,
    done: Set<Seq<u8>>,
    w: Walk,
) -> bool {
    &&& w.done == done + w.order.to_set()
    &&& w.order.no_duplicates()
    &&& forall|i: int| 0 <= i < w.order.len() ==> nodes.contains(#[trigger] w.order[i])
    &&& forall|i: int| 0 <= i < w.queue.len() ==> nodes.contains(#[trigger] w.queue[i])
    &&& forall|i: int, j: int|
        0 <= i < w.order.len() && 0 <= j < graph[w.order[i]].len() ==> w.order.contains(
            #[trigger] graph[w.order[i]][j],
        ) || w.queue.contains(graph[w.order[i]][j])
    &&& w.order.contains(root) || w.queue.contains(root)
}

/// A target is among the unrecorded ones exactly if it is not done.
pub proof fn lemma_unrecorded(done: Set<Seq<u8>>, targets: Seq<Seq<u8>>, c: Seq<u8>)
    ensures
        unrecorded(done, targets).contains(c) <==> targets.contains(c) && !done.contains(c),
    decreases targets.len(),
{
    let out = unrecorded(done, targets);
    if targets.len() > 0 {
        let rest = targets.skip(1);
        let sub = unrecorded(done, rest);
        lemma_unrecorded(done, rest, c);
        lemma_contains_first_or_rest(targets, c);
        if done.contains(targets[0]) {
            assert(out == sub);
        } else {
            assert(out == seq![targets[0]] + sub);
            lemma_contains_concat(seq![targets[0]], sub, c);
            if seq![targets[0]].contains(c) {
                let k = choose|k: int| 0 <= k < 1 && seq![targets[0]][k] == c;
            }
            if c == targets[0] {
                assert(seq![targets[0]][0] == c);
            }
        }
    }
}

/// A node is in a queue exactly if it is its first or in the rest of it.
pub proof fn lemma_contains_first_or_rest(queue: Seq<Seq<u8>>, c: Seq<u8>)
    requires
        queue.len() > 0,
    ensures
        queue.contains(c) <==> c == queue[0] || queue.skip(1).contains(c),
{
    let rest = queue.skip(1);
    if queue.contains(c) {
        let k = choose|k: int| 0 <= k < queue.len() && queue[k] == c;
        if k > 0 {
            assert(rest[k - 1] == c);
        }
    }
    if rest.contains(c) {
        let k = choose|k: int| 0 <= k < rest.len() && rest[k] == c;
        assert(queue[k + 1] == c);
    }
    if c == queue[0] {
        assert(queue.contains(c));
    }
}

/// A node is in a concatenation exactly if it is in one of its parts.
pub proof fn lemma_contains_concat(a: Seq<Seq<u8>>, b: Seq<Seq<u8>>, c: Seq<u8>)
    ensures
        (a + b).contains(c) <==> a.contains(c) || b.contains(c),
{
    let ab = a + b;
    if ab.contains(c) {
        let k = choose|k: int| 0 <= k < ab.len() && ab[k] == c;
        if k < a.len() {
            assert(a[k] == c);
        } else {
            assert(b[k - a.len()] == c);
        }
    }
    if a.contains(c) {
        let k = choose|k: int| 0 <= k < a.len() && a[k] == c;
        assert(ab[k] == c);
    }
    if b.contains(c) {
        let k = choose|k: int| 0 <= k < b.len() && b[k] == c;
        assert(ab[k + a.len()] == c);
    }
}

/// A step of a walk keeps what holds of it.
pub proof fn lemma_walk_step_inv(
    graph: Map<Seq<u8>, Seq<Seq<u8>>>,
    nodes: Set<Seq<u8>>,
    root: Seq<u8>,
    done: Set<Seq<u8>>,
    selective: bool,
    w: Walk,
)
    requires
        closed(graph, nodes),
        done.disjoint(nodes),
        walk_inv(graph, nodes, root, done, w),
    ensures
        walk_inv(graph, nodes, root, done, walk_step(graph, selective, w)),
{
    if w.queue.len() == 0 {
        return ;
    }
    let x = w.queue[0];
    let rest = w.queue.skip(1);
    let next = walk_step(graph, selective, w);
    assert(nodes.contains(x));
    assert(!done.contains(x));
    lemma_contains_first_or_rest(w.queue, root);
    assert forall|i: int, j: int|
        0 <= i < w.order.len() && 0 <= j < graph[w.order[i]].len() implies w.order.contains(
        #[trigger] graph[w.order[i]][j],
    ) || graph[w.order[i]][j] == x || rest.contains(graph[w.order[i]][j]) by {
        lemma_contains_first_or_rest(w.queue, graph[w.order[i]][j]);
    }
    assert forall|i: int| 0 <= i < rest.len() implies nodes.contains(#[trigger] rest[i]) by {
        assert(rest[i] == w.queue[i + 1]);
    }
    if w.done.contains(x) {
        assert(w.order.to_set().contains(x));
        assert(w.order.contains(x));
    } else {
        let targets = graph[x];
        let added = enqueued(selective, w.done, targets);
        assert(!w.order.to_set().contains(x));
        assert(!w.order.contains(x));
        w.order.lemma_push_to_set_commute(x);
        assert(next.done =~= done + next.order.to_set());
        lemma_contains_concat(rest, added, root);
        vstd::seq_lib::lemma_seq_contains_after_push(w.order, x, root);
        assert forall|i: int| 0 <= i < next.queue.len() implies nodes.contains(
            #[trigger] next.queue[i],
        ) by {
            if i >= rest.len() {
                let c = added[i - rest.len()];
                assert(added.contains(c));
                lemma_unrecorded(w.done, targets, c);
                assert(targets.contains(c));
                let j = choose|j: int| 0 <= j < targets.len() && targets[j] == c;
                assert(nodes.contains(graph[x][j]));
            }
        }
        assert forall|i: int, j: int|
            0 <= i < next.order.len() && 0 <= j < graph[next.order[i]].len() implies next.order.contains(
            #[trigger] graph[next.order[i]][j],
        ) || next.queue.contains(graph[next.order[i]][j]) by {
            let c = graph[next.order[i]][j];
            lemma_contains_first_or_rest(w.queue, c);
            lemma_contains_concat(rest, added, c);
            vstd::seq_lib::lemma_seq_contains_after_push(w.order, x, c);
            lemma_unrecorded(w.done, targets, c);
            if i < w.order.len() {
                assert(next.order[i] == w.order[i]);
                assert(w.order.contains(graph[w.order[i]][j]) || w.queue.contains(
                    graph[w.order[i]][j],
                ));
            } else {
                assert(next.order[i] == x);
                assert(targets[j] == c);
                assert(targets.contains(c));
                assert(nodes.contains(graph[x][j]));
                if selective && w.done.contains(c) {
                    assert(!done.contains(c));
                    assert(w.order.to_set().contains(c));
                } else {
                    assert(added.contains(c));
                }
            }
        }
    }
}

/// Along closed links, a path that starts in a set of visited nodes whose
/// targets are all visited stays in that set.
proof fn lemma_path_stays(
    graph: Map<Seq<u8>, Seq<Seq<u8>>>,
    order: Seq<Seq<u8>>,
    path: Seq<Seq<u8>>,
    k: int,
)
    requires
        is_path(graph, path),
        order.contains(path[0]),
        forall|i: int, j: int|
            0 <= i < order.len() && 0 <= j < graph[order[i]].len() ==> order.contains(
                #[trigger] graph[order[i]][j],
            ),
        0 <= k < path.len(),
    ensures
        order.contains(path[k]),
    decreases k,
{
    if k > 0 {
        lemma_path_stays(graph, order, path, k - 1);
        let i = choose|i: int| 0 <= i < order.len() && order[i] == path[k - 1];
        assert(graph.dom().contains(path[k - 1]));
        let targets = graph[path[k - 1]];
        assert(targets.contains(path[k - 1 + 1]));
        let j = choose|j: int| 0 <= j < targets.len() && targets[j] == path[k];
        assert(order.contains(graph[order[i]][j]));
    }
}

/// A walk whose queue has run empty has visited every node, each one once.
pub proof fn lemma_walk_end(
    graph: Map<Seq<u8>, Seq<Seq<u8>>>,
    nodes: Set<Seq<u8>>,
    root: Seq<u8>,
    done: Set<Seq<u8>>,
    w: Walk,
)
    requires
        nodes.finite(),
        rooted(graph, nodes, root),
        walk_inv(graph, nodes, root, done, w),
        w.queue.len() == 0,
    ensures
        w.done == done + nodes,
        w.order.no_duplicates(),
        w.order.to_set() == nodes,
        w.order.len() == nodes.len(),
{
    assert forall|x: Seq<u8>| nodes.contains(x) implies w.order.to_set().contains(x) by {
        assert(reachable(graph, root, x));
        let path = choose|path: Seq<Seq<u8>>| #[trigger]
            is_path(graph, path) && path[0] == root && path.last() == x;
        lemma_path_stays(graph, w.order, path, path.len() - 1);
    }
    assert(w.order.to_set() =~= nodes);
    w.order.unique_seq_to_set();
}

/// A walk over a finite closed set of nodes comes to an end: after the
/// number of steps returned its queue is empty, and what holds of a walk
/// holds of it still.
pub proof fn lemma_walk_terminates(
    graph: Map<Seq<u8>, Seq<Seq<u8>>>,
    nodes: Set<Seq<u8>>,
    root: Seq<u8>,
    done: Set<Seq<u8>>,
    selective: bool,
    w: Walk,
) -> (steps: nat)
    requires
        nodes.finite(),
        closed(graph, nodes),
        done.disjoint(nodes),
        walk_inv(graph, nodes, root, done, w),
    ensures
        walk_run(graph, selective, w, steps).queue.len() == 0,
        walk_inv(graph, nodes, root, done, walk_run(graph, selective, w, steps)),
    decreases nodes.len() - w.order.len(), w.queue.len(),
{
    if w.queue.len() == 0 {
        0
    } else {
        let next = walk_step(graph, selective, w);
        lemma_walk_step_inv(graph, nodes, root, done, selective, w);
        lemma_visited_within(nodes, w.order);
        lemma_visited_within(nodes, next.order);
        let rest = lemma_walk_terminates(graph, nodes, root, done, selective, next);
        rest + 1
    }
}

/// Distinct nodes taken from a finite set are no more than the set holds.
pub proof fn lemma_visited_within(nodes: Set<Seq<u8>>, order: Seq<Seq<u8>>)
    requires
        nodes.finite(),
        order.no_duplicates(),
        forall|i: int| 0 <= i < order.len() ==> nodes.contains(#[trigger] order[i]),
    ensures
        order.len() <= nodes.len(),
{
    order.unique_seq_to_set();
    assert(order.to_set().subset_of(nodes)) by {
        assert forall|x: Seq<u8>| order.to_set().contains(x) implies nodes.contains(x) by {
            let i = choose|i: int| 0 <= i < order.len() && order[i] == x;
            assert(nodes.contains(order[i]));
        }
    }
    vstd::set_lib::lemma_len_subset(order.to_set(), nodes);
}

/// The walk from the root of a finite graph, none of whose nodes is done at
/// the start, visits every node exactly once and then stops: after the
/// number of steps returned its queue is empty, its order holds each node
/// once, and the nodes are done.
pub proof fn lemma_walk_visits_every_node_once(
    graph: Map<Seq<u8>, Seq<Seq<u8>>>,
    nodes: Set<Seq<u8>>,
    root: Seq<u8>,
    done: Set<Seq<u8>>,
    selective: bool,
) -> (steps: nat)
    requires
        nodes.finite(),
        closed(graph, nodes),
        rooted(graph, nodes, root),
        done.disjoint(nodes),
    ensures
        ({
            let end = walk_run(graph, selective, walk_start(root, done), steps);
            &&& end.queue.len() == 0
            &&& end.done == done + nodes
            &&& end.order.no_duplicates()
            &&& end.order.to_set() == nodes
            &&& end.order.len() == nodes.len()
        }),
{
    let start = walk_start(root, done);
    lemma_walk_start_inv(graph, nodes, root, done);
    let steps = lemma_walk_terminates(graph, nodes, root, done, selective, start);
    lemma_walk_end(graph, nodes, root, done, walk_run(graph, selective, start, steps));
    steps
}

/// What holds of a walk holds at its start.
pub proof fn lemma_walk_start_inv(
    graph: Map<Seq<u8>, Seq<Seq<u8>>>,
    nodes: Set<Seq<u8>>,
    root: Seq<u8>,
    done: Set<Seq<u8>>,
)
    requires
        nodes.contains(root),
    ensures
        walk_inv(graph, nodes, root, done, walk_start(root, done)),
{
    let start = walk_start(root, done);
    assert(start.order.to_set() =~= Set::empty());
    assert(start.done =~= done + start.order.to_set());
    assert(start.queue[0] == root);
    assert(start.queue.contains(root));
}

} // verus!

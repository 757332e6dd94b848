//! The fetch traversal against a model of its collaborators, and what
//! follows for whole traversals: every object of a graph that the store
//! holds becomes one loose object.

use vstd::prelude::*;
use crate::digest::{multihash_digest, OBJECT_ID_LEN};
use crate::error::Error;
use crate::fetch::{
    fetch_next_object, fetch_resume, fetch_start, link_targets, shard_path, zlib_compressed,
    FetchActionView, FetchEventView, FetchPhase, FetchState,
};
use crate::object::lemma_shard_injective;
use crate::push_model::{
    link_digests, object_bytes, push_graph, push_well_formed, PushWorld,
};
use crate::traversal::{
    closed, lemma_walk_start_inv, lemma_walk_step_inv, lemma_walk_visits_every_node_once, rooted,
    walk_inv, walk_run, walk_start, walk_step, Walk,
};

verus! {

/// The collaborators of a fetch traversal, as far as it can tell: the loose
/// objects on disk by path, the encoded objects that the store holds by
/// digest, the links that the codec finds in an encoded object, and the
/// entries of the tracker.
pub struct FetchWorld {
    pub files: Map<(Seq<char>, Seq<char>), Seq<u8>>,
    pub blocks: Map<Seq<u8>, Seq<u8>>,
    pub links: Map<Seq<u8>, Seq<Seq<u8>>>,
    pub tracker: Set<Seq<u8>>,
}

/// How the collaborators answer an action, and what it does to them. A
/// query changes nothing; a write puts the data at its path; a recorded
/// entry joins the tracker. There is no answer where the store lacks the
/// object or the codec refuses it, nor after the traversal is done.
pub open spec fn fetch_outcome(w: FetchWorld, action: FetchActionView) -> Option<
    (FetchWorld, FetchEventView),
> {
    match action {
        FetchActionView::Exists(path) => Some(
            (w, FetchEventView::Exists(w.files.dom().contains(path))),
        ),
        FetchActionView::Get(id) => if w.blocks.dom().contains(id) && w.links.dom().contains(
            w.blocks[id],
        ) {
            Some((w, FetchEventView::Block { bytes: w.blocks[id], links: w.links[w.blocks[id]] }))
        } else {
            None
        },
        FetchActionView::Write { path, data } => Some(
            (FetchWorld { files: w.files.insert(path, data), ..w }, FetchEventView::Written),
        ),
        FetchActionView::AddEntry(id) => Some(
            (FetchWorld { tracker: w.tracker.insert(id), ..w }, FetchEventView::Added),
        ),
        FetchActionView::Done => None,
    }
}

/// A traversal under way: its state, the action it has handed out, and the
/// collaborators.
pub struct FetchRun {
    pub state: FetchState,
    pub action: FetchActionView,
    pub world: FetchWorld,
}

/// The action is performed and the traversal resumed with its outcome. The
/// run stays as it is when there is no outcome or the traversal fails.
pub open spec fn fetch_run_step(r: FetchRun) -> FetchRun {
    match fetch_outcome(r.world, r.action) {
        None => r,
        Some((world, event)) => match fetch_resume(r.state, event) {
            Err(_) => r,
            Ok((state, action)) => FetchRun { state, action, world },
        },
    }
}

/// The run after `steps` actions.
pub open spec fn fetch_run(r: FetchRun, steps: nat) -> FetchRun
    decreases steps,
{
    if steps == 0 {
        r
    } else {
        fetch_run(fetch_run_step(r), (steps - 1) as nat)
    }
}

/// The run that starts a traversal from `root`.
pub open spec fn fetch_begin(root: Seq<u8>, world: FetchWorld) -> FetchRun {
    FetchRun { state: fetch_start(root).0, action: fetch_start(root).1, world }
}

/// Running `a` actions and then `b` is running `a + b`.
pub proof fn lemma_fetch_run_add(r: FetchRun, a: nat, b: nat)
    ensures
        fetch_run(r, a + b) == fetch_run(fetch_run(r, a), b),
    decreases a,
{
    if a > 0 {
        lemma_fetch_run_add(fetch_run_step(r), (a - 1) as nat, b);
        assert((a + b - 1) as nat == (a - 1) as nat + b);
    }
}

/// The object graph that the collaborators hold: the objects that the store
/// has and the codec accepts, each with the digests of its links.
pub open spec fn fetch_graph(w: FetchWorld) -> Map<Seq<u8>, Seq<Seq<u8>>> {
    Map::new(
        |id: Seq<u8>| w.blocks.dom().contains(id) && w.links.dom().contains(w.blocks[id]),
        |id: Seq<u8>| link_digests(w.links[w.blocks[id]]),
    )
}

/// Every node of `nodes` has the length of an object identifier, its
/// encoded object can be compressed, and each link of it carries a
/// multihash.
pub open spec fn fetch_well_formed(w: FetchWorld, nodes: Set<Seq<u8>>) -> bool {
    forall|id: Seq<u8>| #[trigger]
        nodes.contains(id) ==> id.len() == OBJECT_ID_LEN && zlib_compressed(w.blocks[id]) is Some
            && forall|i: int|
            0 <= i < w.links[w.blocks[id]].len() ==> multihash_digest(
                #[trigger] w.links[w.blocks[id]][i],
            ) is Ok
}

/// The object identifiers whose loose object is among `files`.
pub open spec fn fetch_present(files: Map<(Seq<char>, Seq<char>), Seq<u8>>) -> Set<Seq<u8>> {
    Set::new(|id: Seq<u8>| id.len() == OBJECT_ID_LEN && files.dom().contains(shard_path(id)))
}

/// The loose objects after the objects in `order` were fetched: each is at
/// the path of its digest and holds the compressed encoded object.
pub open spec fn files_after(w: FetchWorld, order: Seq<Seq<u8>>) -> Map<
    (Seq<char>, Seq<char>),
    Seq<u8>,
>
    decreases order.len(),
{
    if order.len() == 0 {
        w.files
    } else {
        files_after(w, order.drop_last()).insert(
            shard_path(order.last()),
            zlib_compressed(w.blocks[order.last()])->0,
        )
    }
}

/// The paths of the loose objects of `nodes`.
pub open spec fn shard_paths(nodes: Set<Seq<u8>>) -> Set<(Seq<char>, Seq<char>)> {
    nodes.map(|id: Seq<u8>| shard_path(id))
}

/// A finite set of object identifiers has as many loose-object paths as
/// members.
pub proof fn lemma_shard_paths_len(nodes: Set<Seq<u8>>)
    requires
        nodes.finite(),
        forall|id: Seq<u8>| nodes.contains(id) ==> id.len() == OBJECT_ID_LEN,
    ensures
        shard_paths(nodes).finite(),
        shard_paths(nodes).len() == nodes.len(),
{
    let f = |id: Seq<u8>| shard_path(id);
    assert(vstd::relations::injective_on(f, nodes)) by {
        assert forall|a: Seq<u8>, b: Seq<u8>|
            nodes.contains(a) && nodes.contains(b) && #[trigger] f(a) == #[trigger] f(
                b,
            ) implies a == b by {
            lemma_shard_injective(a, b);
        }
    }
    vstd::set_lib::lemma_map_size(nodes, shard_paths(nodes), f);
}

/// The collaborators after a walk: each visited object is a loose object
/// and is recorded.
pub open spec fn fetch_world_after(w: FetchWorld, walk: Walk) -> FetchWorld {
    FetchWorld {
        files: files_after(w, walk.order),
        blocks: w.blocks,
        links: w.links,
        tracker: w.tracker + walk.order.to_set(),
    }
}

/// The run that is about to take the next digest from `queue`.
pub open spec fn fetch_at(queue: Seq<Seq<u8>>, world: FetchWorld) -> FetchRun {
    FetchRun { state: fetch_next_object(queue).0, action: fetch_next_object(queue).1, world }
}

/// The loose object of an identifier is there after a fetch exactly if it
/// was there before or the identifier was fetched.
pub proof fn lemma_files_after_has(w: FetchWorld, order: Seq<Seq<u8>>, id: Seq<u8>)
    requires
        id.len() == OBJECT_ID_LEN,
        forall|i: int| 0 <= i < order.len() ==> (#[trigger] order[i]).len() == OBJECT_ID_LEN,
    ensures
        files_after(w, order).dom().contains(shard_path(id)) <==> w.files.dom().contains(
            shard_path(id),
        ) || order.contains(id),
    decreases order.len(),
{
    if order.len() > 0 {
        let front = order.drop_last();
        lemma_files_after_has(w, front, id);
        assert(order =~= front.push(order.last()));
        vstd::seq_lib::lemma_seq_contains_after_push(front, order.last(), id);
        if shard_path(order.last()) == shard_path(id) {
            lemma_shard_injective(order.last(), id);
        }
    } else if order.contains(id) {
        let k = choose|k: int| 0 <= k < order.len() && order[k] == id;
    }
}

/// Links that all carry the digest of an object have these digests as their
/// targets.
pub proof fn lemma_link_targets(links: Seq<Seq<u8>>)
    requires
        forall|i: int|
            0 <= i < links.len() ==> multihash_digest(#[trigger] links[i]) is Ok
                && multihash_digest(links[i])->Ok_0.len() == OBJECT_ID_LEN,
    ensures
        link_targets(links) == Ok::<Seq<Seq<u8>>, Error>(link_digests(links)),
    decreases links.len(),
{
    if links.len() == 0 {
        assert(link_digests(links) =~= Seq::empty());
    } else {
        let rest = links.skip(1);
        assert forall|i: int| 0 <= i < rest.len() implies multihash_digest(
            #[trigger] rest[i],
        ) is Ok && multihash_digest(rest[i])->Ok_0.len() == OBJECT_ID_LEN by {
            assert(rest[i] == links[i + 1]);
        }
        lemma_link_targets(rest);
        assert(link_digests(links) =~= seq![multihash_digest(links[0])->Ok_0] + link_digests(
            rest,
        ));
    }
}

/// One step of the walk, as the traversal takes it: after the number of
/// actions returned, the traversal is about to take the next digest from
/// the queue of the walk after its step, and the collaborators are those
/// after that step.
proof fn lemma_fetch_walk_step(
    w: FetchWorld,
    nodes: Set<Seq<u8>>,
    root: Seq<u8>,
    walk: Walk,
) -> (steps: nat)
    requires
        fetch_well_formed(w, nodes),
        closed(fetch_graph(w), nodes),
        walk_inv(fetch_graph(w), nodes, root, fetch_present(w.files), walk),
        walk.queue.len() > 0,
    ensures
        fetch_run(fetch_at(walk.queue, fetch_world_after(w, walk)), steps) == fetch_at(
            walk_step(fetch_graph(w), false, walk).queue,
            fetch_world_after(w, walk_step(fetch_graph(w), false, walk)),
        ),
{
    let graph = fetch_graph(w);
    let id = walk.queue[0];
    let rest = walk.queue.skip(1);
    let world = fetch_world_after(w, walk);
    let next = walk_step(graph, false, walk);
    let here = fetch_at(walk.queue, world);
    assert(nodes.contains(id));
    assert(graph.dom().contains(id));
    assert forall|i: int| 0 <= i < walk.order.len() implies (#[trigger] walk.order[i]).len()
        == OBJECT_ID_LEN by {
        assert(nodes.contains(walk.order[i]));
    }
    lemma_files_after_has(w, walk.order, id);
    assert(walk.done.contains(id) <==> world.files.dom().contains(shard_path(id))) by {
        assert(walk.order.to_set().contains(id) <==> walk.order.contains(id));
    }
    if walk.done.contains(id) {
        assert(fetch_run_step(here) == fetch_at(rest, world));
        assert(fetch_run(fetch_run_step(here), 0) == fetch_run_step(here));
        assert(fetch_world_after(w, next) == world);
        1
    } else {
        let bytes = w.blocks[id];
        let links = w.links[bytes];
        let data = zlib_compressed(bytes)->0;
        assert forall|i: int| 0 <= i < links.len() implies multihash_digest(
            #[trigger] links[i],
        ) is Ok && multihash_digest(links[i])->Ok_0.len() == OBJECT_ID_LEN by {
            assert(graph[id][i] == multihash_digest(links[i])->Ok_0);
            assert(nodes.contains(graph[id][i]));
        }
        lemma_link_targets(links);
        let getting = fetch_run_step(here);
        assert(getting == FetchRun {
            state: FetchState { queue: rest, phase: FetchPhase::Getting { id } },
            action: FetchActionView::Get(id),
            world,
        });
        let writing = fetch_run_step(getting);
        assert(writing == FetchRun {
            state: FetchState { queue: next.queue, phase: FetchPhase::Writing { id } },
            action: FetchActionView::Write { path: shard_path(id), data },
            world,
        });
        let written = FetchWorld { files: world.files.insert(shard_path(id), data), ..world };
        let recording = fetch_run_step(writing);
        assert(recording == FetchRun {
            state: FetchState { queue: next.queue, phase: FetchPhase::Recording { id } },
            action: FetchActionView::AddEntry(id),
            world: written,
        });
        let recorded = FetchWorld { tracker: written.tracker.insert(id), ..written };
        let after = fetch_run_step(recording);
        assert(after == fetch_at(next.queue, recorded));
        assert(next.order.drop_last() =~= walk.order);
        walk.order.lemma_push_to_set_commute(id);
        assert(recorded.tracker =~= fetch_world_after(w, next).tracker);
        assert(recorded == fetch_world_after(w, next));
        assert(fetch_run(here, 4) == after) by {
            assert(fetch_run(after, 0) == after);
            assert(fetch_run(recording, 1) == after);
            assert(fetch_run(writing, 2) == after);
            assert(fetch_run(getting, 3) == after);
        }
        4
    }
}

/// The traversal follows the walk: after the number of actions returned,
/// it stands where the walk stands after `walk_steps` steps.
proof fn lemma_fetch_follows_walk(
    w: FetchWorld,
    nodes: Set<Seq<u8>>,
    root: Seq<u8>,
    walk: Walk,
    walk_steps: nat,
) -> (steps: nat)
    requires
        fetch_well_formed(w, nodes),
        closed(fetch_graph(w), nodes),
        fetch_present(w.files).disjoint(nodes),
        walk_inv(fetch_graph(w), nodes, root, fetch_present(w.files), walk),
    ensures
        fetch_run(fetch_at(walk.queue, fetch_world_after(w, walk)), steps) == fetch_at(
            walk_run(fetch_graph(w), false, walk, walk_steps).queue,
            fetch_world_after(w, walk_run(fetch_graph(w), false, walk, walk_steps)),
        ),
    decreases walk_steps,
{
    if walk_steps == 0 {
        0
    } else {
        let graph = fetch_graph(w);
        let next = walk_step(graph, false, walk);
        lemma_walk_step_inv(graph, nodes, root, fetch_present(w.files), false, walk);
        let more = lemma_fetch_follows_walk(w, nodes, root, next, (walk_steps - 1) as nat);
        if walk.queue.len() == 0 {
            more
        } else {
            let first = lemma_fetch_walk_step(w, nodes, root, walk);
            lemma_fetch_run_add(fetch_at(walk.queue, fetch_world_after(w, walk)), first, more);
            first + more
        }
    }
}

/// A fetch from the root of an object graph that the store holds writes
/// every object of the graph as a loose object, exactly once, and records
/// each of them.
///
/// `nodes` is a finite set of object identifiers, none with a loose object
/// yet, that holds the targets of all links of its objects and in which
/// every node can be reached from `root`. After the number of actions
/// returned first, the traversal is done. The sequence returned second is
/// the order of the visits: it holds each node once, and the loose objects
/// are those that were there before and, for each node, the compressed
/// encoded object at the path of its digest.
pub proof fn lemma_fetch_writes_every_object_once(
    w: FetchWorld,
    nodes: Set<Seq<u8>>,
    root: Seq<u8>,
) -> (r: (nat, Seq<Seq<u8>>))
    requires
        nodes.finite(),
        fetch_well_formed(w, nodes),
        closed(fetch_graph(w), nodes),
        rooted(fetch_graph(w), nodes, root),
        forall|id: Seq<u8>| nodes.contains(id) ==> !w.files.dom().contains(#[trigger] shard_path(id)),
    ensures
        ({
            let end = fetch_run(fetch_begin(root, w), r.0);
            &&& end.action is Done
            &&& r.1.no_duplicates()
            &&& r.1.to_set() == nodes
            &&& r.1.len() == nodes.len()
            &&& end.world.files == files_after(w, r.1)
            &&& end.world.files.dom() == w.files.dom() + shard_paths(nodes)
            &&& shard_paths(nodes).len() == nodes.len()
            &&& end.world.tracker == w.tracker + nodes
            &&& forall|id: Seq<u8>| #[trigger]
                nodes.contains(id) ==> end.world.files.dom().contains(shard_path(id))
                    && end.world.files[shard_path(id)] == zlib_compressed(w.blocks[id])->0
            &&& forall|path: (Seq<char>, Seq<char>)| #[trigger]
                end.world.files.dom().contains(path) ==> w.files.dom().contains(path) || exists|
                    id: Seq<u8>,
                |
                    nodes.contains(id) && path == shard_path(id)
        }),
{
    let graph = fetch_graph(w);
    let present = fetch_present(w.files);
    assert(present.disjoint(nodes));
    let start = walk_start(root, present);
    let walk_steps = lemma_walk_visits_every_node_once(graph, nodes, root, present, false);
    lemma_walk_start_inv(graph, nodes, root, present);
    let steps = lemma_fetch_follows_walk(w, nodes, root, start, walk_steps);
    let end = walk_run(graph, false, start, walk_steps);
    assert(start.order.to_set() =~= Set::empty());
    assert(fetch_world_after(w, start).tracker =~= w.tracker);
    assert(fetch_world_after(w, start) == w);
    assert(fetch_begin(root, w) == fetch_at(start.queue, w));
    let order = end.order;
    assert forall|i: int| 0 <= i < order.len() implies (#[trigger] order[i]).len()
        == OBJECT_ID_LEN by {
        assert(order.to_set().contains(order[i]));
    }
    assert forall|id: Seq<u8>| #[trigger] nodes.contains(id) implies files_after(
        w,
        order,
    ).dom().contains(shard_path(id)) && files_after(w, order)[shard_path(id)] == zlib_compressed(
        w.blocks[id],
    )->0 by {
        assert(order.to_set().contains(id));
        lemma_files_after_holds(w, order, id);
    }
    assert forall|path: (Seq<char>, Seq<char>)| #[trigger]
        files_after(w, order).dom().contains(path) implies w.files.dom().contains(path) || exists|
        id: Seq<u8>,
    |
        nodes.contains(id) && path == shard_path(id) by {
        lemma_files_after_only(w, order, path);
        if !w.files.dom().contains(path) {
            let k = choose|k: int| 0 <= k < order.len() && path == shard_path(order[k]);
            assert(order.to_set().contains(order[k]));
        }
    }
    lemma_shard_paths_len(nodes);
    assert(files_after(w, order).dom() =~= w.files.dom() + shard_paths(nodes)) by {
        assert forall|path: (Seq<char>, Seq<char>)| #[trigger]
            shard_paths(nodes).contains(path) implies files_after(w, order).dom().contains(
            path,
        ) by {
            let id = choose|id: Seq<u8>| nodes.contains(id) && path == shard_path(id);
            assert(nodes.contains(id));
        }
        assert forall|path: (Seq<char>, Seq<char>)| #[trigger]
            w.files.dom().contains(path) implies files_after(w, order).dom().contains(path) by {
            lemma_files_after_keeps(w, order, path);
        }
        assert forall|path: (Seq<char>, Seq<char>)| #[trigger]
            files_after(w, order).dom().contains(path) implies (w.files.dom() + shard_paths(
            nodes,
        )).contains(path) by {
            if !w.files.dom().contains(path) {
                let id = choose|id: Seq<u8>| nodes.contains(id) && path == shard_path(id);
                assert(shard_paths(nodes).contains(path));
            }
        }
    }
    (steps, order)
}

/// A fetch keeps the loose objects that were there.
pub proof fn lemma_files_after_keeps(
    w: FetchWorld,
    order: Seq<Seq<u8>>,
    path: (Seq<char>, Seq<char>),
)
    requires
        w.files.dom().contains(path),
    ensures
        files_after(w, order).dom().contains(path),
    decreases order.len(),
{
    if order.len() > 0 {
        lemma_files_after_keeps(w, order.drop_last(), path);
    }
}

/// After a fetch of distinct objects, the loose object of each holds its
/// compressed encoded object.
pub proof fn lemma_files_after_holds(w: FetchWorld, order: Seq<Seq<u8>>, id: Seq<u8>)
    requires
        order.no_duplicates(),
        order.contains(id),
        forall|i: int| 0 <= i < order.len() ==> (#[trigger] order[i]).len() == OBJECT_ID_LEN,
    ensures
        files_after(w, order).dom().contains(shard_path(id)),
        files_after(w, order)[shard_path(id)] == zlib_compressed(w.blocks[id])->0,
    decreases order.len(),
{
    let k = choose|k: int| 0 <= k < order.len() && order[k] == id;
    let front = order.drop_last();
    if k < order.len() - 1 {
        assert(front[k] == id);
        lemma_files_after_holds(w, front, id);
        assert(order.last() != id);
        if shard_path(order.last()) == shard_path(id) {
            lemma_shard_injective(order.last(), id);
        }
    }
}

/// A fetch adds no loose object but those of the objects fetched.
pub proof fn lemma_files_after_only(
    w: FetchWorld,
    order: Seq<Seq<u8>>,
    path: (Seq<char>, Seq<char>),
)
    ensures
        files_after(w, order).dom().contains(path) ==> w.files.dom().contains(path) || exists|
            k: int,
        |
            0 <= k < order.len() && path == shard_path(#[trigger] order[k]),
    decreases order.len(),
{
    if order.len() > 0 {
        let front = order.drop_last();
        lemma_files_after_only(w, front, path);
        if files_after(w, order).dom().contains(path) && !w.files.dom().contains(path) {
            if path == shard_path(order.last()) {
                assert(path == shard_path(order[order.len() - 1]));
            } else {
                let k = choose|k: int| 0 <= k < front.len() && path == shard_path(#[trigger] front[k]);
                assert(path == shard_path(order[k]));
            }
        }
    }
}

/// A path along links that stay within `nodes` is a path in every graph
/// that agrees on `nodes`.
proof fn lemma_path_transfer(
    from: Map<Seq<u8>, Seq<Seq<u8>>>,
    to: Map<Seq<u8>, Seq<Seq<u8>>>,
    nodes: Set<Seq<u8>>,
    path: Seq<Seq<u8>>,
    k: int,
)
    requires
        closed(from, nodes),
        crate::traversal::is_path(from, path),
        nodes.contains(path[0]),
        forall|x: Seq<u8>| #[trigger] nodes.contains(x) ==> to.dom().contains(x) && to[x] == from[x],
        0 <= k < path.len(),
    ensures
        nodes.contains(path[k]),
        k < path.len() - 1 ==> to.dom().contains(path[k]) && to[path[k]].contains(path[k + 1]),
    decreases k,
{
    if k > 0 {
        lemma_path_transfer(from, to, nodes, path, k - 1);
        let targets = from[path[k - 1]];
        assert(targets.contains(path[k - 1 + 1]));
        let j = choose|j: int| 0 <= j < targets.len() && targets[j] == path[k];
        assert(nodes.contains(from[path[k - 1]][j]));
    }
    if k < path.len() - 1 {
        assert(from.dom().contains(path[k]) && from[path[k]].contains(path[k + 1]));
    }
}

/// Fetching what was pushed rebuilds it.
///
/// `nodes` is an object graph as a push from `root` sends it: finite, with
/// the targets of all its links, every node in reach of `root`, none
/// recorded. The store of the fetch holds, under the digest of each node,
/// the encoded object that the push puts for it, and no node has a loose
/// object yet. Then the push, after the number of actions returned first,
/// has put as many objects as the graph has nodes; and the fetch from the
/// same root, after the number returned second, has added exactly one loose
/// object for each node: the compressed form of what was put, at the path
/// of the node's digest.
pub proof fn lemma_fetch_rebuilds_what_was_pushed(
    pushed: PushWorld,
    fetched: FetchWorld,
    nodes: Set<Seq<u8>>,
    root: Seq<u8>,
) -> (r: (nat, nat))
    requires
        nodes.finite(),
        push_well_formed(pushed, nodes),
        closed(push_graph(pushed), nodes),
        rooted(push_graph(pushed), nodes, root),
        pushed.tracker.disjoint(nodes),
        fetched.links == pushed.links,
        forall|id: Seq<u8>| #[trigger]
            nodes.contains(id) ==> fetched.blocks.dom().contains(id) && fetched.blocks[id]
                == object_bytes(pushed, id) && zlib_compressed(object_bytes(pushed, id)) is Some
                && !fetched.files.dom().contains(shard_path(id)),
    ensures
        ({
            let push_end = crate::push_model::push_run(
                crate::push_model::push_begin(root, pushed),
                r.0,
            );
            let fetch_end = fetch_run(fetch_begin(root, fetched), r.1);
            &&& push_end.action is Done
            &&& fetch_end.action is Done
            &&& push_end.world.puts.len() == pushed.puts.len() + nodes.len()
            &&& fetch_end.world.files.dom() == fetched.files.dom() + shard_paths(nodes)
            &&& shard_paths(nodes).len() == nodes.len()
            &&& forall|id: Seq<u8>| #[trigger]
                nodes.contains(id) ==> push_end.world.puts.contains(object_bytes(pushed, id))
                    && fetch_end.world.files.dom().contains(shard_path(id))
                    && fetch_end.world.files[shard_path(id)] == zlib_compressed(
                    object_bytes(pushed, id),
                )->0
        }),
{
    let from = push_graph(pushed);
    let to = fetch_graph(fetched);
    assert forall|x: Seq<u8>| #[trigger] nodes.contains(x) implies to.dom().contains(x) && to[x]
        == from[x] by {
        assert(from.dom().contains(x));
    }
    assert(closed(to, nodes)) by {
        assert forall|x: Seq<u8>| #[trigger] nodes.contains(x) implies to.dom().contains(x)
            && forall|j: int| 0 <= j < to[x].len() ==> nodes.contains(#[trigger] to[x][j]) by {
            assert forall|j: int| 0 <= j < to[x].len() implies nodes.contains(
                #[trigger] to[x][j],
            ) by {
                assert(nodes.contains(from[x][j]));
            }
        }
    }
    assert(rooted(to, nodes, root)) by {
        assert forall|x: Seq<u8>| #[trigger] nodes.contains(x) implies crate::traversal::reachable(
            to,
            root,
            x,
        ) by {
            assert(crate::traversal::reachable(from, root, x));
            let path = choose|path: Seq<Seq<u8>>| #[trigger]
                crate::traversal::is_path(from, path) && path[0] == root && path.last() == x;
            assert forall|i: int| 0 <= i < path.len() - 1 implies to.dom().contains(
                #[trigger] path[i],
            ) && to[path[i]].contains(path[i + 1]) by {
                lemma_path_transfer(from, to, nodes, path, i);
            }
            assert(crate::traversal::is_path(to, path));
        }
    }
    assert(fetch_well_formed(fetched, nodes)) by {
        assert forall|id: Seq<u8>| #[trigger] nodes.contains(id) implies id.len() == OBJECT_ID_LEN
            && zlib_compressed(fetched.blocks[id]) is Some && forall|i: int|
            0 <= i < fetched.links[fetched.blocks[id]].len() ==> multihash_digest(
                #[trigger] fetched.links[fetched.blocks[id]][i],
            ) is Ok by {
            assert forall|i: int|
                0 <= i < fetched.links[fetched.blocks[id]].len() implies multihash_digest(
                #[trigger] fetched.links[fetched.blocks[id]][i],
            ) is Ok by {
                assert(multihash_digest(pushed.links[object_bytes(pushed, id)][i]) is Ok);
            }
        }
    }
    let sent = crate::push_model::lemma_push_sends_every_object_once(pushed, nodes, root);
    let got = lemma_fetch_writes_every_object_once(fetched, nodes, root);
    let push_end = crate::push_model::push_run(crate::push_model::push_begin(root, pushed), sent.0);
    assert forall|id: Seq<u8>| #[trigger] nodes.contains(id) implies push_end.world.puts.contains(
        object_bytes(pushed, id),
    ) by {
        assert(sent.1.to_set().contains(id));
        let k = choose|k: int| 0 <= k < sent.1.len() && sent.1[k] == id;
        let sent_bytes = sent.1.map_values(|id: Seq<u8>| object_bytes(pushed, id));
        assert(sent_bytes[k] == object_bytes(pushed, id));
        assert(push_end.world.puts[pushed.puts.len() + k] == object_bytes(pushed, id));
    }
    (sent.0, got.0)
}

} // verus!

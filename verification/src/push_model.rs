//! The push traversal against a model of its collaborators, and what
//! follows for whole traversals: a recorded root is not sent again, and
//! every object of a graph is sent exactly once.

use vstd::prelude::*;
use crate::digest::{multihash_digest, OBJECT_ID_LEN};
use crate::object::{encoded, ObjectKind};
use crate::push::{
    push_next_link, push_next_object, push_resume, push_start, PushActionView, PushEventView,
    PushPhase, PushState,
};
use crate::traversal::{
    closed, lemma_walk_start_inv, lemma_walk_step_inv, lemma_walk_visits_every_node_once, rooted,
    unrecorded, walk_inv, walk_run, walk_start, walk_step, Walk,
};

verus! {

/// The collaborators of a push traversal, as far as it can tell: the
/// entries of the tracker, the objects of the repository by identifier, the
/// links that the codec finds in an encoded object, and the encoded objects
/// put into the store so far, in order.
pub struct PushWorld {
    pub tracker: Set<Seq<u8>>,
    pub objects: Map<Seq<u8>, (ObjectKind, Seq<u8>)>,
    pub links: Map<Seq<u8>, Seq<Seq<u8>>>,
    pub puts: Seq<Seq<u8>>,
}

/// How the collaborators answer an action, and what it does to them. A
/// query changes nothing; a put is appended to the puts; a recorded entry
/// joins the tracker. There is no answer where the repository lacks the
/// object or the codec refuses the bytes, nor after the traversal is done.
pub open spec fn push_outcome(w: PushWorld, action: PushActionView) -> Option<
    (PushWorld, PushEventView),
> {
    match action {
        PushActionView::HasEntry(digest) => Some(
            (w, PushEventView::Entry(w.tracker.contains(digest))),
        ),
        PushActionView::ReadObject(id) => if w.objects.dom().contains(id) {
            Some((w, PushEventView::Object { kind: w.objects[id].0, payload: w.objects[id].1 }))
        } else {
            None
        },
        PushActionView::Put(bytes) => if w.links.dom().contains(bytes) {
            Some(
                (
                    PushWorld { puts: w.puts.push(bytes), ..w },
                    PushEventView::Stored { links: w.links[bytes] },
                ),
            )
        } else {
            None
        },
        PushActionView::AddEntry(id) => Some(
            (PushWorld { tracker: w.tracker.insert(id), ..w }, PushEventView::Added),
        ),
        PushActionView::Done => None,
    }
}

/// A traversal under way: its state, the action it has handed out, and the
/// collaborators.
pub struct PushRun {
    pub state: PushState,
    pub action: PushActionView,
    pub world: PushWorld,
}

/// The action is performed and the traversal resumed with its outcome. The
/// run stays as it is when there is no outcome or the traversal fails.
pub open spec fn push_run_step(r: PushRun) -> PushRun {
    match push_outcome(r.world, r.action) {
        None => r,
        Some((world, event)) => match push_resume(r.state, event) {
            Err(_) => r,
            Ok((state, action)) => PushRun { state, action, world },
        },
    }
}

/// The run after `steps` actions.
pub open spec fn push_run(r: PushRun, steps: nat) -> PushRun
    decreases steps,
{
    if steps == 0 {
        r
    } else {
        push_run(push_run_step(r), (steps - 1) as nat)
    }
}

/// The run that starts a traversal from `root`.
pub open spec fn push_begin(root: Seq<u8>, world: PushWorld) -> PushRun {
    PushRun { state: push_start(root).0, action: push_start(root).1, world }
}

/// Running `a` actions and then `b` is running `a + b`.
pub proof fn lemma_push_run_add(r: PushRun, a: nat, b: nat)
    ensures
        push_run(r, a + b) == push_run(push_run(r, a), b),
    decreases a,
{
    if a > 0 {
        lemma_push_run_add(push_run_step(r), (a - 1) as nat, b);
        assert((a + b - 1) as nat == (a - 1) as nat + b);
    }
}

/// The root stays in sight of a traversal: it is recorded, or queued, or the
/// object in hand. The action handed out is the one of the phase.
pub open spec fn push_keeps_root(r: PushRun, root: Seq<u8>) -> bool {
    let seen = r.world.tracker.contains(root) || r.state.queue.contains(root);
    match r.state.phase {
        PushPhase::Idle => r.action is Done ==> r.state.queue.len() == 0 && seen,
        PushPhase::Probing { id } => r.action == PushActionView::HasEntry(id) && (seen || id
            == root),
        PushPhase::Reading { id } => r.action is ReadObject && (seen || id == root),
        PushPhase::Storing { id } => r.action is Put && (seen || id == root),
        PushPhase::Linking { id, digest, rest } => r.action is HasEntry && (seen || id == root),
        PushPhase::Recording { id } => r.action == PushActionView::AddEntry(id) && (seen || id
            == root),
    }
}

proof fn lemma_push_next_object_keeps_root(queue: Seq<Seq<u8>>, world: PushWorld, root: Seq<u8>)
    requires
        world.tracker.contains(root) || queue.contains(root),
    ensures
        push_keeps_root(
            PushRun {
                state: push_next_object(queue).0,
                action: push_next_object(queue).1,
                world,
            },
            root,
        ),
{
    if queue.len() > 0 {
        crate::traversal::lemma_contains_first_or_rest(queue, root);
    } else if queue.contains(root) {
        let k = choose|k: int| 0 <= k < queue.len() && queue[k] == root;
    }
}

proof fn lemma_push_step_keeps_root(r: PushRun, root: Seq<u8>)
    requires
        push_keeps_root(r, root),
    ensures
        push_keeps_root(push_run_step(r), root),
{
    let next = push_run_step(r);
    if next != r {
        let (world, event) = push_outcome(r.world, r.action)->0;
        match r.state.phase {
            PushPhase::Idle => {},
            PushPhase::Probing { id } => {
                if event == PushEventView::Entry(true) {
                    lemma_push_next_object_keeps_root(r.state.queue, world, root);
                }
            },
            PushPhase::Reading { id } => {},
            PushPhase::Storing { id } => {},
            PushPhase::Linking { id, digest, rest } => {
                vstd::seq_lib::lemma_seq_contains_after_push(r.state.queue, digest, root);
            },
            PushPhase::Recording { id } => {
                lemma_push_next_object_keeps_root(r.state.queue, world, root);
            },
        }
    }
}

proof fn lemma_push_run_keeps_root(r: PushRun, root: Seq<u8>, steps: nat)
    requires
        push_keeps_root(r, root),
    ensures
        push_keeps_root(push_run(r, steps), root),
    decreases steps,
{
    if steps > 0 {
        lemma_push_step_keeps_root(r, root);
        lemma_push_run_keeps_root(push_run_step(r), root, (steps - 1) as nat);
    }
}

/// A traversal that has come to its end has recorded its root.
pub proof fn lemma_push_records_root(world: PushWorld, root: Seq<u8>, steps: nat)
    requires
        push_run(push_begin(root, world), steps).action is Done,
    ensures
        push_run(push_begin(root, world), steps).world.tracker.contains(root),
{
    let begin = push_begin(root, world);
    assert(seq![root][0] == root);
    assert(seq![root].skip(1) =~= Seq::<Seq<u8>>::empty());
    assert(push_keeps_root(begin, root));
    lemma_push_run_keeps_root(begin, root, steps);
    let end = push_run(begin, steps);
    if !end.world.tracker.contains(root) {
        assert(push_keeps_root(end, root));
        if end.state.queue.contains(root) {
            let k = choose|k: int| 0 <= k < end.state.queue.len() && end.state.queue[k] == root;
        }
    }
}

/// Pushing a root a second time puts nothing into the store. Where a first
/// traversal from `root` has come to its end after `steps` actions, the
/// second one asks the tracker about the root and is done: the collaborators
/// are as the first traversal left them, and so are the puts.
pub proof fn lemma_push_again_puts_nothing(world: PushWorld, root: Seq<u8>, steps: nat)
    requires
        push_run(push_begin(root, world), steps).action is Done,
    ensures
        ({
            let first = push_run(push_begin(root, world), steps);
            let second = push_run(push_begin(root, first.world), 1);
            &&& second.action is Done
            &&& second.world == first.world
            &&& second.world.puts == first.world.puts
            &&& forall|more: nat| (#[trigger] push_run(second, more)) == second
        }),
{
    lemma_push_records_root(world, root, steps);
    let first = push_run(push_begin(root, world), steps);
    let begin = push_begin(root, first.world);
    assert(seq![root][0] == root);
    assert(seq![root].skip(1) =~= Seq::<Seq<u8>>::empty());
    let second = push_run(begin, 1);
    assert(push_run(push_run_step(begin), 0) == push_run_step(begin));
    assert(second == push_run_step(begin));
    assert forall|more: nat| (#[trigger] push_run(second, more)) == second by {
        lemma_push_done_stays(second, more);
    }
}

/// A run that is done stays as it is.
pub proof fn lemma_push_done_stays(r: PushRun, steps: nat)
    requires
        r.action is Done,
    ensures
        push_run(r, steps) == r,
    decreases steps,
{
    if steps > 0 {
        lemma_push_done_stays(r, (steps - 1) as nat);
    }
}

/// Whether the encoded object of `id` is among the puts made after the
/// first `before`.
pub open spec fn was_put(w: PushWorld, before: nat, id: Seq<u8>) -> bool {
    exists|k: int| before <= k < w.puts.len() && #[trigger] w.puts[k] == encoded(
        w.objects[id].0,
        w.objects[id].1,
    )
}

/// Nothing is recorded that was not sent: every entry of the tracker was
/// there at the start or belongs to an object that was put since. The
/// object in hand is read before it is put and put before it is recorded.
pub open spec fn push_sends_before_recording(
    r: PushRun,
    start: PushWorld,
) -> bool {
    &&& r.world.objects == start.objects
    &&& start.puts.len() <= r.world.puts.len()
    &&& forall|id: Seq<u8>| #[trigger]
        r.world.tracker.contains(id) ==> start.tracker.contains(id) || was_put(
            r.world,
            start.puts.len(),
            id,
        )
    &&& match r.state.phase {
        PushPhase::Idle => true,
        PushPhase::Probing { id } => r.action is HasEntry,
        PushPhase::Reading { id } => r.action == PushActionView::ReadObject(id),
        PushPhase::Storing { id } => r.action == PushActionView::Put(
            encoded(r.world.objects[id].0, r.world.objects[id].1),
        ),
        PushPhase::Linking { id, digest, rest } => r.action is HasEntry && was_put(
            r.world,
            start.puts.len(),
            id,
        ),
        PushPhase::Recording { id } => r.action == PushActionView::AddEntry(id) && was_put(
            r.world,
            start.puts.len(),
            id,
        ),
    }
}

proof fn lemma_was_put_stays(w: PushWorld, bytes: Seq<u8>, before: nat, id: Seq<u8>)
    requires
        was_put(w, before, id),
    ensures
        was_put(PushWorld { puts: w.puts.push(bytes), ..w }, before, id),
{
    let k = choose|k: int| before <= k < w.puts.len() && #[trigger] w.puts[k] == encoded(
        w.objects[id].0,
        w.objects[id].1,
    );
    let grown = PushWorld { puts: w.puts.push(bytes), ..w };
    assert(grown.puts[k] == w.puts[k]);
}

proof fn lemma_push_step_sends_before_recording(r: PushRun, start: PushWorld)
    requires
        push_sends_before_recording(r, start),
    ensures
        push_sends_before_recording(push_run_step(r), start),
{
    let next = push_run_step(r);
    let before = start.puts.len();
    if next != r {
        let (world, event) = push_outcome(r.world, r.action)->0;
        match r.action {
            PushActionView::Put(bytes) => {
                assert forall|id: Seq<u8>| #[trigger] world.tracker.contains(id) implies start.tracker.contains(
                    id,
                ) || was_put(world, before, id) by {
                    if !start.tracker.contains(id) {
                        lemma_was_put_stays(r.world, bytes, before, id);
                    }
                }
                match r.state.phase {
                    PushPhase::Storing { id } => {
                        assert(world.puts[r.world.puts.len() as int] == bytes);
                        assert(was_put(world, before, id));
                    },
                    _ => {},
                }
            },
            _ => {},
        }
    }
}

proof fn lemma_push_run_sends_before_recording(r: PushRun, start: PushWorld, steps: nat)
    requires
        push_sends_before_recording(r, start),
    ensures
        push_sends_before_recording(push_run(r, steps), start),
    decreases steps,
{
    if steps > 0 {
        lemma_push_step_sends_before_recording(r, start);
        lemma_push_run_sends_before_recording(push_run_step(r), start, (steps - 1) as nat);
    }
}

/// A push records only what it has sent. Whatever the collaborators hold,
/// and however far a traversal from `root` has come, every entry that the
/// tracker has gained belongs to an object whose encoded form was put into
/// the store since the traversal began.
pub proof fn lemma_push_records_only_what_it_sent(world: PushWorld, root: Seq<u8>, steps: nat)
    ensures
        ({
            let end = push_run(push_begin(root, world), steps);
            forall|id: Seq<u8>| #[trigger]
                end.world.tracker.contains(id) ==> world.tracker.contains(id) || exists|k: int|
                    world.puts.len() <= k < end.world.puts.len() && #[trigger] end.world.puts[k]
                        == object_bytes(world, id)
        }),
{
    let begin = push_begin(root, world);
    assert(push_sends_before_recording(begin, world));
    lemma_push_run_sends_before_recording(begin, world, steps);
    let end = push_run(begin, steps);
    assert forall|id: Seq<u8>| #[trigger] end.world.tracker.contains(id) implies world.tracker.contains(
        id,
    ) || exists|k: int|
        world.puts.len() <= k < end.world.puts.len() && #[trigger] end.world.puts[k]
            == object_bytes(world, id) by {
        if !world.tracker.contains(id) {
            assert(was_put(end.world, world.puts.len(), id));
        }
    }
}

/// The digest that each of `links` carries.
pub open spec fn link_digests(links: Seq<Seq<u8>>) -> Seq<Seq<u8>> {
    links.map_values(|link: Seq<u8>| multihash_digest(link)->Ok_0)
}

/// The encoded form of the object that the repository holds under `id`.
pub open spec fn object_bytes(w: PushWorld, id: Seq<u8>) -> Seq<u8> {
    encoded(w.objects[id].0, w.objects[id].1)
}

/// The object graph that the collaborators hold: the objects that the
/// repository has and the codec accepts, each with the digests of its links.
pub open spec fn push_graph(w: PushWorld) -> Map<Seq<u8>, Seq<Seq<u8>>> {
    Map::new(
        |id: Seq<u8>| w.objects.dom().contains(id) && w.links.dom().contains(object_bytes(w, id)),
        |id: Seq<u8>| link_digests(w.links[object_bytes(w, id)]),
    )
}

/// Every node of `nodes` has the length of an object identifier, and each
/// link of its object carries a multihash.
pub open spec fn push_well_formed(w: PushWorld, nodes: Set<Seq<u8>>) -> bool {
    forall|id: Seq<u8>| #[trigger]
        nodes.contains(id) ==> id.len() == OBJECT_ID_LEN && forall|i: int|
            0 <= i < w.links[object_bytes(w, id)].len() ==> multihash_digest(
                #[trigger] w.links[object_bytes(w, id)][i],
            ) is Ok
}

/// The collaborators after a walk: the tracker holds what is done, and the
/// encoded form of each visited object was put, in the order of the visits.
pub open spec fn push_world_after(w: PushWorld, walk: Walk) -> PushWorld {
    PushWorld {
        tracker: walk.done,
        objects: w.objects,
        links: w.links,
        puts: w.puts + walk.order.map_values(|id: Seq<u8>| object_bytes(w, id)),
    }
}

/// The run that is about to take the next object from `queue`.
pub open spec fn push_at(queue: Seq<Seq<u8>>, world: PushWorld) -> PushRun {
    PushRun { state: push_next_object(queue).0, action: push_next_object(queue).1, world }
}

/// Looking at the links of an object: after the number of actions returned
/// the traversal is about to record the object, and the digests that the
/// tracker does not know have joined the queue.
proof fn lemma_push_links(
    world: PushWorld,
    queue: Seq<Seq<u8>>,
    id: Seq<u8>,
    links: Seq<Seq<u8>>,
) -> (steps: nat)
    requires
        forall|i: int|
            0 <= i < links.len() ==> multihash_digest(#[trigger] links[i]) is Ok
                && multihash_digest(links[i])->Ok_0.len() == OBJECT_ID_LEN,
    ensures
        push_next_link(queue, id, links) is Ok,
        push_run(
            PushRun {
                state: push_next_link(queue, id, links)->Ok_0.0,
                action: push_next_link(queue, id, links)->Ok_0.1,
                world,
            },
            steps,
        ) == (PushRun {
            state: PushState {
                queue: queue + unrecorded(world.tracker, link_digests(links)),
                phase: PushPhase::Recording { id },
            },
            action: PushActionView::AddEntry(id),
            world,
        }),
    decreases links.len(),
{
    if links.len() == 0 {
        assert(queue + unrecorded(world.tracker, link_digests(links)) =~= queue);
        0
    } else {
        let digest = multihash_digest(links[0])->Ok_0;
        let rest = links.skip(1);
        assert(link_digests(links)[0] == digest);
        assert(link_digests(links).skip(1) =~= link_digests(rest));
        assert forall|i: int| 0 <= i < rest.len() implies multihash_digest(
            #[trigger] rest[i],
        ) is Ok && multihash_digest(rest[i])->Ok_0.len() == OBJECT_ID_LEN by {
            assert(rest[i] == links[i + 1]);
        }
        let here = PushRun {
            state: push_next_link(queue, id, links)->Ok_0.0,
            action: push_next_link(queue, id, links)->Ok_0.1,
            world,
        };
        let grown = if world.tracker.contains(digest) {
            queue
        } else {
            queue.push(digest)
        };
        let more = lemma_push_links(world, grown, id, rest);
        assert(push_run_step(here) == (PushRun {
            state: push_next_link(grown, id, rest)->Ok_0.0,
            action: push_next_link(grown, id, rest)->Ok_0.1,
            world,
        }));
        assert(grown + unrecorded(world.tracker, link_digests(rest)) =~= queue + unrecorded(
            world.tracker,
            link_digests(links),
        ));
        more + 1
    }
}

/// One step of the walk, as the traversal takes it: after the number of
/// actions returned, the traversal is about to take the next object from
/// the queue of the walk after its step, and the collaborators are those
/// after that step.
proof fn lemma_push_walk_step(w: PushWorld, nodes: Set<Seq<u8>>, walk: Walk) -> (steps: nat)
    requires
        push_well_formed(w, nodes),
        closed(push_graph(w), nodes),
        walk.queue.len() > 0,
        nodes.contains(walk.queue[0]),
    ensures
        push_run(push_at(walk.queue, push_world_after(w, walk)), steps) == push_at(
            walk_step(push_graph(w), true, walk).queue,
            push_world_after(w, walk_step(push_graph(w), true, walk)),
        ),
{
    let graph = push_graph(w);
    let id = walk.queue[0];
    let rest = walk.queue.skip(1);
    let world = push_world_after(w, walk);
    let next = walk_step(graph, true, walk);
    let here = push_at(walk.queue, world);
    assert(graph.dom().contains(id));
    if walk.done.contains(id) {
        assert(push_run_step(here) == push_at(rest, world));
        assert(push_run(push_run_step(here), 0) == push_run_step(here));
        assert(push_world_after(w, next) == world);
        1
    } else {
        let bytes = object_bytes(w, id);
        let links = w.links[bytes];
        let reading = push_run_step(here);
        assert(reading == PushRun {
            state: PushState { queue: rest, phase: PushPhase::Reading { id } },
            action: PushActionView::ReadObject(id),
            world,
        });
        let storing = push_run_step(reading);
        assert(storing == PushRun {
            state: PushState { queue: rest, phase: PushPhase::Storing { id } },
            action: PushActionView::Put(bytes),
            world,
        });
        let stored = PushWorld { puts: world.puts.push(bytes), ..world };
        assert forall|i: int| 0 <= i < links.len() implies multihash_digest(
            #[trigger] links[i],
        ) is Ok && multihash_digest(links[i])->Ok_0.len() == OBJECT_ID_LEN by {
            assert(graph[id][i] == multihash_digest(links[i])->Ok_0);
            assert(nodes.contains(graph[id][i]));
        }
        let k = lemma_push_links(stored, rest, id, links);
        let linking = push_run_step(storing);
        assert(linking == PushRun {
            state: push_next_link(rest, id, links)->Ok_0.0,
            action: push_next_link(rest, id, links)->Ok_0.1,
            world: stored,
        });
        let recording = push_run(linking, k);
        let after = push_run_step(recording);
        let recorded = PushWorld { tracker: stored.tracker.insert(id), ..stored };
        assert(after == push_at(next.queue, recorded));
        assert(recorded.puts =~= push_world_after(w, next).puts);
        assert(recorded == push_world_after(w, next));
        assert(push_run(recording, 1) == after) by {
            assert(push_run(after, 0) == after);
        }
        lemma_push_run_add(linking, k, 1);
        assert(push_run(here, 3 + k + 1) == push_run(linking, k + 1)) by {
            assert(push_run(here, 3 + k + 1) == push_run(reading, (2 + k + 1) as nat));
            assert(push_run(reading, (2 + k + 1) as nat) == push_run(
                storing,
                (1 + k + 1) as nat,
            ));
            assert(push_run(storing, (1 + k + 1) as nat) == push_run(linking, (k + 1) as nat));
        }
        3 + k + 1
    }
}

/// The traversal follows the walk: after the number of actions returned,
/// it stands where the walk stands after `walk_steps` steps.
proof fn lemma_push_follows_walk(
    w: PushWorld,
    nodes: Set<Seq<u8>>,
    root: Seq<u8>,
    walk: Walk,
    walk_steps: nat,
) -> (steps: nat)
    requires
        push_well_formed(w, nodes),
        closed(push_graph(w), nodes),
        w.tracker.disjoint(nodes),
        walk_inv(push_graph(w), nodes, root, w.tracker, walk),
    ensures
        push_run(push_at(walk.queue, push_world_after(w, walk)), steps) == push_at(
            walk_run(push_graph(w), true, walk, walk_steps).queue,
            push_world_after(w, walk_run(push_graph(w), true, walk, walk_steps)),
        ),
    decreases walk_steps,
{
    if walk_steps == 0 {
        0
    } else {
        let graph = push_graph(w);
        let next = walk_step(graph, true, walk);
        lemma_walk_step_inv(graph, nodes, root, w.tracker, true, walk);
        let more = lemma_push_follows_walk(w, nodes, root, next, (walk_steps - 1) as nat);
        if walk.queue.len() == 0 {
            more
        } else {
            let first = lemma_push_walk_step(w, nodes, walk);
            lemma_push_run_add(push_at(walk.queue, push_world_after(w, walk)), first, more);
            first + more
        }
    }
}

/// A push from the root of an object graph puts every object of the graph
/// into the store exactly once and records each of them.
///
/// `nodes` is a finite set of object identifiers, none of them recorded,
/// that holds the targets of all links of its objects and in which every
/// node can be reached from `root`. After the number of actions returned
/// first, the traversal is done. The sequence returned second is the order
/// of the visits: it holds each node of the graph once, the puts that were
/// made are the encoded objects of these nodes in that order, and the
/// tracker has gained exactly the nodes.
pub proof fn lemma_push_sends_every_object_once(
    w: PushWorld,
    nodes: Set<Seq<u8>>,
    root: Seq<u8>,
) -> (r: (nat, Seq<Seq<u8>>))
    requires
        nodes.finite(),
        push_well_formed(w, nodes),
        closed(push_graph(w), nodes),
        rooted(push_graph(w), nodes, root),
        w.tracker.disjoint(nodes),
    ensures
        ({
            let end = push_run(push_begin(root, w), r.0);
            &&& end.action is Done
            &&& r.1.no_duplicates()
            &&& r.1.to_set() == nodes
            &&& r.1.len() == nodes.len()
            &&& end.world.puts == w.puts + r.1.map_values(|id: Seq<u8>| object_bytes(w, id))
            &&& end.world.puts.len() == w.puts.len() + nodes.len()
            &&& end.world.tracker == w.tracker + nodes
            &&& w.tracker == Set::<Seq<u8>>::empty() ==> end.world.tracker == nodes
        }),
{
    let graph = push_graph(w);
    let start = walk_start(root, w.tracker);
    let walk_steps = lemma_walk_visits_every_node_once(graph, nodes, root, w.tracker, true);
    lemma_walk_start_inv(graph, nodes, root, w.tracker);
    let steps = lemma_push_follows_walk(w, nodes, root, start, walk_steps);
    let end = walk_run(graph, true, start, walk_steps);
    assert(push_world_after(w, start).puts =~= w.puts);
    assert(push_world_after(w, start) == w);
    assert(push_begin(root, w) == push_at(start.queue, w));
    assert(w.tracker == Set::<Seq<u8>>::empty() ==> w.tracker + nodes =~= nodes);
    (steps, end.order)
}

} // verus!

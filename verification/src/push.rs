//! The push traversal: a breadth-first walk from a root object that puts
//! every object not yet recorded into the store.
//!
//! The traversal does no work on the repository, the store or the tracker
//! itself. It hands out one [`PushAction`] at a time; the caller performs it
//! and resumes the traversal with the [`PushEvent`] that answers it.

use std::collections::VecDeque;
use vstd::prelude::*;
use crate::digest::{link_digest, multihash_digest, ObjectId, OBJECT_ID_LEN};
use crate::error::{Error, MultihashError};
use crate::object::{encode, encoded, ObjectKind};

verus! {

/// What the caller of a push traversal has to do next.
#[derive(Clone, Debug, PartialEq, Eq)]
pub enum PushAction {
    /// Ask the tracker whether it has an entry for this digest; answer with
    /// [`PushEvent::Entry`].
    HasEntry(Vec<u8>),
    /// Read the kind and the raw bytes of this object from the repository;
    /// answer with [`PushEvent::Object`].
    ReadObject(ObjectId),
    /// Put these bytes, an encoded object, into the store and list the
    /// links of the object; answer with [`PushEvent::Stored`].
    Put(Vec<u8>),
    /// Record this object in the tracker; answer with [`PushEvent::Added`].
    AddEntry(ObjectId),
    /// The traversal is complete.
    Done,
}

/// The outcome of an action, as the caller reports it.
#[derive(Clone, Debug, PartialEq, Eq)]
pub enum PushEvent {
    /// Whether the tracker has the entry asked for.
    Entry(bool),
    /// The kind and raw bytes of the object asked for.
    Object { kind: ObjectKind, payload: Vec<u8> },
    /// The object was put; `links` holds the multihash of each of its links,
    /// in the order in which the object names them.
    Stored { links: Vec<Vec<u8>> },
    /// The entry was recorded.
    Added,
}

/// The mathematical form of a [`PushAction`].
pub enum PushActionView {
    HasEntry(Seq<u8>),
    ReadObject(Seq<u8>),
    Put(Seq<u8>),
    AddEntry(Seq<u8>),
    Done,
}

/// The mathematical form of a [`PushEvent`].
pub enum PushEventView {
    Entry(bool),
    Object { kind: ObjectKind, payload: Seq<u8> },
    Stored { links: Seq<Seq<u8>> },
    Added,
}

impl View for PushAction {
    type V = PushActionView;

    open spec fn view(&self) -> PushActionView {
        match self {
            PushAction::HasEntry(digest) => PushActionView::HasEntry(digest@),
            PushAction::ReadObject(id) => PushActionView::ReadObject(id@),
            PushAction::Put(bytes) => PushActionView::Put(bytes@),
            PushAction::AddEntry(id) => PushActionView::AddEntry(id@),
            PushAction::Done => PushActionView::Done,
        }
    }
}

impl View for PushEvent {
    type V = PushEventView;

    open spec fn view(&self) -> PushEventView {
        match self {
            PushEvent::Entry(known) => PushEventView::Entry(*known),
            PushEvent::Object { kind, payload } => PushEventView::Object {
                kind: *kind,
                payload: payload@,
            },
            PushEvent::Stored { links } => PushEventView::Stored { links: links.deep_view() },
            PushEvent::Added => PushEventView::Added,
        }
    }
}

/// Where a push traversal stands between two actions.
pub enum PushPhase {
    /// No action is outstanding.
    Idle,
    /// The tracker was asked about the object taken from the queue.
    Probing { id: Seq<u8> },
    /// The repository was asked for the object.
    Reading { id: Seq<u8> },
    /// The store was handed the encoded object.
    Storing { id: Seq<u8> },
    /// The tracker was asked about `digest`, the target of one link of the
    /// object; the links in `rest` are still to be looked at.
    Linking { id: Seq<u8>, digest: Seq<u8>, rest: Seq<Seq<u8>> },
    /// The tracker was asked to record the object.
    Recording { id: Seq<u8> },
}

/// The state of a push traversal: the identifiers waiting in its queue,
/// first in first out, and its phase.
pub struct PushState {
    pub queue: Seq<Seq<u8>>,
    pub phase: PushPhase,
}

/// Takes the next object from the queue and asks the tracker about it, or
/// ends the traversal when the queue is empty.
pub open spec fn push_next_object(queue: Seq<Seq<u8>>) -> (PushState, PushActionView) {
    if queue.len() == 0 {
        (PushState { queue, phase: PushPhase::Idle }, PushActionView::Done)
    } else {
        (
            PushState { queue: queue.skip(1), phase: PushPhase::Probing { id: queue[0] } },
            PushActionView::HasEntry(queue[0]),
        )
    }
}

/// Turns to the first of the links that are left: asks the tracker about
/// the digest it carries, or fails if it carries none. With no link left
/// the object itself is recorded.
pub open spec fn push_next_link(queue: Seq<Seq<u8>>, id: Seq<u8>, links: Seq<Seq<u8>>) -> Result<
    (PushState, PushActionView),
    Error,
> {
    if links.len() == 0 {
        Ok((PushState { queue, phase: PushPhase::Recording { id } }, PushActionView::AddEntry(id)))
    } else {
        match multihash_digest(links[0]) {
            Err(e) => Err(Error::MultihashError(e)),
            Ok(digest) => Ok(
                (
                    PushState {
                        queue,
                        phase: PushPhase::Linking { id, digest, rest: links.skip(1) },
                    },
                    PushActionView::HasEntry(digest),
                ),
            ),
        }
    }
}

/// The transition of the push traversal: the state and action that follow
/// when, in state `s`, the outstanding action is answered by `event`.
///
/// An object that the tracker knows is passed over, and so are its links.
/// Any other object is read, encoded and put; then each of its links whose
/// digest the tracker does not know joins the queue, and at last the object
/// is recorded. An event that does not answer the outstanding action is an
/// error, and so is a link without a multihash or with a digest that is no
/// object identifier.
pub open spec fn push_resume(s: PushState, event: PushEventView) -> Result<
    (PushState, PushActionView),
    Error,
> {
    match (s.phase, event) {
        (PushPhase::Probing { id }, PushEventView::Entry(known)) => if known {
            Ok(push_next_object(s.queue))
        } else {
            Ok(
                (
                    PushState { queue: s.queue, phase: PushPhase::Reading { id } },
                    PushActionView::ReadObject(id),
                ),
            )
        },
        (PushPhase::Reading { id }, PushEventView::Object { kind, payload }) => Ok(
            (
                PushState { queue: s.queue, phase: PushPhase::Storing { id } },
                PushActionView::Put(encoded(kind, payload)),
            ),
        ),
        (PushPhase::Storing { id }, PushEventView::Stored { links }) => push_next_link(
            s.queue,
            id,
            links,
        ),
        (PushPhase::Linking { id, digest, rest }, PushEventView::Entry(known)) => if known {
            push_next_link(s.queue, id, rest)
        } else if digest.len() != OBJECT_ID_LEN {
            Err(Error::InvalidDigestLength(digest.len() as usize))
        } else {
            push_next_link(s.queue.push(digest), id, rest)
        },
        (PushPhase::Recording { id }, PushEventView::Added) => Ok(push_next_object(s.queue)),
        _ => Err(Error::UnexpectedEvent),
    }
}

/// The state in which a traversal starts from `root`, and its first action.
pub open spec fn push_start(root: Seq<u8>) -> (PushState, PushActionView) {
    push_next_object(seq![root])
}

/// The state of a traversal that has nothing queued and nothing outstanding.
pub open spec fn push_idle() -> PushState {
    PushState { queue: Seq::empty(), phase: PushPhase::Idle }
}

enum Phase {
    Idle,
    Probing { id: ObjectId },
    Reading { id: ObjectId },
    Storing { id: ObjectId },
    Linking { id: ObjectId, digest: Vec<u8>, links: Vec<Vec<u8>>, next: usize },
    Recording { id: ObjectId },
}

impl View for Phase {
    type V = PushPhase;

    closed spec fn view(&self) -> PushPhase {
        match self {
            Phase::Idle => PushPhase::Idle,
            Phase::Probing { id } => PushPhase::Probing { id: id@ },
            Phase::Reading { id } => PushPhase::Reading { id: id@ },
            Phase::Storing { id } => PushPhase::Storing { id: id@ },
            Phase::Linking { id, digest, links, next } => PushPhase::Linking {
                id: id@,
                digest: digest@,
                rest: links_from(links.deep_view(), *next as int),
            },
            Phase::Recording { id } => PushPhase::Recording { id: id@ },
        }
    }
}

/// The links at and after position `next`; none when `next` is past the end.
pub open spec fn links_from(links: Seq<Seq<u8>>, next: int) -> Seq<Seq<u8>> {
    if 0 <= next <= links.len() {
        links.skip(next)
    } else {
        Seq::empty()
    }
}

/// The digests of the identifiers in a queue.
pub open spec fn queue_view(queue: Seq<ObjectId>) -> Seq<Seq<u8>> {
    queue.map_values(|id: ObjectId| id@)
}

/// A push traversal.
pub struct PushHelper {
    queue: VecDeque<ObjectId>,
    phase: Phase,
}

impl View for PushHelper {
    type V = PushState;

    closed spec fn view(&self) -> PushState {
        PushState { queue: queue_view(self.queue@), phase: self.phase@ }
    }
}

impl PushHelper {
    /// A traversal with an empty queue and no action outstanding.
    pub fn new() -> (helper: PushHelper)
        ensures
            helper@ == push_idle(),
    {
        let helper = PushHelper { queue: VecDeque::new(), phase: Phase::Idle };
        assert(queue_view(helper.queue@) =~= Seq::empty());
        helper
    }

    /// Starts a traversal from the object `hash` and returns its first
    /// action. Whatever an earlier traversal left behind is dropped.
    pub fn push(&mut self, hash: ObjectId) -> (action: PushAction)
        ensures
            (final(self)@, action@) == push_start(hash@),
    {
        self.queue = VecDeque::new();
        self.phase = Phase::Probing { id: hash };
        assert(queue_view(self.queue@) =~= seq![hash@].skip(1));
        PushAction::HasEntry(copy_bytes(hash.as_bytes()))
    }

    /// Resumes the traversal with the outcome of the action it handed out
    /// last, and returns the next action. After an error the traversal is
    /// idle with an empty queue.
    pub fn resume(&mut self, event: PushEvent) -> (r: Result<PushAction, Error>)
        ensures
            match r {
                Ok(action) => push_resume(old(self)@, event@) == Ok::<
                    (PushState, PushActionView),
                    Error,
                >((final(self)@, action@)),
                Err(e) => push_resume(old(self)@, event@) == Err::<
                    (PushState, PushActionView),
                    Error,
                >(e) && final(self)@ == push_idle(),
            },
    {
        let mut phase = Phase::Idle;
        std::mem::swap(&mut self.phase, &mut phase);
        let ghost queue0 = queue_view(self.queue@);
        let r = match (phase, event) {
            (Phase::Probing { id }, PushEvent::Entry(known)) => {
                if known {
                    Ok(self.next_object())
                } else {
                    self.phase = Phase::Reading { id };
                    Ok(PushAction::ReadObject(id))
                }
            },
            (Phase::Reading { id }, PushEvent::Object { kind, payload }) => {
                self.phase = Phase::Storing { id };
                Ok(PushAction::Put(encode(kind, payload.as_slice())))
            },
            (Phase::Storing { id }, PushEvent::Stored { links }) => {
                assert(links_from(links.deep_view(), 0) =~= links.deep_view());
                self.next_link(id, links, 0)
            },
            (Phase::Linking { id, digest, links, next }, PushEvent::Entry(known)) => {
                if known {
                    self.next_link(id, links, next)
                } else {
                    match ObjectId::from_bytes(digest.as_slice()) {
                        Err(e) => Err(e),
                        Ok(target) => {
                            self.queue.push_back(target);
                            assert(queue_view(self.queue@) =~= queue0.push(digest@));
                            self.next_link(id, links, next)
                        },
                    }
                }
            },
            (Phase::Recording { id }, PushEvent::Added) => Ok(self.next_object()),
            _ => Err(Error::UnexpectedEvent),
        };
        if r.is_err() {
            self.queue = VecDeque::new();
            self.phase = Phase::Idle;
            assert(queue_view(self.queue@) =~= Seq::empty());
        }
        r
    }

    /// Takes the next object from the queue, or ends the traversal.
    fn next_object(&mut self) -> (action: PushAction)
        ensures
            (final(self)@, action@) == push_next_object(queue_view(old(self).queue@)),
    {
        let ghost queue0 = queue_view(self.queue@);
        match self.queue.pop_front() {
            None => {
                self.phase = Phase::Idle;
                PushAction::Done
            },
            Some(id) => {
                assert(queue_view(self.queue@) =~= queue0.skip(1));
                self.phase = Phase::Probing { id };
                PushAction::HasEntry(copy_bytes(id.as_bytes()))
            },
        }
    }

    /// Turns to the link at position `next`, or records the object when no
    /// link is left.
    fn next_link(&mut self, id: ObjectId, links: Vec<Vec<u8>>, next: usize) -> (r: Result<
        PushAction,
        Error,
    >)
        ensures
            match r {
                Ok(action) => push_next_link(
                    queue_view(old(self).queue@),
                    id@,
                    links_from(links.deep_view(), next as int),
                ) == Ok::<(PushState, PushActionView), Error>((final(self)@, action@)),
                Err(e) => push_next_link(
                    queue_view(old(self).queue@),
                    id@,
                    links_from(links.deep_view(), next as int),
                ) == Err::<(PushState, PushActionView), Error>(e),
            },
            r is Err ==> final(self).queue == old(self).queue,
    {
        if next >= links.len() {
            assert(links_from(links.deep_view(), next as int) =~= Seq::empty());
            self.phase = Phase::Recording { id };
            return Ok(PushAction::AddEntry(id));
        }
        let ghost rest = links_from(links.deep_view(), next as int);
        assert(rest[0] == links[next as int]@);
        assert(rest.skip(1) =~= links_from(links.deep_view(), next + 1));
        match link_digest(links[next].as_slice()) {
            Err(e) => Err(e),
            Ok(digest) => {
                let query = copy_bytes(digest.as_slice());
                self.phase = Phase::Linking { id, digest, links, next: next + 1 };
                Ok(PushAction::HasEntry(query))
            },
        }
    }
}

/// A fresh vector with the bytes of `bytes`.
fn copy_bytes(bytes: &[u8]) -> (copy: Vec<u8>)
    ensures
        copy@ == bytes@,
{
    let mut copy: Vec<u8> = Vec::new();
    let mut i: usize = 0;
    while i < bytes.len()
        invariant
            i <= bytes.len(),
            copy@ == bytes@.subrange(0, i as int),
        decreases bytes.len() - i,
    {
        copy.push(bytes[i]);
        i = i + 1;
    }
    assert(bytes@.subrange(0, i as int) =~= bytes@);
    copy
}

} // verus!

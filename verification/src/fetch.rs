//! The fetch traversal: a breadth-first walk from a root digest that gets
//! every object not yet present from the store and writes it as a loose
//! object.
//!
//! Like the push traversal it does no work on its collaborators. It hands
//! out one [`FetchAction`] at a time and is resumed with the
//! [`FetchEvent`] that answers it.

use std::collections::VecDeque;
use std::io::Write;
use vstd::prelude::*;
use vstd::utf8::encode_utf8;
use crate::digest::{link_digest, multihash_digest, object_id_of_hex, ObjectId, OBJECT_ID_LEN};
use crate::error::Error;
use crate::object::{prepare_object_path, shard_directory, shard_file, ObjectPath};
use crate::push::queue_view;

verus! {

/// What the caller of a fetch traversal has to do next.
#[derive(Clone, Debug, PartialEq, Eq)]
pub enum FetchAction {
    /// Say whether the loose object at this path exists; answer with
    /// [`FetchEvent::Exists`].
    Exists(ObjectPath),
    /// Get the encoded object with this digest from the store and list its
    /// links; answer with [`FetchEvent::Block`].
    Get(ObjectId),
    /// Write `data` to the loose object at `path`, making its directory
    /// first; answer with [`FetchEvent::Written`].
    Write { path: ObjectPath, data: Vec<u8> },
    /// Record this object in the tracker; answer with [`FetchEvent::Added`].
    AddEntry(ObjectId),
    /// The traversal is complete.
    Done,
}

/// The outcome of an action, as the caller reports it.
#[derive(Clone, Debug, PartialEq, Eq)]
pub enum FetchEvent {
    /// Whether the loose object exists.
    Exists(bool),
    /// The encoded object, and the multihash of each of its links in the
    /// order in which the object names them.
    Block { bytes: Vec<u8>, links: Vec<Vec<u8>> },
    /// The loose object was written.
    Written,
    /// The entry was recorded.
    Added,
}

/// The mathematical form of a [`FetchAction`]. A path is the pair of its
/// directory and its file.
pub enum FetchActionView {
    Exists((Seq<char>, Seq<char>)),
    Get(Seq<u8>),
    Write { path: (Seq<char>, Seq<char>), data: Seq<u8> },
    AddEntry(Seq<u8>),
    Done,
}

/// The mathematical form of a [`FetchEvent`].
pub enum FetchEventView {
    Exists(bool),
    Block { bytes: Seq<u8>, links: Seq<Seq<u8>> },
    Written,
    Added,
}

impl View for ObjectPath {
    type V = (Seq<char>, Seq<char>);

    open spec fn view(&self) -> (Seq<char>, Seq<char>) {
        (self.directory@, self.file@)
    }
}

impl View for FetchAction {
    type V = FetchActionView;

    open spec fn view(&self) -> FetchActionView {
        match self {
            FetchAction::Exists(path) => FetchActionView::Exists(path@),
            FetchAction::Get(id) => FetchActionView::Get(id@),
            FetchAction::Write { path, data } => FetchActionView::Write {
                path: path@,
                data: data@,
            },
            FetchAction::AddEntry(id) => FetchActionView::AddEntry(id@),
            FetchAction::Done => FetchActionView::Done,
        }
    }
}

impl View for FetchEvent {
    type V = FetchEventView;

    open spec fn view(&self) -> FetchEventView {
        match self {
            FetchEvent::Exists(present) => FetchEventView::Exists(*present),
            FetchEvent::Block { bytes, links } => FetchEventView::Block {
                bytes: bytes@,
                links: links.deep_view(),
            },
            FetchEvent::Written => FetchEventView::Written,
            FetchEvent::Added => FetchEventView::Added,
        }
    }
}

/// Where a fetch traversal stands between two actions.
pub enum FetchPhase {
    /// No action is outstanding.
    Idle,
    /// The caller was asked whether the loose object exists.
    Probing { id: Seq<u8> },
    /// The store was asked for the object.
    Getting { id: Seq<u8> },
    /// The caller was handed the loose object to write.
    Writing { id: Seq<u8> },
    /// The tracker was asked to record the object.
    Recording { id: Seq<u8> },
}

/// The state of a fetch traversal: the digests waiting in its queue, first
/// in first out, and its phase.
pub struct FetchState {
    pub queue: Seq<Seq<u8>>,
    pub phase: FetchPhase,
}

/// The path of the loose object with digest `id`.
pub open spec fn shard_path(id: Seq<u8>) -> (Seq<char>, Seq<char>) {
    (shard_directory(id), shard_file(id))
}

/// The zlib stream that `flate2` makes of `data` at its default level, if
/// it makes one.
pub uninterp spec fn zlib_compressed(data: Seq<u8>) -> Option<Seq<u8>>;

/// Takes the next digest from the queue and asks whether its loose object
/// exists, or ends the traversal when the queue is empty.
pub open spec fn fetch_next_object(queue: Seq<Seq<u8>>) -> (FetchState, FetchActionView) {
    if queue.len() == 0 {
        (FetchState { queue, phase: FetchPhase::Idle }, FetchActionView::Done)
    } else {
        (
            FetchState { queue: queue.skip(1), phase: FetchPhase::Probing { id: queue[0] } },
            FetchActionView::Exists(shard_path(queue[0])),
        )
    }
}

/// The digests that `links` carry, in order; or the first fault among them:
/// a link that holds no multihash, or a digest that is no object identifier.
pub open spec fn link_targets(links: Seq<Seq<u8>>) -> Result<Seq<Seq<u8>>, Error>
    decreases links.len(),
{
    if links.len() == 0 {
        Ok(Seq::empty())
    } else {
        match multihash_digest(links[0]) {
            Err(e) => Err(Error::MultihashError(e)),
            Ok(digest) => if digest.len() != OBJECT_ID_LEN {
                Err(Error::InvalidDigestLength(digest.len() as usize))
            } else {
                match link_targets(links.skip(1)) {
                    Err(e) => Err(e),
                    Ok(rest) => Ok(seq![digest] + rest),
                }
            },
        }
    }
}

/// The action that hands the loose object of `id` to the caller, given what
/// compressing the encoded object gave.
pub open spec fn write_action(id: Seq<u8>, compressed: Option<Seq<u8>>) -> Result<
    FetchActionView,
    Error,
> {
    match compressed {
        None => Err(Error::CompressionFailed),
        Some(data) => Ok(FetchActionView::Write { path: shard_path(id), data }),
    }
}

/// The transition of the fetch traversal: the state and action that follow
/// when, in state `s`, the outstanding action is answered by `event`.
///
/// A digest whose loose object exists is passed over. Any other is got from
/// the store; the targets of all its links join the queue; the encoded
/// object is compressed and handed out to be written at its path; and at
/// last the digest is recorded. An event that does not answer the
/// outstanding action is an error, and so are a link without a multihash or
/// with a digest of another length, and an object that cannot be
/// compressed. The links are looked at before the object is compressed.
pub open spec fn fetch_resume(s: FetchState, event: FetchEventView) -> Result<
    (FetchState, FetchActionView),
    Error,
> {
    match (s.phase, event) {
        (FetchPhase::Probing { id }, FetchEventView::Exists(present)) => if present {
            Ok(fetch_next_object(s.queue))
        } else {
            Ok(
                (
                    FetchState { queue: s.queue, phase: FetchPhase::Getting { id } },
                    FetchActionView::Get(id),
                ),
            )
        },
        (FetchPhase::Getting { id }, FetchEventView::Block { bytes, links }) => match link_targets(
            links,
        ) {
            Err(e) => Err(e),
            Ok(targets) => match write_action(id, zlib_compressed(bytes)) {
                Err(e) => Err(e),
                Ok(action) => Ok(
                    (
                        FetchState { queue: s.queue + targets, phase: FetchPhase::Writing { id } },
                        action,
                    ),
                ),
            },
        },
        (FetchPhase::Writing { id }, FetchEventView::Written) => Ok(
            (
                FetchState { queue: s.queue, phase: FetchPhase::Recording { id } },
                FetchActionView::AddEntry(id),
            ),
        ),
        (FetchPhase::Recording { id }, FetchEventView::Added) => Ok(fetch_next_object(s.queue)),
        _ => Err(Error::UnexpectedEvent),
    }
}

/// The state in which a traversal starts from `root`, and its first action.
pub open spec fn fetch_start(root: Seq<u8>) -> (FetchState, FetchActionView) {
    fetch_next_object(seq![root])
}

/// The state of a traversal that has nothing queued and nothing outstanding.
pub open spec fn fetch_idle() -> FetchState {
    FetchState { queue: Seq::empty(), phase: FetchPhase::Idle }
}

/// Compresses `data` with `flate2`'s `ZlibEncoder` at the default level
/// into a vector: `write_all`, then `finish`. The result depends on the
/// data alone; it is `None` where either call reports an error.
#[verifier::external_body]
fn zlib_compress(data: &[u8]) -> (out: Option<Vec<u8>>)
    ensures
        match out {
            Some(bytes) => zlib_compressed(data@) == Some(bytes@),
            None => zlib_compressed(data@) is None,
        },
{
    let mut encoder = flate2::write::ZlibEncoder::new(Vec::new(), flate2::Compression::default());
    match encoder.write_all(data) {
        Ok(()) => encoder.finish().ok(),
        Err(_) => None,
    }
}

enum Phase {
    Idle,
    Probing { id: ObjectId },
    Getting { id: ObjectId },
    Writing { id: ObjectId },
    Recording { id: ObjectId },
}

impl View for Phase {
    type V = FetchPhase;

    closed spec fn view(&self) -> FetchPhase {
        match self {
            Phase::Idle => FetchPhase::Idle,
            Phase::Probing { id } => FetchPhase::Probing { id: id@ },
            Phase::Getting { id } => FetchPhase::Getting { id: id@ },
            Phase::Writing { id } => FetchPhase::Writing { id: id@ },
            Phase::Recording { id } => FetchPhase::Recording { id: id@ },
        }
    }
}

/// A fetch traversal.
pub struct FetchHelper {
    queue: VecDeque<ObjectId>,
    phase: Phase,
}

impl View for FetchHelper {
    type V = FetchState;

    closed spec fn view(&self) -> FetchState {
        FetchState { queue: queue_view(self.queue@), phase: self.phase@ }
    }
}

impl FetchAction {
    /// The action that hands the loose object of `id` to the caller, given
    /// what compressing the encoded object gave.
    pub fn write(id: &ObjectId, compressed: Option<Vec<u8>>) -> (r: Result<FetchAction, Error>)
        ensures
            match r {
                Ok(action) => write_action(
                    id@,
                    match compressed {
                        Some(data) => Some(data@),
                        None => None,
                    },
                ) == Ok::<FetchActionView, Error>(action@),
                Err(e) => compressed is None && e == Error::CompressionFailed,
            },
    {
        match compressed {
            None => Err(Error::CompressionFailed),
            Some(data) => Ok(FetchAction::Write { path: prepare_object_path(id), data }),
        }
    }
}

impl FetchHelper {
    /// A traversal with an empty queue and no action outstanding.
    pub fn new() -> (helper: FetchHelper)
        ensures
            helper@ == fetch_idle(),
    {
        let helper = FetchHelper { queue: VecDeque::new(), phase: Phase::Idle };
        assert(queue_view(helper.queue@) =~= Seq::empty());
        helper
    }

    /// Starts a traversal from the object whose digest `hash` gives in
    /// hexadecimal, and returns its first action. Whatever an earlier
    /// traversal left behind is dropped. A `hash` that is not forty
    /// hexadecimal digits is an error, and leaves the traversal idle.
    pub fn fetch(&mut self, hash: String) -> (r: Result<FetchAction, Error>)
        ensures
            match r {
                Ok(action) => object_id_of_hex(encode_utf8(hash@))
                    is Ok && (final(self)@, action@) == fetch_start(
                    object_id_of_hex(encode_utf8(hash@))->Ok_0,
                ),
                Err(e) => object_id_of_hex(encode_utf8(hash@))
                    == Err::<Seq<u8>, Error>(e) && final(self)@ == fetch_idle(),
            },
    {
        self.queue = VecDeque::new();
        self.phase = Phase::Idle;
        assert(queue_view(self.queue@) =~= Seq::empty());
        match ObjectId::from_hex(hash.as_str()) {
            Err(e) => Err(e),
            Ok(id) => {
                self.phase = Phase::Probing { id };
                assert(queue_view(self.queue@) =~= seq![id@].skip(1));
                Ok(FetchAction::Exists(prepare_object_path(&id)))
            },
        }
    }

    /// Resumes the traversal with the outcome of the action it handed out
    /// last, and returns the next action. After an error the traversal is
    /// idle with an empty queue.
    pub fn resume(&mut self, event: FetchEvent) -> (r: Result<FetchAction, Error>)
        ensures
            match r {
                Ok(action) => fetch_resume(old(self)@, event@) == Ok::<
                    (FetchState, FetchActionView),
                    Error,
                >((final(self)@, action@)),
                Err(e) => fetch_resume(old(self)@, event@) == Err::<
                    (FetchState, FetchActionView),
                    Error,
                >(e) && final(self)@ == fetch_idle(),
            },
    {
        let mut phase = Phase::Idle;
        std::mem::swap(&mut self.phase, &mut phase);
        let r = match (phase, event) {
            (Phase::Probing { id }, FetchEvent::Exists(present)) => {
                if present {
                    Ok(self.next_object())
                } else {
                    self.phase = Phase::Getting { id };
                    Ok(FetchAction::Get(id))
                }
            },
            (Phase::Getting { id }, FetchEvent::Block { bytes, links }) => {
                match self.enqueue_links(&links) {
                    Err(e) => Err(e),
                    Ok(()) => match FetchAction::write(&id, zlib_compress(bytes.as_slice())) {
                        Err(e) => Err(e),
                        Ok(action) => {
                            self.phase = Phase::Writing { id };
                            Ok(action)
                        },
                    },
                }
            },
            (Phase::Writing { id }, FetchEvent::Written) => {
                self.phase = Phase::Recording { id };
                Ok(FetchAction::AddEntry(id))
            },
            (Phase::Recording { id }, FetchEvent::Added) => Ok(self.next_object()),
            _ => Err(Error::UnexpectedEvent),
        };
        if r.is_err() {
            self.queue = VecDeque::new();
            self.phase = Phase::Idle;
            assert(queue_view(self.queue@) =~= Seq::empty());
        }
        r
    }

    /// Takes the next digest from the queue, or ends the traversal.
    fn next_object(&mut self) -> (action: FetchAction)
        ensures
            (final(self)@, action@) == fetch_next_object(queue_view(old(self).queue@)),
    {
        let ghost queue0 = queue_view(self.queue@);
        match self.queue.pop_front() {
            None => {
                self.phase = Phase::Idle;
                FetchAction::Done
            },
            Some(id) => {
                assert(queue_view(self.queue@) =~= queue0.skip(1));
                self.phase = Phase::Probing { id };
                FetchAction::Exists(prepare_object_path(&id))
            },
        }
    }

    /// Puts the target of each link at the end of the queue, up to the
    /// first link that is at fault.
    fn enqueue_links(&mut self, links: &Vec<Vec<u8>>) -> (r: Result<(), Error>)
        ensures
            final(self).phase == old(self).phase,
            match r {
                Ok(()) => link_targets(links.deep_view()) is Ok && queue_view(final(self).queue@)
                    == queue_view(old(self).queue@) + link_targets(links.deep_view())->Ok_0,
                Err(e) => link_targets(links.deep_view()) == Err::<Seq<Seq<u8>>, Error>(e),
            },
    {
        let ghost all = links.deep_view();
        let ghost queue0 = queue_view(self.queue@);
        let ghost mut taken: Seq<Seq<u8>> = Seq::empty();
        let mut i: usize = 0;
        assert(all.skip(0) =~= all);
        while i < links.len()
            invariant
                i <= links.len(),
                all == links.deep_view(),
                self.phase == old(self).phase,
                queue_view(self.queue@) == queue0 + taken,
                link_targets(all) == match link_targets(all.skip(i as int)) {
                    Ok(rest) => Ok::<Seq<Seq<u8>>, Error>(taken + rest),
                    Err(e) => Err::<Seq<Seq<u8>>, Error>(e),
                },
            decreases links.len() - i,
        {
            let ghost here = all.skip(i as int);
            assert(here[0] == links[i as int]@);
            assert(here.skip(1) =~= all.skip(i + 1));
            let digest = match link_digest(links[i].as_slice()) {
                Err(e) => {
                    return Err(e);
                },
                Ok(digest) => digest,
            };
            let target = match ObjectId::from_bytes(digest.as_slice()) {
                Err(e) => {
                    return Err(e);
                },
                Ok(target) => target,
            };
            let ghost before = queue_view(self.queue@);
            self.queue.push_back(target);
            proof {
                assert(queue_view(self.queue@) =~= before.push(target@));
                match link_targets(here.skip(1)) {
                    Ok(rest) => {
                        assert(taken.push(target@) + rest =~= taken + (seq![target@] + rest));
                    },
                    Err(_) => {},
                }
                taken = taken.push(target@);
                assert(queue_view(self.queue@) =~= queue0 + taken);
            }
            i = i + 1;
        }
        assert(taken + Seq::<Seq<u8>>::empty() =~= taken);
        Ok(())
    }
}

} // verus!

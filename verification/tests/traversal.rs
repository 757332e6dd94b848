use std::collections::{HashMap, HashSet};
use std::io::Read;

use git_remote_ipgrv::digest::ObjectId;
use git_remote_ipgrv::error::{Error, HexError, MultihashError};
use git_remote_ipgrv::fetch::{FetchAction, FetchEvent, FetchHelper};
use git_remote_ipgrv::object::{encode, prepare_object_path, ObjectKind};
use git_remote_ipgrv::push::{PushAction, PushEvent, PushHelper};

struct Graph {
    objects: HashMap<ObjectId, (ObjectKind, Vec<u8>)>,
    links: HashMap<Vec<u8>, Vec<Vec<u8>>>,
}

fn id(n: u8) -> ObjectId {
    ObjectId { bytes: [n; 20] }
}

fn multihash(target: &ObjectId) -> Vec<u8> {
    let mut link = vec![0x11u8, 0x14];
    link.extend_from_slice(target.as_bytes());
    link
}

fn payload(n: u8) -> Vec<u8> {
    format!("object number {}", n).into_bytes()
}

fn encoded(n: u8) -> Vec<u8> {
    encode(ObjectKind::Blob, &payload(n))
}

fn graph(edges: &[(u8, &[u8])]) -> Graph {
    let mut objects = HashMap::new();
    let mut links = HashMap::new();
    for (node, targets) in edges {
        objects.insert(id(*node), (ObjectKind::Blob, payload(*node)));
        links.insert(encoded(*node), targets.iter().map(|t| multihash(&id(*t))).collect());
    }
    Graph { objects, links }
}

// 1 -> 2, 3; 2 -> 4; 3 -> 4; 4 -> 5: five nodes, five links, node 4 with two parents.
fn diamond() -> Graph {
    graph(&[(1, &[2, 3]), (2, &[4]), (3, &[4]), (4, &[5]), (5, &[])])
}

struct PushLog {
    tracker: HashSet<Vec<u8>>,
    puts: Vec<Vec<u8>>,
    queries: usize,
}

fn new_log() -> PushLog {
    PushLog { tracker: HashSet::new(), puts: Vec::new(), queries: 0 }
}

fn run_push(graph: &Graph, log: &mut PushLog, root: ObjectId) -> Result<(), Error> {
    let mut helper = PushHelper::new();
    let mut action = helper.push(root);
    loop {
        let event = match action {
            PushAction::HasEntry(digest) => {
                log.queries += 1;
                PushEvent::Entry(log.tracker.contains(&digest))
            }
            PushAction::ReadObject(id) => {
                let (kind, payload) = graph.objects[&id].clone();
                PushEvent::Object { kind, payload }
            }
            PushAction::Put(bytes) => {
                let links = graph.links[&bytes].clone();
                log.puts.push(bytes);
                PushEvent::Stored { links }
            }
            PushAction::AddEntry(id) => {
                log.tracker.insert(id.as_bytes().to_vec());
                PushEvent::Added
            }
            PushAction::Done => return Ok(()),
        };
        action = helper.resume(event)?;
    }
}

struct Disk {
    files: HashMap<(String, String), Vec<u8>>,
    tracker: HashSet<Vec<u8>>,
    gets: Vec<ObjectId>,
}

fn new_disk() -> Disk {
    Disk { files: HashMap::new(), tracker: HashSet::new(), gets: Vec::new() }
}

fn run_fetch(
    store: &HashMap<ObjectId, Vec<u8>>,
    links: &HashMap<Vec<u8>, Vec<Vec<u8>>>,
    disk: &mut Disk,
    root: &str,
) -> Result<(), Error> {
    let mut helper = FetchHelper::new();
    let mut action = helper.fetch(root.to_string())?;
    loop {
        let event = match action {
            FetchAction::Exists(path) => {
                FetchEvent::Exists(disk.files.contains_key(&(path.directory, path.file)))
            }
            FetchAction::Get(id) => {
                disk.gets.push(id);
                let bytes = store[&id].clone();
                let links = links[&bytes].clone();
                FetchEvent::Block { bytes, links }
            }
            FetchAction::Write { path, data } => {
                disk.files.insert((path.directory, path.file), data);
                FetchEvent::Written
            }
            FetchAction::AddEntry(id) => {
                disk.tracker.insert(id.as_bytes().to_vec());
                FetchEvent::Added
            }
            FetchAction::Done => return Ok(()),
        };
        action = helper.resume(event)?;
    }
}

fn inflate(data: &[u8]) -> Vec<u8> {
    let mut out = Vec::new();
    flate2::read::ZlibDecoder::new(data).read_to_end(&mut out).unwrap();
    out
}

#[test]
fn push_sends_each_node_once() {
    let graph = diamond();
    let mut log = new_log();
    assert_eq!(run_push(&graph, &mut log, id(1)), Ok(()));
    assert_eq!(log.puts.len(), 5);
    assert_eq!(log.tracker.len(), 5);
    for n in 1..=5u8 {
        assert_eq!(log.puts.iter().filter(|p| **p == encoded(n)).count(), 1);
        assert!(log.tracker.contains(&id(n).as_bytes().to_vec()));
    }
}

#[test]
fn push_visits_breadth_first() {
    let graph = diamond();
    let mut log = new_log();
    run_push(&graph, &mut log, id(1)).unwrap();
    assert_eq!(log.puts, vec![encoded(1), encoded(2), encoded(3), encoded(4), encoded(5)]);
}

#[test]
fn push_again_puts_nothing() {
    let graph = diamond();
    let mut log = new_log();
    run_push(&graph, &mut log, id(1)).unwrap();
    let puts = log.puts.len();
    let queries = log.queries;
    assert_eq!(run_push(&graph, &mut log, id(1)), Ok(()));
    assert_eq!(log.puts.len(), puts);
    assert_eq!(log.queries, queries + 1);
}

#[test]
fn push_first_action_asks_about_root() {
    let mut helper = PushHelper::new();
    assert_eq!(helper.push(id(7)), PushAction::HasEntry(vec![7u8; 20]));
    assert_eq!(helper.resume(PushEvent::Entry(true)), Ok(PushAction::Done));
}

#[test]
fn push_single_object_takes_each_step_in_order() {
    let mut helper = PushHelper::new();
    assert_eq!(helper.push(id(7)), PushAction::HasEntry(vec![7u8; 20]));
    assert_eq!(helper.resume(PushEvent::Entry(false)), Ok(PushAction::ReadObject(id(7))));
    assert_eq!(
        helper.resume(PushEvent::Object { kind: ObjectKind::Blob, payload: b"hello".to_vec() }),
        Ok(PushAction::Put(b"blob 5\0hello".to_vec()))
    );
    assert_eq!(
        helper.resume(PushEvent::Stored { links: vec![multihash(&id(8))] }),
        Ok(PushAction::HasEntry(vec![8u8; 20]))
    );
    assert_eq!(helper.resume(PushEvent::Entry(false)), Ok(PushAction::AddEntry(id(7))));
    assert_eq!(helper.resume(PushEvent::Added), Ok(PushAction::HasEntry(vec![8u8; 20])));
    assert_eq!(helper.resume(PushEvent::Entry(true)), Ok(PushAction::Done));
}

#[test]
fn push_resumes_after_partial_progress() {
    let graph = diamond();
    let mut log = new_log();
    log.tracker.insert(id(2).as_bytes().to_vec());
    run_push(&graph, &mut log, id(1)).unwrap();
    // 2 is recorded, so it is passed over; 4 and 5 are still reached through 3.
    assert_eq!(log.puts, vec![encoded(1), encoded(3), encoded(4), encoded(5)]);
}

#[test]
fn push_passes_over_recorded_subtree() {
    let graph = graph(&[(1, &[2]), (2, &[3]), (3, &[])]);
    let mut log = new_log();
    log.tracker.insert(id(2).as_bytes().to_vec());
    run_push(&graph, &mut log, id(1)).unwrap();
    assert_eq!(log.puts, vec![encoded(1)]);
    assert!(!log.tracker.contains(&id(3).as_bytes().to_vec()));
}

#[test]
fn push_ends_on_a_cycle() {
    let graph = graph(&[(1, &[2]), (2, &[1, 2])]);
    let mut log = new_log();
    assert_eq!(run_push(&graph, &mut log, id(1)), Ok(()));
    assert_eq!(log.puts, vec![encoded(1), encoded(2)]);
}

#[test]
fn push_refuses_event_that_was_not_asked_for() {
    let mut helper = PushHelper::new();
    assert_eq!(helper.resume(PushEvent::Added), Err(Error::UnexpectedEvent));
    helper.push(id(1));
    assert_eq!(helper.resume(PushEvent::Added), Err(Error::UnexpectedEvent));
    // the failed traversal is dropped
    assert_eq!(helper.resume(PushEvent::Entry(true)), Err(Error::UnexpectedEvent));
}

#[test]
fn push_refuses_link_without_multihash() {
    let mut helper = PushHelper::new();
    helper.push(id(1));
    helper.resume(PushEvent::Entry(false)).unwrap();
    helper.resume(PushEvent::Object { kind: ObjectKind::Tree, payload: vec![] }).unwrap();
    assert_eq!(
        helper.resume(PushEvent::Stored { links: vec![vec![0x99, 1, 2]] }),
        Err(Error::MultihashError(MultihashError::UnknownCode))
    );
}

#[test]
fn push_refuses_unrecorded_digest_of_other_length() {
    let mut link = vec![0x12u8, 0x20];
    link.extend_from_slice(&[5u8; 32]);
    let mut helper = PushHelper::new();
    helper.push(id(1));
    helper.resume(PushEvent::Entry(false)).unwrap();
    helper.resume(PushEvent::Object { kind: ObjectKind::Tree, payload: vec![] }).unwrap();
    assert_eq!(
        helper.resume(PushEvent::Stored { links: vec![link.clone()] }),
        Ok(PushAction::HasEntry(vec![5u8; 32]))
    );
    assert_eq!(helper.resume(PushEvent::Entry(false)), Err(Error::InvalidDigestLength(32)));

    // a recorded digest is passed over whatever its length
    helper.push(id(1));
    helper.resume(PushEvent::Entry(false)).unwrap();
    helper.resume(PushEvent::Object { kind: ObjectKind::Tree, payload: vec![] }).unwrap();
    helper.resume(PushEvent::Stored { links: vec![link] }).unwrap();
    assert_eq!(helper.resume(PushEvent::Entry(true)), Ok(PushAction::AddEntry(id(1))));
}

#[test]
fn push_starts_afresh() {
    let mut helper = PushHelper::new();
    helper.push(id(1));
    helper.resume(PushEvent::Entry(false)).unwrap();
    assert_eq!(helper.push(id(2)), PushAction::HasEntry(vec![2u8; 20]));
    assert_eq!(helper.resume(PushEvent::Entry(true)), Ok(PushAction::Done));
}

#[test]
fn fetch_rebuilds_what_was_pushed() {
    let graph = diamond();
    let mut log = new_log();
    run_push(&graph, &mut log, id(1)).unwrap();
    let mut store = HashMap::new();
    for n in 1..=5u8 {
        assert!(log.puts.contains(&encoded(n)));
        store.insert(id(n), encoded(n));
    }
    let mut disk = new_disk();
    assert_eq!(run_fetch(&store, &graph.links, &mut disk, &id(1).to_hex()), Ok(()));
    assert_eq!(disk.files.len(), 5);
    assert_eq!(disk.tracker.len(), 5);
    assert_eq!(disk.gets.len(), 5);
    for n in 1..=5u8 {
        let path = prepare_object_path(&id(n));
        let data = &disk.files[&(path.directory, path.file)];
        assert_eq!(inflate(data), encoded(n));
    }
}

#[test]
fn fetch_writes_a_zlib_stream() {
    let graph = graph(&[(1, &[])]);
    let mut store = HashMap::new();
    store.insert(id(1), encoded(1));
    let mut disk = new_disk();
    run_fetch(&store, &graph.links, &mut disk, &id(1).to_hex()).unwrap();
    let data = &disk.files[&("01".to_string(), "01".repeat(19))];
    assert_ne!(data, &encoded(1));
    assert_eq!(&data[..2], &[0x78, 0x9c]);
    assert_eq!(inflate(data), encoded(1));
}

#[test]
fn fetch_passes_over_existing_objects() {
    let graph = diamond();
    let mut store = HashMap::new();
    for n in 1..=5u8 {
        store.insert(id(n), encoded(n));
    }
    let mut disk = new_disk();
    let there = prepare_object_path(&id(2));
    disk.files.insert((there.directory, there.file), b"kept".to_vec());
    run_fetch(&store, &graph.links, &mut disk, &id(1).to_hex()).unwrap();
    assert_eq!(disk.gets, vec![id(1), id(3), id(4), id(5)]);
    assert_eq!(disk.files[&("02".to_string(), "02".repeat(19))], b"kept".to_vec());
    assert!(!disk.tracker.contains(&id(2).as_bytes().to_vec()));
}

#[test]
fn fetch_of_present_root_does_nothing() {
    let mut helper = FetchHelper::new();
    let first = helper.fetch(id(9).to_hex()).unwrap();
    assert_eq!(first, FetchAction::Exists(prepare_object_path(&id(9))));
    assert_eq!(helper.resume(FetchEvent::Exists(true)), Ok(FetchAction::Done));
}

#[test]
fn fetch_single_object_takes_each_step_in_order() {
    let mut helper = FetchHelper::new();
    helper.fetch(id(9).to_hex()).unwrap();
    assert_eq!(helper.resume(FetchEvent::Exists(false)), Ok(FetchAction::Get(id(9))));
    let write = helper
        .resume(FetchEvent::Block { bytes: encoded(9), links: vec![multihash(&id(3))] })
        .unwrap();
    match write {
        FetchAction::Write { path, data } => {
            assert_eq!(path, prepare_object_path(&id(9)));
            assert_eq!(inflate(&data), encoded(9));
        }
        other => panic!("unexpected action {:?}", other),
    }
    assert_eq!(helper.resume(FetchEvent::Written), Ok(FetchAction::AddEntry(id(9))));
    assert_eq!(
        helper.resume(FetchEvent::Added),
        Ok(FetchAction::Exists(prepare_object_path(&id(3))))
    );
    assert_eq!(helper.resume(FetchEvent::Exists(true)), Ok(FetchAction::Done));
}

#[test]
fn fetch_refuses_bad_hex() {
    let mut helper = FetchHelper::new();
    assert_eq!(
        helper.fetch("xyz".to_string()),
        Err(Error::FromHexError(HexError::OddLength))
    );
    assert_eq!(
        helper.fetch("zz".repeat(20)),
        Err(Error::FromHexError(HexError::InvalidHexCharacter { c: 'z', index: 0 }))
    );
    assert_eq!(helper.fetch("abcd".to_string()), Err(Error::InvalidDigestLength(2)));
    assert_eq!(helper.resume(FetchEvent::Exists(false)), Err(Error::UnexpectedEvent));
}

#[test]
fn fetch_refuses_faulty_links() {
    let mut long = vec![0x12u8, 0x20];
    long.extend_from_slice(&[5u8; 32]);
    let mut helper = FetchHelper::new();
    helper.fetch(id(9).to_hex()).unwrap();
    helper.resume(FetchEvent::Exists(false)).unwrap();
    assert_eq!(
        helper.resume(FetchEvent::Block { bytes: encoded(9), links: vec![multihash(&id(3)), long] }),
        Err(Error::InvalidDigestLength(32))
    );
    helper.fetch(id(9).to_hex()).unwrap();
    helper.resume(FetchEvent::Exists(false)).unwrap();
    assert_eq!(
        helper.resume(FetchEvent::Block { bytes: encoded(9), links: vec![vec![0x11, 0x14, 1]] }),
        Err(Error::MultihashError(MultihashError::BadInputLength))
    );
}

#[test]
fn fetch_refuses_event_that_was_not_asked_for() {
    let mut helper = FetchHelper::new();
    assert_eq!(helper.resume(FetchEvent::Written), Err(Error::UnexpectedEvent));
    helper.fetch(id(9).to_hex()).unwrap();
    assert_eq!(helper.resume(FetchEvent::Added), Err(Error::UnexpectedEvent));
}

#[test]
fn fetch_write_action_needs_compressed_data() {
    assert_eq!(FetchAction::write(&id(1), None), Err(Error::CompressionFailed));
    assert_eq!(
        FetchAction::write(&id(1), Some(vec![1, 2, 3])),
        Ok(FetchAction::Write { path: prepare_object_path(&id(1)), data: vec![1, 2, 3] })
    );
}

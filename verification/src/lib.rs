//! Object synchronisation between a version-control repository and a
//! content-addressed store: the object encoding, the push and fetch
//! traversals, and the remote-helper command protocol.
//!
//! Nothing in this crate performs I/O. The protocol and the two traversals
//! are state machines: each hands its caller one action at a time (read a
//! line, query the tracker, read an object, put a block, write a loose
//! object, ...) and is resumed with the outcome. Every transition is
//! verified against a mathematical transition function, and the traversals
//! are proved, against a model of their collaborators, to send or write
//! every object of a graph exactly once.
//!
//! - [`object`]: object kinds, the encoded form, loose-object paths
//! - [`digest`]: object identifiers, hexadecimal text, multihash links
//! - [`push`], [`fetch`]: the traversals
//! - [`traversal`], [`push_model`], [`fetch_model`]: what whole traversals do
//! - [`remote`]: the command protocol
//! - [`tracker`], [`ipfs_api`]: what the library knows of the tracker and of
//!   the store's API
//! - [`text`]: scanning of command lines
//! - [`error`]: the errors

pub mod digest;
pub mod error;
pub mod fetch;
pub mod fetch_model;
pub mod ipfs_api;
pub mod object;
pub mod push;
pub mod push_model;
pub mod remote;
pub mod text;
pub mod tracker;
pub mod traversal;

//! Leader election for a Raft-style cluster: each node is an actor that keeps
//! its clock, term and role, reads messages from its inbox and writes the
//! messages it sends to its outbox.
use vstd::prelude::*;

pub mod message;
pub mod node;
pub mod text;
pub mod roles;
pub mod actor;
pub mod cluster;
pub mod demo;

pub use actor::Actor;
pub use message::Message;
pub use node::{Candidate, Follower, Leader, Node, Role, Voter};

verus! {

/// The name of a node of the cluster.
pub type Id = String;

/// Logical time, counted in polls.
pub type Time = u64;

/// An election term.
pub type Term = u64;

/// How long to wait for a master's heartbeat before starting an election.
pub const ELECTION_TIMEOUT: Time = 150;

/// How long between sending heartbeats.
pub const HEARTBEAT_PERIOD: Time = 15;

/// The error type of a poll. No poll fails: no function of this crate
/// returns a value of it.
#[derive(Debug, Clone, PartialEq, Eq)]
pub struct Error {}

} // verus!

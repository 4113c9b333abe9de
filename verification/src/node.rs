//! A node's own state, and the role it plays in the election.
use vstd::prelude::*;
use vstd::std_specs::convert::FromSpecImpl;
use vstd::string::StringExecFns;
use crate::message::{ids_view, IdView};
use crate::text::{debug_string, debug_text, decimal, decimal_string};
use crate::{Id, Term, Time};

verus! {

/// The state that a node keeps whatever its role.
#[derive(Debug, Clone, PartialEq, Eq)]
pub struct Node {
    pub id: Id,
    /// The node's clock.
    pub time: Time,
    /// When the node last heard from or acted as a leader, or voted.
    pub last_activity: Time,
    pub term: Term,
    /// The nodes of the cluster, this one among them, each named once.
    pub peers: Vec<Id>,
}

pub struct NodeView {
    pub id: IdView,
    pub time: Time,
    pub last_activity: Time,
    pub term: Term,
    pub peers: Seq<IdView>,
}

impl View for Node {
    type V = NodeView;

    open spec fn view(&self) -> NodeView {
        NodeView {
            id: self.id@,
            time: self.time,
            last_activity: self.last_activity,
            term: self.term,
            peers: ids_view(self.peers@),
        }
    }
}

impl NodeView {
    /// The node's peers name each node once, as a set of names would.
    pub open spec fn well_formed(self) -> bool {
        self.peers.no_duplicates()
    }
}

/// The text that starts each line a node logs: its clock, name and term.
pub open spec fn log_prefix_text(n: NodeView) -> Seq<char> {
    "[time "@ + decimal(n.time as nat) + "] [id "@ + debug_text(n.id) + "] [term "@
        + decimal(n.term as nat) + "]"@
}

impl Node {
    /// Whether the node's peers name each node once.
    pub fn peers_are_distinct(&self) -> (b: bool)
        ensures
            b == self@.well_formed(),
    {
        let n = self.peers.len();
        let mut i: usize = 0;
        while i < n
            invariant
                n == self.peers@.len(),
                i <= n,
                forall|a: int, b: int| 0 <= a < i && 0 <= b < n && a != b ==> self@.peers[a] != self@.peers[b],
            decreases n - i,
        {
            let mut j: usize = 0;
            while j < n
                invariant
                    n == self.peers@.len(),
                    i < n,
                    j <= n,
                    forall|a: int, b: int| 0 <= a < i && 0 <= b < n && a != b ==> self@.peers[a] != self@.peers[b],
                    forall|b: int| 0 <= b < j && b != i ==> self@.peers[i as int] != self@.peers[b],
                decreases n - j,
            {
                if j != i && self.peers[i] == self.peers[j] {
                    assert(self@.peers[i as int] == self@.peers[j as int]);
                    return false;
                }
                j = j + 1;
            }
            i = i + 1;
        }
        true
    }

    /// The prefix of the node's log lines: `[time T] [id "ID"] [term N]`.
    pub fn log_prefix(&self) -> (s: String)
        ensures
            s@ == log_prefix_text(self@),
    {
        let mut s = "[time ".to_owned();
        s.append(decimal_string(self.time).as_str());
        s.append("] [id ");
        s.append(debug_string(&self.id).as_str());
        s.append("] [term ");
        s.append(decimal_string(self.term).as_str());
        s.append("]");
        s
    }
}

/// A node that has voted for `candidate_id` in its term.
#[derive(Debug, Clone, PartialEq, Eq)]
pub struct Voter {
    pub candidate_id: Id,
}

/// A node that follows `leader_id` in its term.
#[derive(Debug, Clone, PartialEq, Eq)]
pub struct Follower {
    pub leader_id: Id,
}

/// A node that stands for election and has counted `votes` votes, its own
/// among them.
#[derive(Debug, Clone, PartialEq, Eq)]
pub struct Candidate {
    pub votes: u64,
}

/// The leader of its term.
#[derive(Debug, Clone, PartialEq, Eq)]
pub struct Leader {}

/// The role that a node plays.
#[derive(Debug, Clone, PartialEq, Eq)]
pub enum Role {
    /// A node that waits for a leader or a candidate, having voted for nobody.
    Idler,
    Voter(Voter),
    Follower(Follower),
    Candidate(Candidate),
    Leader(Leader),
}

pub enum RoleView {
    Idler,
    Voter { candidate_id: IdView },
    Follower { leader_id: IdView },
    Candidate { votes: u64 },
    Leader,
}

impl View for Role {
    type V = RoleView;

    open spec fn view(&self) -> RoleView {
        match self {
            Role::Idler => RoleView::Idler,
            Role::Voter(v) => RoleView::Voter { candidate_id: v.candidate_id@ },
            Role::Follower(f) => RoleView::Follower { leader_id: f.leader_id@ },
            Role::Candidate(c) => RoleView::Candidate { votes: c.votes },
            Role::Leader(_) => RoleView::Leader,
        }
    }
}

impl From<Voter> for Role {
    fn from(voter: Voter) -> (r: Role) {
        Role::Voter(voter)
    }
}

impl FromSpecImpl<Voter> for Role {
    open spec fn obeys_from_spec() -> bool {
        true
    }

    open spec fn from_spec(voter: Voter) -> Role {
        Role::Voter(voter)
    }
}

impl From<Follower> for Role {
    fn from(follower: Follower) -> (r: Role) {
        Role::Follower(follower)
    }
}

impl FromSpecImpl<Follower> for Role {
    open spec fn obeys_from_spec() -> bool {
        true
    }

    open spec fn from_spec(follower: Follower) -> Role {
        Role::Follower(follower)
    }
}

impl From<Candidate> for Role {
    fn from(candidate: Candidate) -> (r: Role) {
        Role::Candidate(candidate)
    }
}

impl FromSpecImpl<Candidate> for Role {
    open spec fn obeys_from_spec() -> bool {
        true
    }

    open spec fn from_spec(candidate: Candidate) -> Role {
        Role::Candidate(candidate)
    }
}

impl From<Leader> for Role {
    fn from(leader: Leader) -> (r: Role) {
        Role::Leader(leader)
    }
}

impl FromSpecImpl<Leader> for Role {
    open spec fn obeys_from_spec() -> bool {
        true
    }

    open spec fn from_spec(leader: Leader) -> Role {
        Role::Leader(leader)
    }
}

} // verus!

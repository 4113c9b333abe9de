//! The messages that nodes send one another, and their mathematical views.
use vstd::prelude::*;
use vstd::std_specs::convert::FromSpecImpl;
use crate::Id;
use crate::Term;

verus! {

/// The view of a node name: its characters.
pub type IdView = Seq<char>;

/// A leader's announcement that it holds the lead in `term`.
#[derive(Debug, Clone, PartialEq, Eq)]
pub struct Heartbeat {
    pub leader_id: Id,
    pub term: Term,
    pub nodes: Vec<Id>,
}

/// A node's request for votes in `term`.
#[derive(Debug, Clone, PartialEq, Eq)]
pub struct Candidacy {
    pub candidate_id: Id,
    pub term: Term,
}

/// A node's vote for `candidate` in `term`.
#[derive(Debug, Clone, PartialEq, Eq)]
pub struct Vote {
    pub voter_id: Id,
    pub term: Term,
    pub candidate: Id,
}

#[derive(Debug, Clone, PartialEq, Eq)]
pub enum Message {
    Heartbeat(Heartbeat),
    Candidacy(Candidacy),
    Vote(Vote),
}

pub struct HeartbeatView {
    pub leader_id: IdView,
    pub term: Term,
    pub nodes: Seq<IdView>,
}

pub struct CandidacyView {
    pub candidate_id: IdView,
    pub term: Term,
}

pub struct VoteView {
    pub voter_id: IdView,
    pub term: Term,
    pub candidate: IdView,
}

pub enum MessageView {
    Heartbeat(HeartbeatView),
    Candidacy(CandidacyView),
    Vote(VoteView),
}

/// The views of a sequence of names.
pub open spec fn ids_view(ids: Seq<Id>) -> Seq<IdView> {
    ids.map_values(|id: Id| id@)
}

/// The views of a sequence of messages.
pub open spec fn msgs_view(msgs: Seq<Message>) -> Seq<MessageView> {
    msgs.map_values(|m: Message| m@)
}

impl View for Heartbeat {
    type V = HeartbeatView;

    open spec fn view(&self) -> HeartbeatView {
        HeartbeatView { leader_id: self.leader_id@, term: self.term, nodes: ids_view(self.nodes@) }
    }
}

impl View for Candidacy {
    type V = CandidacyView;

    open spec fn view(&self) -> CandidacyView {
        CandidacyView { candidate_id: self.candidate_id@, term: self.term }
    }
}

impl View for Vote {
    type V = VoteView;

    open spec fn view(&self) -> VoteView {
        VoteView { voter_id: self.voter_id@, term: self.term, candidate: self.candidate@ }
    }
}

impl View for Message {
    type V = MessageView;

    open spec fn view(&self) -> MessageView {
        match self {
            Message::Heartbeat(h) => MessageView::Heartbeat(h@),
            Message::Candidacy(c) => MessageView::Candidacy(c@),
            Message::Vote(v) => MessageView::Vote(v@),
        }
    }
}

impl MessageView {
    /// The term that the message was sent in.
    pub open spec fn term(self) -> Term {
        match self {
            MessageView::Heartbeat(h) => h.term,
            MessageView::Candidacy(c) => c.term,
            MessageView::Vote(v) => v.term,
        }
    }

    /// The node that sent the message.
    pub open spec fn sender(self) -> IdView {
        match self {
            MessageView::Heartbeat(h) => h.leader_id,
            MessageView::Candidacy(c) => c.candidate_id,
            MessageView::Vote(v) => v.voter_id,
        }
    }
}

/// Copies a list of names.
pub fn clone_ids(ids: &Vec<Id>) -> (r: Vec<Id>)
    ensures
        r@ == ids@,
{
    let r = ids.clone();
    assert(r@ =~= ids@);
    r
}

impl Heartbeat {
    pub fn duplicate(&self) -> (r: Heartbeat)
        ensures
            r@ == self@,
    {
        Heartbeat { leader_id: self.leader_id.clone(), term: self.term, nodes: clone_ids(&self.nodes) }
    }
}

impl Candidacy {
    pub fn duplicate(&self) -> (r: Candidacy)
        ensures
            r@ == self@,
    {
        Candidacy { candidate_id: self.candidate_id.clone(), term: self.term }
    }
}

impl Vote {
    pub fn duplicate(&self) -> (r: Vote)
        ensures
            r@ == self@,
    {
        Vote { voter_id: self.voter_id.clone(), term: self.term, candidate: self.candidate.clone() }
    }
}

impl Message {
    /// A copy of the message, as sent to one more recipient.
    pub fn duplicate(&self) -> (r: Message)
        ensures
            r@ == self@,
    {
        match self {
            Message::Heartbeat(h) => Message::Heartbeat(h.duplicate()),
            Message::Candidacy(c) => Message::Candidacy(c.duplicate()),
            Message::Vote(v) => Message::Vote(v.duplicate()),
        }
    }
}

impl From<Heartbeat> for Message {
    fn from(heartbeat: Heartbeat) -> (m: Message) {
        Message::Heartbeat(heartbeat)
    }
}

impl FromSpecImpl<Heartbeat> for Message {
    open spec fn obeys_from_spec() -> bool {
        true
    }

    open spec fn from_spec(heartbeat: Heartbeat) -> Message {
        Message::Heartbeat(heartbeat)
    }
}

impl From<Candidacy> for Message {
    fn from(candidacy: Candidacy) -> (m: Message) {
        Message::Candidacy(candidacy)
    }
}

impl FromSpecImpl<Candidacy> for Message {
    open spec fn obeys_from_spec() -> bool {
        true
    }

    open spec fn from_spec(candidacy: Candidacy) -> Message {
        Message::Candidacy(candidacy)
    }
}

impl From<Vote> for Message {
    fn from(vote: Vote) -> (m: Message) {
        Message::Vote(vote)
    }
}

impl FromSpecImpl<Vote> for Message {
    open spec fn obeys_from_spec() -> bool {
        true
    }

    open spec fn from_spec(vote: Vote) -> Message {
        Message::Vote(vote)
    }
}

} // verus!

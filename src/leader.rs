use vstd::prelude::*;
use crate::command::{Command, CommandView, ParseError, command_of};
use crate::frame::Frame;
use crate::replicator::{Node, NodeID, Replicator, ReplicationState, ReplicatorView};
use crate::tracker::{Tracker, TrackerError, read_answer};

verus! {

/// The role of a node.
#[derive(Debug, PartialEq, Eq, Structural, Clone, Copy)]
pub enum State {
    Follower,
    Candidate,
    Leader,
}

/// Why a client request failed.
#[derive(Debug, PartialEq, Eq, Structural, Clone, Copy)]
pub enum LeaderError {
    /// The node no longer holds the leader role.
    NotLeader,
    /// The request does not hold a command.
    Parse(ParseError),
    /// The log could not serve the command.
    Tracker(TrackerError),
}

/// What a node knows of itself and of the cluster.
#[derive(Debug)]
pub struct Raft {
    pub id: NodeID,
    pub current_term: u64,
    pub current_leader: Option<NodeID>,
    pub state: State,
    pub last_log_index: u64,
    pub last_log_term: u64,
    pub nodes: Vec<Node>,
}

/// The leader role of a node, which holds the node's state while it lasts.
#[derive(Debug)]
pub struct Leader {
    raft: Raft,
}

impl Leader {
    /// The node's state.
    pub closed spec fn spec_raft(&self) -> Raft {
        self.raft
    }

    /// Takes the leader role over `raft`, with one replicator for each peer,
    /// each seeded with the current term and the index after the last entry.
    pub fn new(raft: Raft) -> (r: (Leader, Vec<Replicator>))
        requires
            raft.last_log_index < u64::MAX,
        ensures
            r.0.spec_raft() == raft,
            r.1@.len() == raft.nodes@.len(),
            forall|i: int|
                0 <= i < r.1@.len() ==> {
                    &&& #[trigger] r.1@[i]@ == (ReplicatorView {
                        term: raft.current_term,
                        match_index: 0,
                        next_index: (raft.last_log_index + 1) as u64,
                        state: ReplicationState::UpToDate,
                    })
                    &&& r.1@[i].spec_node().id == raft.nodes@[i].id
                    &&& r.1@[i].spec_node().addr@ == raft.nodes@[i].addr@
                    &&& r.1@[i].spec_id() == raft.id
                },
    {
        let mut replicators: Vec<Replicator> = Vec::new();
        let mut i: usize = 0;
        while i < raft.nodes.len()
            invariant
                i <= raft.nodes@.len(),
                raft.last_log_index < u64::MAX,
                replicators@.len() == i,
                forall|j: int|
                    0 <= j < i ==> {
                        &&& #[trigger] replicators@[j]@ == (ReplicatorView {
                            term: raft.current_term,
                            match_index: 0,
                            next_index: (raft.last_log_index + 1) as u64,
                            state: ReplicationState::UpToDate,
                        })
                        &&& replicators@[j].spec_node().id == raft.nodes@[j].id
                        &&& replicators@[j].spec_node().addr@ == raft.nodes@[j].addr@
                        &&& replicators@[j].spec_id() == raft.id
                    },
            decreases raft.nodes@.len() - i,
        {
            let node = raft.nodes[i].copy();
            let replicator = Replicator::new(node, raft.last_log_index + 1, raft.current_term, raft.id);
            replicators.push(replicator);
            i = i + 1;
        }
        (Leader { raft }, replicators)
    }

    /// Whether the node still holds the leader role.
    pub fn is_leader(&self) -> (r: bool)
        ensures
            r == (self.spec_raft().state == State::Leader),
    {
        self.raft.state == State::Leader
    }

    /// The node's state.
    pub fn raft(&self) -> (r: &Raft)
        ensures
            *r == self.spec_raft(),
    {
        &self.raft
    }

    /// Changes the node's role.
    pub fn set_state(&mut self, state: State)
        ensures
            final(self).spec_raft() == (Raft { state, ..old(self).spec_raft() }),
    {
        self.raft.state = state;
    }

    /// Serves a client read, while the node is leader: the answer of the log to the command in `body`.
    pub fn handle_read(&self, tracker: &Tracker, body: Frame) -> (r: Result<Frame, LeaderError>)
        ensures
            self.spec_raft().state != State::Leader ==> r == Err::<Frame, LeaderError>(LeaderError::NotLeader),
            self.spec_raft().state == State::Leader ==> match command_of(body) {
                Err(e) => r == Err::<Frame, LeaderError>(LeaderError::Parse(e)),
                Ok(CommandView::Get { key }) => r is Ok && read_answer(tracker@, key, r->Ok_0),
                Ok(CommandView::SetCmd { .. }) => r == Err::<Frame, LeaderError>(
                    LeaderError::Tracker(TrackerError::WrongKind),
                ),
            },
    {
        if !self.is_leader() {
            return Err(LeaderError::NotLeader);
        }
        let cmd = match Command::from_frame(body) {
            Ok(c) => c,
            Err(e) => return Err(LeaderError::Parse(e)),
        };
        match tracker.propagate(&cmd) {
            Ok(f) => Ok(f),
            Err(e) => Err(LeaderError::Tracker(e)),
        }
    }

    /// Serves a client write, while the node is leader: appends the command in `body` to the log under the
    /// term of the last entry and records its index as the last one.
    pub fn handle_write(&mut self, tracker: &mut Tracker, body: Frame) -> (r: Result<u64, LeaderError>)
        ensures
            old(self).spec_raft().state != State::Leader ==> r == Err::<u64, LeaderError>(LeaderError::NotLeader)
                && final(tracker)@ == old(tracker)@ && final(self).spec_raft() == old(self).spec_raft(),
            old(self).spec_raft().state == State::Leader ==> match command_of(body) {
                Err(e) => r == Err::<u64, LeaderError>(LeaderError::Parse(e)) && final(tracker)@ == old(
                    tracker,
                )@ && final(self).spec_raft() == old(self).spec_raft(),
                Ok(CommandView::Get { .. }) => r == Err::<u64, LeaderError>(
                    LeaderError::Tracker(TrackerError::WrongKind),
                ) && final(tracker)@ == old(tracker)@ && final(self).spec_raft() == old(self).spec_raft(),
                Ok(c) => if old(tracker)@.len() >= u64::MAX {
                    r == Err::<u64, LeaderError>(LeaderError::Tracker(TrackerError::LogFull)) && final(tracker)@
                        == old(tracker)@ && final(self).spec_raft() == old(self).spec_raft()
                } else {
                    &&& final(tracker)@ == old(tracker)@.push((old(self).spec_raft().last_log_term, c))
                    &&& r == Ok::<u64, LeaderError>(final(tracker)@.len() as u64)
                    &&& final(self).spec_raft() == (Raft {
                        last_log_index: final(tracker)@.len() as u64,
                        ..old(self).spec_raft()
                    })
                },
            },
    {
        if !self.is_leader() {
            return Err(LeaderError::NotLeader);
        }
        let cmd = match Command::from_frame(body) {
            Ok(c) => c,
            Err(e) => return Err(LeaderError::Parse(e)),
        };
        match tracker.append_log(cmd, self.raft.last_log_term) {
            Ok(index) => {
                self.raft.last_log_index = index;
                Ok(index)
            },
            Err(e) => Err(LeaderError::Tracker(e)),
        }
    }
}

} // verus!

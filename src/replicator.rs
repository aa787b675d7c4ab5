use vstd::prelude::*;
use crate::command::command_bytes;
use crate::tracker::{Tracker, TrackerError, term_at};

verus! {

/// The identifier of a node of the cluster.
pub type NodeID = u64;

/// A peer: its identifier and the address at which it serves requests.
#[derive(Debug)]
pub struct Node {
    pub id: NodeID,
    pub addr: String,
}

impl Node {
    /// A copy of this node.
    pub fn copy(&self) -> (r: Node)
        ensures
            r.id == self.id,
            r.addr@ == self.addr@,
    {
        Node { id: self.id, addr: self.addr.clone() }
    }
}

/// The phase in which a replicator is.
#[derive(Debug, PartialEq, Eq, Structural, Clone, Copy)]
pub enum ReplicationState {
    /// Caught up; it sends heartbeats and entries on request.
    UpToDate,
    /// The follower rejected an append; it probes for the last matching index.
    Lagged,
    /// The follower needs entries that the log no longer holds.
    NeedSnapshot,
    /// It sends the entries that the follower lacks, one at a time.
    Updating,
}

/// The messages between the leader and its replicators.
#[derive(Debug, PartialEq, Eq, Structural, Clone, Copy)]
pub enum ReplicatorMsg {
    /// From the leader: the entry at `index` is ready.
    ReplicateReq { index: u64 },
    /// To the leader: the progress of the replicator of node `id`.
    ReplicateResp { next_index: u64, match_index: u64, id: NodeID },
}

/// One log entry on the wire: the encoded frame of its command.
#[derive(Debug)]
pub struct Entry {
    pub payload: Vec<u8>,
}

/// The request that replicates entries to a follower (none for a heartbeat).
#[derive(Debug)]
pub struct AppendEntriesRequest {
    pub term: u64,
    pub leader_id: NodeID,
    pub prev_log_index: u64,
    pub prev_log_term: u64,
    pub entries: Vec<Entry>,
}

/// What came of sending an append request.
#[derive(Debug, PartialEq, Eq, Structural, Clone, Copy)]
pub enum Outcome {
    /// The follower answered with success.
    Accepted,
    /// The follower answered that its log does not match.
    Rejected,
    /// No answer came: the call itself failed.
    TransportFailed,
}

/// The progress of a replicator, as the logic sees it.
pub ghost struct ReplicatorView {
    pub term: u64,
    pub match_index: u64,
    pub next_index: u64,
    pub state: ReplicationState,
}

/// What the replication of one follower keeps: the highest index known to be on
/// the follower stays below the next index to send.
pub open spec fn progress_wf(v: ReplicatorView) -> bool {
    v.match_index < v.next_index
}

/// After a heartbeat: a rejection sends the replicator to probe one index lower
/// (never below the matched index); anything else changes nothing.
pub open spec fn after_beat(v: ReplicatorView, o: Outcome) -> ReplicatorView {
    if o == Outcome::Rejected {
        ReplicatorView {
            state: ReplicationState::Lagged,
            next_index: if v.next_index > v.match_index + 1 {
                (v.next_index - 1) as u64
            } else {
                v.next_index
            },
            ..v
        }
    } else {
        v
    }
}

/// Whether a lagging replicator has to probe before it can update: the index
/// before `next_index` is not yet known to match.
pub open spec fn needs_probe(v: ReplicatorView) -> bool {
    v.next_index - 1 != v.match_index
}

/// A lagging replicator that needs no probe starts updating.
pub open spec fn after_lag_check(v: ReplicatorView) -> ReplicatorView {
    if needs_probe(v) {
        v
    } else {
        ReplicatorView { state: ReplicationState::Updating, ..v }
    }
}

/// After a probe: success starts updating, a rejection probes one index lower,
/// a failed call changes nothing.
pub open spec fn after_probe(v: ReplicatorView, o: Outcome) -> ReplicatorView {
    match o {
        Outcome::Accepted => ReplicatorView { state: ReplicationState::Updating, ..v },
        Outcome::Rejected => ReplicatorView { next_index: (v.next_index - 1) as u64, ..v },
        Outcome::TransportFailed => v,
    }
}

/// An updating replicator whose next index lies beyond the log is caught up.
pub open spec fn after_update_check(v: ReplicatorView, last_log_index: u64) -> ReplicatorView {
    if v.next_index > last_log_index {
        ReplicatorView { state: ReplicationState::UpToDate, ..v }
    } else {
        v
    }
}

/// After sending one entry: success moves both indices up by one, a rejection
/// sends the replicator to probe, a failed call changes nothing.
pub open spec fn after_entry(v: ReplicatorView, o: Outcome) -> ReplicatorView {
    match o {
        Outcome::Accepted => ReplicatorView {
            match_index: v.next_index,
            next_index: (v.next_index + 1) as u64,
            ..v
        },
        Outcome::Rejected => ReplicatorView { state: ReplicationState::Lagged, ..v },
        Outcome::TransportFailed => v,
    }
}

/// The replicator of one follower.
#[derive(Debug)]
pub struct Replicator {
    term: u64,
    match_index: u64,
    next_index: u64,
    node: Node,
    id: NodeID,
    state: ReplicationState,
}

impl View for Replicator {
    type V = ReplicatorView;

    closed spec fn view(&self) -> ReplicatorView {
        ReplicatorView {
            term: self.term,
            match_index: self.match_index,
            next_index: self.next_index,
            state: self.state,
        }
    }
}

impl Replicator {
    /// The node that this replicator serves.
    pub closed spec fn spec_node(&self) -> Node {
        self.node
    }

    /// The leader for which it replicates.
    pub closed spec fn spec_id(&self) -> NodeID {
        self.id
    }

    /// A replicator for `node`, under `term`, that starts at `next_index` with
    /// nothing known to match.
    pub fn new(node: Node, next_index: u64, term: u64, id: NodeID) -> (r: Replicator)
        requires
            next_index >= 1,
        ensures
            r@ == (ReplicatorView { term, match_index: 0, next_index, state: ReplicationState::UpToDate }),
            r.spec_node() == node,
            r.spec_id() == id,
            progress_wf(r@),
    {
        Replicator { node, next_index, term, id, match_index: 0, state: ReplicationState::UpToDate }
    }

    /// The phase.
    pub fn state(&self) -> (r: ReplicationState)
        ensures
            r == self@.state,
    {
        self.state
    }

    /// The highest index known to be on the follower.
    pub fn match_index(&self) -> (r: u64)
        ensures
            r == self@.match_index,
    {
        self.match_index
    }

    /// The next index to send.
    pub fn next_index(&self) -> (r: u64)
        ensures
            r == self@.next_index,
    {
        self.next_index
    }

    /// The term under which it replicates.
    pub fn term(&self) -> (r: u64)
        ensures
            r == self@.term,
    {
        self.term
    }

    /// The node that it serves.
    pub fn get_node(&self) -> (r: Node)
        ensures
            r.id == self.spec_node().id,
            r.addr@ == self.spec_node().addr@,
    {
        self.node.copy()
    }

    /// An append request that carries `entries` after the entry that precedes
    /// `next_index`.
    fn request_with(&self, tracker: &Tracker, entries: Vec<Entry>) -> (r: Result<AppendEntriesRequest, TrackerError>)
        requires
            progress_wf(self@),
        ensures
            self@.next_index - 1 <= tracker@.len() ==> r is Ok
                && r->Ok_0.term == self@.term
                && r->Ok_0.leader_id == self.spec_id()
                && r->Ok_0.prev_log_index == self@.next_index - 1
                && r->Ok_0.prev_log_term == term_at(tracker@, self@.next_index - 1)
                && r->Ok_0.entries@ == entries@,
            self@.next_index - 1 > tracker@.len() ==> r == Err::<AppendEntriesRequest, TrackerError>(
                TrackerError::IndexOutOfRange,
            ),
    {
        let prev_log_index = self.next_index - 1;
        let prev_log_term = tracker.get_log_term(prev_log_index)?;
        Ok(AppendEntriesRequest { term: self.term, leader_id: self.id, prev_log_index, prev_log_term, entries })
    }

    /// The heartbeat (or probe) to send: no entries, after the entry that
    /// precedes `next_index`.
    pub fn beat_request(&self, tracker: &Tracker) -> (r: Result<AppendEntriesRequest, TrackerError>)
        requires
            progress_wf(self@),
        ensures
            self@.next_index - 1 <= tracker@.len() ==> r is Ok
                && r->Ok_0.term == self@.term
                && r->Ok_0.leader_id == self.spec_id()
                && r->Ok_0.prev_log_index == self@.next_index - 1
                && r->Ok_0.prev_log_term == term_at(tracker@, self@.next_index - 1)
                && r->Ok_0.entries@.len() == 0,
            self@.next_index - 1 > tracker@.len() ==> r == Err::<AppendEntriesRequest, TrackerError>(
                TrackerError::IndexOutOfRange,
            ),
    {
        self.request_with(tracker, Vec::new())
    }

    /// The request that carries the entry at `index`, encoded as a frame, after
    /// the entry that precedes `next_index`.
    pub fn creat_append_request(&self, tracker: &Tracker, index: u64) -> (r: Result<AppendEntriesRequest, TrackerError>)
        requires
            progress_wf(self@),
        ensures
            1 <= index <= tracker@.len() && self@.next_index - 1 <= tracker@.len() ==> r is Ok
                && r->Ok_0.term == self@.term
                && r->Ok_0.leader_id == self.spec_id()
                && r->Ok_0.prev_log_index == self@.next_index - 1
                && r->Ok_0.prev_log_term == term_at(tracker@, self@.next_index - 1)
                && r->Ok_0.entries@.len() == 1
                && r->Ok_0.entries@[0].payload@ == command_bytes(tracker@[index - 1].1),
            !(1 <= index <= tracker@.len() && self@.next_index - 1 <= tracker@.len()) ==> r
                == Err::<AppendEntriesRequest, TrackerError>(TrackerError::IndexOutOfRange),
    {
        let entity = tracker.get_log_entity(index)?;
        let payload = entity.to_bytes();
        let entries = vec![Entry { payload }];
        self.request_with(tracker, entries)
    }

    /// Takes in what came of a heartbeat.
    pub fn on_beat_response(&mut self, outcome: Outcome)
        requires
            progress_wf(old(self)@),
        ensures
            final(self)@ == after_beat(old(self)@, outcome),
            progress_wf(final(self)@),
            final(self).spec_node() == old(self).spec_node(),
            final(self).spec_id() == old(self).spec_id(),
    {
        if outcome == Outcome::Rejected {
            self.state = ReplicationState::Lagged;
            if self.next_index > self.match_index + 1 {
                self.next_index = self.next_index - 1;
            }
        }
    }

    /// In the lagging phase: starts updating when the index before `next_index`
    /// is known to match, and returns whether a probe is needed.
    pub fn lag_check(&mut self) -> (probe: bool)
        requires
            progress_wf(old(self)@),
        ensures
            probe == needs_probe(old(self)@),
            final(self)@ == after_lag_check(old(self)@),
            progress_wf(final(self)@),
            final(self).spec_node() == old(self).spec_node(),
            final(self).spec_id() == old(self).spec_id(),
    {
        if self.next_index - 1 == self.match_index {
            self.state = ReplicationState::Updating;
            false
        } else {
            true
        }
    }

    /// Takes in what came of a probe, sent when one was needed.
    pub fn on_probe_response(&mut self, outcome: Outcome)
        requires
            progress_wf(old(self)@),
            needs_probe(old(self)@),
        ensures
            final(self)@ == after_probe(old(self)@, outcome),
            progress_wf(final(self)@),
            final(self).spec_node() == old(self).spec_node(),
            final(self).spec_id() == old(self).spec_id(),
    {
        match outcome {
            Outcome::Accepted => {
                self.state = ReplicationState::Updating;
            },
            Outcome::Rejected => {
                self.next_index = self.next_index - 1;
            },
            Outcome::TransportFailed => {},
        }
    }

    /// In the updating phase: the index of the entry to send next, or `None`
    /// (and the replicator is caught up) when the log holds no further entry.
    pub fn update_check(&mut self, last_log_index: u64) -> (r: Option<u64>)
        requires
            progress_wf(old(self)@),
        ensures
            final(self)@ == after_update_check(old(self)@, last_log_index),
            old(self)@.next_index > last_log_index ==> r is None,
            old(self)@.next_index <= last_log_index ==> r == Some(old(self)@.next_index),
            progress_wf(final(self)@),
            final(self).spec_node() == old(self).spec_node(),
            final(self).spec_id() == old(self).spec_id(),
    {
        if self.next_index > last_log_index {
            self.state = ReplicationState::UpToDate;
            None
        } else {
            Some(self.next_index)
        }
    }

    /// Takes in what came of sending the entry at `next_index`.
    pub fn on_entry_response(&mut self, outcome: Outcome)
        requires
            progress_wf(old(self)@),
            old(self)@.next_index < u64::MAX,
        ensures
            final(self)@ == after_entry(old(self)@, outcome),
            progress_wf(final(self)@),
            final(self).spec_node() == old(self).spec_node(),
            final(self).spec_id() == old(self).spec_id(),
    {
        match outcome {
            Outcome::Accepted => {
                self.match_index = self.next_index;
                self.next_index = self.next_index + 1;
            },
            Outcome::Rejected => {
                self.state = ReplicationState::Lagged;
            },
            Outcome::TransportFailed => {},
        }
    }

    /// While caught up: takes in what came of sending an entry that the leader
    /// asked for, and returns the progress to report, if the follower answered.
    pub fn handle_replication_msg(&mut self, outcome: Outcome) -> (r: Option<ReplicatorMsg>)
        requires
            progress_wf(old(self)@),
            old(self)@.next_index < u64::MAX,
        ensures
            final(self)@ == after_entry(old(self)@, outcome),
            progress_wf(final(self)@),
            outcome == Outcome::TransportFailed ==> r is None,
            outcome != Outcome::TransportFailed ==> r == Some(
                ReplicatorMsg::ReplicateResp {
                    next_index: final(self)@.next_index,
                    match_index: final(self)@.match_index,
                    id: old(self).spec_id(),
                },
            ),
            final(self).spec_node() == old(self).spec_node(),
            final(self).spec_id() == old(self).spec_id(),
    {
        if outcome == Outcome::TransportFailed {
            return None;
        }
        self.on_entry_response(outcome);
        Some(ReplicatorMsg::ReplicateResp { match_index: self.match_index, next_index: self.next_index, id: self.id })
    }
}

/// The indices of the entries that the updating phase sends, from `v`, when the
/// follower's answers come as `outs`, until the phase ends or the answers run out.
pub open spec fn updating_sends(v: ReplicatorView, outs: Seq<Outcome>, last_log_index: u64) -> Seq<u64>
    decreases outs.len(),
{
    if outs.len() == 0 || v.state != ReplicationState::Updating || v.next_index > last_log_index {
        Seq::empty()
    } else {
        seq![v.next_index] + updating_sends(after_entry(v, outs[0]), outs.drop_first(), last_log_index)
    }
}

/// The state that a run of heartbeats, answered as `outs`, leaves.
pub open spec fn after_beats(v: ReplicatorView, outs: Seq<Outcome>) -> ReplicatorView
    decreases outs.len(),
{
    if outs.len() == 0 {
        v
    } else {
        after_beats(after_beat(v, outs[0]), outs.drop_first())
    }
}

/// The state that the lagging phase reaches from `v` when its probes are
/// answered as `outs`: it stops once it starts updating or the answers run out.
pub open spec fn lagged_run(v: ReplicatorView, outs: Seq<Outcome>) -> ReplicatorView
    decreases outs.len(),
{
    if !needs_probe(v) {
        after_lag_check(v)
    } else if outs.len() == 0 {
        v
    } else {
        let w = after_probe(v, outs[0]);
        if w.state == ReplicationState::Updating {
            w
        } else {
            lagged_run(w, outs.drop_first())
        }
    }
}

/// One accepted entry moves the matched index to the old next index and the next
/// index one further.
pub proof fn lemma_accepted_entry_advances(v: ReplicatorView)
    requires
        progress_wf(v),
        v.next_index < u64::MAX,
    ensures
        after_entry(v, Outcome::Accepted).match_index == v.next_index,
        after_entry(v, Outcome::Accepted).next_index == v.next_index + 1,
        progress_wf(after_entry(v, Outcome::Accepted)),
{
}

/// The updating phase sends each index once the previous one was accepted: the
/// next index sent is the same after a failed call and one more after an
/// acceptance, and when every answer is an acceptance the indices sent are
/// consecutive from `next_index`.
pub proof fn lemma_updating_sends_consecutive(v: ReplicatorView, outs: Seq<Outcome>, last_log_index: u64)
    requires
        progress_wf(v),
        last_log_index < u64::MAX,
    ensures
        updating_sends(v, outs, last_log_index).len() <= outs.len(),
        forall|k: int|
            0 <= k < updating_sends(v, outs, last_log_index).len() - 1 ==> {
                &&& #[trigger] outs[k] == Outcome::Accepted ==> updating_sends(v, outs, last_log_index)[k + 1]
                    == updating_sends(v, outs, last_log_index)[k] + 1
                &&& outs[k] == Outcome::TransportFailed ==> updating_sends(v, outs, last_log_index)[k + 1]
                    == updating_sends(v, outs, last_log_index)[k]
                &&& outs[k] != Outcome::Rejected
            },
        (forall|k: int| 0 <= k < outs.len() ==> outs[k] == Outcome::Accepted) ==> forall|k: int|
            0 <= k < updating_sends(v, outs, last_log_index).len() ==> #[trigger] updating_sends(v, outs, last_log_index)[k]
                == v.next_index + k,
        forall|k: int|
            0 <= k < updating_sends(v, outs, last_log_index).len() ==> v.next_index <= #[trigger] updating_sends(
                v,
                outs,
                last_log_index,
            )[k] <= last_log_index,
    decreases outs.len(),
{
    let s = updating_sends(v, outs, last_log_index);
    if outs.len() == 0 || v.state != ReplicationState::Updating || v.next_index > last_log_index {
    } else {
        let w = after_entry(v, outs[0]);
        let rest = outs.drop_first();
        lemma_updating_sends_consecutive(w, rest, last_log_index);
        let t = updating_sends(w, rest, last_log_index);
        assert(s == seq![v.next_index] + t);
        assert forall|k: int| 0 <= k < s.len() - 1 implies {
            &&& #[trigger] outs[k] == Outcome::Accepted ==> s[k + 1] == s[k] + 1
            &&& outs[k] == Outcome::TransportFailed ==> s[k + 1] == s[k]
            &&& outs[k] != Outcome::Rejected
        } by {
            if k > 0 {
                assert(rest[k - 1] == outs[k]);
            } else {
                if outs[0] == Outcome::Rejected {
                    assert(t.len() == 0);
                }
            }
        }
        if forall|k: int| 0 <= k < outs.len() ==> outs[k] == Outcome::Accepted {
            assert(forall|k: int| 0 <= k < rest.len() ==> rest[k] == outs[k + 1]);
        }
    }
}

/// Heartbeats that are not rejected change neither index nor the phase.
pub proof fn lemma_heartbeats_idempotent(v: ReplicatorView, outs: Seq<Outcome>)
    requires
        forall|k: int| 0 <= k < outs.len() ==> outs[k] != Outcome::Rejected,
    ensures
        after_beats(v, outs) == v,
    decreases outs.len(),
{
    if outs.len() > 0 {
        assert(forall|k: int| 0 <= k < outs.drop_first().len() ==> outs.drop_first()[k] == outs[k + 1]);
        lemma_heartbeats_idempotent(v, outs.drop_first());
    }
}

/// In the lagging phase every rejected probe lowers `next_index`, and once as
/// many probes as there are indices between the matched one and `next_index`
/// have been answered (none by a failed call), the replicator is updating.
pub proof fn lemma_lagged_terminates(v: ReplicatorView, outs: Seq<Outcome>)
    requires
        progress_wf(v),
        v.state == ReplicationState::Lagged,
        forall|k: int| 0 <= k < outs.len() ==> outs[k] != Outcome::TransportFailed,
        outs.len() >= v.next_index - v.match_index - 1,
    ensures
        needs_probe(v) ==> after_probe(v, Outcome::Rejected).next_index < v.next_index,
        needs_probe(v) ==> progress_wf(after_probe(v, Outcome::Rejected)),
        lagged_run(v, outs).state == ReplicationState::Updating,
        progress_wf(lagged_run(v, outs)),
        lagged_run(v, outs).match_index == v.match_index,
        lagged_run(v, outs).next_index <= v.next_index,
    decreases outs.len(),
{
    if needs_probe(v) {
        let w = after_probe(v, outs[0]);
        if w.state != ReplicationState::Updating {
            assert(forall|k: int| 0 <= k < outs.drop_first().len() ==> outs.drop_first()[k] == outs[k + 1]);
            lemma_lagged_terminates(w, outs.drop_first());
        }
    }
}

} // verus!

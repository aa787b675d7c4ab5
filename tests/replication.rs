use gandalf_consensus::command::{Command, SetCmd};
use gandalf_consensus::replicator::{Node, Outcome, ReplicationState, Replicator, ReplicatorMsg};
use gandalf_consensus::tracker::{Tracker, TrackerError};

fn node(id: u64) -> Node {
    Node { id, addr: format!("127.0.0.1:{}", 9876 + id) }
}

fn log_of(n: u64, term: u64) -> Tracker {
    let mut t = Tracker::new();
    for i in 0..n {
        t.append_log(Command::SetCmd(SetCmd::new(format!("k{}", i), vec![i as u8])), term).unwrap();
    }
    t
}

fn at(next_index: u64, match_index_target: u64) -> Replicator {
    // Drives a fresh replicator to the given indices through accepted entries.
    let mut r = Replicator::new(node(2), next_index - match_index_target, 1, 1);
    for _ in 0..match_index_target {
        r.on_entry_response(Outcome::Accepted);
    }
    r
}

#[test]
fn new_replicator() {
    let r = Replicator::new(node(2), 5, 3, 1);
    assert_eq!(r.next_index(), 5);
    assert_eq!(r.match_index(), 0);
    assert_eq!(r.term(), 3);
    assert_eq!(r.state(), ReplicationState::UpToDate);
    assert_eq!(r.get_node().id, 2);
    assert_eq!(r.get_node().addr, "127.0.0.1:9878");
}

#[test]
fn accepted_entry_advances_by_one() {
    let mut r = Replicator::new(node(2), 4, 1, 1);
    r.on_entry_response(Outcome::Accepted);
    assert_eq!(r.match_index(), 4);
    assert_eq!(r.next_index(), 5);
}

#[test]
fn rejected_entry_goes_to_lagged() {
    let mut r = Replicator::new(node(2), 4, 1, 1);
    r.on_entry_response(Outcome::Rejected);
    assert_eq!(r.state(), ReplicationState::Lagged);
    assert_eq!(r.next_index(), 4);
    assert_eq!(r.match_index(), 0);
}

#[test]
fn transport_failure_changes_nothing() {
    let mut r = Replicator::new(node(2), 4, 1, 1);
    r.on_entry_response(Outcome::TransportFailed);
    r.on_beat_response(Outcome::TransportFailed);
    assert_eq!((r.match_index(), r.next_index(), r.state()), (0, 4, ReplicationState::UpToDate));
}

#[test]
fn heartbeats_do_not_move_indices() {
    let mut r = Replicator::new(node(2), 7, 1, 1);
    for _ in 0..10 {
        r.on_beat_response(Outcome::Accepted);
    }
    assert_eq!((r.match_index(), r.next_index(), r.state()), (0, 7, ReplicationState::UpToDate));
}

#[test]
fn rejected_heartbeat_lags_one_lower() {
    let mut r = Replicator::new(node(2), 7, 1, 1);
    r.on_beat_response(Outcome::Rejected);
    assert_eq!(r.state(), ReplicationState::Lagged);
    assert_eq!(r.next_index(), 6);
}

#[test]
fn rejected_heartbeat_never_passes_matched_index() {
    let mut r = Replicator::new(node(2), 1, 1, 1);
    r.on_beat_response(Outcome::Rejected);
    assert_eq!(r.next_index(), 1);
    assert_eq!(r.state(), ReplicationState::Lagged);
}

#[test]
fn lagged_probes_down_then_updates() {
    let mut r = Replicator::new(node(2), 6, 1, 1);
    r.on_beat_response(Outcome::Rejected);
    let mut seen = vec![];
    while r.state() == ReplicationState::Lagged {
        if r.lag_check() {
            seen.push(r.next_index());
            r.on_probe_response(Outcome::Rejected);
        }
    }
    assert_eq!(seen, vec![5, 4, 3, 2]);
    assert_eq!(r.state(), ReplicationState::Updating);
    assert_eq!(r.next_index(), 1);
}

#[test]
fn lagged_probe_accepted_updates() {
    let mut r = Replicator::new(node(2), 6, 1, 1);
    r.on_beat_response(Outcome::Rejected);
    assert!(r.lag_check());
    r.on_probe_response(Outcome::Accepted);
    assert_eq!(r.state(), ReplicationState::Updating);
    assert_eq!(r.next_index(), 5);
}

#[test]
fn updating_sends_consecutive_indices() {
    let t = log_of(5, 1);
    let mut r = Replicator::new(node(2), 2, 1, 1);
    r.on_entry_response(Outcome::Rejected);
    assert!(r.lag_check());
    r.on_probe_response(Outcome::Accepted);
    let mut sent = vec![];
    while let Some(i) = r.update_check(t.get_last_log_index()) {
        sent.push(i);
        r.on_entry_response(Outcome::Accepted);
    }
    assert_eq!(sent, vec![2, 3, 4, 5]);
    assert_eq!(r.state(), ReplicationState::UpToDate);
    assert_eq!((r.match_index(), r.next_index()), (5, 6));
}

#[test]
fn beat_request_fields() {
    let t = log_of(3, 2);
    let r = Replicator::new(node(2), 3, 5, 1);
    let req = r.beat_request(&t).unwrap();
    assert_eq!(req.term, 5);
    assert_eq!(req.leader_id, 1);
    assert_eq!(req.prev_log_index, 2);
    assert_eq!(req.prev_log_term, 2);
    assert!(req.entries.is_empty());
    let first = Replicator::new(node(2), 1, 5, 1).beat_request(&t).unwrap();
    assert_eq!((first.prev_log_index, first.prev_log_term), (0, 0));
}

#[test]
fn beat_request_beyond_log() {
    let t = log_of(1, 1);
    let r = Replicator::new(node(2), 3, 1, 1);
    assert_eq!(r.beat_request(&t).unwrap_err(), TrackerError::IndexOutOfRange);
}

#[test]
fn append_request_carries_encoded_entry() {
    let t = log_of(2, 4);
    let r = Replicator::new(node(2), 2, 4, 9);
    let req = r.creat_append_request(&t, 2).unwrap();
    assert_eq!(req.prev_log_index, 1);
    assert_eq!(req.prev_log_term, 4);
    assert_eq!(req.leader_id, 9);
    assert_eq!(req.entries.len(), 1);
    assert_eq!(req.entries[0].payload, b"*3\r\n$3\r\nset\r\n$2\r\nk1\r\n$1\r\n\x01\r\n".to_vec());
    assert_eq!(r.creat_append_request(&t, 3).unwrap_err(), TrackerError::IndexOutOfRange);
    assert_eq!(r.creat_append_request(&t, 0).unwrap_err(), TrackerError::IndexOutOfRange);
}

#[test]
fn replication_msg_reports_progress() {
    let mut r = at(4, 0);
    let msg = r.handle_replication_msg(Outcome::Accepted);
    assert_eq!(msg, Some(ReplicatorMsg::ReplicateResp { next_index: 5, match_index: 4, id: 1 }));
    let msg = r.handle_replication_msg(Outcome::TransportFailed);
    assert_eq!(msg, None);
    let msg = r.handle_replication_msg(Outcome::Rejected);
    assert_eq!(msg, Some(ReplicatorMsg::ReplicateResp { next_index: 5, match_index: 4, id: 1 }));
    assert_eq!(r.state(), ReplicationState::Lagged);
}

use gandalf_consensus::command::{Command, Get, SetCmd};
use gandalf_consensus::frame::Frame;
use gandalf_consensus::tracker::{Tracker, TrackerError};

fn set(k: &str, v: &str) -> Command {
    Command::SetCmd(SetCmd::new(k.to_string(), v.as_bytes().to_vec()))
}

fn get(k: &str) -> Command {
    Command::Get(Get::new(k.to_string()))
}

#[test]
fn empty_log() {
    let t = Tracker::new();
    assert_eq!(t.get_last_log_index(), 0);
    assert_eq!(t.get_log_term(0), Ok(0));
    assert_eq!(t.get_log_term(1), Err(TrackerError::IndexOutOfRange));
    assert_eq!(t.get_log_entity(0).unwrap_err(), TrackerError::IndexOutOfRange);
}

#[test]
fn append_assigns_consecutive_indices() {
    let mut t = Tracker::new();
    assert_eq!(t.append_log(set("a", "1"), 3), Ok(1));
    assert_eq!(t.append_log(set("b", "2"), 4), Ok(2));
    assert_eq!(t.get_last_log_index(), 2);
    assert_eq!(t.get_log_term(1), Ok(3));
    assert_eq!(t.get_log_term(2), Ok(4));
    assert_eq!(t.get_log_term(3), Err(TrackerError::IndexOutOfRange));
    match t.get_log_entity(2).unwrap() {
        Command::SetCmd(s) => assert_eq!(s.key(), "b"),
        other => panic!("unexpected {:?}", other),
    }
}

#[test]
fn append_refuses_a_read() {
    let mut t = Tracker::new();
    assert_eq!(t.append_log(get("a"), 1), Err(TrackerError::WrongKind));
    assert_eq!(t.get_last_log_index(), 0);
}

#[test]
fn read_after_write() {
    let mut t = Tracker::new();
    t.append_log(set("k", "v1"), 1).unwrap();
    match t.propagate(&get("k")).unwrap() {
        Frame::Bulk(b) => assert_eq!(b, b"v1".to_vec()),
        other => panic!("unexpected {:?}", other),
    }
    t.append_log(set("k", "v2"), 1).unwrap();
    t.append_log(set("other", "x"), 1).unwrap();
    match t.propagate(&get("k")).unwrap() {
        Frame::Bulk(b) => assert_eq!(b, b"v2".to_vec()),
        other => panic!("unexpected {:?}", other),
    }
}

#[test]
fn read_of_missing_key_is_null() {
    let mut t = Tracker::new();
    t.append_log(set("a", "1"), 1).unwrap();
    assert!(matches!(t.propagate(&get("b")), Ok(Frame::Null)));
}

#[test]
fn propagate_refuses_a_write() {
    let t = Tracker::new();
    assert_eq!(t.propagate(&set("a", "1")).unwrap_err(), TrackerError::WrongKind);
}

#[test]
fn apply_commands() {
    let mut t = Tracker::new();
    match set("k", "v").apply(&mut t, 2).unwrap() {
        Frame::Simple(s) => assert_eq!(s, "OK"),
        other => panic!("unexpected {:?}", other),
    }
    assert_eq!(t.get_log_term(1), Ok(2));
    match get("k").apply(&mut t, 2).unwrap() {
        Frame::Bulk(b) => assert_eq!(b, b"v".to_vec()),
        other => panic!("unexpected {:?}", other),
    }
    assert_eq!(t.get_last_log_index(), 1);
}

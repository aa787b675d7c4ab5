use gandalf_consensus::command::{Command, Get, ParseError, Parse, SetCmd};
use gandalf_consensus::frame::Frame;

fn bulk(s: &str) -> Frame {
    Frame::Bulk(s.as_bytes().to_vec())
}

#[test]
fn get_from_frame() {
    let f = Frame::Array(vec![bulk("get"), bulk("foo")]);
    match Command::from_frame(f) {
        Ok(Command::Get(g)) => assert_eq!(g.key(), "foo"),
        other => panic!("unexpected {:?}", other),
    }
}

#[test]
fn command_name_in_any_case() {
    let f = Frame::Array(vec![Frame::Simple("GeT".to_string()), Frame::Simple("foo".to_string())]);
    match Command::from_frame(f) {
        Ok(Command::Get(g)) => assert_eq!(g.key(), "foo"),
        other => panic!("unexpected {:?}", other),
    }
    let f = Frame::Array(vec![bulk("SET"), bulk("k"), bulk("v")]);
    assert!(matches!(Command::from_frame(f), Ok(Command::SetCmd(_))));
}

#[test]
fn set_from_frame() {
    let f = Frame::Array(vec![bulk("set"), bulk("k"), Frame::Bulk(vec![0, 255, 7])]);
    match Command::from_frame(f) {
        Ok(Command::SetCmd(s)) => {
            assert_eq!(s.key(), "k");
            assert_eq!(s.value(), &vec![0u8, 255, 7]);
        },
        other => panic!("unexpected {:?}", other),
    }
}

#[test]
fn set_value_from_simple_string() {
    let f = Frame::Array(vec![bulk("set"), bulk("k"), Frame::Simple("héllo".to_string())]);
    match Command::from_frame(f) {
        Ok(Command::SetCmd(s)) => assert_eq!(s.value(), &"héllo".as_bytes().to_vec()),
        other => panic!("unexpected {:?}", other),
    }
}

#[test]
fn not_an_array() {
    assert_eq!(Command::from_frame(bulk("get")).unwrap_err(), ParseError::NotArray);
}

#[test]
fn empty_array() {
    assert_eq!(Command::from_frame(Frame::Array(vec![])).unwrap_err(), ParseError::EndOfStream);
}

#[test]
fn missing_key() {
    assert_eq!(Command::from_frame(Frame::Array(vec![bulk("get")])).unwrap_err(), ParseError::EndOfStream);
    assert_eq!(
        Command::from_frame(Frame::Array(vec![bulk("set"), bulk("k")])).unwrap_err(),
        ParseError::EndOfStream
    );
}

#[test]
fn unknown_command() {
    assert_eq!(
        Command::from_frame(Frame::Array(vec![bulk("del"), bulk("k")])).unwrap_err(),
        ParseError::UnknownCommand
    );
}

#[test]
fn extra_part() {
    assert_eq!(
        Command::from_frame(Frame::Array(vec![bulk("get"), bulk("k"), bulk("x")])).unwrap_err(),
        ParseError::ExtraData
    );
}

#[test]
fn key_not_utf8() {
    assert_eq!(
        Command::from_frame(Frame::Array(vec![bulk("get"), Frame::Bulk(vec![0xff, 0xfe])])).unwrap_err(),
        ParseError::InvalidString
    );
}

#[test]
fn key_of_wrong_kind() {
    assert_eq!(
        Command::from_frame(Frame::Array(vec![bulk("get"), Frame::Integer(3)])).unwrap_err(),
        ParseError::UnexpectedFrame
    );
    assert_eq!(
        Command::from_frame(Frame::Array(vec![Frame::Null, bulk("k")])).unwrap_err(),
        ParseError::UnexpectedFrame
    );
}

#[test]
fn get_round_trip_through_frame() {
    let f = Get::new("alpha".to_string()).into_frame();
    match Command::from_frame(f) {
        Ok(Command::Get(g)) => assert_eq!(g.key(), "alpha"),
        other => panic!("unexpected {:?}", other),
    }
}

#[test]
fn set_round_trip_through_frame() {
    let f = SetCmd::new("beta".to_string(), b"1".to_vec()).into_frame();
    match Command::from_frame(f) {
        Ok(Command::SetCmd(s)) => {
            assert_eq!(s.key(), "beta");
            assert_eq!(s.value(), &b"1".to_vec());
        },
        other => panic!("unexpected {:?}", other),
    }
}

#[test]
fn parse_cursor() {
    let mut p = Parse::new(Frame::Array(vec![bulk("a"), Frame::Simple("b".to_string())])).unwrap();
    assert!(p.finish().is_err());
    assert_eq!(p.next_string().unwrap(), "a");
    assert_eq!(p.next_bytes().unwrap(), b"b".to_vec());
    assert_eq!(p.finish(), Ok(()));
    assert_eq!(p.next_string().unwrap_err(), ParseError::EndOfStream);
}

#[test]
fn get_from_parse() {
    let mut p = Parse::new(Frame::Array(vec![bulk("key")])).unwrap();
    assert_eq!(Get::from_parse(&mut p).unwrap().key(), "key");
    assert_eq!(Get::from_parse(&mut p).unwrap_err(), ParseError::EndOfStream);
}

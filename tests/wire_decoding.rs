use gandalf_consensus::backoff::accept_retry;
use gandalf_consensus::command::{Command, ParseError};
use gandalf_consensus::frame::{Frame, KvsParser};
use gandalf_consensus::wire::{FrameError, Kind, KvsError};

fn decode_all(b: &[u8]) -> Result<(Frame, usize), FrameError> {
    KvsParser.decode(b, 0)
}

#[test]
fn decode_simple_and_error() {
    match decode_all(b"+OK\r\nrest").unwrap() {
        (Frame::Simple(s), 5) => assert_eq!(s, "OK"),
        other => panic!("unexpected {:?}", other),
    }
    match decode_all(b"-bad thing\r\n").unwrap() {
        (Frame::Error(s), 12) => assert_eq!(s, "bad thing"),
        other => panic!("unexpected {:?}", other),
    }
}

#[test]
fn decode_integer() {
    assert!(matches!(decode_all(b":1024\r\n"), Ok((Frame::Integer(1024), 7))));
    assert!(matches!(decode_all(b":0\r\n"), Ok((Frame::Integer(0), 4))));
    assert!(matches!(decode_all(b":18446744073709551615\r\n"), Ok((Frame::Integer(u64::MAX), 23))));
    assert_eq!(decode_all(b":18446744073709551616\r\n").unwrap_err(), FrameError::Invalid);
    assert_eq!(decode_all(b":12a\r\n").unwrap_err(), FrameError::Invalid);
    assert_eq!(decode_all(b":007\r\n").unwrap_err(), FrameError::Invalid);
}

#[test]
fn decode_null_and_bulk() {
    assert!(matches!(decode_all(b"$-1\r\n"), Ok((Frame::Null, 5))));
    match decode_all(b"$5\r\nhe\r\no\r\n").unwrap() {
        (Frame::Bulk(b), 11) => assert_eq!(b, b"he\r\no".to_vec()),
        other => panic!("unexpected {:?}", other),
    }
    assert_eq!(decode_all(b"$-2\r\n").unwrap_err(), FrameError::Invalid);
    assert_eq!(decode_all(b"$3\r\nabcd\r\n").unwrap_err(), FrameError::Invalid);
}

#[test]
fn decode_incomplete() {
    assert_eq!(decode_all(b"").unwrap_err(), FrameError::Incomplete);
    assert_eq!(decode_all(b"+OK").unwrap_err(), FrameError::Incomplete);
    assert_eq!(decode_all(b"$5\r\nabc").unwrap_err(), FrameError::Incomplete);
    assert_eq!(decode_all(b"*2\r\n$1\r\na\r\n").unwrap_err(), FrameError::Incomplete);
}

#[test]
fn decode_unknown_tag() {
    assert_eq!(decode_all(b"?x\r\n").unwrap_err(), FrameError::Invalid);
}

#[test]
fn decode_array_round_trip() {
    let f = Frame::Array(vec![
        Frame::Bulk(b"set".to_vec()),
        Frame::Array(vec![Frame::Null, Frame::Simple("x".to_string())]),
    ]);
    let bytes = KvsParser.unparse(&f);
    let (g, n) = decode_all(&bytes).unwrap();
    assert_eq!(n, bytes.len());
    assert_eq!(KvsParser.unparse(&g), bytes);
}

#[test]
fn parse_read_and_write_requests() {
    let mut buf = b"*2\r\n$3\r\nGET\r\n$1\r\nk\r\n*3\r\n$3\r\nset\r\n$1\r\nk\r\n$1\r\nv\r\n*1".to_vec();
    match KvsParser.parse(&mut buf).unwrap() {
        Some(Kind::Read(Command::Get(g))) => assert_eq!(g.key(), "k"),
        other => panic!("unexpected {:?}", other),
    }
    match KvsParser.parse(&mut buf).unwrap() {
        Some(Kind::Write(Command::SetCmd(s))) => assert_eq!(s.value(), &b"v".to_vec()),
        other => panic!("unexpected {:?}", other),
    }
    assert!(KvsParser.parse(&mut buf).unwrap().is_none());
    assert_eq!(buf, b"*1".to_vec());
}

#[test]
fn parse_errors() {
    let mut buf = b"!\r\n".to_vec();
    assert_eq!(KvsParser.parse(&mut buf).unwrap_err(), KvsError::Frame);
    let mut buf = b"*1\r\n$3\r\ndel\r\n".to_vec();
    assert_eq!(KvsParser.parse(&mut buf).unwrap_err(), KvsError::Command(ParseError::UnknownCommand));
    assert!(buf.is_empty());
}

#[test]
fn accept_backoff_doubles_then_gives_up() {
    let mut pauses = vec![];
    let mut backoff = 1;
    while let Some((pause, next)) = accept_retry(backoff) {
        pauses.push(pause);
        backoff = next;
    }
    assert_eq!(pauses, vec![1, 2, 4, 8, 16, 32, 64]);
    assert_eq!(backoff, 128);
    assert_eq!(accept_retry(65), None);
}

#[test]
fn decode_simple_with_lone_carriage_return() {
    match decode_all(b"+a\rb\r\n").unwrap() {
        (Frame::Simple(s), 6) => assert_eq!(s, "a\rb"),
        other => panic!("unexpected {:?}", other),
    }
}

#[test]
fn decode_invalid_utf8_line() {
    assert_eq!(decode_all(b"+\xff\r\n").unwrap_err(), FrameError::Invalid);
}

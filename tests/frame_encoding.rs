use gandalf_consensus::command::{Command, Get, SetCmd};
use gandalf_consensus::frame::{Frame, KvsParser};

#[test]
fn unparse_simple() {
    assert_eq!(KvsParser.unparse(&Frame::Simple("OK".to_string())), b"+OK\r\n".to_vec());
}

#[test]
fn unparse_error() {
    assert_eq!(KvsParser.unparse(&Frame::Error("ERR bad".to_string())), b"-ERR bad\r\n".to_vec());
}

#[test]
fn unparse_null() {
    assert_eq!(KvsParser.unparse(&Frame::Null), b"$-1\r\n".to_vec());
}

#[test]
fn unparse_bulk() {
    assert_eq!(KvsParser.unparse(&Frame::Bulk(b"hello".to_vec())), b"$5\r\nhello\r\n".to_vec());
}

#[test]
fn unparse_empty_bulk() {
    assert_eq!(KvsParser.unparse(&Frame::Bulk(Vec::new())), b"$0\r\n\r\n".to_vec());
}

#[test]
fn unparse_integer_has_digits_only() {
    assert_eq!(KvsParser.unparse(&Frame::Integer(0)), b":0".to_vec());
    assert_eq!(KvsParser.unparse(&Frame::Integer(1234567890)), b":1234567890".to_vec());
    assert_eq!(KvsParser.unparse(&Frame::Integer(u64::MAX)), b":18446744073709551615".to_vec());
}

#[test]
fn unparse_array_nested() {
    let inner = Frame::Array(vec![Frame::Null, Frame::Simple("a".to_string())]);
    let f = Frame::Array(vec![Frame::Bulk(b"x".to_vec()), inner]);
    assert_eq!(KvsParser.unparse(&f), b"*2\r\n$1\r\nx\r\n*2\r\n$-1\r\n+a\r\n".to_vec());
}

#[test]
fn unparse_long_array_count() {
    let parts: Vec<Frame> = (0..12).map(|_| Frame::Null).collect();
    let bytes = KvsParser.unparse(&Frame::Array(parts));
    assert!(bytes.starts_with(b"*12\r\n$-1\r\n"));
    assert_eq!(bytes.len(), 5 + 12 * 5);
}

#[test]
fn into_error_frames_message() {
    assert_eq!(KvsParser.into_error("oops"), b"-oops\r\n".to_vec());
}

#[test]
fn command_bytes_of_get() {
    let c = Command::Get(Get::new("key".to_string()));
    assert_eq!(c.to_bytes(), b"*2\r\n$3\r\nget\r\n$3\r\nkey\r\n".to_vec());
}

#[test]
fn command_bytes_of_set() {
    let c = Command::SetCmd(SetCmd::new("k".to_string(), b"va".to_vec()));
    assert_eq!(c.to_bytes(), b"*3\r\n$3\r\nset\r\n$1\r\nk\r\n$2\r\nva\r\n".to_vec());
}

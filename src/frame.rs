use vstd::prelude::*;
use vstd::utf8::encode_utf8;

verus! {

broadcast use vstd::std_specs::vec::axiom_vec_index_decreases;

/// A value of the key-value protocol: the unit that clients send and that the
/// replicated log stores.
#[derive(Debug)]
pub enum Frame {
    Simple(String),
    Error(String),
    Integer(u64),
    Bulk(Vec<u8>),
    Null,
    Array(Vec<Frame>),
}

/// The line terminator of the protocol.
pub open spec fn crlf() -> Seq<u8> {
    seq![13u8, 10u8]
}

/// The ASCII decimal digits of `n`, most significant first.
pub open spec fn decimal(n: nat) -> Seq<u8>
    decreases n,
{
    if n < 10 {
        seq![(48 + n) as u8]
    } else {
        decimal(n / 10).push((48 + n % 10) as u8)
    }
}

/// The bytes that the encoder writes for one frame. An integer is written as
/// its digits alone, with no line terminator after them.
pub open spec fn frame_bytes(f: Frame) -> Seq<u8>
    decreases f, 0nat,
{
    match f {
        Frame::Simple(s) => seq![43u8] + encode_utf8(s@) + crlf(),
        Frame::Error(s) => seq![45u8] + encode_utf8(s@) + crlf(),
        Frame::Integer(n) => seq![58u8] + decimal(n as nat),
        Frame::Null => seq![36u8, 45u8, 49u8, 13u8, 10u8],
        Frame::Bulk(b) => seq![36u8] + decimal(b.len() as nat) + crlf() + b@ + crlf(),
        Frame::Array(v) => seq![42u8] + decimal(v.len() as nat) + crlf() + frames_bytes(v, v.len() as nat),
    }
}

/// The encodings of the first `n` frames of `v`, one after the other.
pub open spec fn frames_bytes(v: Vec<Frame>, n: nat) -> Seq<u8>
    decreases v, n,
{
    if n == 0 || n > v.len() {
        Seq::empty()
    } else {
        frames_bytes(v, (n - 1) as nat) + frame_bytes(v[n - 1])
    }
}

/// Encoder (and decoder) between frames and the bytes of the protocol.
#[derive(Clone, Copy, Debug)]
pub struct KvsParser;

impl KvsParser {
    /// Appends the decimal digits of `value` to `buf`.
    fn push_digits(&self, buf: &mut Vec<u8>, value: u64)
        ensures
            final(buf)@ == old(buf)@ + decimal(value as nat),
        decreases value,
    {
        if value >= 10 {
            self.push_digits(buf, value / 10);
        }
        buf.push((48 + value % 10) as u8);
    }

    /// Appends the decimal digits of `value` and a line terminator to `buf`.
    fn write_decimal(&self, buf: &mut Vec<u8>, value: u64)
        ensures
            final(buf)@ == old(buf)@ + decimal(value as nat) + crlf(),
    {
        self.push_digits(buf, value);
        buf.push(13u8);
        buf.push(10u8);
    }

    /// Appends the encoding of `frame` to `buf`.
    fn write_value(&self, buf: &mut Vec<u8>, frame: &Frame)
        ensures
            final(buf)@ == old(buf)@ + frame_bytes(*frame),
        decreases *frame,
    {
        match frame {
            Frame::Simple(val) => {
                buf.push(43u8);
                buf.extend_from_slice(val.as_str().as_bytes());
                buf.push(13u8);
                buf.push(10u8);
            },
            Frame::Error(val) => {
                buf.push(45u8);
                buf.extend_from_slice(val.as_str().as_bytes());
                buf.push(13u8);
                buf.push(10u8);
            },
            Frame::Integer(val) => {
                buf.push(58u8);
                self.push_digits(buf, *val);
            },
            Frame::Null => {
                buf.push(36u8);
                buf.push(45u8);
                buf.push(49u8);
                buf.push(13u8);
                buf.push(10u8);
                assert(buf@ =~= old(buf)@ + frame_bytes(*frame));
            },
            Frame::Bulk(val) => {
                buf.push(36u8);
                self.write_decimal(buf, val.len() as u64);
                buf.extend_from_slice(val.as_slice());
                buf.push(13u8);
                buf.push(10u8);
            },
            Frame::Array(val) => {
                buf.push(42u8);
                self.write_decimal(buf, val.len() as u64);
                let ghost start = buf@;
                let mut i: usize = 0;
                while i < val.len()
                    invariant
                        i <= val.len(),
                        *frame == Frame::Array(*val),
                        buf@ == start + frames_bytes(*val, i as nat),
                    decreases val.len() - i,
                {
                    proof {
                        assert(decreases_to!(*frame => frame->Array_0));
                        assert(decreases_to!(*val => val[i as int]));
                    }
                    self.write_value(buf, &val[i]);
                    i = i + 1;
                }
            },
        }
        assert(buf@ =~= old(buf)@ + frame_bytes(*frame));
    }

    /// The bytes that stand for `data` on the wire.
    pub fn unparse(&self, data: &Frame) -> (r: Vec<u8>)
        ensures
            r@ == frame_bytes(*data),
    {
        let mut buf: Vec<u8> = Vec::new();
        self.write_value(&mut buf, data);
        assert(buf@ =~= frame_bytes(*data));
        buf
    }

    /// The bytes of an error frame that carries `data`.
    pub fn into_error(&self, data: &str) -> (r: Vec<u8>)
        ensures
            r@ == seq![45u8] + encode_utf8(data@) + crlf(),
    {
        self.unparse(&Frame::Error(data.to_owned()))
    }
}

} // verus!

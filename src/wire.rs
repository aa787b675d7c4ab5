use vstd::prelude::*;
use vstd::utf8::{encode_utf8, valid_utf8, decode_utf8, decode_utf8_encode_utf8, encode_utf8_valid_utf8};
use vstd::slice::{slice_subrange, slice_to_vec};
use crate::command::{Command, CommandView, ParseError, command_of, text_of_bytes};
use crate::frame::{Frame, KvsParser, crlf, decimal};

verus! {

broadcast use vstd::std_specs::vec::axiom_vec_index_decreases;

/// Why no frame could be read from a buffer.
#[derive(Debug, PartialEq, Eq, Structural, Clone, Copy)]
pub enum FrameError {
    /// The buffer ends before the frame does.
    Incomplete,
    /// The bytes do not form a frame.
    Invalid,
}

/// Why a request could not be read from a buffer.
#[derive(Debug, PartialEq, Eq, Structural, Clone, Copy)]
pub enum KvsError {
    /// The bytes do not form a frame.
    Frame,
    /// The frame does not hold a command.
    Command(ParseError),
}

/// A request read from a client, sorted by whether it changes the store.
#[derive(Debug)]
pub enum Kind {
    Read(Command),
    Write(Command),
}

/// The bytes by which a frame is read: each line ends in CRLF, integers too.
pub open spec fn wire_bytes(f: Frame) -> Seq<u8>
    decreases f, 0nat,
{
    match f {
        Frame::Simple(s) => seq![43u8] + encode_utf8(s@) + crlf(),
        Frame::Error(s) => seq![45u8] + encode_utf8(s@) + crlf(),
        Frame::Integer(n) => seq![58u8] + decimal(n as nat) + crlf(),
        Frame::Null => seq![36u8, 45u8, 49u8, 13u8, 10u8],
        Frame::Bulk(b) => seq![36u8] + decimal(b.len() as nat) + crlf() + b@ + crlf(),
        Frame::Array(v) => seq![42u8] + decimal(v.len() as nat) + crlf() + wires_bytes(v, v.len() as nat),
    }
}

/// The wire bytes of the first `n` frames of `v`, one after the other.
pub open spec fn wires_bytes(v: Vec<Frame>, n: nat) -> Seq<u8>
    decreases v, n,
{
    if n == 0 || n > v.len() {
        Seq::empty()
    } else {
        wires_bytes(v, (n - 1) as nat) + wire_bytes(v[n - 1])
    }
}

/// Appending a digit to a positive number appends its digit to the decimal form.
proof fn lemma_decimal_push(a: nat, d: nat)
    requires
        a >= 1,
        d < 10,
    ensures
        decimal(a * 10 + d) == decimal(a).push((48 + d) as u8),
{
    assert((a * 10 + d) / 10 == a && (a * 10 + d) % 10 == d) by (nonlinear_arith)
        requires
            d < 10,
    ;
}

/// The decimal form of a number is made of digits, at least one, and starts
/// with a zero only when it is the number zero.
proof fn lemma_decimal_digits(n: nat)
    ensures
        decimal(n).len() >= 1,
        n < 10 <==> decimal(n).len() == 1,
        forall|i: int| 0 <= i < decimal(n).len() ==> 48 <= #[trigger] decimal(n)[i] <= 57,
        n >= 1 ==> decimal(n)[0] != 48,
    decreases n,
{
    if n >= 10 {
        lemma_decimal_digits(n / 10);
        let p = decimal(n / 10);
        assert(decimal(n) == p.push((48 + n % 10) as u8));
        assert forall|i: int| 0 <= i < decimal(n).len() implies 48 <= #[trigger] decimal(n)[i] <= 57 by {
            if i < p.len() {
                assert(decimal(n)[i] == p[i]);
            }
        }
    }
}

/// Two numbers with the same decimal form are equal.
proof fn lemma_decimal_injective(a: nat, b: nat)
    requires
        decimal(a) == decimal(b),
    ensures
        a == b,
    decreases a,
{
    lemma_decimal_digits(a);
    lemma_decimal_digits(b);
    if a >= 10 {
        let pa = decimal(a / 10);
        let pb = decimal(b / 10);
        assert(decimal(a) == pa.push((48 + a % 10) as u8));
        assert(decimal(b) == pb.push((48 + b % 10) as u8));
        assert(pa =~= decimal(a).drop_last());
        assert(pb =~= decimal(b).drop_last());
        lemma_decimal_injective(a / 10, b / 10);
        assert(decimal(a).last() == (48 + a % 10) as u8);
        assert(decimal(b).last() == (48 + b % 10) as u8);
        assert(a % 10 == b % 10);
        assert(a == 10 * (a / 10) + a % 10 && b == 10 * (b / 10) + b % 10) by (nonlinear_arith);
    } else {
        assert(b < 10);
        assert(decimal(a) == seq![(48 + a) as u8]);
        assert(decimal(b) == seq![(48 + b) as u8]);
        assert(decimal(a)[0] == decimal(b)[0]);
    }
}

/// A number whose decimal form begins the decimal form of `n` is at most `n`.
proof fn lemma_decimal_prefix_le(a: nat, n: nat)
    requires
        decimal(a).len() <= decimal(n).len(),
        decimal(a) == decimal(n).subrange(0, decimal(a).len() as int),
    ensures
        a <= n,
    decreases n,
{
    lemma_decimal_digits(a);
    lemma_decimal_digits(n);
    if decimal(a).len() == decimal(n).len() {
        assert(decimal(a) =~= decimal(n));
        lemma_decimal_injective(a, n);
    } else {
        let p = decimal(n / 10);
        assert(decimal(n) == p.push((48 + n % 10) as u8));
        assert(decimal(a) =~= p.subrange(0, decimal(a).len() as int));
        lemma_decimal_prefix_le(a, n / 10);
    }
}

/// Whether a CRLF starts at `j` in `b`.
pub open spec fn crlf_at(b: Seq<u8>, j: int) -> bool {
    b[j] == 13 && b[j + 1] == 10
}

/// The first CRLF at or after `start`.
fn find_crlf(b: &[u8], start: usize) -> (r: Option<usize>)
    requires
        start <= b@.len(),
    ensures
        r matches Some(i) ==> start <= i && i + 1 < b@.len() && b@[i as int] == 13 && b@[i + 1] == 10,
        r matches Some(i) ==> forall|j: int| start <= j < i ==> !#[trigger] crlf_at(b@, j),
        r is None ==> forall|j: int| start <= j && j + 1 < b@.len() ==> !#[trigger] crlf_at(b@, j),
{
    let mut i: usize = start;
    while b.len() - i >= 2
        invariant
            start <= i <= b@.len(),
            forall|j: int| start <= j < i ==> !#[trigger] crlf_at(b@, j),
        decreases b@.len() - i,
    {
        if b[i] == 13 && b[i + 1] == 10 {
            return Some(i);
        }
        i = i + 1;
    }
    None
}

/// The number whose decimal form, without leading zeros, is `b[start..end]`.
fn parse_decimal(b: &[u8], start: usize, end: usize) -> (r: Option<u64>)
    requires
        start <= end <= b@.len(),
    ensures
        r matches Some(n) ==> b@.subrange(start as int, end as int) == decimal(n as nat),
        forall|n: u64| b@.subrange(start as int, end as int) == #[trigger] decimal(n as nat) ==> r == Some(n),
{
    if end <= start {
        proof {
            assert forall|n: u64| b@.subrange(start as int, end as int) != #[trigger] decimal(n as nat) by {
                lemma_decimal_digits(n as nat);
            }
        }
        return None;
    }
    let first = b[start];
    if first < 48 || first > 57 {
        proof {
            assert forall|n: u64| b@.subrange(start as int, end as int) != #[trigger] decimal(n as nat) by {
                lemma_decimal_digits(n as nat);
                if b@.subrange(start as int, end as int) == decimal(n as nat) {
                    assert(decimal(n as nat)[0] == first);
                }
            }
        }
        return None;
    }
    if first == 48 && end - start > 1 {
        proof {
            assert forall|n: u64| b@.subrange(start as int, end as int) != #[trigger] decimal(n as nat) by {
                lemma_decimal_digits(n as nat);
                if b@.subrange(start as int, end as int) == decimal(n as nat) {
                    assert(decimal(n as nat)[0] == first);
                }
            }
        }
        return None;
    }
    let mut acc: u64 = (first - 48) as u64;
    let mut i: usize = start + 1;
    assert(b@.subrange(start as int, i as int) =~= seq![first]);
    while i < end
        invariant
            start < i <= end <= b@.len(),
            acc == 0 ==> i == end,
            b@.subrange(start as int, i as int) == decimal(acc as nat),
        decreases end - i,
    {
        let c = b[i];
        if c < 48 || c > 57 {
            proof {
                assert forall|n: u64| b@.subrange(start as int, end as int) != #[trigger] decimal(n as nat) by {
                    lemma_decimal_digits(n as nat);
                    if b@.subrange(start as int, end as int) == decimal(n as nat) {
                        assert(decimal(n as nat)[i - start] == c);
                    }
                }
            }
            return None;
        }
        let d = (c - 48) as u64;
        if acc > (u64::MAX - d) / 10 {
            proof {
                assert forall|n: u64| b@.subrange(start as int, end as int) != #[trigger] decimal(n as nat) by {
                    if b@.subrange(start as int, end as int) == decimal(n as nat) {
                        lemma_decimal_push(acc as nat, d as nat);
                        let m = acc as nat * 10 + d as nat;
                        assert(decimal(m) =~= b@.subrange(start as int, i + 1));
                        assert(decimal(m) =~= decimal(n as nat).subrange(0, decimal(m).len() as int));
                        lemma_decimal_prefix_le(m, n as nat);
                        assert(acc * 10 + d <= u64::MAX);
                        assert(acc <= (u64::MAX - d) / 10) by (nonlinear_arith)
                            requires
                                acc * 10 + d <= u64::MAX,
                        ;
                    }
                }
            }
            return None;
        }
        proof {
            lemma_decimal_push(acc as nat, d as nat);
            assert(b@.subrange(start as int, i + 1) =~= b@.subrange(start as int, i as int).push(c));
        }
        acc = acc * 10 + d;
        i = i + 1;
    }
    proof {
        assert forall|n: u64| b@.subrange(start as int, end as int) == #[trigger] decimal(n as nat) implies acc == n by {
            lemma_decimal_injective(acc as nat, n as nat);
        }
    }
    Some(acc)
}

/// The text of `b[start..end]`, which must be UTF-8.
fn text_at(b: &[u8], start: usize, end: usize) -> (r: Option<String>)
    requires
        start <= end <= b@.len(),
    ensures
        r matches Some(s) ==> encode_utf8(s@) == b@.subrange(start as int, end as int),
        valid_utf8(b@.subrange(start as int, end as int)) ==> r is Some,
{
    let line = slice_subrange(b, start, end);
    let r = text_of_bytes(line);
    proof {
        if valid_utf8(line@) {
            decode_utf8_encode_utf8(line@);
        }
    }
    r
}

/// Whether the text parts of `f` hold no carriage return, so that each of its
/// lines ends at its first CRLF.
pub open spec fn line_safe(f: Frame) -> bool
    decreases f, 0nat,
{
    match f {
        Frame::Simple(s) => !encode_utf8(s@).contains(13u8),
        Frame::Error(s) => !encode_utf8(s@).contains(13u8),
        Frame::Array(v) => lines_safe(v, v.len() as nat),
        _ => true,
    }
}

/// Whether the first `n` frames of `v` are line safe.
pub open spec fn lines_safe(v: Vec<Frame>, n: nat) -> bool
    decreases v, n,
{
    if n == 0 || n > v.len() {
        true
    } else {
        lines_safe(v, (n - 1) as nat) && line_safe(v[n - 1])
    }
}

/// Whether `b` holds, from `pos` on, the whole wire form of the line-safe frame `f`.
pub open spec fn framed_at(b: Seq<u8>, pos: int, f: Frame) -> bool {
    &&& line_safe(f)
    &&& 0 <= pos
    &&& pos + wire_bytes(f).len() <= b.len()
    &&& b.subrange(pos, pos + wire_bytes(f).len()) == wire_bytes(f)
}

/// The first byte of the wire form of `f`.
pub open spec fn tag_of(f: Frame) -> u8 {
    match f {
        Frame::Simple(_) => 43u8,
        Frame::Error(_) => 45u8,
        Frame::Integer(_) => 58u8,
        Frame::Null => 36u8,
        Frame::Bulk(_) => 36u8,
        Frame::Array(_) => 42u8,
    }
}

/// The first line of the wire form of `f`, after its first byte.
pub open spec fn first_line(f: Frame) -> Seq<u8> {
    match f {
        Frame::Simple(s) => encode_utf8(s@),
        Frame::Error(s) => encode_utf8(s@),
        Frame::Integer(n) => decimal(n as nat),
        Frame::Null => seq![45u8, 49u8],
        Frame::Bulk(v) => decimal(v.len() as nat),
        Frame::Array(v) => decimal(v.len() as nat),
    }
}

/// A framed frame starts with its tag and its first line, which ends at the
/// first CRLF after the tag.
proof fn lemma_first_line(b: Seq<u8>, pos: int, f: Frame)
    requires
        framed_at(b, pos, f),
    ensures
        pos + first_line(f).len() + 2 < b.len() + 1,
        b[pos] == tag_of(f),
        b.subrange(pos + 1, pos + 1 + first_line(f).len()) == first_line(f),
        crlf_at(b, pos + 1 + first_line(f).len()),
        forall|j: int| pos + 1 <= j < pos + 1 + first_line(f).len() ==> !#[trigger] crlf_at(b, j),
{
    let w = wire_bytes(f);
    let l = first_line(f);
    let rest = w.subrange(l.len() as int + 3, w.len() as int);
    assert(w =~= seq![tag_of(f)] + l + crlf() + rest) by {
        match f {
            Frame::Null => {},
            Frame::Bulk(v) => {
                assert(w =~= seq![36u8] + l + crlf() + (v@ + crlf()));
            },
            Frame::Array(v) => {
                assert(w =~= seq![42u8] + l + crlf() + wires_bytes(v, v.len() as nat));
            },
            _ => {},
        }
    }
    assert(b[pos] == w[0]);
    assert(!l.contains(13u8)) by {
        match f {
            Frame::Integer(n) => {
                lemma_decimal_digits(n as nat);
                if l.contains(13u8) {
                    let k = choose|k: int| 0 <= k < l.len() && l[k] == 13u8;
                    assert(48 <= l[k]);
                }
            },
            Frame::Bulk(v) => {
                lemma_decimal_digits(v.len() as nat);
                if l.contains(13u8) {
                    let k = choose|k: int| 0 <= k < l.len() && l[k] == 13u8;
                    assert(48 <= l[k]);
                }
            },
            Frame::Array(v) => {
                lemma_decimal_digits(v.len() as nat);
                if l.contains(13u8) {
                    let k = choose|k: int| 0 <= k < l.len() && l[k] == 13u8;
                    assert(48 <= l[k]);
                }
            },
            Frame::Null => {
                if l.contains(13u8) {
                    let k = choose|k: int| 0 <= k < l.len() && l[k] == 13u8;
                }
            },
            _ => {},
        }
    }
    assert(b.subrange(pos + 1, pos + 1 + l.len()) =~= l) by {
        assert forall|k: int| 0 <= k < l.len() implies b.subrange(pos + 1, pos + 1 + l.len())[k] == l[k] by {
            assert(b[pos + 1 + k] == w[1 + k]);
        }
    }
    assert(b[pos + 1 + l.len()] == w[1 + l.len() as int]);
    assert(b[pos + 2 + l.len()] == w[2 + l.len() as int]);
    assert forall|j: int| pos + 1 <= j < pos + 1 + l.len() implies !#[trigger] crlf_at(b, j) by {
        assert(b[j] == l[j - pos - 1]);
    }
}

/// The wire bytes of the first `k` frames begin those of the first `m`.
proof fn lemma_wires_extend(v: Vec<Frame>, k: nat, m: nat)
    requires
        k <= m <= v.len(),
    ensures
        wires_bytes(v, k).len() <= wires_bytes(v, m).len(),
        wires_bytes(v, m).subrange(0, wires_bytes(v, k).len() as int) == wires_bytes(v, k),
    decreases m,
{
    if k < m {
        lemma_wires_extend(v, k, (m - 1) as nat);
        assert(wires_bytes(v, m) == wires_bytes(v, (m - 1) as nat) + wire_bytes(v[m - 1]));
        assert(wires_bytes(v, m).subrange(0, wires_bytes(v, k).len() as int) =~= wires_bytes(
            v,
            (m - 1) as nat,
        ).subrange(0, wires_bytes(v, k).len() as int));
    } else {
        assert(wires_bytes(v, m).subrange(0, wires_bytes(v, k).len() as int) =~= wires_bytes(v, k));
    }
}

/// Every one of the first `n` frames of a line-safe prefix is line safe.
proof fn lemma_lines_safe_elem(v: Vec<Frame>, n: nat, k: int)
    requires
        lines_safe(v, n),
        n <= v.len(),
        0 <= k < n,
    ensures
        line_safe(v[k]),
    decreases n,
{
    if k < n - 1 {
        lemma_lines_safe_elem(v, (n - 1) as nat, k);
    }
}

impl KvsParser {
    /// Reads one frame from `b`, starting at `pos`: the frame and the position
    /// just after it. Wherever `b` holds the whole wire form of a line-safe frame
    /// from `pos` on, that is what is read.
    pub fn decode(&self, b: &[u8], pos: usize) -> (r: Result<(Frame, usize), FrameError>)
        requires
            pos <= b@.len(),
        ensures
            r matches Ok((f, n)) ==> pos < n <= b@.len() && b@.subrange(pos as int, n as int) == wire_bytes(f),
            pos == b@.len() ==> r == Err::<(Frame, usize), FrameError>(FrameError::Incomplete),
            forall|f: Frame| #[trigger]
                framed_at(b@, pos as int, f) ==> r is Ok && r->Ok_0.1 == pos + wire_bytes(f).len(),
        decreases b@.len() - pos,
    {
        if pos >= b.len() {
            proof {
                assert forall|f: Frame| #[trigger] framed_at(b@, pos as int, f) implies false by {
                    lemma_first_line(b@, pos as int, f);
                }
            }
            return Err(FrameError::Incomplete);
        }
        let tag = b[pos];
        if tag != 43 && tag != 45 && tag != 58 && tag != 36 && tag != 42 {
            proof {
                assert forall|f: Frame| #[trigger] framed_at(b@, pos as int, f) implies false by {
                    lemma_first_line(b@, pos as int, f);
                }
            }
            return Err(FrameError::Invalid);
        }
        let i = match find_crlf(b, pos + 1) {
            Some(i) => i,
            None => {
                proof {
                    assert forall|f: Frame| #[trigger] framed_at(b@, pos as int, f) implies false by {
                        lemma_first_line(b@, pos as int, f);
                        assert(crlf_at(b@, pos + 1 + first_line(f).len()));
                    }
                }
                return Err(FrameError::Incomplete);
            },
        };
        proof {
            assert forall|f: Frame| #[trigger] framed_at(b@, pos as int, f) implies i == pos + 1 + first_line(
                f,
            ).len() by {
                lemma_first_line(b@, pos as int, f);
                let e = pos + 1 + first_line(f).len();
                if i < e {
                    assert(crlf_at(b@, i as int));
                }
                if e < i {
                    assert(!crlf_at(b@, e));
                }
            }
        }
        if tag == 43 || tag == 45 {
            let s = match text_at(b, pos + 1, i) {
                Some(s) => s,
                None => {
                    proof {
                        assert forall|f: Frame| #[trigger] framed_at(b@, pos as int, f) implies false by {
                            lemma_first_line(b@, pos as int, f);
                            match f {
                                Frame::Simple(t) => encode_utf8_valid_utf8(t@),
                                Frame::Error(t) => encode_utf8_valid_utf8(t@),
                                _ => {},
                            }
                        }
                    }
                    return Err(FrameError::Invalid);
                },
            };
            let f = if tag == 43 {
                Frame::Simple(s)
            } else {
                Frame::Error(s)
            };
            assert(b@.subrange(pos as int, i + 2) =~= seq![tag] + b@.subrange(pos + 1, i as int) + crlf());
            proof {
                assert forall|g: Frame| #[trigger] framed_at(b@, pos as int, g) implies i + 2 == pos + wire_bytes(
                    g,
                ).len() by {
                    lemma_first_line(b@, pos as int, g);
                    
                }
            }
            Ok((f, i + 2))
        } else if tag == 58 {
            let n = match parse_decimal(b, pos + 1, i) {
                Some(n) => n,
                None => {
                    proof {
                        assert forall|f: Frame| #[trigger] framed_at(b@, pos as int, f) implies false by {
                            lemma_first_line(b@, pos as int, f);
                        }
                    }
                    return Err(FrameError::Invalid);
                },
            };
            assert(b@.subrange(pos as int, i + 2) =~= seq![tag] + b@.subrange(pos + 1, i as int) + crlf());
            proof {
                assert forall|g: Frame| #[trigger] framed_at(b@, pos as int, g) implies i + 2 == pos + wire_bytes(
                    g,
                ).len() by {
                    lemma_first_line(b@, pos as int, g);
                    
                }
            }
            Ok((Frame::Integer(n), i + 2))
        } else if tag == 36 {
            if pos + 1 < i && b[pos + 1] == 45 {
                if i == pos + 3 && b[pos + 2] == 49 {
                    assert(b@.subrange(pos as int, i + 2) =~= seq![36u8, 45u8, 49u8, 13u8, 10u8]);
                    proof {
                        assert forall|f: Frame| #[trigger] framed_at(b@, pos as int, f) implies i + 2 == pos
                            + wire_bytes(f).len() by {
                            lemma_first_line(b@, pos as int, f);
                            if let Frame::Bulk(v) = f {
                                lemma_decimal_digits(v.len() as nat);
                                assert(b@[pos + 1] == first_line(f)[0]);
                            }
                        }
                    }
                    return Ok((Frame::Null, i + 2));
                }
                proof {
                    assert forall|f: Frame| #[trigger] framed_at(b@, pos as int, f) implies false by {
                        lemma_first_line(b@, pos as int, f);
                        assert(b@[pos + 1] == first_line(f)[0]);
                        if let Frame::Bulk(v) = f {
                            lemma_decimal_digits(v.len() as nat);
                        } else {
                            assert(b@[pos + 2] == first_line(f)[1]);
                        }
                    }
                }
                return Err(FrameError::Invalid);
            }
            proof {
                assert forall|f: Frame| #[trigger] framed_at(b@, pos as int, f) implies f is Bulk by {
                    lemma_first_line(b@, pos as int, f);
                    assert(b@[pos + 1] == first_line(f)[0]);
                }
            }
            let len = match parse_decimal(b, pos + 1, i) {
                Some(n) => n,
                None => {
                    proof {
                        assert forall|f: Frame| #[trigger] framed_at(b@, pos as int, f) implies false by {
                            lemma_first_line(b@, pos as int, f);
                        }
                    }
                    return Err(FrameError::Invalid);
                },
            };
            proof {
                assert forall|f: Frame| #[trigger] framed_at(b@, pos as int, f) implies len == f->Bulk_0.len() by {
                    lemma_first_line(b@, pos as int, f);
                    lemma_decimal_injective(len as nat, f->Bulk_0.len() as nat);
                }
            }
            let data_start = i + 2;
            if (len as u128) + 2 > (b.len() - data_start) as u128 {
                return Err(FrameError::Incomplete);
            }
            let data_end = data_start + len as usize;
            if b[data_end] != 13 || b[data_end + 1] != 10 {
                proof {
                    assert forall|f: Frame| #[trigger] framed_at(b@, pos as int, f) implies false by {
                        let w = wire_bytes(f);
                        let v = f->Bulk_0;
                        assert(w =~= seq![36u8] + first_line(f) + crlf() + v@ + crlf());
                        let k = data_end - pos;
                        assert(b@[pos + k] == w[k]);
                        assert(b@[pos + k + 1] == w[k + 1]);
                    }
                }
                return Err(FrameError::Invalid);
            }
            let data = slice_to_vec(slice_subrange(b, data_start, data_end));
            let ghost head = b@.subrange(pos + 1, i as int);
            assert(b@.subrange(pos as int, data_end + 2) =~= seq![36u8] + head + crlf() + data@ + crlf());
            proof {
                assert forall|g: Frame| #[trigger] framed_at(b@, pos as int, g) implies data_end + 2 == pos + wire_bytes(
                    g,
                ).len() by {
                    lemma_first_line(b@, pos as int, g);
                    
                }
            }
            Ok((Frame::Bulk(data), data_end + 2))
        } else {
            let count = match parse_decimal(b, pos + 1, i) {
                Some(n) => n,
                None => {
                    proof {
                        assert forall|f: Frame| #[trigger] framed_at(b@, pos as int, f) implies false by {
                            lemma_first_line(b@, pos as int, f);
                        }
                    }
                    return Err(FrameError::Invalid);
                },
            };
            proof {
                assert forall|f: Frame| #[trigger] framed_at(b@, pos as int, f) implies f is Array && count
                    == f->Array_0.len() by {
                    lemma_first_line(b@, pos as int, f);
                    lemma_decimal_injective(count as nat, f->Array_0.len() as nat);
                }
            }
            let ghost head = seq![42u8] + decimal(count as nat) + crlf();
            assert(b@.subrange(pos as int, i + 2) =~= head);
            let mut items: Vec<Frame> = Vec::new();
            let mut p: usize = i + 2;
            let mut k: u64 = 0;
            while k < count
                invariant
                    pos < p <= b@.len(),
                    k <= count,
                    items@.len() == k,
                    b@.subrange(pos as int, p as int) == head + wires_bytes(items, k as nat),
                    forall|f: Frame| #[trigger]
                        framed_at(b@, pos as int, f) ==> f is Array && count == f->Array_0.len() && p == i + 2
                            + wires_bytes(f->Array_0, k as nat).len(),
                    forall|f: Frame| #[trigger]
                        framed_at(b@, pos as int, f) ==> i == pos + 1 + first_line(f).len(),
                decreases count - k,
            {
                proof {
                    assert forall|f: Frame| #[trigger] framed_at(b@, pos as int, f) implies framed_at(
                        b@,
                        p as int,
                        f->Array_0[k as int],
                    ) by {
                        let v = f->Array_0;
                        let w = wire_bytes(f);
                        let e = v[k as int];
                        lemma_lines_safe_elem(v, v.len() as nat, k as int);
                        lemma_wires_extend(v, (k + 1) as nat, v.len() as nat);
                        let ws = wires_bytes(v, v.len() as nat);
                        let wk = wires_bytes(v, k as nat);
                        let wk1 = wires_bytes(v, (k + 1) as nat);
                        assert(wk1 == wk + wire_bytes(e));
                        assert(w =~= seq![42u8] + first_line(f) + crlf() + ws);
                        assert forall|t: int| 0 <= t < wire_bytes(e).len() implies b@.subrange(
                            p as int,
                            p + wire_bytes(e).len(),
                        )[t] == wire_bytes(e)[t] by {
                            assert(wk1[wk.len() + t] == wire_bytes(e)[t]);
                            assert(ws[wk.len() + t] == wk1[wk.len() + t]);
                            assert(w[3 + first_line(f).len() + wk.len() + t] == ws[wk.len() + t]);
                            assert(b@[pos + 3 + first_line(f).len() + wk.len() + t] == w[3 + first_line(f).len() + wk.len() + t]);
                        }
                        assert(b@.subrange(p as int, p + wire_bytes(e).len()) =~= wire_bytes(e));
                    }
                }
                let (f, q) = match self.decode(b, p) {
                    Ok(x) => x,
                    Err(e) => {
                        proof {
                            assert forall|g: Frame| #[trigger] framed_at(b@, pos as int, g) implies false by {
                                assert(framed_at(b@, p as int, g->Array_0[k as int]));
                            }
                        }
                        return Err(e);
                    },
                };
                let ghost before = items;
                items.push(f);
                proof {
                    assert(before@.subrange(0, k as int) =~= items@.subrange(0, k as int));
                    assert(wires_bytes(before, k as nat) == wires_bytes(items, k as nat)) by {
                        lemma_wires_prefix(before, items, k as nat);
                    }
                    assert(b@.subrange(pos as int, q as int) =~= b@.subrange(pos as int, p as int) + b@.subrange(
                        p as int,
                        q as int,
                    ));
                    assert forall|g: Frame| #[trigger] framed_at(b@, pos as int, g) implies q == i + 2 + wires_bytes(
                        g->Array_0,
                        (k + 1) as nat,
                    ).len() by {
                        assert(framed_at(b@, p as int, g->Array_0[k as int]));
                    }
                }
                p = q;
                k = k + 1;
            }
            proof {
                assert forall|g: Frame| #[trigger] framed_at(b@, pos as int, g) implies p == pos + wire_bytes(
                    g,
                ).len() by {
                    lemma_first_line(b@, pos as int, g);
                    assert(wire_bytes(g) == seq![42u8] + first_line(g) + crlf() + wires_bytes(g->Array_0, g->Array_0.len() as nat));
                    
                }
            }
            Ok((Frame::Array(items), p))
        }
    }

    /// Reads the next request from the front of `buffer` and removes its bytes.
    /// A buffer that ends inside a frame is left as it is, and `None` comes back.
    /// A buffer that begins with the whole wire form of a line-safe frame gives
    /// up exactly those bytes, and a request or the reason why the frame holds
    /// none.
    pub fn parse(&self, buffer: &mut Vec<u8>) -> (r: Result<Option<Kind>, KvsError>)
        ensures
            forall|f: Frame| #[trigger]
                framed_at(old(buffer)@, 0, f) ==> (r matches Ok(Some(_)) || r matches Err(KvsError::Command(_)))
                    && final(buffer)@ == old(buffer)@.subrange(wire_bytes(f).len() as int, old(buffer)@.len() as int),
            r matches Ok(None) ==> final(buffer)@ == old(buffer)@,
            old(buffer)@.len() == 0 ==> r matches Ok(None),
            r matches Ok(Some(k)) ==> exists|f: Frame, n: int|
                #![trigger wire_bytes(f), old(buffer)@.subrange(0, n)]
                0 < n <= old(buffer)@.len() && old(buffer)@.subrange(0, n) == wire_bytes(f)
                    && final(buffer)@ == old(buffer)@.subrange(n, old(buffer)@.len() as int)
                    && match k {
                        Kind::Read(c) => command_of(f) == Ok::<CommandView, ParseError>(c@) && c@ is Get,
                        Kind::Write(c) => command_of(f) == Ok::<CommandView, ParseError>(c@) && c@ is SetCmd,
                    },
    {
        let (frame, n) = match self.decode(buffer.as_slice(), 0) {
            Ok(x) => x,
            Err(FrameError::Incomplete) => return Ok(None),
            Err(FrameError::Invalid) => return Err(KvsError::Frame),
        };
        let ghost f = frame;
        let ghost old_buf = buffer@;
        let rest = buffer.split_off(n);
        *buffer = rest;
        match Command::from_frame(frame) {
            Ok(cmd) => {
                let is_read = match &cmd {
                    Command::Get(_) => true,
                    Command::SetCmd(_) => false,
                };
                let k = if is_read { Kind::Read(cmd) } else { Kind::Write(cmd) };
                assert(old_buf.subrange(0, n as int) == wire_bytes(f));
                Ok(Some(k))
            },
            Err(e) => Err(KvsError::Command(e)),
        }
    }
}

/// Pushing a frame leaves the wire bytes of the frames before it as they were.
proof fn lemma_wires_prefix(a: Vec<Frame>, b: Vec<Frame>, k: nat)
    requires
        k <= a@.len(),
        k <= b@.len(),
        a@.subrange(0, k as int) == b@.subrange(0, k as int),
    ensures
        wires_bytes(a, k) == wires_bytes(b, k),
    decreases k,
{
    if k > 0 {
        assert(a@[k - 1] == a@.subrange(0, k as int)[k - 1]);
        assert(b@[k - 1] == b@.subrange(0, k as int)[k - 1]);
        assert(a@.subrange(0, k - 1) =~= a@.subrange(0, k as int).subrange(0, k - 1));
        assert(b@.subrange(0, k - 1) =~= b@.subrange(0, k as int).subrange(0, k - 1));
        lemma_wires_prefix(a, b, (k - 1) as nat);
    }
}

} // verus!

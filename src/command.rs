use vstd::prelude::*;
use vstd::utf8::{valid_utf8, decode_utf8};
use vstd::utf8::encode_utf8;
use vstd::slice::slice_to_vec;
use crate::frame::{Frame, KvsParser, frame_bytes, frames_bytes, decimal, crlf};
use crate::tracker::{Tracker, TrackerError, read_answer, value_of};

verus! {

/// Why a frame could not be read as a command.
#[derive(Debug, PartialEq, Eq, Structural, Clone, Copy)]
pub enum ParseError {
    /// The frame is not an array.
    NotArray,
    /// The command ended before all of its parts were read.
    EndOfStream,
    /// A part that must be text holds bytes that are not UTF-8.
    InvalidString,
    /// A part is neither a simple string nor a bulk value.
    UnexpectedFrame,
    /// Parts remain after the last one the command takes.
    ExtraData,
    /// The command name is neither `get` nor `set`.
    UnknownCommand,
}

/// What `str::to_lowercase` makes of a sequence of characters.
pub uninterp spec fn lower_of(s: Seq<char>) -> Seq<char>;

/// Relies on `str::to_lowercase`: the result depends on the characters alone.
#[verifier::external_body]
fn lowercase(s: &str) -> (r: String)
    ensures
        r@ == lower_of(s@),
{
    s.to_lowercase()
}

/// Relies on `std::str::from_utf8`: it succeeds exactly on valid UTF-8, and then
/// holds the characters that the bytes encode.
#[verifier::external_body]
pub(crate) fn text_of_bytes(b: &[u8]) -> (r: Option<String>)
    ensures
        match r {
            Some(s) => valid_utf8(b@) && s@ == decode_utf8(b@),
            None => !valid_utf8(b@),
        },
{
    match std::str::from_utf8(b) {
        Ok(s) => Some(s.to_string()),
        Err(_) => None,
    }
}

/// A command, as the logic sees it.
pub ghost enum CommandView {
    Get { key: Seq<char> },
    SetCmd { key: Seq<char>, value: Seq<u8> },
}

/// The text that a part of a command stands for.
pub open spec fn string_part(f: Frame) -> Result<Seq<char>, ParseError> {
    match f {
        Frame::Simple(s) => Ok(s@),
        Frame::Bulk(b) => if valid_utf8(b@) {
            Ok(decode_utf8(b@))
        } else {
            Err(ParseError::InvalidString)
        },
        _ => Err(ParseError::UnexpectedFrame),
    }
}

/// The bytes that a part of a command stands for.
pub open spec fn bytes_part(f: Frame) -> Result<Seq<u8>, ParseError> {
    match f {
        Frame::Simple(s) => Ok(encode_utf8(s@)),
        Frame::Bulk(b) => Ok(b@),
        _ => Err(ParseError::UnexpectedFrame),
    }
}

/// The arguments of a `get` command, read from the parts that follow its name.
pub open spec fn get_args(p: Seq<Frame>) -> Result<CommandView, ParseError> {
    if p.len() == 0 {
        Err(ParseError::EndOfStream)
    } else {
        match string_part(p[0]) {
            Err(e) => Err(e),
            Ok(key) => Ok(CommandView::Get { key }),
        }
    }
}

/// The arguments of a `set` command, read from the parts that follow its name.
pub open spec fn set_args(p: Seq<Frame>) -> Result<CommandView, ParseError> {
    if p.len() == 0 {
        Err(ParseError::EndOfStream)
    } else {
        match string_part(p[0]) {
            Err(e) => Err(e),
            Ok(key) => if p.len() == 1 {
                Err(ParseError::EndOfStream)
            } else {
                match bytes_part(p[1]) {
                    Err(e) => Err(e),
                    Ok(value) => Ok(CommandView::SetCmd { key, value }),
                }
            },
        }
    }
}

/// How many parts follow the name of a command.
pub open spec fn arg_count(c: CommandView) -> int {
    match c {
        CommandView::Get { .. } => 1,
        CommandView::SetCmd { .. } => 2,
    }
}

/// The command that a frame holds: an array whose first part names the command
/// (in any case), followed by exactly its arguments.
pub open spec fn command_of(f: Frame) -> Result<CommandView, ParseError> {
    match f {
        Frame::Array(v) => {
            let p = v@;
            if p.len() == 0 {
                Err(ParseError::EndOfStream)
            } else {
                match string_part(p[0]) {
                    Err(e) => Err(e),
                    Ok(name) => {
                        let args = if lower_of(name) == seq!['g', 'e', 't'] {
                            get_args(p.drop_first())
                        } else if lower_of(name) == seq!['s', 'e', 't'] {
                            set_args(p.drop_first())
                        } else {
                            Err(ParseError::UnknownCommand)
                        };
                        match args {
                            Err(e) => Err(e),
                            Ok(c) => if p.len() > 1 + arg_count(c) {
                                Err(ParseError::ExtraData)
                            } else {
                                Ok(c)
                            },
                        }
                    },
                }
            }
        },
        _ => Err(ParseError::NotArray),
    }
}

/// A cursor over the parts of an array frame.
pub struct Parse {
    parts: Vec<Frame>,
}

impl View for Parse {
    type V = Seq<Frame>;

    /// The parts not read yet.
    closed spec fn view(&self) -> Seq<Frame> {
        self.parts@
    }
}

impl Parse {
    /// Starts reading the parts of `frame`, which must be an array.
    pub fn new(frame: Frame) -> (r: Result<Parse, ParseError>)
        ensures
            match frame {
                Frame::Array(v) => r matches Ok(p) && p@ == v@,
                _ => r == Err::<Parse, ParseError>(ParseError::NotArray),
            },
    {
        match frame {
            Frame::Array(parts) => Ok(Parse { parts }),
            _ => Err(ParseError::NotArray),
        }
    }

    /// Takes the next part.
    pub fn next(&mut self) -> (r: Result<Frame, ParseError>)
        ensures
            old(self)@.len() == 0 ==> r is Err && r->Err_0 == ParseError::EndOfStream && final(self)@ == old(self)@,
            old(self)@.len() > 0 ==> r is Ok && r->Ok_0 == old(self)@[0] && final(self)@ == old(self)@.drop_first(),
    {
        if self.parts.len() == 0 {
            Err(ParseError::EndOfStream)
        } else {
            let f = self.parts.remove(0);
            assert(self.parts@ =~= old(self)@.drop_first());
            Ok(f)
        }
    }

    /// Takes the next part as text.
    pub fn next_string(&mut self) -> (r: Result<String, ParseError>)
        ensures
            old(self)@.len() == 0 ==> r == Err::<String, ParseError>(ParseError::EndOfStream),
            old(self)@.len() > 0 ==> final(self)@ == old(self)@.drop_first() && match string_part(old(self)@[0]) {
                Ok(s) => r is Ok && r->Ok_0@ == s,
                Err(e) => r == Err::<String, ParseError>(e),
            },
    {
        let f = self.next()?;
        match f {
            Frame::Simple(s) => Ok(s),
            Frame::Bulk(data) => match text_of_bytes(data.as_slice()) {
                Some(s) => Ok(s),
                None => Err(ParseError::InvalidString),
            },
            _ => Err(ParseError::UnexpectedFrame),
        }
    }

    /// Takes the next part as bytes.
    pub fn next_bytes(&mut self) -> (r: Result<Vec<u8>, ParseError>)
        ensures
            old(self)@.len() == 0 ==> r == Err::<Vec<u8>, ParseError>(ParseError::EndOfStream),
            old(self)@.len() > 0 ==> final(self)@ == old(self)@.drop_first() && match bytes_part(old(self)@[0]) {
                Ok(b) => r is Ok && r->Ok_0@ == b,
                Err(e) => r == Err::<Vec<u8>, ParseError>(e),
            },
    {
        let f = self.next()?;
        match f {
            Frame::Simple(s) => Ok(slice_to_vec(s.as_str().as_bytes())),
            Frame::Bulk(data) => Ok(data),
            _ => Err(ParseError::UnexpectedFrame),
        }
    }

    /// Succeeds when every part has been read.
    pub fn finish(&self) -> (r: Result<(), ParseError>)
        ensures
            r is Ok <==> self@.len() == 0,
            r is Err ==> r->Err_0 == ParseError::ExtraData,
    {
        if self.parts.len() == 0 {
            Ok(())
        } else {
            Err(ParseError::ExtraData)
        }
    }
}

/// A client command of the key-value store.
#[derive(Debug)]
pub enum Command {
    Get(Get),
    SetCmd(SetCmd),
}

/// Reads the value stored under a key.
#[derive(Debug)]
pub struct Get {
    pub(crate) key: String,
}

/// Stores a value under a key.
#[derive(Debug)]
pub struct SetCmd {
    pub(crate) key: String,
    pub(crate) value: Vec<u8>,
}

impl View for Command {
    type V = CommandView;

    open spec fn view(&self) -> CommandView {
        match self {
            Command::Get(g) => CommandView::Get { key: g@ },
            Command::SetCmd(s) => CommandView::SetCmd { key: s.key_view(), value: s.value_view() },
        }
    }
}

impl View for Get {
    type V = Seq<char>;

    /// The key.
    closed spec fn view(&self) -> Seq<char> {
        self.key@
    }
}

/// Whether `f` is a bulk value that holds exactly `b`.
pub open spec fn is_bulk_of(f: Frame, b: Seq<u8>) -> bool {
    f is Bulk && f->Bulk_0@ == b
}

/// The encoding of a bulk value that holds `b`.
pub open spec fn bulk_bytes(b: Seq<u8>) -> Seq<u8> {
    seq![36u8] + decimal(b.len()) + crlf() + b + crlf()
}

/// The bytes that a client sends for a command: an array of bulk values, the
/// name first.
pub open spec fn command_bytes(c: CommandView) -> Seq<u8> {
    match c {
        CommandView::Get { key } => seq![42u8] + decimal(2) + crlf() + bulk_bytes(seq![103u8, 101u8, 116u8])
            + bulk_bytes(encode_utf8(key)),
        CommandView::SetCmd { key, value } => seq![42u8] + decimal(3) + crlf() + bulk_bytes(
            seq![115u8, 101u8, 116u8],
        ) + bulk_bytes(encode_utf8(key)) + bulk_bytes(value),
    }
}

impl Command {
    /// The bytes that a client sends for this command.
    pub fn to_bytes(self) -> (r: Vec<u8>)
        ensures
            r@ == command_bytes(self@),
    {
        let ghost c = self@;
        let frame = self.into_frame();
        let r = KvsParser.unparse(&frame);
        proof {
            let v = frame->Array_0;
            assert(frames_bytes(v, 0) =~= Seq::<u8>::empty());
            assert(frame_bytes(v[0]) == bulk_bytes(v[0]->Bulk_0@));
            assert(frame_bytes(v[1]) == bulk_bytes(v[1]->Bulk_0@));
            assert(frames_bytes(v, 1) =~= frame_bytes(v[0]));
            assert(frames_bytes(v, 2) =~= frame_bytes(v[0]) + frame_bytes(v[1]));
            if v.len() == 3 {
                assert(frame_bytes(v[2]) == bulk_bytes(v[2]->Bulk_0@));
                assert(frames_bytes(v, 3) =~= frame_bytes(v[0]) + frame_bytes(v[1]) + frame_bytes(v[2]));
            }
            assert(frame_bytes(frame) == seq![42u8] + decimal(v.len() as nat) + crlf() + frames_bytes(v, v.len() as nat));
            assert(r@ =~= command_bytes(c));
        }
        r
    }

    /// Reads the command that `frame` holds.
    pub fn from_frame(frame: Frame) -> (r: Result<Command, ParseError>)
        ensures
            match command_of(frame) {
                Ok(c) => r is Ok && r->Ok_0@ == c,
                Err(e) => r is Err && r->Err_0 == e,
            },
    {
        let mut parse = match Parse::new(frame) {
            Ok(p) => p,
            Err(e) => return Err(e),
        };
        let name = match parse.next_string() {
            Ok(n) => n,
            Err(e) => return Err(e),
        };
        let cmd_name = lowercase(name.as_str());
        proof {
            reveal_strlit("get");
            reveal_strlit("set");
        }
        let get_name = "get".to_owned();
        let set_name = "set".to_owned();
        assert(get_name@ == seq!['g', 'e', 't']);
        assert(set_name@ == seq!['s', 'e', 't']);
        let is_get = cmd_name == get_name;
        let is_set = cmd_name == set_name;
        let cmd = if is_get {
            match Get::from_parse(&mut parse) {
                Ok(g) => Command::Get(g),
                Err(e) => return Err(e),
            }
        } else if is_set {
            match SetCmd::from_parse(&mut parse) {
                Ok(c) => Command::SetCmd(c),
                Err(e) => return Err(e),
            }
        } else {
            return Err(ParseError::UnknownCommand);
        };
        match parse.finish() {
            Ok(()) => Ok(cmd),
            Err(e) => Err(e),
        }
    }

    /// Runs the command against the store: a read answers from the log, a write
    /// is appended to it under `term` and answered with `OK`.
    pub fn apply(self, tracker: &mut Tracker, term: u64) -> (r: Result<Frame, TrackerError>)
        ensures
            match self@ {
                CommandView::Get { key } => r is Ok && read_answer(old(tracker)@, key, r->Ok_0)
                    && final(tracker)@ == old(tracker)@,
                CommandView::SetCmd { .. } => if old(tracker)@.len() >= u64::MAX {
                    r == Err::<Frame, TrackerError>(TrackerError::LogFull) && final(tracker)@ == old(tracker)@
                } else {
                    r is Ok && r->Ok_0 is Simple && r->Ok_0->Simple_0@ == seq!['O', 'K']
                        && final(tracker)@ == old(tracker)@.push((term, self@))
                },
            },
    {
        match self {
            Command::Get(cmd) => Ok(cmd.apply(tracker)),
            Command::SetCmd(cmd) => cmd.apply(tracker, term),
        }
    }

    /// A copy of this command.
    pub fn copy(&self) -> (r: Command)
        ensures
            r@ == self@,
    {
        match self {
            Command::Get(g) => Command::Get(Get { key: g.key.clone() }),
            Command::SetCmd(s) => Command::SetCmd(SetCmd { key: s.key.clone(), value: s.value.clone() }),
        }
    }

    /// The frame that a client sends for this command.
    pub fn into_frame(self) -> (r: Frame)
        ensures
            r is Array,
            match self@ {
                CommandView::Get { key } => r->Array_0@.len() == 2
                    && is_bulk_of(r->Array_0@[0], seq![103u8, 101u8, 116u8])
                    && is_bulk_of(r->Array_0@[1], encode_utf8(key)),
                CommandView::SetCmd { key, value } => r->Array_0@.len() == 3
                    && is_bulk_of(r->Array_0@[0], seq![115u8, 101u8, 116u8])
                    && is_bulk_of(r->Array_0@[1], encode_utf8(key))
                    && is_bulk_of(r->Array_0@[2], value),
            },
    {
        match self {
            Command::Get(g) => g.into_frame(),
            Command::SetCmd(s) => s.into_frame(),
        }
    }
}

impl Get {
    /// A command that reads `key`.
    pub fn new(key: String) -> (r: Get)
        ensures
            r@ == key@,
    {
        Get { key }
    }

    /// Reads the key of a `get` command from the parts that follow its name.
    pub fn from_parse(parse: &mut Parse) -> (r: Result<Get, ParseError>)
        ensures
            old(parse)@.len() == 0 ==> r == Err::<Get, ParseError>(ParseError::EndOfStream),
            old(parse)@.len() > 0 ==> final(parse)@ == old(parse)@.drop_first() && match string_part(old(parse)@[0]) {
                Ok(k) => r is Ok && r->Ok_0@ == k,
                Err(e) => r == Err::<Get, ParseError>(e),
            },
    {
        let key = parse.next_string()?;
        Ok(Get { key })
    }

    /// The key.
    pub fn key(&self) -> (r: &str)
        ensures
            r@ == self@,
    {
        self.key.as_str()
    }

    /// The frame that a client sends for this command.
    pub fn into_frame(self) -> (r: Frame)
        ensures
            r is Array,
            r->Array_0@.len() == 2,
            is_bulk_of(r->Array_0@[0], seq![103u8, 101u8, 116u8]),
            is_bulk_of(r->Array_0@[1], encode_utf8(self@)),
    {
        let name = Frame::Bulk(vec![103u8, 101u8, 116u8]);
        let key = Frame::Bulk(slice_to_vec(self.key.as_str().as_bytes()));
        let r = Frame::Array(vec![name, key]);
        assert(r->Array_0@[0]->Bulk_0@ =~= seq![103u8, 101u8, 116u8]);
        r
    }
}

impl SetCmd {
    pub closed spec fn key_view(&self) -> Seq<char> {
        self.key@
    }

    pub closed spec fn value_view(&self) -> Seq<u8> {
        self.value@
    }

    /// A command that stores `value` under `key`.
    pub fn new(key: String, value: Vec<u8>) -> (r: SetCmd)
        ensures
            r.key_view() == key@,
            r.value_view() == value@,
    {
        SetCmd { key, value }
    }

    /// Reads the key and the value of a `set` command from the parts that
    /// follow its name.
    pub fn from_parse(parse: &mut Parse) -> (r: Result<SetCmd, ParseError>)
        ensures
            match set_args(old(parse)@) {
                Ok(c) => r is Ok && CommandView::SetCmd { key: r->Ok_0.key_view(), value: r->Ok_0.value_view() } == c
                    && final(parse)@ == old(parse)@.drop_first().drop_first(),
                Err(e) => r == Err::<SetCmd, ParseError>(e),
            },
    {
        let key = parse.next_string()?;
        let value = parse.next_bytes()?;
        Ok(SetCmd { key, value })
    }

    /// Appends this write to the log under `term`; the answer is `OK`.
    pub fn apply(self, tracker: &mut Tracker, term: u64) -> (r: Result<Frame, TrackerError>)
        ensures
            old(tracker)@.len() >= u64::MAX ==> r == Err::<Frame, TrackerError>(TrackerError::LogFull)
                && final(tracker)@ == old(tracker)@,
            old(tracker)@.len() < u64::MAX ==> r is Ok && r->Ok_0 is Simple && r->Ok_0->Simple_0@ == seq!['O', 'K']
                && final(tracker)@ == old(tracker)@.push(
                (term, CommandView::SetCmd { key: self.key_view(), value: self.value_view() }),
            ),
    {
        match tracker.append_log(Command::SetCmd(self), term) {
            Ok(_) => {
                proof {
                    reveal_strlit("OK");
                }
                Ok(Frame::Simple("OK".to_owned()))
            },
            Err(e) => Err(e),
        }
    }

    /// The key.
    pub fn key(&self) -> (r: &str)
        ensures
            r@ == self.key_view(),
    {
        self.key.as_str()
    }

    /// The value.
    pub fn value(&self) -> (r: &Vec<u8>)
        ensures
            r@ == self.value_view(),
    {
        &self.value
    }

    /// The frame that a client sends for this command.
    pub fn into_frame(self) -> (r: Frame)
        ensures
            r is Array,
            r->Array_0@.len() == 3,
            is_bulk_of(r->Array_0@[0], seq![115u8, 101u8, 116u8]),
            is_bulk_of(r->Array_0@[1], encode_utf8(self.key_view())),
            is_bulk_of(r->Array_0@[2], self.value_view()),
    {
        let name = Frame::Bulk(vec![115u8, 101u8, 116u8]);
        let key = Frame::Bulk(slice_to_vec(self.key.as_str().as_bytes()));
        let value = Frame::Bulk(self.value);
        let r = Frame::Array(vec![name, key, value]);
        assert(r->Array_0@[0]->Bulk_0@ =~= seq![115u8, 101u8, 116u8]);
        r
    }
}

impl Get {
    /// The response to this read: the value that the last write to the key
    /// stored, or `Null` when there is none.
    pub fn apply(&self, tracker: &Tracker) -> (r: Frame)
        ensures
            read_answer(tracker@, self@, r),
    {
        let mut i: usize = tracker.len();
        assert(tracker@.subrange(0, i as int) =~= tracker@);
        while i > 0
            invariant
                i <= tracker@.len(),
                value_of(tracker@, self@) == value_of(tracker@.subrange(0, i as int), self@),
            decreases i,
        {
            let ghost prefix = tracker@.subrange(0, i as int);
            assert(prefix.drop_last() =~= tracker@.subrange(0, i - 1));
            let entry = tracker.entry(i - 1);
            match &entry.entity {
                Command::SetCmd(s) => {
                    if s.key == self.key {
                        let v = s.value.clone();
                        assert(v@ =~= s.value@);
                        return Frame::Bulk(v);
                    }
                },
                Command::Get(_) => {},
            }
            i = i - 1;
        }
        assert(tracker@.subrange(0, 0) =~= Seq::<(u64, CommandView)>::empty());
        Frame::Null
    }
}

} // verus!

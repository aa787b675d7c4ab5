use vstd::prelude::*;
use crate::command::{Command, CommandView};
use crate::frame::Frame;

verus! {

/// Why the log could not serve a request.
#[derive(Debug, PartialEq, Eq, Structural, Clone, Copy)]
pub enum TrackerError {
    /// The index lies beyond the last entry of the log.
    IndexOutOfRange,
    /// The log holds as many entries as an index can count.
    LogFull,
    /// A read was asked to change the state, or a write to read it.
    WrongKind,
}

/// One entry of the log: a command and the term in which it was appended.
#[derive(Debug)]
pub struct LogEntry {
    pub term: u64,
    pub entity: Command,
}

/// The replicated log, and the key-value state that its commands build.
#[derive(Debug)]
pub struct Tracker {
    log: Vec<LogEntry>,
}

/// The term of the entry at `index` (counted from 1); index 0 stands before the
/// log and has term 0.
pub open spec fn term_at(log: Seq<(u64, CommandView)>, index: int) -> u64 {
    if index == 0 {
        0
    } else {
        log[index - 1].0
    }
}

/// The value that the last write to `key` in `log` stored, if any.
pub open spec fn value_of(log: Seq<(u64, CommandView)>, key: Seq<char>) -> Option<Seq<u8>>
    decreases log.len(),
{
    if log.len() == 0 {
        None
    } else {
        match log.last().1 {
            CommandView::SetCmd { key: k, value } => if k == key {
                Some(value)
            } else {
                value_of(log.drop_last(), key)
            },
            _ => value_of(log.drop_last(), key),
        }
    }
}

/// The answer to a read of `key` against `log`.
pub open spec fn read_answer(log: Seq<(u64, CommandView)>, key: Seq<char>, r: Frame) -> bool {
    match value_of(log, key) {
        Some(v) => r is Bulk && r->Bulk_0@ == v,
        None => r is Null,
    }
}

impl View for Tracker {
    type V = Seq<(u64, CommandView)>;

    /// The entries, each as its term and its command.
    closed spec fn view(&self) -> Seq<(u64, CommandView)> {
        self.log@.map_values(|e: LogEntry| (e.term, e.entity@))
    }
}

impl Tracker {
    /// An empty log.
    pub fn new() -> (r: Tracker)
        ensures
            r@ == Seq::<(u64, CommandView)>::empty(),
    {
        let r = Tracker { log: Vec::new() };
        assert(r@ =~= Seq::<(u64, CommandView)>::empty());
        r
    }

    /// The index of the last entry, 0 when the log is empty.
    pub fn get_last_log_index(&self) -> (r: u64)
        ensures
            r == self@.len(),
    {
        self.log.len() as u64
    }

    /// The term of the entry at `index`; 0 for index 0.
    pub fn get_log_term(&self, index: u64) -> (r: Result<u64, TrackerError>)
        ensures
            index <= self@.len() ==> r == Ok::<u64, TrackerError>(term_at(self@, index as int)),
            index > self@.len() ==> r == Err::<u64, TrackerError>(TrackerError::IndexOutOfRange),
    {
        if index == 0 {
            Ok(0)
        } else if index <= self.log.len() as u64 {
            Ok(self.log[(index - 1) as usize].term)
        } else {
            Err(TrackerError::IndexOutOfRange)
        }
    }

    /// A copy of the command at `index`, which counts from 1.
    pub fn get_log_entity(&self, index: u64) -> (r: Result<Command, TrackerError>)
        ensures
            1 <= index <= self@.len() ==> r is Ok && r->Ok_0@ == self@[index - 1].1,
            !(1 <= index <= self@.len()) ==> r is Err && r->Err_0 == TrackerError::IndexOutOfRange,
    {
        if 1 <= index && index <= self.log.len() as u64 {
            Ok(self.log[(index - 1) as usize].entity.copy())
        } else {
            Err(TrackerError::IndexOutOfRange)
        }
    }

    /// Appends a write to the log under `term` and returns its index.
    pub fn append_log(&mut self, entity: Command, term: u64) -> (r: Result<u64, TrackerError>)
        ensures
            !(entity@ is SetCmd) ==> r == Err::<u64, TrackerError>(TrackerError::WrongKind)
                && final(self)@ == old(self)@,
            entity@ is SetCmd && old(self)@.len() >= u64::MAX ==> r == Err::<u64, TrackerError>(TrackerError::LogFull)
                && final(self)@ == old(self)@,
            entity@ is SetCmd && old(self)@.len() < u64::MAX ==> final(self)@ == old(self)@.push((term, entity@))
                && r == Ok::<u64, TrackerError>(final(self)@.len() as u64),
    {
        let ghost e = entity@;
        match entity {
            Command::Get(_) => return Err(TrackerError::WrongKind),
            Command::SetCmd(_) => {},
        }
        if self.log.len() as u64 >= u64::MAX {
            return Err(TrackerError::LogFull);
        }
        self.log.push(LogEntry { term, entity });
        assert(self@ =~= old(self)@.push((term, e)));
        Ok(self.log.len() as u64)
    }

    /// The number of entries.
    pub(crate) fn len(&self) -> (r: usize)
        ensures
            r == self@.len(),
    {
        self.log.len()
    }

    /// The entry at position `i` (counted from 0).
    pub(crate) fn entry(&self, i: usize) -> (r: &LogEntry)
        requires
            i < self@.len(),
        ensures
            self@[i as int] == (r.term, r.entity@),
    {
        &self.log[i]
    }

    /// Answers a read against the state that the log has built.
    pub fn propagate(&self, request: &Command) -> (r: Result<Frame, TrackerError>)
        ensures
            match request@ {
                CommandView::Get { key } => r is Ok && read_answer(self@, key, r->Ok_0),
                CommandView::SetCmd { .. } => r == Err::<Frame, TrackerError>(TrackerError::WrongKind),
            },
    {
        match request {
            Command::Get(g) => Ok(g.apply(self)),
            Command::SetCmd(_) => Err(TrackerError::WrongKind),
        }
    }
}

/// Read after write: once a write of `value` under `key` has been appended, a
/// read of `key` answers with exactly `value`, whatever the log held before.
pub proof fn lemma_read_after_write(
    log: Seq<(u64, CommandView)>,
    term: u64,
    key: Seq<char>,
    value: Seq<u8>,
    answer: Frame,
)
    requires
        read_answer(log.push((term, CommandView::SetCmd { key, value })), key, answer),
    ensures
        answer is Bulk,
        answer->Bulk_0@ == value,
{
    assert(log.push((term, CommandView::SetCmd { key, value })).last() == (term, CommandView::SetCmd { key, value }));
}

} // verus!

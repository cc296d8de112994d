//! Log records, handed to the shell a line at a time. Before the shell logs,
//! or with no shell at all, they go to stderr.

use vstd::prelude::*;

verus! {

/// How bad a record is.
#[derive(Clone, Copy, Debug, PartialEq, Eq, Structural)]
pub enum Level {
    Error,
    Warn,
    Info,
    Debug,
    Trace,
}

/// The shell's levels.
#[derive(Clone, Copy, Debug, PartialEq, Eq, Structural)]
pub enum IhsLevel {
    Error,
    Warn,
    Info,
    Debug,
    Verbose,
}

/// The shell's level for a record's.
pub open spec fn shell_level(level: Level) -> IhsLevel {
    match level {
        Level::Error => IhsLevel::Error,
        Level::Warn => IhsLevel::Warn,
        Level::Info => IhsLevel::Info,
        Level::Debug => IhsLevel::Debug,
        Level::Trace => IhsLevel::Verbose,
    }
}

/// The shell's level for a record's.
pub fn ihs_level(level: Level) -> (l: IhsLevel)
    ensures
        l == shell_level(level),
{
    match level {
        Level::Error => IhsLevel::Error,
        Level::Warn => IhsLevel::Warn,
        Level::Info => IhsLevel::Info,
        Level::Debug => IhsLevel::Debug,
        Level::Trace => IhsLevel::Verbose,
    }
}

/// A record being written.
#[derive(Debug)]
pub struct Line {
    pub level: IhsLevel,
    pub buf: Vec<u8>,
}

/// Where a finished line goes.
#[derive(Clone, Copy, Debug, PartialEq, Eq, Structural)]
pub enum Sink {
    Nowhere,
    Shell,
    Stderr,
}

/// ASCII white space: space, tab, line feed, form feed, carriage return.
pub open spec fn blank(b: u8) -> bool {
    b == 0x20 || b == 0x09 || b == 0x0a || b == 0x0c || b == 0x0d
}

/// `text` without the white space it ends in.
pub open spec fn trimmed(text: Seq<u8>) -> Seq<u8>
    decreases text.len(),
{
    if text.len() > 0 && blank(text.last()) {
        trimmed(text.drop_last())
    } else {
        text
    }
}

impl Line {
    pub fn new(level: Level) -> (line: Line)
        ensures
            line.buf@ == Seq::<u8>::empty(),
            line.level == shell_level(level),
    {
        Line { level: ihs_level(level), buf: Vec::new() }
    }

    /// Add `data` to the record: all of it is taken.
    pub fn write(&mut self, data: &[u8]) -> (n: usize)
        ensures
            final(self).buf@ == old(self).buf@ + data@,
            final(self).level == old(self).level,
            n == data@.len(),
    {
        self.buf.extend_from_slice(data);
        assert(self.buf@ == old(self).buf@ + data@);
        data.len()
    }

    /// The record is finished: its text, without the white space it ends in.
    pub fn text(&self) -> (text: &[u8])
        ensures
            text@ == trimmed(self.buf@),
    {
        let mut n: usize = self.buf.len();
        assert(self.buf@.take(n as int) == self.buf@);
        while n > 0 && is_blank(self.buf[n - 1])
            invariant
                n <= self.buf.len(),
                trimmed(self.buf@) == trimmed(self.buf@.take(n as int)),
            decreases n,
        {
            assert(self.buf@.take(n as int).drop_last() == self.buf@.take(n - 1));
            n -= 1;
        }
        let text = vstd::slice::slice_subrange(self.buf.as_slice(), 0, n);
        assert(self.buf@.subrange(0, n as int) == self.buf@.take(n as int));
        text
    }

    /// Where the finished record goes: nothing is logged for a blank one, and
    /// one the shell does not take goes to stderr. `sent` is whether the
    /// shell took it.
    pub fn sink(&self, sent: bool) -> (sink: Sink)
        ensures
            sink == if trimmed(self.buf@).len() == 0 {
                Sink::Nowhere
            } else if sent {
                Sink::Shell
            } else {
                Sink::Stderr
            },
    {
        if self.text().len() == 0 {
            Sink::Nowhere
        } else if sent {
            Sink::Shell
        } else {
            Sink::Stderr
        }
    }
}

fn is_blank(b: u8) -> (yes: bool)
    ensures
        yes == blank(b),
{
    b == 0x20 || b == 0x09 || b == 0x0a || b == 0x0c || b == 0x0d
}

/// Each level goes to the shell's of that name, the finest to its most verbose.
pub proof fn levels_go_by_name()
    ensures
        shell_level(Level::Error) == IhsLevel::Error,
        shell_level(Level::Warn) == IhsLevel::Warn,
        shell_level(Level::Info) == IhsLevel::Info,
        shell_level(Level::Debug) == IhsLevel::Debug,
        shell_level(Level::Trace) == IhsLevel::Verbose,
{
}

/// What is logged is how the record begins, up to its last byte that is not
/// white space; only white space is left out.
pub proof fn only_trailing_space_is_left_out(text: Seq<u8>)
    ensures
        trimmed(text).is_prefix_of(text),
        trimmed(text).len() > 0 ==> {
            let last = trimmed(text).last();
            last != 0x20 && last != 0x09 && last != 0x0a && last != 0x0c && last != 0x0d
        },
        forall|i: int|
            trimmed(text).len() <= i < text.len() ==> (#[trigger] text[i] == 0x20 || text[i]
                == 0x09 || text[i] == 0x0a || text[i] == 0x0c || text[i] == 0x0d),
    decreases text.len(),
{
    if text.len() > 0 && blank(text.last()) {
        only_trailing_space_is_left_out(text.drop_last());
        assert forall|i: int| trimmed(text).len() <= i < text.len() implies (#[trigger] text[i]
            == 0x20 || text[i] == 0x09 || text[i] == 0x0a || text[i] == 0x0c || text[i]
            == 0x0d) by {
            if i < text.len() - 1 {
                assert(text.drop_last()[i] == text[i]);
            }
        }
    }
}

} // verus!

//! The log: one line for each change of state, and two generations of it.
use vstd::prelude::*;

use crate::power;
use crate::power::LocalTime;

verus! {

/// Above this size the log is moved aside.
pub const MAX_SIZE: u64 = 0x10_0000;

/// Above this size the log is emptied where it cannot be moved aside, so that it does not
/// grow without end.
pub const HARD_CAP: u64 = 0x40_0000;

/// A line of the log: the time, two spaces, the message.
pub open spec fn line_of(now: LocalTime, msg: Seq<char>) -> Seq<char> {
    now.stamp() + "  "@ + msg + "\n"@
}

/// The line of an event. It is written in one go, so that lines of two writers never mix.
pub fn event(now: LocalTime, msg: &str) -> (line: String)
    ensures
        line@ == line_of(now, msg@),
{
    let mut line = power::now_local(now);
    line.append("  ");
    line.append(msg);
    line.append("\n");
    line
}

/// What to do with the log before a line is added.
#[derive(Clone, Copy, Debug, PartialEq, Eq, Structural)]
pub enum Rotation {
    /// Add to it.
    Keep,
    /// Move it aside first.
    Rename,
    /// Empty it first.
    Truncate,
}

/// What to do with a log of a size; one that is not there has none.
pub open spec fn rotation(size: Option<u64>) -> Rotation {
    match size {
        Some(n) => if n > MAX_SIZE {
            Rotation::Rename
        } else {
            Rotation::Keep
        },
        None => Rotation::Keep,
    }
}

pub fn rotate_if_needed(size: Option<u64>) -> (r: Rotation)
    ensures
        r == rotation(size),
{
    match size {
        Some(n) => if n > MAX_SIZE {
            Rotation::Rename
        } else {
            Rotation::Keep
        },
        None => Rotation::Keep,
    }
}

/// What to do with a log that could not be moved aside.
pub open spec fn fallback(size: u64) -> Rotation {
    if size > HARD_CAP {
        Rotation::Truncate
    } else {
        Rotation::Keep
    }
}

/// A log is added to up to a mebibyte and moved aside above; one that is not there is
/// begun.
pub proof fn law_logs_are_moved_aside_above_a_mebibyte(size: u64)
    ensures
        size <= 1024 * 1024 ==> rotation(Some(size)) == Rotation::Keep,
        size > 1024 * 1024 ==> rotation(Some(size)) == Rotation::Rename,
        rotation(None) == Rotation::Keep,
{
}

/// A log that cannot be moved aside is emptied above four mebibytes and not before, so that
/// none grows without end and none is lost early.
pub proof fn law_logs_do_not_grow_without_end(size: u64)
    ensures
        size <= 4 * 1024 * 1024 ==> fallback(size) == Rotation::Keep,
        size > 4 * 1024 * 1024 ==> fallback(size) == Rotation::Truncate,
{
}

/// A line begins with its time and ends in one line feed, with the whole message between.
pub proof fn law_lines_hold_the_message(now: LocalTime, msg: Seq<char>)
    ensures
        ({
            let line = line_of(now, msg);
            let n = now.stamp().len() as int;
            &&& line.len() == n + 2 + msg.len() + 1
            &&& line.take(n) == now.stamp()
            &&& line.subrange(n + 2, n + 2 + msg.len()) == msg
            &&& line.last() == '\n'
            &&& line[n] == ' ' && line[n + 1] == ' '
        }),
{
    reveal_strlit("  ");
    reveal_strlit("\n");
    let line = line_of(now, msg);
    let n = now.stamp().len() as int;
    assert(line.take(n) == now.stamp());
    assert(line.subrange(n + 2, n + 2 + msg.len()) == msg);
}

/// What to do with a log that could not be moved aside.
pub fn after_failed_rename(size: u64) -> (r: Rotation)
    ensures
        r == if size > HARD_CAP {
            Rotation::Truncate
        } else {
            Rotation::Keep
        },
        r == fallback(size),
{
    if size > HARD_CAP {
        Rotation::Truncate
    } else {
        Rotation::Keep
    }
}

} // verus!

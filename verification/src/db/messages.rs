//! Records of messages.

use vstd::prelude::*;

use crate::util::text::same_text;

verus! {

/// Whether a private message came in or went out.
#[derive(Debug, Clone, Copy, PartialEq, Eq, Structural)]
pub enum Direction {
    In,
    Out,
}

/// A direction as it is written down.
pub open spec fn direction_text(d: Direction) -> Seq<char> {
    match d {
        Direction::In => "in"@,
        Direction::Out => "out"@,
    }
}

/// The direction that a text stands for: anything but `out` is read as in.
pub open spec fn direction_of(s: Seq<char>) -> Direction {
    if s == "out"@ {
        Direction::Out
    } else {
        Direction::In
    }
}

impl Direction {
    /// The direction as it is written down.
    pub fn as_str(&self) -> (r: &'static str)
        ensures
            r@ == direction_text(*self),
    {
        match self {
            Direction::In => "in",
            Direction::Out => "out",
        }
    }

    /// The direction that a text stands for.
    pub fn from_str(s: &str) -> (r: Direction)
        ensures
            r == direction_of(s@),
    {
        if same_text(s, "out") {
            Direction::Out
        } else {
            Direction::In
        }
    }
}

/// A direction that is written down is read back.
pub proof fn law_direction_reads_back(d: Direction)
    ensures
        direction_of(direction_text(d)) == d,
{
    reveal_strlit("in");
    reveal_strlit("out");
    assert("in"@.len() != "out"@.len());
}

/// A direction is written as `in` or `out`, and only what is written as `out` is read as out.
pub proof fn law_only_out_is_out(s: Seq<char>)
    ensures
        direction_text(Direction::In) == "in"@,
        direction_text(Direction::Out) == "out"@,
        direction_of(s) == Direction::Out <==> s == "out"@,
{
}

} // verus!

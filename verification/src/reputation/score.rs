//! How reputations change, and what they mean.
//!
//! Scores are fractions and are kept and compared elsewhere; here is what is counted, and
//! what follows from a comparison.

use vstd::prelude::*;

verus! {

/// How good a node's reputation is.
#[derive(Debug, Clone, Copy, PartialEq, Eq, Structural)]
pub enum ReputationLevel {
    /// Above the upper mark.
    High,
    /// From zero up to the upper mark.
    Normal,
    /// Below zero, but not below the lower mark.
    Low,
    /// Below the lower mark.
    Negative,
}

impl ReputationLevel {
    /// The level of a score: whether it is above the upper mark, at least zero, and at
    /// least the lower mark. Of what is no number none of these holds.
    pub fn from_comparisons(above_upper: bool, at_least_zero: bool, at_least_lower: bool) -> (r:
        ReputationLevel)
        ensures
            r == (if above_upper {
                ReputationLevel::High
            } else if at_least_zero {
                ReputationLevel::Normal
            } else if at_least_lower {
                ReputationLevel::Low
            } else {
                ReputationLevel::Negative
            }),
    {
        if above_upper {
            ReputationLevel::High
        } else if at_least_zero {
            ReputationLevel::Normal
        } else if at_least_lower {
            ReputationLevel::Low
        } else {
            ReputationLevel::Negative
        }
    }

    /// The level in words.
    pub fn display(&self) -> (r: &'static str)
        ensures
            r@ == (match *self {
                ReputationLevel::High => "High"@,
                ReputationLevel::Normal => "Normal"@,
                ReputationLevel::Low => "Low"@,
                ReputationLevel::Negative => "Negative"@,
            }),
    {
        match self {
            ReputationLevel::High => "High",
            ReputationLevel::Normal => "Normal",
            ReputationLevel::Low => "Low",
            ReputationLevel::Negative => "Negative",
        }
    }
}

/// What is added to a score directly.
#[derive(Debug, Clone, Copy, PartialEq, Eq, Structural)]
pub enum Bonus {
    Nothing,
    /// For help to a new node.
    Assist,
    /// For complaints, to the node's disadvantage.
    ReportPenalty,
}

/// What is added to a node's counts.
#[derive(Debug, Clone, Copy, PartialEq, Eq, Structural)]
pub struct ReputationDelta {
    pub upload_bytes: i64,
    pub download_bytes: i64,
    pub valid_chunks_sent: i64,
    pub bad_chunks_sent: i64,
    pub spam_strikes: i64,
    pub uptime_seconds: i64,
    pub bonus: Bonus,
}

/// No change.
pub open spec fn no_change() -> ReputationDelta {
    ReputationDelta {
        upload_bytes: 0,
        download_bytes: 0,
        valid_chunks_sent: 0,
        bad_chunks_sent: 0,
        spam_strikes: 0,
        uptime_seconds: 0,
        bonus: Bonus::Nothing,
    }
}

impl ReputationDelta {
    /// No change.
    pub fn none() -> (r: ReputationDelta)
        ensures
            r == no_change(),
    {
        ReputationDelta {
            upload_bytes: 0,
            download_bytes: 0,
            valid_chunks_sent: 0,
            bad_chunks_sent: 0,
            spam_strikes: 0,
            uptime_seconds: 0,
            bonus: Bonus::Nothing,
        }
    }

    /// For a chunk that is what its hash says.
    pub fn valid_chunk(size_bytes: i64) -> (r: ReputationDelta)
        ensures
            r == (ReputationDelta {
                upload_bytes: size_bytes,
                valid_chunks_sent: 1,
                ..no_change()
            }),
    {
        let mut d: ReputationDelta = ReputationDelta::none();
        d.upload_bytes = size_bytes;
        d.valid_chunks_sent = 1;
        d
    }

    /// For a chunk that is not what its hash says.
    pub fn bad_chunk() -> (r: ReputationDelta)
        ensures
            r == (ReputationDelta { bad_chunks_sent: 1, ..no_change() }),
    {
        let mut d: ReputationDelta = ReputationDelta::none();
        d.bad_chunks_sent = 1;
        d
    }

    /// For sending too often.
    pub fn spam_strike() -> (r: ReputationDelta)
        ensures
            r == (ReputationDelta { spam_strikes: 1, ..no_change() }),
    {
        let mut d: ReputationDelta = ReputationDelta::none();
        d.spam_strikes = 1;
        d
    }

    /// For time in the network.
    pub fn uptime(seconds: i64) -> (r: ReputationDelta)
        ensures
            r == (ReputationDelta { uptime_seconds: seconds, ..no_change() }),
    {
        let mut d: ReputationDelta = ReputationDelta::none();
        d.uptime_seconds = seconds;
        d
    }

    /// For a direct bonus.
    pub fn bonus(bonus: Bonus) -> (r: ReputationDelta)
        ensures
            r == (ReputationDelta { bonus, ..no_change() }),
    {
        let mut d: ReputationDelta = ReputationDelta::none();
        d.bonus = bonus;
        d
    }
}

/// No change adds nothing to any count.
pub proof fn law_no_change_adds_nothing()
    ensures
        no_change().upload_bytes == 0,
        no_change().download_bytes == 0,
        no_change().valid_chunks_sent == 0,
        no_change().bad_chunks_sent == 0,
        no_change().spam_strikes == 0,
        no_change().uptime_seconds == 0,
        no_change().bonus == Bonus::Nothing,
{
}

} // verus!

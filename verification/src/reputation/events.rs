//! What happens that matters to a node's reputation.

use vstd::prelude::*;

use crate::network::rate_limit::NANOS_PER_SEC;
use crate::node::identity::{lists_names, NodeId};
use crate::reputation::score::{no_change, Bonus, ReputationDelta, ReputationLevel};
use crate::util::table::Table;

verus! {

/// The seconds after which nodes that are there get credit for it.
pub const UPTIME_TICK_SECS: i64 = 60;

/// For how long a node with a negative reputation is blocked, in nanoseconds.
pub const NEGATIVE_BLOCK_NANOS: u64 = 600_000_000_000;

/// Something that matters to a node's reputation.
#[derive(Debug, Clone, PartialEq, Eq)]
pub enum ReputationEvent {
    /// It has sent a chunk that is what its hash says.
    ValidChunk { peer_id: NodeId, size_bytes: i64 },
    /// It has sent one that is not.
    BadChunk { peer_id: NodeId },
    /// It sends too often.
    SpamStrike { peer_id: NodeId },
    /// It has helped a new node into the network.
    BootstrapAssist { peer_id: NodeId },
    /// It has connected.
    PeerConnected { peer_id: NodeId },
    /// It is gone.
    PeerDisconnected { peer_id: NodeId },
}

/// What is done about it.
#[derive(Debug, PartialEq, Eq)]
pub enum ReputationStep {
    /// The change is recorded. Where `check_level` is set, the node's level is looked at
    /// afterwards.
    Record { peer_id: NodeId, delta: ReputationDelta, check_level: bool },
    /// A record is made for the node, if there is none.
    Open { peer_id: NodeId },
    /// Nothing.
    Ignore,
}

/// The nodes that are connected, with the time since when.
pub struct EventProcessor {
    online_since: Table<u64>,
}

impl View for EventProcessor {
    type V = Map<Seq<char>, u64>;

    closed spec fn view(&self) -> Map<Seq<char>, u64> {
        self.online_since@
    }
}

/// The whole seconds since a time.
pub open spec fn uptime_since(since: u64, now: u64) -> i64 {
    if now > since {
        ((now - since) / NANOS_PER_SEC as int) as i64
    } else {
        0
    }
}

impl EventProcessor {
    /// Nobody is connected.
    pub fn new() -> (r: EventProcessor)
        ensures
            r@ == Map::<Seq<char>, u64>::empty(),
    {
        EventProcessor { online_since: Table::new() }
    }

    /// Takes an event. Chunks, strikes and help are recorded; after a bad chunk and after
    /// a strike the node's level is looked at. For a node that has connected a record is
    /// made, and when it is gone it gets credit for the time between.
    pub fn process(&mut self, event: ReputationEvent, now: u64) -> (r: ReputationStep)
        ensures
            final(self)@ == (match event {
                ReputationEvent::PeerConnected { peer_id } => old(self)@.insert(peer_id@, now),
                ReputationEvent::PeerDisconnected { peer_id } => old(self)@.remove(peer_id@),
                _ => old(self)@,
            }),
            match event {
                ReputationEvent::ValidChunk { peer_id, size_bytes } => r
                    == (ReputationStep::Record {
                    peer_id,
                    delta: ReputationDelta {
                        upload_bytes: size_bytes,
                        valid_chunks_sent: 1,
                        ..no_change()
                    },
                    check_level: false,
                }),
                ReputationEvent::BadChunk { peer_id } => r == (ReputationStep::Record {
                    peer_id,
                    delta: ReputationDelta { bad_chunks_sent: 1, ..no_change() },
                    check_level: true,
                }),
                ReputationEvent::SpamStrike { peer_id } => r == (ReputationStep::Record {
                    peer_id,
                    delta: ReputationDelta { spam_strikes: 1, ..no_change() },
                    check_level: true,
                }),
                ReputationEvent::BootstrapAssist { peer_id } => r == (ReputationStep::Record {
                    peer_id,
                    delta: ReputationDelta { bonus: Bonus::Assist, ..no_change() },
                    check_level: false,
                }),
                ReputationEvent::PeerConnected { peer_id } => r == (ReputationStep::Open {
                    peer_id,
                }),
                ReputationEvent::PeerDisconnected { peer_id } => if old(self)@.contains_key(
                    peer_id@,
                ) {
                    r == (ReputationStep::Record {
                        peer_id,
                        delta: ReputationDelta {
                            uptime_seconds: uptime_since(old(self)@[peer_id@], now),
                            ..no_change()
                        },
                        check_level: false,
                    })
                } else {
                    r == ReputationStep::Ignore
                },
            },
    {
        match event {
            ReputationEvent::ValidChunk { peer_id, size_bytes } => ReputationStep::Record {
                peer_id,
                delta: ReputationDelta::valid_chunk(size_bytes),
                check_level: false,
            },
            ReputationEvent::BadChunk { peer_id } => ReputationStep::Record {
                peer_id,
                delta: ReputationDelta::bad_chunk(),
                check_level: true,
            },
            ReputationEvent::SpamStrike { peer_id } => ReputationStep::Record {
                peer_id,
                delta: ReputationDelta::spam_strike(),
                check_level: true,
            },
            ReputationEvent::BootstrapAssist { peer_id } => ReputationStep::Record {
                peer_id,
                delta: ReputationDelta::bonus(Bonus::Assist),
                check_level: false,
            },
            ReputationEvent::PeerConnected { peer_id } => {
                self.online_since.insert(peer_id.0.clone(), now);
                ReputationStep::Open { peer_id }
            },
            ReputationEvent::PeerDisconnected { peer_id } => {
                match self.online_since.remove(peer_id.as_str()) {
                    Some(since) => {
                        let seconds: i64 = if now > since {
                            ((now - since) / NANOS_PER_SEC) as i64
                        } else {
                            0
                        };
                        ReputationStep::Record {
                            peer_id,
                            delta: ReputationDelta::uptime(seconds),
                            check_level: false,
                        }
                    },
                    None => ReputationStep::Ignore,
                }
            },
        }
    }

    /// The nodes that are connected: they get credit at every tick.
    pub fn online(&self) -> (r: Vec<NodeId>)
        ensures
            lists_names(r@, self@.dom()),
    {
        let n: usize = self.online_since.len();
        let ghost names = self.online_since.names();
        let mut out: Vec<NodeId> = Vec::new();
        let mut i: usize = 0;
        while i < n
            invariant
                i <= n,
                n == names.len(),
                names == self.online_since.names(),
                out@.len() == i,
                forall|j: int| 0 <= j < i ==> (#[trigger] out@[j])@ == names[j],
            decreases n - i,
        {
            out.push(NodeId(self.online_since.name_at(i).clone()));
            i = i + 1;
        }
        proof {
            assert forall|j: int| 0 <= j < out@.len() implies self@.dom().contains(
                (#[trigger] out@[j])@,
            ) by {
                assert(names.contains(names[j]));
                assert(names.to_set().contains(names[j]));
            }
            assert forall|k: Seq<char>| #[trigger] self@.dom().contains(k) implies exists|j: int|
                0 <= j < out@.len() && (#[trigger] out@[j])@ == k by {
                assert(names.to_set().contains(k));
                let j: int = choose|j: int| 0 <= j < names.len() && names[j] == k;
                assert(out@[j]@ == k);
            }
        }
        out
    }
}

/// For how long a node is blocked after its level was looked at: ten minutes if it is
/// negative, else not at all.
pub fn block_for_level(level: ReputationLevel) -> (r: Option<u64>)
    ensures
        r == (if level == ReputationLevel::Negative {
            Some(NEGATIVE_BLOCK_NANOS)
        } else {
            None
        }),
{
    match level {
        ReputationLevel::Negative => Some(NEGATIVE_BLOCK_NANOS),
        _ => None,
    }
}

/// Time in the network is counted in whole seconds: as many as fit, and none where the clock
/// has not gone on.
pub proof fn law_uptime_is_whole_seconds(since: u64, now: u64)
    ensures
        now <= since ==> uptime_since(since, now) == 0,
        now >= since ==> 1_000_000_000 * uptime_since(since, now) <= now - since < 1_000_000_000 * (
        uptime_since(since, now) + 1),
{
}

/// Credit for being there comes every minute, and a node with a negative reputation is
/// blocked for ten.
pub proof fn law_times_of_reputation()
    ensures
        UPTIME_TICK_SECS == 60,
        NEGATIVE_BLOCK_NANOS == 10 * 60 * 1_000_000_000,
{
}

} // verus!

//! A limit on how often a node may send. Who goes over it again and again is blocked
//! for a while.
//!
//! Times are nanoseconds of a clock that never goes back. Whether a node has a token
//! left is measured by the caller; what follows from it is decided here.

use vstd::prelude::*;

use crate::node::identity::NodeId;
use crate::node::manifest::{has_node, node_names};
use crate::util::table::{name_set, Table};

verus! {

/// How many messages a node may send in a second.
pub const DEFAULT_RATE: u32 = 20;

/// How many it may send at once.
pub const DEFAULT_BURST: u32 = 50;

/// After how many seconds without a new strike the strikes are forgotten.
pub const STRIKE_RESET_SECS: u64 = 300;

/// How many strikes lead to a block.
pub const MAX_STRIKES_BEFORE_BLOCK: u32 = 3;

/// The nanoseconds of a second.
pub const NANOS_PER_SEC: u64 = 1_000_000_000;

/// For how long a block lasts, in nanoseconds.
pub const TEMP_BLOCK_NANOS: u64 = 60_000_000_000;

/// What a node has on its record.
#[derive(Debug, Clone, Copy, PartialEq, Eq, Structural)]
pub struct TokenBucket {
    /// How often it went over the limit.
    pub strikes: u32,
    /// When it last did, in the current series.
    pub last_strike_at: Option<u64>,
    /// Until when it is blocked.
    pub blocked_until: Option<u64>,
}

/// The record of a node that has done nothing yet.
pub open spec fn clean() -> TokenBucket {
    TokenBucket { strikes: 0, last_strike_at: None, blocked_until: None }
}

/// How many whole seconds have gone by.
pub open spec fn seconds_between(from: u64, to: u64) -> int {
    if to <= from {
        0
    } else {
        (to - from) / NANOS_PER_SEC as int
    }
}

impl TokenBucket {
    /// Whether the record is one that can come about: three strikes come with a block.
    pub open spec fn valid(&self) -> bool {
        &&& self.strikes <= MAX_STRIKES_BEFORE_BLOCK
        &&& self.strikes == MAX_STRIKES_BEFORE_BLOCK ==> self.blocked_until is Some
    }

    /// Whether the node is blocked.
    pub open spec fn blocked_at(&self, now: u64) -> bool {
        self.blocked_until matches Some(t) && now < t
    }

    /// The record after the end of a block, and without strikes after which the node kept
    /// to the limit for long enough.
    pub open spec fn refreshed(&self, now: u64) -> TokenBucket {
        if self.blocked_until is Some {
            clean()
        } else if self.last_strike_at matches Some(last) && seconds_between(last, now)
            > STRIKE_RESET_SECS {
            TokenBucket { strikes: 0, last_strike_at: None, ..*self }
        } else {
            *self
        }
    }

    /// The record with one more strike. The third one blocks the node for a minute.
    pub open spec fn struck(&self, now: u64) -> TokenBucket {
        let strikes = (self.strikes + 1) as u32;
        TokenBucket {
            strikes,
            last_strike_at: Some(now),
            blocked_until: if strikes >= MAX_STRIKES_BEFORE_BLOCK {
                Some((now + TEMP_BLOCK_NANOS) as u64)
            } else {
                self.blocked_until
            },
        }
    }

    /// The record of a node that is blocked by hand.
    pub open spec fn blocked_for(&self, now: u64, duration: u64) -> TokenBucket {
        TokenBucket { blocked_until: Some((now + duration) as u64), ..*self }
    }

    /// The record of a node whose block is ended by hand.
    pub open spec fn unblocked(&self) -> TokenBucket {
        TokenBucket { blocked_until: None, strikes: 0, ..*self }
    }

    /// The record after a message: one of a blocked node changes nothing; else one
    /// without a token is a strike.
    pub open spec fn after_message(&self, now: u64, has_token: bool) -> TokenBucket {
        if self.blocked_at(now) {
            *self
        } else if has_token {
            self.refreshed(now)
        } else {
            self.refreshed(now).struck(now)
        }
    }

    /// A clean record.
    pub fn new() -> (r: TokenBucket)
        ensures
            r == clean(),
            r.valid(),
    {
        TokenBucket { strikes: 0, last_strike_at: None, blocked_until: None }
    }

    /// Takes a message, if the node is not blocked and has a token left.
    pub fn try_consume(&mut self, now: u64, has_token: bool) -> (r: bool)
        requires
            old(self).valid(),
            now <= u64::MAX - TEMP_BLOCK_NANOS,
        ensures
            r == (!old(self).blocked_at(now) && has_token),
            *final(self) == old(self).after_message(now, has_token),
            final(self).valid(),
    {
        if let Some(until) = self.blocked_until {
            if now < until {
                return false;
            }
            self.blocked_until = None;
            self.strikes = 0;
            self.last_strike_at = None;
        }
        if let Some(last) = self.last_strike_at {
            let gone: u64 = if now > last {
                (now - last) / NANOS_PER_SEC
            } else {
                0
            };
            if gone > STRIKE_RESET_SECS {
                self.strikes = 0;
                self.last_strike_at = None;
            }
        }
        if has_token {
            return true;
        }
        self.strikes = self.strikes + 1;
        self.last_strike_at = Some(now);
        if self.strikes >= MAX_STRIKES_BEFORE_BLOCK {
            self.blocked_until = Some(now + TEMP_BLOCK_NANOS);
        }
        false
    }

    /// Whether the node is blocked.
    pub fn is_blocked(&self, now: u64) -> (r: bool)
        ensures
            r == self.blocked_at(now),
    {
        match self.blocked_until {
            Some(t) => now < t,
            None => false,
        }
    }

    /// For how many more whole seconds the node is blocked.
    pub fn block_remaining_secs(&self, now: u64) -> (r: Option<u64>)
        ensures
            r == (match self.blocked_until {
                Some(t) => if now < t {
                    Some(((t - now) / NANOS_PER_SEC as int) as u64)
                } else {
                    None
                },
                None => None,
            }),
    {
        match self.blocked_until {
            Some(t) => if now < t {
                Some((t - now) / NANOS_PER_SEC)
            } else {
                None
            },
            None => None,
        }
    }
}

/// The records of all nodes.
pub struct RateLimiter {
    buckets: Table<TokenBucket>,
    rate: u32,
    burst: u32,
}

impl View for RateLimiter {
    type V = Map<Seq<char>, TokenBucket>;

    closed spec fn view(&self) -> Map<Seq<char>, TokenBucket> {
        self.buckets@
    }
}

/// The names that are not in a list.
pub open spec fn names_outside(
    m: Map<Seq<char>, TokenBucket>,
    kept: Seq<Seq<char>>,
) -> Set<Seq<char>> {
    Set::new(|k: Seq<char>| m.contains_key(k) && !kept.contains(k))
}

impl RateLimiter {
    #[verifier::type_invariant]
    spec fn records_valid(&self) -> bool {
        forall|k: Seq<char>| #[trigger] self.buckets@.contains_key(k) ==> self.buckets@[k].valid()
    }

    /// How many messages a node may send in a second.
    pub closed spec fn rate_limit(&self) -> u32 {
        self.rate
    }

    /// How many messages a node may send at once.
    pub closed spec fn burst_limit(&self) -> u32 {
        self.burst
    }

    /// The record of a node, which is clean where there is none.
    pub open spec fn record(&self, peer: Seq<char>) -> TokenBucket {
        if self@.contains_key(peer) {
            self@[peer]
        } else {
            clean()
        }
    }

    /// A limiter with the usual limits.
    pub fn new() -> (r: RateLimiter)
        ensures
            r@ == Map::<Seq<char>, TokenBucket>::empty(),
            r.rate_limit() == DEFAULT_RATE,
            r.burst_limit() == DEFAULT_BURST,
    {
        RateLimiter::with_limits(DEFAULT_RATE, DEFAULT_BURST)
    }

    /// A limiter with the given limits.
    pub fn with_limits(rate: u32, burst: u32) -> (r: RateLimiter)
        ensures
            r@ == Map::<Seq<char>, TokenBucket>::empty(),
            r.rate_limit() == rate,
            r.burst_limit() == burst,
    {
        RateLimiter { buckets: Table::new(), rate, burst }
    }

    /// How many messages a node may send in a second.
    pub fn rate(&self) -> (r: u32)
        ensures
            r == self.rate_limit(),
    {
        self.rate
    }

    /// How many messages a node may send at once.
    pub fn burst(&self) -> (r: u32)
        ensures
            r == self.burst_limit(),
    {
        self.burst
    }

    /// A copy of a node's record, which is clean where there is none.
    fn record_of(&self, peer_id: &NodeId) -> (r: TokenBucket)
        ensures
            r == self.record(peer_id@),
            r.valid(),
    {
        proof {
            use_type_invariant(self);
        }
        match self.buckets.get(peer_id.as_str()) {
            Some(b) => *b,
            None => TokenBucket::new(),
        }
    }

    /// Sets a node's record.
    fn set_record(&mut self, peer_id: &NodeId, bucket: TokenBucket)
        requires
            bucket.valid(),
        ensures
            final(self)@ == old(self)@.insert(peer_id@, bucket),
            final(self).rate_limit() == old(self).rate_limit(),
            final(self).burst_limit() == old(self).burst_limit(),
    {
        proof {
            use_type_invariant(&*self);
        }
        let mut buckets: Table<TokenBucket> = Table::new();
        std::mem::swap(&mut buckets, &mut self.buckets);
        buckets.insert(peer_id.0.clone(), bucket);
        self.buckets = buckets;
    }

    /// Whether a message of a node goes through: not if the node is blocked, nor if it
    /// has no token left.
    pub fn check(&mut self, peer_id: &NodeId, now: u64, has_token: bool) -> (r: bool)
        requires
            now <= u64::MAX - TEMP_BLOCK_NANOS,
        ensures
            r == (!old(self).record(peer_id@).blocked_at(now) && has_token),
            final(self)@ == old(self)@.insert(
                peer_id@,
                old(self).record(peer_id@).after_message(now, has_token),
            ),
            final(self).rate_limit() == old(self).rate_limit(),
            final(self).burst_limit() == old(self).burst_limit(),
    {
        let mut bucket: TokenBucket = self.record_of(peer_id);
        let r: bool = bucket.try_consume(now, has_token);
        self.set_record(peer_id, bucket);
        r
    }

    /// Blocks a node for a while.
    pub fn block_peer(&mut self, peer_id: &NodeId, now: u64, duration: u64)
        requires
            now + duration <= u64::MAX,
        ensures
            final(self)@ == old(self)@.insert(
                peer_id@,
                old(self).record(peer_id@).blocked_for(now, duration),
            ),
            final(self).rate_limit() == old(self).rate_limit(),
            final(self).burst_limit() == old(self).burst_limit(),
    {
        let mut bucket: TokenBucket = self.record_of(peer_id);
        bucket.blocked_until = Some(now + duration);
        self.set_record(peer_id, bucket);
    }

    /// Ends the block of a node, and forgets its strikes.
    pub fn unblock_peer(&mut self, peer_id: &NodeId)
        ensures
            final(self)@ == (if old(self)@.contains_key(peer_id@) {
                old(self)@.insert(peer_id@, old(self)@[peer_id@].unblocked())
            } else {
                old(self)@
            }),
            final(self).rate_limit() == old(self).rate_limit(),
            final(self).burst_limit() == old(self).burst_limit(),
    {
        if self.buckets.contains(peer_id.as_str()) {
            let mut bucket: TokenBucket = self.record_of(peer_id);
            bucket.blocked_until = None;
            bucket.strikes = 0;
            self.set_record(peer_id, bucket);
        }
    }

    /// Whether a node is blocked.
    pub fn is_blocked(&self, peer_id: &NodeId, now: u64) -> (r: bool)
        ensures
            r == self.record(peer_id@).blocked_at(now),
    {
        self.record_of(peer_id).is_blocked(now)
    }

    /// How many strikes a node has.
    pub fn strikes(&self, peer_id: &NodeId) -> (r: u32)
        ensures
            r == self.record(peer_id@).strikes,
    {
        self.record_of(peer_id).strikes
    }

    /// For how many more whole seconds a node is blocked.
    pub fn block_remaining_secs(&self, peer_id: &NodeId, now: u64) -> (r: Option<u64>)
        ensures
            r == (match self.record(peer_id@).blocked_until {
                Some(t) => if now < t {
                    Some(((t - now) / NANOS_PER_SEC as int) as u64)
                } else {
                    None
                },
                None => None,
            }),
    {
        self.record_of(peer_id).block_remaining_secs(now)
    }

    /// Forgets a node.
    pub fn remove_peer(&mut self, peer_id: &NodeId)
        ensures
            final(self)@ == old(self)@.remove(peer_id@),
            final(self).rate_limit() == old(self).rate_limit(),
            final(self).burst_limit() == old(self).burst_limit(),
    {
        proof {
            use_type_invariant(&*self);
        }
        let mut buckets: Table<TokenBucket> = Table::new();
        std::mem::swap(&mut buckets, &mut self.buckets);
        buckets.remove(peer_id.as_str());
        self.buckets = buckets;
    }

    /// Forgets all nodes that are not connected.
    pub fn cleanup(&mut self, connected_peers: &Vec<NodeId>)
        ensures
            final(self)@ == old(self)@.remove_keys(
                names_outside(old(self)@, node_names(connected_peers@)),
            ),
            final(self).rate_limit() == old(self).rate_limit(),
            final(self).burst_limit() == old(self).burst_limit(),
    {
        proof {
            use_type_invariant(&*self);
        }
        let ghost kept = node_names(connected_peers@);
        let mut gone: Vec<String> = Vec::new();
        let n: usize = self.buckets.len();
        let ghost names = self.buckets.names();
        let mut i: usize = 0;
        while i < n
            invariant
                i <= n,
                n == names.len(),
                names == self.buckets.names(),
                kept == node_names(connected_peers@),
                forall|k: Seq<char>| #[trigger]
                    name_set(gone@).contains(k) <==> names.take(i as int).contains(k)
                        && !kept.contains(k),
            decreases n - i,
        {
            let ghost g0 = gone@;
            let ghost t0 = names.take(i as int);
            let ghost t1 = names.take(i + 1);
            let name: NodeId = NodeId(self.buckets.name_at(i).clone());
            let stays: bool = has_node(connected_peers, &name);
            if !stays {
                gone.push(name.0);
            }
            proof {
                assert(t1 =~= t0.push(names[i as int]));
                assert forall|k: Seq<char>| #[trigger]
                    name_set(gone@).contains(k) <==> t1.contains(k) && !kept.contains(k) by {
                    if name_set(gone@).contains(k) {
                        let x: int = choose|x: int|
                            0 <= x < gone@.len() && #[trigger] gone@[x]@ == k;
                        if x < g0.len() {
                            assert(g0[x]@ == k);
                            assert(name_set(g0).contains(k));
                            let y: int = choose|y: int| 0 <= y < t0.len() && t0[y] == k;
                            assert(t1[y] == k);
                        } else {
                            assert(t1[i as int] == k);
                        }
                    }
                    if t1.contains(k) && !kept.contains(k) {
                        let y: int = choose|y: int| 0 <= y < t1.len() && t1[y] == k;
                        if y < i {
                            assert(t0[y] == k);
                            assert(name_set(g0).contains(k));
                            let x: int = choose|x: int|
                                0 <= x < g0.len() && #[trigger] g0[x]@ == k;
                            assert(gone@[x]@ == k);
                        } else {
                            assert(gone@[g0.len() as int]@ == k);
                        }
                    }
                }
            }
            i = i + 1;
        }
        proof {
            assert(names.take(i as int) =~= names);
            assert(name_set(gone@) =~= names_outside(self@, kept)) by {
                assert forall|k: Seq<char>| names.contains(k) <==> self@.contains_key(k) by {
                    assert(self.buckets@.dom().contains(k) <==> names.to_set().contains(k));
                }
            }
        }
        let mut buckets: Table<TokenBucket> = Table::new();
        std::mem::swap(&mut buckets, &mut self.buckets);
        buckets.remove_all(&gone);
        self.buckets = buckets;
    }
}

impl Default for RateLimiter {
    fn default() -> (r: RateLimiter)
        ensures
            r@ == Map::<Seq<char>, TokenBucket>::empty(),
            r.rate_limit() == DEFAULT_RATE,
            r.burst_limit() == DEFAULT_BURST,
    {
        RateLimiter::new()
    }
}

/// Three messages over the limit, each within the time for which the strike before it is
/// remembered, block a node for a minute, and no message goes through until then.
pub proof fn law_three_strikes_block(first: u64, second: u64, third: u64, later: u64)
    requires
        first <= second <= third,
        seconds_between(first, second) <= STRIKE_RESET_SECS,
        seconds_between(second, third) <= STRIKE_RESET_SECS,
        third <= u64::MAX - TEMP_BLOCK_NANOS,
        third <= later < third + TEMP_BLOCK_NANOS,
    ensures
        ({
            let b = clean().after_message(first, false).after_message(second, false).after_message(
                third,
                false,
            );
            &&& b.strikes == MAX_STRIKES_BEFORE_BLOCK
            &&& b.blocked_at(later)
            &&& b.after_message(later, true) == b
        }),
{
    let a = clean().after_message(first, false);
    assert(a == (TokenBucket { strikes: 1, last_strike_at: Some(first), blocked_until: None }));
    let b = a.after_message(second, false);
    assert(b == (TokenBucket { strikes: 2, last_strike_at: Some(second), blocked_until: None }));
}

/// A node that keeps to the limit for more than the time for which strikes are remembered
/// starts anew: its next message over the limit counts as the first.
pub proof fn law_strikes_are_forgotten(b: TokenBucket, last: u64, now: u64)
    requires
        b.blocked_until is None,
        b.last_strike_at == Some(last),
        seconds_between(last, now) > STRIKE_RESET_SECS,
    ensures
        b.after_message(now, true) == clean(),
        b.after_message(now, false) == clean().after_message(now, false),
        b.after_message(now, false).strikes == 1,
        !b.after_message(now, false).blocked_at(now),
{
}

/// When a block is over the record is clean again, whatever led to the block.
pub proof fn law_block_ends_clean(b: TokenBucket, until: u64, now: u64)
    requires
        b.blocked_until == Some(until),
        until <= now,
    ensures
        !b.blocked_at(now),
        b.after_message(now, true) == clean(),
{
}

/// A node that is blocked by hand stays blocked for the whole time, and no message of it
/// goes through; one that is unblocked is free at once, without strikes.
pub proof fn law_block_and_unblock(b: TokenBucket, now: u64, duration: u64, later: u64)
    requires
        now + duration <= u64::MAX,
        now <= later < now + duration,
    ensures
        b.blocked_for(now, duration).blocked_at(later),
        b.blocked_for(now, duration).after_message(later, true) == b.blocked_for(now, duration),
        !b.blocked_for(now, duration).unblocked().blocked_at(later),
        b.blocked_for(now, duration).unblocked().strikes == 0,
{
}

/// The usual limits: twenty messages in a second, fifty at once.
pub proof fn law_usual_limits()
    ensures
        DEFAULT_RATE == 20,
        DEFAULT_BURST == 50,
{
}

/// Whole seconds are counted: as many as fit in the time, and none where the clock has not
/// gone on.
pub proof fn law_whole_seconds_are_counted(from: u64, to: u64)
    ensures
        to <= from ==> seconds_between(from, to) == 0,
        from <= to ==> 1_000_000_000 * seconds_between(from, to) <= to - from < 1_000_000_000 * (
        seconds_between(from, to) + 1),
{
}

/// A node is blocked just as long as the end of its block has not come.
pub proof fn law_blocked_until_the_end(b: TokenBucket, now: u64)
    ensures
        b.blocked_until is None ==> !b.blocked_at(now),
        b.blocked_until matches Some(t) ==> (b.blocked_at(now) <==> now < t),
{
}

/// What a message does to a record. While the node is blocked, nothing. After a block, and
/// after more than three hundred whole seconds without a strike, what was on the record is
/// forgotten first. A message with a token then changes nothing more; one without is a strike
/// at that moment, and the third strike blocks the node for sixty seconds from then on.
pub proof fn law_record_after_a_message(b: TokenBucket, now: u64)
    requires
        b.strikes <= 3,
        now <= u64::MAX - 60_000_000_000,
    ensures
        b.blocked_until matches Some(t) ==> now < t ==> b.after_message(now, true) == b
            && b.after_message(now, false) == b,
        b.blocked_until matches Some(t) ==> now >= t ==> {
            &&& b.after_message(now, true) == (TokenBucket {
                strikes: 0,
                last_strike_at: None,
                blocked_until: None,
            })
            &&& b.after_message(now, false) == (TokenBucket {
                strikes: 1,
                last_strike_at: Some(now),
                blocked_until: None,
            })
        },
        b.blocked_until is None && (b.last_strike_at matches Some(l) && now >= l
            + 301_000_000_000) ==> {
            &&& b.after_message(now, true) == (TokenBucket {
                strikes: 0,
                last_strike_at: None,
                blocked_until: None,
            })
            &&& b.after_message(now, false) == (TokenBucket {
                strikes: 1,
                last_strike_at: Some(now),
                blocked_until: None,
            })
        },
        b.blocked_until is None && !(b.last_strike_at matches Some(l) && now >= l
            + 301_000_000_000) ==> {
            &&& b.after_message(now, true) == b
            &&& b.after_message(now, false).strikes == b.strikes + 1
            &&& b.after_message(now, false).last_strike_at == Some(now)
            &&& b.strikes < 2 ==> b.after_message(now, false).blocked_until is None
            &&& b.strikes >= 2 ==> b.after_message(now, false).blocked_until == Some(
                (now + 60_000_000_000) as u64,
            )
        },
{
}

/// A block by hand ends after the given time and changes nothing else of the record. The end
/// of a block by hand takes the strikes with it, and leaves the rest as it is.
pub proof fn law_blocks_by_hand(b: TokenBucket, now: u64, duration: u64)
    requires
        now + duration <= u64::MAX,
    ensures
        b.blocked_for(now, duration).blocked_until == Some((now + duration) as u64),
        b.blocked_for(now, duration).strikes == b.strikes,
        b.blocked_for(now, duration).last_strike_at == b.last_strike_at,
        b.unblocked().blocked_until is None,
        b.unblocked().strikes == 0,
        b.unblocked().last_strike_at == b.last_strike_at,
{
}

/// A node without a record is treated as one that has done nothing.
pub proof fn law_unknown_node_is_clean(l: RateLimiter, peer: Seq<char>)
    ensures
        l@.contains_key(peer) ==> l.record(peer) == l@[peer],
        !l@.contains_key(peer) ==> l.record(peer) == (TokenBucket {
            strikes: 0,
            last_strike_at: None,
            blocked_until: None,
        }),
{
}

/// Cleaning up keeps the records of connected nodes as they are, and no others.
pub proof fn law_cleanup_keeps_connected_nodes(
    m: Map<Seq<char>, TokenBucket>,
    connected: Seq<Seq<char>>,
    k: Seq<char>,
)
    ensures
        ({
            let left = m.remove_keys(names_outside(m, connected));
            &&& left.contains_key(k) <==> m.contains_key(k) && connected.contains(k)
            &&& left.contains_key(k) ==> left[k] == m[k]
        }),
{
}

/// Records that can come about have at most three strikes, and a block with the third. A clean
/// record is one of them, and every message and every block by hand leads from one to another.
pub proof fn law_records_that_can_come_about(
    b: TokenBucket,
    now: u64,
    has_token: bool,
    duration: u64,
)
    ensures
        b.valid() <==> b.strikes <= 3 && (b.strikes == 3 ==> b.blocked_until is Some),
        clean().valid(),
        b.valid() ==> b.after_message(now, has_token).valid(),
        b.valid() ==> b.blocked_for(now, duration).valid(),
        b.valid() ==> b.unblocked().valid(),
{
}

} // verus!

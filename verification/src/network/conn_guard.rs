//! A limit on connections at a time: in all, and from one address.

use vstd::prelude::*;

use crate::node::addr::IpAddr;

verus! {

/// Counts the connections that are open, and refuses those beyond its limits.
pub struct ConnLimiter {
    max_total: usize,
    max_per_ip: usize,
    total: usize,
    per_ip: Vec<(IpAddr, usize)>,
}

/// A slot that is taken by a connection. It is given back with `release`.
#[derive(Debug, PartialEq, Eq)]
pub struct ConnGuard {
    ip: IpAddr,
}

impl ConnGuard {
    /// The address that the connection came from.
    pub closed spec fn from(&self) -> IpAddr {
        self.ip
    }
}

/// The addresses of a list of counts.
spec fn ips(rows: Seq<(IpAddr, usize)>) -> Seq<IpAddr> {
    rows.map_values(|r: (IpAddr, usize)| r.0)
}

/// A limit, which is at least one.
pub open spec fn at_least_one(n: usize) -> usize {
    if n < 1 {
        1
    } else {
        n
    }
}

/// The sum of the counts of a list.
spec fn sum(rows: Seq<(IpAddr, usize)>) -> int
    decreases rows.len(),
{
    if rows.len() == 0 {
        0
    } else {
        sum(rows.drop_last()) + rows.last().1
    }
}

/// A changed row changes the sum by as much.
proof fn lemma_sum_update(rows: Seq<(IpAddr, usize)>, i: int, row: (IpAddr, usize))
    requires
        0 <= i < rows.len(),
    ensures
        sum(rows.update(i, row)) == sum(rows) - rows[i].1 + row.1,
    decreases rows.len(),
{
    let u = rows.update(i, row);
    if i == rows.len() - 1 {
        assert(u.drop_last() =~= rows.drop_last());
    } else {
        lemma_sum_update(rows.drop_last(), i, row);
        assert(u.drop_last() =~= rows.drop_last().update(i, row));
    }
}

/// A row that is taken out takes its count with it.
proof fn lemma_sum_remove(rows: Seq<(IpAddr, usize)>, i: int)
    requires
        0 <= i < rows.len(),
    ensures
        sum(rows.remove(i)) == sum(rows) - rows[i].1,
    decreases rows.len(),
{
    let u = rows.remove(i);
    if i == rows.len() - 1 {
        assert(u =~= rows.drop_last());
    } else {
        lemma_sum_remove(rows.drop_last(), i);
        assert(u.drop_last() =~= rows.drop_last().remove(i));
    }
}

/// One row counts no more than all.
proof fn lemma_sum_bounds(rows: Seq<(IpAddr, usize)>, i: int)
    requires
        0 <= i < rows.len(),
    ensures
        rows[i].1 <= sum(rows),
        0 <= sum(rows),
    decreases rows.len(),
{
    reveal_with_fuel(sum, 2);
    if i < rows.len() - 1 {
        lemma_sum_bounds(rows.drop_last(), i);
    } else if rows.len() > 1 {
        lemma_sum_bounds(rows.drop_last(), 0);
    }
}

impl ConnLimiter {
    #[verifier::type_invariant]
    spec fn within_limits(&self) -> bool {
        &&& 1 <= self.max_total
        &&& 1 <= self.max_per_ip
        &&& self.total <= self.max_total
        &&& ips(self.per_ip@).no_duplicates()
        &&& forall|i: int|
            0 <= i < self.per_ip@.len() ==> 1 <= (#[trigger] self.per_ip@[i]).1 <= self.max_per_ip
        &&& self.total == sum(self.per_ip@)
    }

    /// The limit on all connections.
    pub closed spec fn limit(&self) -> usize {
        self.max_total
    }

    /// The limit on connections from one address.
    pub closed spec fn limit_per_ip(&self) -> usize {
        self.max_per_ip
    }

    /// How many connections are open.
    pub closed spec fn open_total(&self) -> usize {
        self.total
    }

    /// How many connections are open from each address that has any.
    pub closed spec fn open_by_ip(&self) -> Map<IpAddr, usize> {
        Map::new(
            |ip: IpAddr| ips(self.per_ip@).contains(ip),
            |ip: IpAddr| self.per_ip@[ips(self.per_ip@).index_of(ip)].1,
        )
    }

    /// How many connections are open from an address.
    pub open spec fn open_from(&self, ip: IpAddr) -> usize {
        if self.open_by_ip().contains_key(ip) {
            self.open_by_ip()[ip]
        } else {
            0
        }
    }

    /// Whether a connection from the address is taken.
    pub open spec fn has_room(&self, ip: IpAddr) -> bool {
        self.open_total() < self.limit() && self.open_from(ip) < self.limit_per_ip()
    }

    /// Whether the state is this one after a connection from the address was taken.
    pub open spec fn takes(&self, after: &ConnLimiter, ip: IpAddr) -> bool {
        &&& after.limit() == self.limit()
        &&& after.limit_per_ip() == self.limit_per_ip()
        &&& after.open_total() == self.open_total() + 1
        &&& after.open_by_ip() == self.open_by_ip().insert(ip, (self.open_from(ip) + 1) as usize)
    }

    /// Whether the state is this one after a connection from the address has ended.
    pub open spec fn gives_back(&self, after: &ConnLimiter, ip: IpAddr) -> bool {
        let n = self.open_from(ip);
        &&& after.limit() == self.limit()
        &&& after.limit_per_ip() == self.limit_per_ip()
        &&& after.open_total() == (if n == 0 {
            self.open_total() as int
        } else {
            self.open_total() - 1
        })
        &&& after.open_by_ip() == (if n <= 1 {
            self.open_by_ip().remove(ip)
        } else {
            self.open_by_ip().insert(ip, (n - 1) as usize)
        })
    }

    /// A limiter with the given limits, which count as one where they are zero.
    pub fn new(max_total: usize, max_per_ip: usize) -> (r: ConnLimiter)
        ensures
            r.limit() == at_least_one(max_total),
            r.limit_per_ip() == at_least_one(max_per_ip),
            r.open_total() == 0,
            r.open_by_ip() == Map::<IpAddr, usize>::empty(),
    {
        let max_total: usize = if max_total < 1 {
            1
        } else {
            max_total
        };
        let max_per_ip: usize = if max_per_ip < 1 {
            1
        } else {
            max_per_ip
        };
        let r: ConnLimiter = ConnLimiter { max_total, max_per_ip, total: 0, per_ip: Vec::new() };
        assert(r.open_by_ip() =~= Map::<IpAddr, usize>::empty());
        r
    }

    /// Where an address is counted.
    fn position(&self, ip: IpAddr) -> (r: Option<usize>)
        ensures
            match r {
                Some(i) => i < self.per_ip@.len() && self.per_ip@[i as int].0 == ip
                    && self.open_by_ip().contains_key(ip) && self.open_by_ip()[ip]
                    == self.per_ip@[i as int].1,
                None => !self.open_by_ip().contains_key(ip),
            },
    {
        proof {
            use_type_invariant(self);
        }
        let mut i: usize = 0;
        while i < self.per_ip.len()
            invariant
                i <= self.per_ip@.len(),
                ips(self.per_ip@).no_duplicates(),
                forall|j: int| 0 <= j < i ==> (#[trigger] self.per_ip@[j]).0 != ip,
            decreases self.per_ip@.len() - i,
        {
            if self.per_ip[i].0 == ip {
                proof {
                    let s = ips(self.per_ip@);
                    assert(s[i as int] == ip);
                    let j: int = s.index_of(ip);
                    assert(s[j] == ip);
                }
                return Some(i);
            }
            i = i + 1;
        }
        assert forall|j: int| 0 <= j < ips(self.per_ip@).len() implies ips(self.per_ip@)[j]
            != ip by {
            assert(self.per_ip@[j].0 != ip);
        }
        None
    }

    /// Takes a slot for a connection from the address, if both limits leave room.
    pub fn try_accept(&mut self, ip: IpAddr) -> (r: Option<ConnGuard>)
        ensures
            r is Some == old(self).has_room(ip),
            match r {
                Some(g) => g.from() == ip && old(self).takes(&*final(self), ip),
                None => *final(self) == *old(self),
            },
            final(self).open_total() <= final(self).limit(),
            final(self).open_from(ip) <= final(self).limit_per_ip(),
    {
        proof {
            use_type_invariant(&*self);
        }
        if self.total >= self.max_total {
            return None;
        }
        let found: Option<usize> = self.position(ip);
        let per_ip: usize = match found {
            Some(i) => self.per_ip[i].1,
            None => 0,
        };
        if per_ip >= self.max_per_ip {
            return None;
        }
        let ghost before = self.per_ip@;
        let ghost start = *self;
        let mut rows: Vec<(IpAddr, usize)> = copy_rows(&self.per_ip);
        match found {
            Some(i) => {
                rows[i] = (ip, per_ip + 1);
                proof {
                    lemma_sum_update(before, i as int, (ip, (per_ip + 1) as usize));
                    assert(ips(rows@) =~= ips(before));
                }
            },
            None => {
                rows.push((ip, 1));
                proof {
                    assert(rows@.drop_last() =~= before);
                    assert(ips(rows@) =~= ips(before).push(ip));
                }
            },
        }
        proof {
            lemma_rows_insert(before, rows@, ip, (per_ip + 1) as usize, found);
        }
        *self = ConnLimiter {
            max_total: self.max_total,
            max_per_ip: self.max_per_ip,
            total: self.total + 1,
            per_ip: rows,
        };
        Some(ConnGuard { ip })
    }

    /// Gives a slot back. A slot that this limiter has not given out changes nothing.
    pub fn release(&mut self, guard: ConnGuard)
        ensures
            old(self).gives_back(&*final(self), guard.from()),
    {
        proof {
            use_type_invariant(&*self);
        }
        let ip: IpAddr = guard.ip;
        match self.position(ip) {
            None => {
                assert(self.open_by_ip().remove(ip) =~= self.open_by_ip());
            },
            Some(i) => {
                let ghost before = self.per_ip@;
                let count: usize = self.per_ip[i].1;
                let mut rows: Vec<(IpAddr, usize)> = copy_rows(&self.per_ip);
                proof {
                    lemma_sum_bounds(before, i as int);
                }
                if count == 1 {
                    rows.remove(i);
                    proof {
                        lemma_sum_remove(before, i as int);
                        lemma_rows_remove(before, rows@, i as int);
                    }
                } else {
                    rows[i] = (ip, count - 1);
                    proof {
                        lemma_sum_update(before, i as int, (ip, (count - 1) as usize));
                        assert(ips(rows@) =~= ips(before));
                        lemma_rows_insert(before, rows@, ip, (count - 1) as usize, Some(i));
                    }
                }
                *self = ConnLimiter {
                    max_total: self.max_total,
                    max_per_ip: self.max_per_ip,
                    total: self.total - 1,
                    per_ip: rows,
                };
            },
        }
    }

    /// How many connections are open.
    pub fn active(&self) -> (n: usize)
        ensures
            n == self.open_total(),
            n <= self.limit(),
    {
        proof {
            use_type_invariant(self);
        }
        self.total
    }
}

/// A copy of a list of counts.
fn copy_rows(rows: &Vec<(IpAddr, usize)>) -> (r: Vec<(IpAddr, usize)>)
    ensures
        r@ == rows@,
{
    let mut out: Vec<(IpAddr, usize)> = Vec::new();
    let mut i: usize = 0;
    while i < rows.len()
        invariant
            i <= rows@.len(),
            out@ == rows@.take(i as int),
        decreases rows@.len() - i,
    {
        out.push((rows[i].0, rows[i].1));
        i = i + 1;
    }
    assert(rows@.take(i as int) =~= rows@);
    out
}

/// The counts by address.
spec fn by_ip(rows: Seq<(IpAddr, usize)>) -> Map<IpAddr, usize> {
    Map::new(|ip: IpAddr| ips(rows).contains(ip), |ip: IpAddr| rows[ips(rows).index_of(ip)].1)
}

/// A count that was set is the one of its address, and the others stay.
proof fn lemma_rows_insert(
    before: Seq<(IpAddr, usize)>,
    after: Seq<(IpAddr, usize)>,
    ip: IpAddr,
    count: usize,
    at: Option<usize>,
)
    requires
        ips(before).no_duplicates(),
        match at {
            Some(i) => i < before.len() && before[i as int].0 == ip && after == before.update(
                i as int,
                (ip, count),
            ),
            None => !ips(before).contains(ip) && after == before.push((ip, count)),
        },
    ensures
        ips(after).no_duplicates(),
        by_ip(after) == by_ip(before).insert(ip, count),
{
    let a = ips(after);
    let b = ips(before);
    match at {
        Some(i) => {
            assert(a =~= b);
            assert(b[i as int] == ip);
        },
        None => {
            assert(a =~= b.push(ip));
            assert(a[b.len() as int] == ip);
            assert forall|x: int, y: int| 0 <= x < a.len() && 0 <= y < a.len() && x != y implies a[x]
                != a[y] by {
                if x < b.len() {
                    assert(b.contains(b[x]));
                }
                if y < b.len() {
                    assert(b.contains(b[y]));
                }
            }
        },
    }
    assert forall|k: IpAddr| by_ip(after).contains_key(k) <==> by_ip(before).insert(
        ip,
        count,
    ).contains_key(k) by {
        if b.contains(k) {
            let j: int = b.index_of(k);
            assert(b[j] == k);
            assert(a[j] == k);
        }
        if a.contains(k) {
            let j: int = a.index_of(k);
            assert(a[j] == k);
            if j < b.len() {
                assert(b[j] == k);
            }
        }
    }
    assert forall|k: IpAddr| by_ip(after).contains_key(k) implies by_ip(after)[k] == by_ip(
        before,
    ).insert(ip, count)[k] by {
        let j: int = a.index_of(k);
        assert(a[j] == k);
        if k == ip {
            match at {
                Some(i) => {
                    assert(a[i as int] == k);
                },
                None => {
                    assert(a[b.len() as int] == k);
                },
            }
        } else {
            assert(b[j] == k);
            let o: int = b.index_of(k);
            assert(b[o] == k);
            assert(o == j);
        }
    }
    assert(by_ip(after) =~= by_ip(before).insert(ip, count));
}

/// A row that was taken out takes its address with it, and the others stay.
proof fn lemma_rows_remove(before: Seq<(IpAddr, usize)>, after: Seq<(IpAddr, usize)>, i: int)
    requires
        ips(before).no_duplicates(),
        0 <= i < before.len(),
        after == before.remove(i),
    ensures
        ips(after).no_duplicates(),
        by_ip(after) == by_ip(before).remove(before[i].0),
        forall|j: int|
            0 <= j < after.len() ==> exists|o: int|
                0 <= o < before.len() && before[o] == #[trigger] after[j],
{
    let a = ips(after);
    let b = ips(before);
    let ip = before[i].0;
    assert(a =~= b.remove(i));
    assert(b[i] == ip);
    assert forall|j: int| 0 <= j < after.len() implies exists|o: int|
        0 <= o < before.len() && before[o] == #[trigger] after[j] by {
        let o: int = if j < i {
            j
        } else {
            j + 1
        };
        assert(before[o] == after[j]);
    }
    assert forall|k: IpAddr| by_ip(after).contains_key(k) <==> by_ip(before).remove(
        ip,
    ).contains_key(k) by {
        if a.contains(k) {
            let j: int = a.index_of(k);
            assert(a[j] == k);
            let o: int = if j < i {
                j
            } else {
                j + 1
            };
            assert(b[o] == k);
        }
        if b.contains(k) && k != ip {
            let o: int = b.index_of(k);
            assert(b[o] == k);
            let j: int = if o < i {
                o
            } else {
                o - 1
            };
            assert(a[j] == k);
        }
    }
    assert forall|k: IpAddr| by_ip(after).contains_key(k) implies by_ip(after)[k] == by_ip(
        before,
    )[k] by {
        let j: int = a.index_of(k);
        assert(a[j] == k);
        let p: int = if j < i {
            j
        } else {
            j + 1
        };
        assert(b[p] == k);
        let o: int = b.index_of(k);
        assert(b[o] == k);
        assert(o == p);
    }
    assert(by_ip(after) =~= by_ip(before).remove(ip));
}

/// A connection that has ended leaves the limiter as it was before the connection came.
pub proof fn law_slot_is_given_back(
    before: ConnLimiter,
    during: ConnLimiter,
    after: ConnLimiter,
    ip: IpAddr,
    other: IpAddr,
)
    requires
        before.has_room(ip),
        before.takes(&during, ip),
        during.gives_back(&after, ip),
    ensures
        after.open_total() == before.open_total(),
        after.open_from(other) == before.open_from(other),
        after.has_room(ip),
{
}

/// One address does not take all slots: where it has the only open connections, and its
/// limit is below that on all, there is room for any other address.
pub proof fn law_one_address_leaves_room(l: ConnLimiter, ip: IpAddr, other: IpAddr)
    requires
        l.open_total() == l.open_from(ip),
        l.open_from(ip) <= l.limit_per_ip() < l.limit(),
        l.limit_per_ip() >= 1,
        l.open_from(other) == 0,
    ensures
        l.has_room(other),
{
}

/// There is room for a connection just where both limits are still above what is open: the
/// one on all connections, and the one on those from its address.
pub proof fn law_room_is_left_below_both_limits(l: ConnLimiter, ip: IpAddr)
    ensures
        l.open_total() >= l.limit() ==> !l.has_room(ip),
        l.open_from(ip) >= l.limit_per_ip() ==> !l.has_room(ip),
        l.open_total() < l.limit() && l.open_from(ip) < l.limit_per_ip() ==> l.has_room(ip),
        !l.open_by_ip().contains_key(ip) ==> l.open_from(ip) == 0,
        l.open_by_ip().contains_key(ip) ==> l.open_from(ip) == l.open_by_ip()[ip],
{
}

/// A connection that is taken counts once, in all and for its address, and for no other
/// address; so does one that ends, where one from its address is open.
pub proof fn law_connections_are_counted(
    before: ConnLimiter,
    after: ConnLimiter,
    ip: IpAddr,
    other: IpAddr,
)
    requires
        other != ip,
    ensures
        before.takes(&after, ip) && before.open_from(ip) < usize::MAX ==> {
            &&& after.open_total() == before.open_total() + 1
            &&& after.open_from(ip) == before.open_from(ip) + 1
            &&& after.open_from(other) == before.open_from(other)
            &&& after.limit() == before.limit() && after.limit_per_ip() == before.limit_per_ip()
        },
        before.gives_back(&after, ip) && before.open_from(ip) > 0 ==> {
            &&& after.open_total() == before.open_total() - 1
            &&& after.open_from(ip) == before.open_from(ip) - 1
            &&& after.open_from(other) == before.open_from(other)
            &&& after.limit() == before.limit() && after.limit_per_ip() == before.limit_per_ip()
        },
        before.gives_back(&after, ip) && before.open_from(ip) == 0 ==> {
            &&& after.open_total() == before.open_total()
            &&& after.open_from(ip) == 0
            &&& after.open_from(other) == before.open_from(other)
            &&& after.limit() == before.limit() && after.limit_per_ip() == before.limit_per_ip()
        },
{
}

/// A limit of zero counts as one, and any other limit as it is.
pub proof fn law_limits_are_at_least_one(n: usize)
    ensures
        n == 0 ==> at_least_one(n) == 1,
        n > 0 ==> at_least_one(n) == n,
{
}

} // verus!

//! Which nodes have which chunks.

use vstd::prelude::*;

use crate::node::identity::{lists_names, NodeId};
use crate::node::manifest::{has_node, law_owners_stay_distinct, node_names};
use crate::util::table::Table;

verus! {

/// The owners of chunks by the chunks' hashes.
pub struct ChunkIndex {
    table: Table<Vec<NodeId>>,
}

impl View for ChunkIndex {
    type V = Map<Seq<char>, Set<Seq<char>>>;

    closed spec fn view(&self) -> Map<Seq<char>, Set<Seq<char>>> {
        self.table@.map_values(|v: Vec<NodeId>| node_names(v@).to_set())
    }
}

/// The owners of a chunk, none where it is not known.
pub open spec fn owners_of(m: Map<Seq<char>, Set<Seq<char>>>, hash: Seq<char>) -> Set<Seq<char>> {
    if m.contains_key(hash) {
        m[hash]
    } else {
        Set::empty()
    }
}

/// The index with one more owner of a chunk.
pub open spec fn with_owner(
    m: Map<Seq<char>, Set<Seq<char>>>,
    hash: Seq<char>,
    peer: Seq<char>,
) -> Map<Seq<char>, Set<Seq<char>>> {
    m.insert(hash, owners_of(m, hash).insert(peer))
}

/// The index with some more owners.
pub open spec fn with_owners(
    m: Map<Seq<char>, Set<Seq<char>>>,
    entries: Seq<(Seq<char>, Seq<char>)>,
) -> Map<Seq<char>, Set<Seq<char>>>
    decreases entries.len(),
{
    if entries.len() == 0 {
        m
    } else {
        with_owner(with_owners(m, entries.drop_last()), entries.last().0, entries.last().1)
    }
}

/// The index without a node. Chunks that nobody else has are forgotten.
pub open spec fn without_peer(m: Map<Seq<char>, Set<Seq<char>>>, peer: Seq<char>) -> Map<
    Seq<char>,
    Set<Seq<char>>,
> {
    Map::new(
        |k: Seq<char>| m.contains_key(k) && m[k].remove(peer) != Set::<Seq<char>>::empty(),
        |k: Seq<char>| m[k].remove(peer),
    )
}

/// Entries as contracts speak of them.
pub open spec fn entry_texts(s: Seq<(String, NodeId)>) -> Seq<(Seq<char>, Seq<char>)> {
    s.map_values(|e: (String, NodeId)| (e.0@, e.1@))
}

/// A copy of a list of nodes.
pub fn copy_nodes(list: &Vec<NodeId>) -> (r: Vec<NodeId>)
    ensures
        r@ == list@,
{
    let mut out: Vec<NodeId> = Vec::new();
    let mut i: usize = 0;
    while i < list.len()
        invariant
            i <= list@.len(),
            out@ == list@.take(i as int),
        decreases list@.len() - i,
    {
        out.push(list[i].clone());
        assert(out@ =~= list@.take(i + 1));
        i = i + 1;
    }
    assert(list@.take(i as int) =~= list@);
    out
}

/// The nodes of a list but one.
fn nodes_except(list: &Vec<NodeId>, peer: &NodeId) -> (r: Vec<NodeId>)
    requires
        node_names(list@).no_duplicates(),
    ensures
        node_names(r@).no_duplicates(),
        node_names(r@).to_set() == node_names(list@).to_set().remove(peer@),
{
    let mut out: Vec<NodeId> = Vec::new();
    let ghost names = node_names(list@);
    let mut i: usize = 0;
    assert(node_names(out@) =~= Seq::<Seq<char>>::empty());
    while i < list.len()
        invariant
            i <= list@.len(),
            names == node_names(list@),
            names.no_duplicates(),
            node_names(out@).no_duplicates(),
            forall|k: Seq<char>| #[trigger]
                node_names(out@).contains(k) <==> names.take(i as int).contains(k) && k != peer@,
        decreases list@.len() - i,
    {
        let ghost before = node_names(out@);
        let ghost t0 = names.take(i as int);
        let ghost t1 = names.take(i + 1);
        let ghost x = names[i as int];
        assert(x == list@[i as int]@);
        let other: bool = !list[i].same(peer);
        if other {
            out.push(list[i].clone());
            assert(node_names(out@) =~= before.push(x));
            proof {
                assert(!before.contains(x)) by {
                    if before.contains(x) {
                        assert(t0.contains(x));
                        let j: int = choose|j: int| 0 <= j < t0.len() && t0[j] == x;
                        assert(names[j] == x);
                    }
                }
                assert forall|a: int, b: int|
                    0 <= a < before.push(x).len() && 0 <= b < before.push(x).len() && a
                        != b implies before.push(x)[a] != before.push(x)[b] by {
                    if a < before.len() {
                        assert(before.contains(before[a]));
                    }
                    if b < before.len() {
                        assert(before.contains(before[b]));
                    }
                }
            }
        }
        proof {
            assert(t1 =~= t0.push(x));
            let after = node_names(out@);
            assert forall|k: Seq<char>| #[trigger] after.contains(k) <==> t1.contains(k) && k
                != peer@ by {
                if t1.contains(k) {
                    let j: int = choose|j: int| 0 <= j < t1.len() && t1[j] == k;
                    if j < i {
                        assert(t0[j] == k);
                    }
                }
                if t0.contains(k) {
                    let j: int = choose|j: int| 0 <= j < t0.len() && t0[j] == k;
                    assert(t1[j] == k);
                }
                assert(t1[i as int] == x);
                if before.contains(k) {
                    let j: int = choose|j: int| 0 <= j < before.len() && before[j] == k;
                    assert(after[j] == k);
                }
                if other {
                    assert(after[before.len() as int] == x);
                    if after.contains(k) {
                        let j: int = choose|j: int| 0 <= j < after.len() && after[j] == k;
                        if j < before.len() {
                            assert(before[j] == k);
                        }
                    }
                }
            }
        }
        i = i + 1;
    }
    assert(names.take(i as int) =~= names);
    assert(node_names(out@).to_set() =~= names.to_set().remove(peer@));
    out
}

impl ChunkIndex {
    #[verifier::type_invariant]
    spec fn owners_distinct(&self) -> bool {
        forall|k: Seq<char>| #[trigger]
            self.table@.contains_key(k) ==> node_names(self.table@[k]@).no_duplicates()
    }

    /// An empty index.
    pub fn new() -> (r: ChunkIndex)
        ensures
            r@ == Map::<Seq<char>, Set<Seq<char>>>::empty(),
    {
        let r: ChunkIndex = ChunkIndex { table: Table::new() };
        assert(r@ =~= Map::<Seq<char>, Set<Seq<char>>>::empty());
        r
    }

    /// Notes that a node has a chunk.
    pub fn add_owner(&mut self, hash: &str, peer: &NodeId)
        ensures
            final(self)@ == with_owner(old(self)@, hash@, peer@),
    {
        proof {
            use_type_invariant(&*self);
        }
        let mut owners: Vec<NodeId> = match self.table.get(hash) {
            Some(v) => copy_nodes(v),
            None => Vec::new(),
        };
        let ghost base = owners@;
        let ghost before = node_names(base);
        assert(before.to_set() =~= owners_of(self@, hash@));
        assert(before.no_duplicates()) by {
            if self.table@.contains_key(hash@) {
                assert(node_names(self.table@[hash@]@).no_duplicates());
            }
        }
        if !has_node(&owners, peer) {
            owners.push(peer.clone());
            proof {
                law_owners_stay_distinct(base, *peer);
                assert(base.push(*peer) =~= owners@);
            }
        }
        proof {
            let after = node_names(owners@);
            assert(after.to_set() =~= before.to_set().insert(peer@)) by {
                assert forall|k: Seq<char>| after.to_set().contains(k) <==> (before.to_set().contains(
                    k,
                ) || k == peer@) by {
                    if after.len() > before.len() {
                        assert(after =~= before.push(peer@));
                        assert(after[before.len() as int] == peer@);
                        if before.contains(k) {
                            let j: int = choose|j: int| 0 <= j < before.len() && before[j] == k;
                            assert(after[j] == k);
                        }
                        if after.contains(k) {
                            let j: int = choose|j: int| 0 <= j < after.len() && after[j] == k;
                            if j < before.len() {
                                assert(before[j] == k);
                            }
                        }
                    }
                }
            }
        }
        let mut table: Table<Vec<NodeId>> = Table::new();
        std::mem::swap(&mut table, &mut self.table);
        table.insert(hash.to_owned(), owners);
        self.table = table;
        assert(self@ =~= with_owner(old(self)@, hash@, peer@));
    }

    /// Notes some owners.
    pub fn bulk_load(&mut self, entries: &Vec<(String, NodeId)>)
        ensures
            final(self)@ == with_owners(old(self)@, entry_texts(entries@)),
    {
        let ghost m = self@;
        let ghost all = entry_texts(entries@);
        let mut i: usize = 0;
        assert(all.take(0).len() == 0);
        while i < entries.len()
            invariant
                i <= entries@.len(),
                all == entry_texts(entries@),
                self@ == with_owners(m, all.take(i as int)),
            decreases entries@.len() - i,
        {
            assert(all.take(i + 1).drop_last() =~= all.take(i as int));
            assert(all.take(i + 1).last() == (entries@[i as int].0@, entries@[i as int].1@));
            self.add_owner(entries[i].0.as_str(), &entries[i].1);
            i = i + 1;
        }
        assert(all.take(i as int) =~= all);
    }

    /// Forgets a node. Chunks that nobody else has are forgotten too.
    pub fn remove_peer(&mut self, peer: &NodeId)
        ensures
            final(self)@ == without_peer(old(self)@, peer@),
    {
        proof {
            use_type_invariant(&*self);
        }
        let n: usize = self.table.len();
        let ghost names = self.table.names();
        let mut table: Table<Vec<NodeId>> = Table::new();
        let mut i: usize = 0;
        while i < n
            invariant
                i <= n,
                n == names.len(),
                names == self.table.names(),
                names.no_duplicates(),
                self.owners_distinct(),
                *self == *old(self),
                forall|k: Seq<char>| #[trigger]
                    table@.contains_key(k) ==> {
                        &&& names.take(i as int).contains(k)
                        &&& node_names(table@[k]@).no_duplicates()
                        &&& node_names(table@[k]@).to_set() == self@[k].remove(peer@)
                        &&& self@[k].remove(peer@) != Set::<Seq<char>>::empty()
                    },
                forall|k: Seq<char>|
                    names.take(i as int).contains(k) && self@[k].remove(peer@) != Set::<
                        Seq<char>,
                    >::empty() ==> #[trigger] table@.contains_key(k),
            decreases n - i,
        {
            let ghost t0 = names.take(i as int);
            let ghost t1 = names.take(i + 1);
            let ghost x = names[i as int];
            let ghost before = table@;
            let owners: &Vec<NodeId> = self.table.value_at(i);
            let left: Vec<NodeId> = nodes_except(owners, peer);
            let ghost set = node_names(left@).to_set();
            assert(set == self@[x].remove(peer@));
            if left.len() > 0 {
                proof {
                    assert(node_names(left@).contains(node_names(left@)[0]));
                    assert(set.contains(node_names(left@)[0]));
                }
                table.insert(self.table.name_at(i).clone(), left);
            } else {
                assert(set =~= Set::<Seq<char>>::empty());
            }
            proof {
                assert(t1 =~= t0.push(x));
                assert(t1[i as int] == x);
                assert forall|k: Seq<char>| t1.contains(k) <==> (t0.contains(k) || k == x) by {
                    if t0.contains(k) {
                        let j: int = choose|j: int| 0 <= j < t0.len() && t0[j] == k;
                        assert(t1[j] == k);
                    }
                    if t1.contains(k) {
                        let j: int = choose|j: int| 0 <= j < t1.len() && t1[j] == k;
                        if j < i {
                            assert(t0[j] == k);
                        }
                    }
                }
            }
            i = i + 1;
        }
        proof {
            assert(names.take(i as int) =~= names);
            assert forall|k: Seq<char>| names.contains(k) <==> self@.contains_key(k) by {
                assert(self.table@.dom().contains(k) <==> names.to_set().contains(k));
            }
        }
        self.table = table;
        assert(self@ =~= without_peer(old(self)@, peer@));
    }

    /// The nodes that have a chunk.
    pub fn get_owners(&self, hash: &str) -> (r: Vec<NodeId>)
        ensures
            lists_names(r@, owners_of(self@, hash@)),
    {
        proof {
            use_type_invariant(self);
        }
        match self.table.get(hash) {
            None => Vec::new(),
            Some(v) => {
                let r: Vec<NodeId> = copy_nodes(v);
                proof {
                    let names = node_names(r@);
                    assert(names.to_set() == self@[hash@]);
                    assert forall|i: int| 0 <= i < r@.len() implies self@[hash@].contains(
                        (#[trigger] r@[i])@,
                    ) by {
                        assert(names[i] == r@[i]@);
                        assert(names.to_set().contains(names[i]));
                    }
                    assert forall|i: int, j: int| 0 <= i < j < r@.len() implies (#[trigger] r@[i])@
                        != (#[trigger] r@[j])@ by {
                        assert(names[i] == r@[i]@);
                        assert(names[j] == r@[j]@);
                    }
                    assert forall|k: Seq<char>| #[trigger] self@[hash@].contains(k) implies exists|
                        i: int,
                    | 0 <= i < r@.len() && (#[trigger] r@[i])@ == k by {
                        assert(names.to_set().contains(k));
                        let i: int = choose|i: int| 0 <= i < names.len() && names[i] == k;
                        assert(r@[i]@ == k);
                    }
                }
                r
            },
        }
    }

    /// The chunks that a node has.
    pub fn get_peer_chunks(&self, peer: &NodeId) -> (r: Vec<String>)
        ensures
            forall|k: Seq<char>|
                owners_of(self@, k).contains(peer@) <==> exists|i: int|
                    0 <= i < r@.len() && (#[trigger] r@[i])@ == k,
            forall|i: int, j: int|
                0 <= i < j < r@.len() ==> (#[trigger] r@[i])@ != (#[trigger] r@[j])@,
    {
        let n: usize = self.table.len();
        let ghost names = self.table.names();
        let mut out: Vec<String> = Vec::new();
        let ghost mut picked: Seq<int> = Seq::empty();
        let mut i: usize = 0;
        while i < n
            invariant
                i <= n,
                n == names.len(),
                names == self.table.names(),
                picked.len() == out@.len(),
                forall|x: int|
                    0 <= x < picked.len() ==> {
                        &&& 0 <= #[trigger] picked[x] < i
                        &&& out@[x]@ == names[picked[x]]
                        &&& self@.contains_key(names[picked[x]])
                        &&& self@[names[picked[x]]].contains(peer@)
                    },
                forall|x: int, y: int|
                    0 <= x < y < picked.len() ==> #[trigger] picked[x] < #[trigger] picked[y],
                forall|j: int|
                    0 <= j < i && self@[#[trigger] names[j]].contains(peer@) ==> picked.contains(j),
            decreases n - i,
        {
            let owners: &Vec<NodeId> = self.table.value_at(i);
            assert(self@[names[i as int]] == node_names(owners@).to_set());
            let has: bool = has_node(owners, peer);
            if has {
                let ghost before = picked;
                out.push(self.table.name_at(i).clone());
                proof {
                    picked = picked.push(i as int);
                    assert forall|j: int|
                        0 <= j < i + 1 && self@[#[trigger] names[j]].contains(
                            peer@,
                        ) implies picked.contains(j) by {
                        if j < i {
                            let x: int = choose|x: int| 0 <= x < before.len() && before[x] == j;
                            assert(picked[x] == j);
                        } else {
                            assert(picked[before.len() as int] == j);
                        }
                    }
                }
            }
            i = i + 1;
        }
        proof {
            assert forall|k: Seq<char>|
                owners_of(self@, k).contains(peer@) <==> exists|x: int|
                    0 <= x < out@.len() && (#[trigger] out@[x])@ == k by {
                if owners_of(self@, k).contains(peer@) {
                    assert(self.table@.dom().contains(k));
                    assert(names.to_set().contains(k));
                    let j: int = choose|j: int| 0 <= j < names.len() && names[j] == k;
                    assert(self@[names[j]].contains(peer@));
                    let x: int = choose|x: int| 0 <= x < picked.len() && picked[x] == j;
                    assert(out@[x]@ == k);
                }
                if exists|x: int| 0 <= x < out@.len() && (#[trigger] out@[x])@ == k {
                    let x: int = choose|x: int| 0 <= x < out@.len() && (#[trigger] out@[x])@ == k;
                    assert(names[picked[x]] == k);
                }
            }
            assert forall|x: int, y: int| 0 <= x < y < out@.len() implies (#[trigger] out@[x])@
                != (#[trigger] out@[y])@ by {
                assert(picked[x] < picked[y]);
                assert(names[picked[x]] != names[picked[y]]);
            }
        }
        out
    }

    /// How many chunks are known.
    pub fn len(&self) -> (n: usize)
        ensures
            n == self@.len(),
    {
        assert(self@.dom() =~= self.table@.dom());
        self.table.len()
    }
}

impl Default for ChunkIndex {
    fn default() -> (r: ChunkIndex)
        ensures
            r@ == Map::<Seq<char>, Set<Seq<char>>>::empty(),
    {
        ChunkIndex::new()
    }
}

/// A node that was forgotten has no chunk, and every other node has what it had.
pub proof fn law_forgotten_peer_has_nothing(
    m: Map<Seq<char>, Set<Seq<char>>>,
    peer: Seq<char>,
    other: Seq<char>,
    hash: Seq<char>,
)
    ensures
        !owners_of(without_peer(m, peer), hash).contains(peer),
        other != peer ==> owners_of(without_peer(m, peer), hash).contains(other) == owners_of(
            m,
            hash,
        ).contains(other),
{
    if m.contains_key(hash) && other != peer && m[hash].contains(other) {
        assert(m[hash].remove(peer).contains(other));
    }
}

/// Two nodes that announce the same chunk are both its owners.
pub proof fn law_seeders_add_up(
    m: Map<Seq<char>, Set<Seq<char>>>,
    hash: Seq<char>,
    a: Seq<char>,
    b: Seq<char>,
)
    ensures
        owners_of(with_owner(with_owner(m, hash, a), hash, b), hash) == owners_of(m, hash).insert(
            a,
        ).insert(b),
{
}

/// A node is an owner of a chunk after the chunk was noted for it, and only then or where it
/// was one before: of several notes each makes its node an owner of its chunk, and nothing
/// else changes.
pub proof fn law_each_note_makes_an_owner(
    m: Map<Seq<char>, Set<Seq<char>>>,
    entries: Seq<(Seq<char>, Seq<char>)>,
    hash: Seq<char>,
    peer: Seq<char>,
)
    ensures
        owners_of(with_owners(m, entries), hash).contains(peer) <==> owners_of(m, hash).contains(
            peer,
        ) || entries.contains((hash, peer)),
        with_owners(m, entries).contains_key(hash) <==> m.contains_key(hash) || exists|i: int|
            0 <= i < entries.len() && (#[trigger] entries[i]).0 == hash,
    decreases entries.len(),
{
    if entries.len() > 0 {
        let head = entries.drop_last();
        let last = entries.last();
        law_each_note_makes_an_owner(m, head, hash, peer);
        assert(entries[entries.len() - 1] == last);
        if head.contains((hash, peer)) {
            let i: int = choose|i: int| 0 <= i < head.len() && head[i] == (hash, peer);
            assert(entries[i] == (hash, peer));
        }
        if entries.contains((hash, peer)) && last != (hash, peer) {
            let i: int = choose|i: int| 0 <= i < entries.len() && entries[i] == (hash, peer);
            assert(head[i] == (hash, peer));
        }
        if exists|i: int| 0 <= i < head.len() && (#[trigger] head[i]).0 == hash {
            let i: int = choose|i: int| 0 <= i < head.len() && (#[trigger] head[i]).0 == hash;
            assert(entries[i].0 == hash);
        }
        if exists|i: int| 0 <= i < entries.len() && (#[trigger] entries[i]).0 == hash {
            let i: int = choose|i: int| 0 <= i < entries.len() && (#[trigger] entries[i]).0 == hash;
            if i < head.len() {
                assert(head[i].0 == hash);
            }
        }
    }
}

/// A chunk is forgotten with a node just where nobody else has it.
pub proof fn law_chunk_is_forgotten_with_its_last_owner(
    m: Map<Seq<char>, Set<Seq<char>>>,
    peer: Seq<char>,
    hash: Seq<char>,
)
    ensures
        without_peer(m, peer).contains_key(hash) <==> m.contains_key(hash) && exists|other: Seq<
            char,
        >| other != peer && #[trigger] m[hash].contains(other),
        !m.contains_key(hash) ==> owners_of(m, hash) == Set::<Seq<char>>::empty(),
        m.contains_key(hash) ==> owners_of(m, hash) == m[hash],
{
    if m.contains_key(hash) {
        let left = m[hash].remove(peer);
        if left != Set::<Seq<char>>::empty() {
            let other = choose|other: Seq<char>| #[trigger] left.contains(other);
            assert(exists|other: Seq<char>| #[trigger] left.contains(other)) by {
                if forall|other: Seq<char>| !#[trigger] left.contains(other) {
                    assert(left =~= Set::<Seq<char>>::empty());
                }
            }
            assert(m[hash].contains(other));
        }
        if exists|other: Seq<char>| other != peer && #[trigger] m[hash].contains(other) {
            let other = choose|other: Seq<char>|
                other != peer && #[trigger] m[hash].contains(other);
            assert(left.contains(other));
        }
    }
}

/// Entries are compared by chunk and owner, in their order.
pub proof fn law_entries_are_compared_whole(s: Seq<(String, NodeId)>, i: int)
    requires
        0 <= i < s.len(),
    ensures
        entry_texts(s).len() == s.len(),
        entry_texts(s)[i] == (s[i].0@, s[i].1@),
{
}

} // verus!

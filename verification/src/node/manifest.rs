//! The manifest of a file: what a peer needs to fetch it.

use vstd::prelude::*;

use crate::node::identity::NodeId;

verus! {

/// One chunk of a file.
#[derive(Debug, PartialEq, Eq)]
pub struct ChunkMeta {
    /// The SHA-256 digest of the chunk in hexadecimal.
    pub hash: String,
    /// The chunk's number in the file.
    pub index: i64,
    /// The chunk's size in bytes.
    pub size: i64,
}

impl Clone for ChunkMeta {
    fn clone(&self) -> (r: ChunkMeta)
        ensures
            r == *self,
    {
        ChunkMeta { hash: self.hash.clone(), index: self.index, size: self.size }
    }
}

/// The manifest of a file.
#[derive(Debug, Clone, PartialEq, Eq)]
pub struct FileManifest {
    /// The file's name in the network: a digest over its chunks.
    pub file_id: String,
    pub name: String,
    pub size_bytes: i64,
    pub mime_type: Option<String>,
    /// The nodes that hold the file. The first one published it.
    pub owners: Vec<NodeId>,
    /// The chunks in their order.
    pub chunks: Vec<ChunkMeta>,
}

/// The names of a list of nodes.
pub open spec fn node_names(s: Seq<NodeId>) -> Seq<Seq<char>> {
    s.map_values(|n: NodeId| n@)
}

/// Whether the node is in the list.
pub fn has_node(list: &Vec<NodeId>, node: &NodeId) -> (r: bool)
    ensures
        r == node_names(list@).contains(node@),
{
    let mut i: usize = 0;
    while i < list.len()
        invariant
            i <= list@.len(),
            forall|j: int| 0 <= j < i ==> (#[trigger] list@[j])@ != node@,
        decreases list@.len() - i,
    {
        if list[i].same(node) {
            assert(node_names(list@)[i as int] == node@);
            return true;
        }
        i = i + 1;
    }
    assert forall|j: int| 0 <= j < node_names(list@).len() implies node_names(list@)[j]
        != node@ by {
        assert(list@[j]@ != node@);
    }
    false
}

impl FileManifest {
    /// How many chunks there are.
    pub fn total_chunks(&self) -> (r: i64)
        requires
            self.chunks@.len() <= i64::MAX,
        ensures
            r == self.chunks@.len(),
    {
        self.chunks.len() as i64
    }

    /// Who published the file, if that is known.
    pub fn original_owner(&self) -> (r: Option<&NodeId>)
        ensures
            match r {
                Some(n) => self.owners@.len() > 0 && *n == self.owners@[0],
                None => self.owners@.len() == 0,
            },
    {
        if self.owners.len() > 0 {
            Some(&self.owners[0])
        } else {
            None
        }
    }

    /// Adds an owner, unless it is there already, and tells whether it was new.
    pub fn add_owner(&mut self, owner: NodeId) -> (r: bool)
        ensures
            r == !node_names(old(self).owners@).contains(owner@),
            final(self).owners@ == (if r {
                old(self).owners@.push(owner)
            } else {
                old(self).owners@
            }),
            final(self).file_id == old(self).file_id,
            final(self).name == old(self).name,
            final(self).size_bytes == old(self).size_bytes,
            final(self).mime_type == old(self).mime_type,
            final(self).chunks == old(self).chunks,
    {
        if has_node(&self.owners, &owner) {
            false
        } else {
            self.owners.push(owner);
            true
        }
    }
}

/// Owners that were all different stay so when one more is added.
pub proof fn law_owners_stay_distinct(owners: Seq<NodeId>, owner: NodeId)
    requires
        node_names(owners).no_duplicates(),
        !node_names(owners).contains(owner@),
    ensures
        node_names(owners.push(owner)).no_duplicates(),
        node_names(owners.push(owner)).contains(owner@),
{
    let n = node_names(owners);
    let m = node_names(owners.push(owner));
    assert(m =~= n.push(owner@));
    assert(m[n.len() as int] == owner@);
}

/// Nodes are compared by their names, in their order.
pub proof fn law_nodes_are_seen_by_name(s: Seq<NodeId>, i: int)
    requires
        0 <= i < s.len(),
    ensures
        node_names(s).len() == s.len(),
        node_names(s)[i] == s[i]@,
{
}

} // verus!

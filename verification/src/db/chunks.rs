//! Records of files and their chunks.

use vstd::prelude::*;

verus! {

/// A file of the network.
#[derive(Debug, Clone, PartialEq, Eq)]
pub struct FileRecord {
    pub file_id: String,
    pub name: String,
    pub size_bytes: i64,
    pub total_chunks: i64,
    /// Who published the file.
    pub owner_key: String,
    pub mime_type: Option<String>,
}

/// A chunk of a file.
#[derive(Debug, PartialEq, Eq)]
pub struct Chunk {
    pub hash: String,
    pub file_id: String,
    pub chunk_index: i64,
    pub size_bytes: i64,
    /// Whether we hold the chunk.
    pub is_local: bool,
    pub local_path: Option<String>,
}

impl Clone for Chunk {
    fn clone(&self) -> (r: Chunk)
        ensures
            r == *self,
    {
        let local_path: Option<String> = match &self.local_path {
            Some(p) => Some(p.clone()),
            None => None,
        };
        Chunk {
            hash: self.hash.clone(),
            file_id: self.file_id.clone(),
            chunk_index: self.chunk_index,
            size_bytes: self.size_bytes,
            is_local: self.is_local,
            local_path,
        }
    }
}

/// The hashes of the chunks that we hold, in order.
pub open spec fn held(chunks: Seq<Chunk>) -> Seq<Seq<char>>
    decreases chunks.len(),
{
    if chunks.len() == 0 {
        seq![]
    } else if chunks.last().is_local {
        held(chunks.drop_last()).push(chunks.last().hash@)
    } else {
        held(chunks.drop_last())
    }
}

/// The texts of a list.
pub open spec fn string_texts(s: Seq<String>) -> Seq<Seq<char>> {
    s.map_values(|t: String| t@)
}

/// The hashes of the chunks that we hold: what has to be removed with a file.
pub fn local_hashes(chunks: &Vec<Chunk>) -> (r: Vec<String>)
    ensures
        string_texts(r@) == held(chunks@),
{
    let mut out: Vec<String> = Vec::new();
    let mut i: usize = 0;
    assert(chunks@.take(0).len() == 0);
    assert(string_texts(out@) =~= seq![]);
    while i < chunks.len()
        invariant
            i <= chunks@.len(),
            string_texts(out@) == held(chunks@.take(i as int)),
        decreases chunks@.len() - i,
    {
        let ghost before = out@;
        assert(chunks@.take(i + 1).drop_last() =~= chunks@.take(i as int));
        if chunks[i].is_local {
            out.push(chunks[i].hash.clone());
            assert(string_texts(out@) =~= string_texts(before).push(chunks@[i as int].hash@));
        }
        i = i + 1;
    }
    assert(chunks@.take(i as int) =~= chunks@);
    out
}

/// What has to be removed with a file are the hashes of all the chunks that we hold, in their
/// order, and of no others.
pub proof fn law_held_chunks_are_listed(chunks: Seq<Chunk>, c: Chunk)
    ensures
        held(seq![]) == Seq::<Seq<char>>::empty(),
        c.is_local ==> held(chunks.push(c)) == held(chunks).push(c.hash@),
        !c.is_local ==> held(chunks.push(c)) == held(chunks),
        c.is_local ==> held(chunks.push(c)).contains(c.hash@),
{
    assert(chunks.push(c).drop_last() =~= chunks);
    if c.is_local {
        let h = held(chunks.push(c));
        assert(h[h.len() - 1] == c.hash@);
    }
}

/// Texts are compared whole, in their order.
pub proof fn law_texts_are_compared_whole(s: Seq<String>, i: int)
    requires
        0 <= i < s.len(),
    ensures
        string_texts(s).len() == s.len(),
        string_texts(s)[i] == s[i]@,
{
}

} // verus!

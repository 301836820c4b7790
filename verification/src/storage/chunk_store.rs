//! The chunks on disk: each in a file of its own, in a directory named after the first
//! two bytes of its hash.

use vstd::prelude::*;
use vstd::utf8::*;

use crate::storage::error::StorageError;
use crate::storage::integrity::{chunk_hash, verify_chunk};
use crate::util::text::{
    chars_of, drop_suffixes, has_suffix, option_string, strip_suffixes,
    text_of,
};

verus! {

/// The store below a directory.
#[derive(Debug, PartialEq, Eq)]
pub struct ChunkStore {
    base_dir: String,
}

/// Where the name of a chunk's directory ends in its hash.
pub open spec fn prefix_end(hash: Seq<char>) -> int {
    if encode_utf8(hash).len() < 2 {
        encode_utf8(hash).len() as int
    } else {
        2
    }
}

/// The name of a chunk's directory.
pub open spec fn prefix_of(hash: Seq<char>) -> Seq<char> {
    decode_utf8(encode_utf8(hash).take(prefix_end(hash)))
}

/// Whether the hash can be cut there.
pub open spec fn has_prefix_text(hash: Seq<char>) -> bool {
    is_char_boundary(encode_utf8(hash), prefix_end(hash))
}

/// A path below a directory. A path that starts at the root stays as it is.
pub open spec fn join_path(base: Seq<char>, part: Seq<char>) -> Seq<char> {
    if part.len() > 0 && part[0] == '/' {
        part
    } else if base.len() == 0 || base.last() == '/' {
        base + part
    } else {
        base + seq!['/'] + part
    }
}

/// A path below a directory.
fn joined_path(base: &String, part: &str) -> (r: String)
    ensures
        r@ == join_path(base@, part@),
{
    let part_chars: Vec<char> = chars_of(part);
    if part_chars.len() > 0 && part_chars[0] == '/' {
        return part.to_owned();
    }
    let base_chars: Vec<char> = chars_of(base.as_str());
    let mut out: String = base.clone();
    if base_chars.len() > 0 && base_chars[base_chars.len() - 1] != '/' {
        out.push('/');
    }
    out.append(part);
    assert(out@ =~= join_path(base@, part@));
    out
}

/// What is done to store a chunk.
#[derive(Debug, PartialEq, Eq)]
pub enum PutStep {
    /// It is there already.
    Skip,
    /// It is written to this file.
    Write(String),
}

impl Clone for ChunkStore {
    fn clone(&self) -> (r: ChunkStore)
        ensures
            r == *self,
    {
        ChunkStore { base_dir: self.base_dir.clone() }
    }
}

impl ChunkStore {
    /// The directory.
    pub closed spec fn dir(&self) -> Seq<char> {
        self.base_dir@
    }

    /// The file of a chunk.
    pub open spec fn path(&self, hash: Seq<char>) -> Seq<char> {
        join_path(join_path(self.dir(), prefix_of(hash)), hash + ".chunk"@)
    }

    /// The store below a directory.
    pub fn new(base_dir: String) -> (r: ChunkStore)
        ensures
            r.dir() == base_dir@,
    {
        ChunkStore { base_dir }
    }

    /// The file of a chunk.
    pub fn chunk_path(&self, hash: &str) -> (r: String)
        requires
            has_prefix_text(hash@),
        ensures
            r@ == self.path(hash@),
    {
        let n: usize = hash.as_bytes().len();
        let cut: usize = if n < 2 {
            n
        } else {
            2
        };
        let prefix: &str = hash.split_at(cut).0;
        proof {
            encode_utf8_decode_utf8(prefix@);
            assert(encode_utf8(hash@).subrange(0, cut as int) =~= encode_utf8(hash@).take(
                cut as int,
            ));
        }
        let dir: String = joined_path(&self.base_dir, prefix);
        let mut file: String = hash.to_owned();
        file.append(".chunk");
        joined_path(&dir, file.as_str())
    }

    /// What is done to store a chunk, once it is known whether its file is there. Data
    /// that is not what its hash says is refused first.
    pub fn put(&self, hash: &str, data: &[u8], exists: bool) -> (r: Result<PutStep, StorageError>)
        requires
            has_prefix_text(hash@),
        ensures
            match r {
                Ok(PutStep::Skip) => chunk_hash(data@) == hash@ && exists,
                Ok(PutStep::Write(path)) => {
                    &&& chunk_hash(data@) == hash@
                    &&& !exists
                    &&& path@ == self.path(hash@)
                },
                Err(StorageError::IntegrityFailure { expected, actual }) => {
                    &&& chunk_hash(data@) != hash@
                    &&& expected@ == hash@
                    &&& actual@ == chunk_hash(data@)
                },
                Err(_) => false,
            },
    {
        match verify_chunk(hash, data) {
            Err(e) => Err(e),
            Ok(()) => if exists {
                Ok(PutStep::Skip)
            } else {
                Ok(PutStep::Write(self.chunk_path(hash)))
            },
        }
    }

    /// The directory.
    pub fn base_dir(&self) -> (r: &str)
        ensures
            r@ == self.dir(),
    {
        self.base_dir.as_str()
    }
}

/// A chunk that was read, if its file was there. Data that is not what its hash says is
/// refused.
pub fn read_chunk(hash: &str, found: Option<Vec<u8>>) -> (r: Result<Vec<u8>, StorageError>)
    ensures
        match r {
            Ok(d) => found == Some(d) && chunk_hash(d@) == hash@,
            Err(StorageError::ChunkNotFound(h)) => found is None && h@ == hash@,
            Err(StorageError::IntegrityFailure { expected, actual }) => found matches Some(d) && {
                &&& chunk_hash(d@) != hash@
                &&& expected@ == hash@
                &&& actual@ == chunk_hash(d@)
            },
            Err(_) => false,
        },
{
    match found {
        None => Err(StorageError::ChunkNotFound(hash.to_owned())),
        Some(d) => match verify_chunk(hash, d.as_slice()) {
            Ok(()) => Ok(d),
            Err(e) => Err(e),
        },
    }
}

/// The hash of the chunk in a file, if the file's name is that of a chunk's file.
pub fn hash_of_file(name: &str) -> (r: Option<String>)
    ensures
        option_string(r) == (if ".chunk"@.is_suffix_of(name@) {
            Some(drop_suffixes(name@, ".chunk"@))
        } else {
            None
        }),
{
    let chars: Vec<char> = chars_of(name);
    let suffix: Vec<char> = chars_of(".chunk");
    proof {
        reveal_strlit(".chunk");
    }
    if has_suffix(chars.as_slice(), suffix.as_slice()) {
        Some(text_of(strip_suffixes(chars.as_slice(), suffix.as_slice())))
    } else {
        None
    }
}

/// The file of a chunk tells the chunk's hash, unless the hash ends like a file's name.
pub proof fn law_file_tells_hash(hash: Seq<char>)
    requires
        !".chunk"@.is_suffix_of(hash),
    ensures
        ".chunk"@.is_suffix_of(hash + ".chunk"@),
        drop_suffixes(hash + ".chunk"@, ".chunk"@) == hash,
{
    reveal_strlit(".chunk");
    let name = hash + ".chunk"@;
    assert(name.subrange(name.len() - ".chunk"@.len(), name.len() as int) =~= ".chunk"@);
    assert(name.subrange(0, name.len() - ".chunk"@.len()) =~= hash);
    reveal_with_fuel(drop_suffixes, 2);
}

/// A part is put below a directory with one slash between them; a part that starts at the root
/// stays as it is.
pub proof fn law_paths_are_joined(base: Seq<char>, part: Seq<char>)
    ensures
        join_path(base, seq!['/'] + part) == seq!['/'] + part,
        (part.len() == 0 || part[0] != '/') ==> join_path(base + seq!['/'], part) == base + seq![
            '/',
        ] + part,
        (part.len() == 0 || part[0] != '/') && base.len() > 0 && base.last() != '/' ==> join_path(
            base,
            part,
        ) == base + seq!['/'] + part,
        (part.len() == 0 || part[0] != '/') ==> join_path(seq![], part) == part,
{
    assert(Seq::<char>::empty() + part =~= part);
}

/// A chunk is kept below the directory of the store in one named after the first two bytes of
/// its hash, in a file named after the whole of it.
pub proof fn law_chunk_lies_below_its_prefix(store: ChunkStore, hash: Seq<char>)
    requires
        is_ascii_chars(hash),
        hash.len() >= 2,
        hash[0] != '/',
        store.dir().len() > 0,
        store.dir().last() != '/',
        hash[1] != '/',
    ensures
        prefix_of(hash) == hash.take(2),
        has_prefix_text(hash),
        store.path(hash) == store.dir() + seq!['/'] + hash.take(2) + seq!['/'] + hash + ".chunk"@,
{
    let b = encode_utf8(hash);
    let p = hash.take(2);
    is_ascii_chars_encode_utf8(hash);
    assert forall|i: int| 0 <= i < p.len() implies '\0' <= #[trigger] p[i] <= '\u{7f}' by {
        assert(p[i] == hash[i]);
    }
    is_ascii_chars_encode_utf8(p);
    assert(b.take(2) =~= encode_utf8(p)) by {
        assert forall|i: int| 0 <= i < 2 implies b.take(2)[i] == encode_utf8(p)[i] by {
            assert(hash[i] as u8 == b[i]);
            assert(p[i] as u8 == encode_utf8(p)[i]);
        }
    }
    encode_utf8_decode_utf8(p);
    encode_utf8_valid_utf8(hash);
    if b.len() == 2 {
        is_char_boundary_start_end_of_seq(b);
    } else {
        assert(hash[2] as u8 == b[2]);
        is_char_boundary_iff_not_is_continuation_byte(b, 2);
        let c = b[2];
        assert(c < 0x80 ==> !is_continuation_byte(c)) by (bit_vector);
    }
    let d = join_path(store.dir(), prefix_of(hash));
    assert(d =~= store.dir() + seq!['/'] + p);
    assert(d.last() == p[1]);
    let f = hash + ".chunk"@;
    assert(f[0] == hash[0]);
    assert(store.path(hash) =~= store.dir() + seq!['/'] + p + seq!['/'] + hash + ".chunk"@);
}

/// A hash of fewer than two bytes names its directory with all of itself.
pub proof fn law_short_hash_is_its_prefix(hash: Seq<char>)
    requires
        encode_utf8(hash).len() < 2,
    ensures
        prefix_of(hash) == hash,
        has_prefix_text(hash),
{
    let b = encode_utf8(hash);
    assert(b.take(b.len() as int) =~= b);
    encode_utf8_decode_utf8(hash);
    encode_utf8_valid_utf8(hash);
    is_char_boundary_start_end_of_seq(b);
}

} // verus!

//! Publishing files, telling others of them, fetching them.

use vstd::prelude::*;
use vstd::slice::*;
use vstd::utf8::*;

use crate::db::chunks::{string_texts, Chunk, FileRecord};
use crate::node::addr::SocketAddr;
use crate::node::identity::{lists_names, NodeId};
use crate::node::manifest::{node_names, ChunkMeta, FileManifest};
use crate::node::peer::PeerInfo;
use crate::storage::chunk_store::{has_prefix_text, prefix_end, ChunkStore};
use crate::storage::chunker::{
    chunk_bytes, chunk_count, joined, law_split_joins_back, piece, piece_hashes, pieces, split_bytes,
    splits, SplitResult,
};
use crate::storage::error::StorageError;
use crate::storage::events::ChunkEvent;
use crate::storage::index::{
    entry_texts, law_each_note_makes_an_owner, owners_of, with_owners, ChunkIndex,
};
use crate::storage::integrity::chunk_hash;
use crate::util::bytes::bytes_of;
use crate::util::hex::{hex_text, lemma_hex_text_ascii};
use crate::util::text::{
    chars_of, lowercase_of, lowercase_text, option_string, same_text, text_of,
};

verus! {

/// How many chunks are fetched at a time.
pub const DOWNLOAD_CONCURRENCY: usize = 4;

/// What stands after the last dot of a name, or the whole name.
pub open spec fn extension(name: Seq<char>) -> Seq<char>
    decreases name.len(),
{
    if name.len() == 0 || name.last() == '.' {
        seq![]
    } else {
        extension(name.drop_last()).push(name.last())
    }
}

/// The type of files with the given extension, in small letters.
pub open spec fn mime_of(ext: Seq<char>) -> Option<Seq<char>> {
    if ext == "jpg"@ || ext == "jpeg"@ {
        Some("image/jpeg"@)
    } else if ext == "png"@ {
        Some("image/png"@)
    } else if ext == "gif"@ {
        Some("image/gif"@)
    } else if ext == "mp4"@ {
        Some("video/mp4"@)
    } else if ext == "mkv"@ {
        Some("video/x-matroska"@)
    } else if ext == "pdf"@ {
        Some("application/pdf"@)
    } else if ext == "zip"@ {
        Some("application/zip"@)
    } else if ext == "txt"@ {
        Some("text/plain"@)
    } else if ext == "html"@ {
        Some("text/html"@)
    } else {
        None
    }
}

/// The type of files with the given extension, in small letters.
pub fn mime_of_extension(ext: &str) -> (r: Option<String>)
    ensures
        option_string(r) == mime_of(ext@),
{
    let mime: &str = if same_text(ext, "jpg") || same_text(ext, "jpeg") {
        "image/jpeg"
    } else if same_text(ext, "png") {
        "image/png"
    } else if same_text(ext, "gif") {
        "image/gif"
    } else if same_text(ext, "mp4") {
        "video/mp4"
    } else if same_text(ext, "mkv") {
        "video/x-matroska"
    } else if same_text(ext, "pdf") {
        "application/pdf"
    } else if same_text(ext, "zip") {
        "application/zip"
    } else if same_text(ext, "txt") {
        "text/plain"
    } else if same_text(ext, "html") {
        "text/html"
    } else {
        return None;
    };
    Some(mime.to_owned())
}

/// The type of a file by the extension of its name, in whatever case.
pub fn mime_type_from_name(name: &str) -> (r: Option<String>)
    ensures
        option_string(r) == mime_of(lowercase_of(extension(name@))),
{
    let chars: Vec<char> = chars_of(name);
    let s: &[char] = chars.as_slice();
    let mut n: usize = s.len();
    let ghost mut tail: Seq<char> = Seq::empty();
    assert(s@.take(n as int) =~= s@);
    assert(extension(s@) + tail =~= extension(s@));
    while n > 0 && s[n - 1] != '.'
        invariant
            n <= s@.len(),
            s@ == name@,
            tail == s@.skip(n as int),
            extension(name@) == extension(s@.take(n as int)) + tail,
        decreases n,
    {
        proof {
            let t = s@.take(n as int);
            assert(t.drop_last() =~= s@.take(n - 1));
            assert(extension(t) + tail =~= extension(s@.take(n - 1)) + s@.skip(n - 1));
            tail = s@.skip(n - 1);
        }
        n = n - 1;
    }
    let ext: String = text_of(slice_subrange(s, n, s.len()));
    assert(extension(s@.take(n as int)) =~= seq![]);
    assert(ext@ =~= extension(name@));
    let small: String = lowercase_text(ext.as_str());
    mime_of_extension(small.as_str())
}

/// The hash of a chunk has a directory to be stored in.
pub proof fn lemma_hash_has_directory(data: Seq<u8>)
    ensures
        has_prefix_text(chunk_hash(data)),
{
    let d = crate::crypto::primitives::sha256_of(data);
    let t = hex_text(d);
    let b = encode_utf8(t);
    lemma_hex_text_ascii(d);
    encode_utf8_valid_utf8(t);
    let n: int = prefix_end(t);
    if n == b.len() {
        is_char_boundary_start_end_of_seq(b);
    } else {
        is_ascii_chars_encode_utf8(t);
        assert(t[n] as u8 == b[n]);
        is_char_boundary_iff_not_is_continuation_byte(b, n);
        let c = b[n];
        assert(c < 0x80 ==> !is_continuation_byte(c)) by (bit_vector);
    }
}

/// A file that is published: its chunks, and the records to keep.
pub struct Publication {
    pub split: SplitResult,
    pub file: FileRecord,
    pub chunks: Vec<Chunk>,
}

/// The owners that a file in chunks gets: the same node for each chunk.
pub open spec fn owned_by(hashes: Seq<Seq<char>>, node: Seq<char>) -> Seq<(Seq<char>, Seq<char>)> {
    hashes.map_values(|h: Seq<char>| (h, node))
}

/// Whether the records are those of a file in chunks that we hold.
pub open spec fn records_file(p: Publication, me: Seq<char>, store: ChunkStore) -> bool {
    &&& p.file.file_id@ == p.split.file_id@
    &&& p.file.name@ == p.split.file_name@
    &&& p.file.size_bytes == p.split.total_size
    &&& p.file.total_chunks == p.split.chunks@.len()
    &&& p.file.owner_key@ == me
    &&& option_string(p.file.mime_type) == mime_of(lowercase_of(extension(p.split.file_name@)))
    &&& p.chunks@.len() == p.split.chunks@.len()
    &&& forall|i: int|
        0 <= i < p.chunks@.len() ==> {
            &&& (#[trigger] p.chunks@[i]).hash@ == p.split.chunks@[i].hash@
            &&& p.chunks@[i].file_id@ == p.split.file_id@
            &&& p.chunks@[i].chunk_index == p.split.chunks@[i].index
            &&& p.chunks@[i].size_bytes == p.split.chunks@[i].size
            &&& p.chunks@[i].is_local
            &&& option_string(p.chunks@[i].local_path) == Some(
                store.path(p.split.chunks@[i].hash@),
            )
        }
}

/// Publishes a file: puts it into chunks, makes the records, and notes that we have its
/// chunks.
pub fn publish_file(
    file_name: Option<String>,
    total_size: u64,
    content: &[u8],
    my_id: &NodeId,
    store: &ChunkStore,
    index: &mut ChunkIndex,
) -> (r: Publication)
    requires
        chunk_count(content@.len()) <= u32::MAX,
        total_size <= i64::MAX,
    ensures
        splits(r.split, content@),
        r.split.file_name@ == (match file_name {
            Some(n) => n@,
            None => "unknown"@,
        }),
        r.split.total_size == total_size,
        records_file(r, my_id@, *store),
        final(index)@ == with_owners(
            old(index)@,
            owned_by(piece_hashes(content@), my_id@),
        ),
{
    let split: SplitResult = split_bytes(file_name, total_size, content);
    let file: FileRecord = FileRecord {
        file_id: split.file_id.clone(),
        name: split.file_name.clone(),
        size_bytes: split.total_size as i64,
        total_chunks: split.chunks.len() as i64,
        owner_key: my_id.0.clone(),
        mime_type: mime_type_from_name(split.file_name.as_str()),
    };
    let ghost hashes = piece_hashes(content@);
    let ghost owners = owned_by(hashes, my_id@);
    let ghost m = index@;
    let mut chunks: Vec<Chunk> = Vec::new();
    let mut i: usize = 0;
    assert(split.chunks@.len() == pieces(content@).len()) by {
        assert(chunk_bytes(split.data@).len() == split.data@.len());
    }
    assert(owners.take(0).len() == 0);
    while i < split.chunks.len()
        invariant
            i <= split.chunks@.len(),
            split.chunks@.len() == pieces(content@).len(),
            split.chunks@.len() <= u32::MAX,
            splits(split, content@),
            hashes == piece_hashes(content@),
            owners == owned_by(hashes, my_id@),
            index@ == with_owners(m, owners.take(i as int)),
            chunks@.len() == i,
            forall|j: int|
                0 <= j < i ==> {
                    &&& (#[trigger] chunks@[j]).hash@ == split.chunks@[j].hash@
                    &&& chunks@[j].file_id@ == split.file_id@
                    &&& chunks@[j].chunk_index == split.chunks@[j].index
                    &&& chunks@[j].size_bytes == split.chunks@[j].size
                    &&& chunks@[j].is_local
                    &&& option_string(chunks@[j].local_path) == Some(
                        store.path(split.chunks@[j].hash@),
                    )
                },
        decreases split.chunks@.len() - i,
    {
        let hash: String = split.chunks[i].hash.clone();
        let size: usize = split.chunks[i].size;
        proof {
            lemma_hash_has_directory(piece(content@, i as int));
            assert(hash@ == hashes[i as int]);
            assert(owners.take(i + 1).drop_last() =~= owners.take(i as int));
            assert(owners.take(i + 1).last() == (hash@, my_id@));
            assert(size <= 262144);
        }
        index.add_owner(hash.as_str(), my_id);
        let path: String = store.chunk_path(hash.as_str());
        chunks.push(
            Chunk {
                hash,
                file_id: split.file_id.clone(),
                chunk_index: split.chunks[i].index as i64,
                size_bytes: size as i64,
                is_local: true,
                local_path: Some(path),
            },
        );
        i = i + 1;
    }
    assert(owners.take(i as int) =~= owners);
    Publication { split, file, chunks }
}

/// Whether the descriptions in a manifest are those of the chunks, in their order.
pub open spec fn describes(metas: Seq<ChunkMeta>, chunks: Seq<Chunk>) -> bool {
    &&& metas.len() == chunks.len()
    &&& forall|i: int|
        0 <= i < metas.len() ==> {
            &&& (#[trigger] metas[i]).hash == chunks[i].hash
            &&& metas[i].index == chunks[i].chunk_index
            &&& metas[i].size == chunks[i].size_bytes
        }
}

/// The manifest of a file by its records. Who sends it out says that it has the chunks.
pub fn file_manifest(file: &FileRecord, chunks: &Vec<Chunk>, my_id: &NodeId) -> (r: FileManifest)
    ensures
        r.file_id == file.file_id,
        r.name == file.name,
        r.size_bytes == file.size_bytes,
        option_string(r.mime_type) == option_string(file.mime_type),
        r.owners@ == seq![*my_id],
        describes(r.chunks@, chunks@),
{
    let mut metas: Vec<ChunkMeta> = Vec::new();
    let mut i: usize = 0;
    while i < chunks.len()
        invariant
            i <= chunks@.len(),
            metas@.len() == i,
            forall|j: int|
                0 <= j < i ==> {
                    &&& (#[trigger] metas@[j]).hash == chunks@[j].hash
                    &&& metas@[j].index == chunks@[j].chunk_index
                    &&& metas@[j].size == chunks@[j].size_bytes
                },
        decreases chunks@.len() - i,
    {
        metas.push(
            ChunkMeta {
                hash: chunks[i].hash.clone(),
                index: chunks[i].chunk_index,
                size: chunks[i].size_bytes,
            },
        );
        i = i + 1;
    }
    let mut owners: Vec<NodeId> = Vec::new();
    owners.push(my_id.clone());
    assert(owners@ =~= seq![*my_id]);
    let mime_type: Option<String> = match &file.mime_type {
        Some(t) => Some(t.clone()),
        None => None,
    };
    FileManifest {
        file_id: file.file_id.clone(),
        name: file.name.clone(),
        size_bytes: file.size_bytes,
        mime_type,
        owners,
        chunks: metas,
    }
}

/// Whether one of the records is of a chunk that we hold, with the given hash.
pub open spec fn holds(existing: Seq<Chunk>, hash: Seq<char>) -> bool {
    exists|i: int| 0 <= i < existing.len() && (#[trigger] existing[i]).is_local && existing[i].hash@
        == hash
}

/// Whether one of the records is of a chunk that we hold, with the given hash.
fn holds_chunk(existing: &Vec<Chunk>, hash: &str) -> (r: bool)
    ensures
        r == holds(existing@, hash@),
{
    let mut i: usize = 0;
    while i < existing.len()
        invariant
            i <= existing@.len(),
            forall|j: int|
                0 <= j < i ==> !((#[trigger] existing@[j]).is_local && existing@[j].hash@ == hash@),
        decreases existing@.len() - i,
    {
        if existing[i].is_local && same_text(existing[i].hash.as_str(), hash) {
            return true;
        }
        i = i + 1;
    }
    false
}

/// A record as contracts speak of it.
#[verifier::ext_equal]
pub struct ChunkView {
    pub hash: Seq<char>,
    pub file_id: Seq<char>,
    pub chunk_index: i64,
    pub size_bytes: i64,
    pub is_local: bool,
    pub local_path: Option<Seq<char>>,
}

/// Records as contracts speak of them.
pub open spec fn chunk_views(s: Seq<Chunk>) -> Seq<ChunkView> {
    s.map_values(
        |c: Chunk|
            ChunkView {
                hash: c.hash@,
                file_id: c.file_id@,
                chunk_index: c.chunk_index,
                size_bytes: c.size_bytes,
                is_local: c.is_local,
                local_path: option_string(c.local_path),
            },
    )
}

/// The record of a chunk that we do not hold.
pub open spec fn remote(file_id: Seq<char>, meta: ChunkMeta) -> ChunkView {
    ChunkView {
        hash: meta.hash@,
        file_id,
        chunk_index: meta.index,
        size_bytes: meta.size,
        is_local: false,
        local_path: None,
    }
}

/// The records of the chunks of a manifest that we do not hold.
pub open spec fn remote_records(
    file_id: Seq<char>,
    metas: Seq<ChunkMeta>,
    existing: Seq<Chunk>,
) -> Seq<ChunkView>
    decreases metas.len(),
{
    if metas.len() == 0 {
        seq![]
    } else {
        let before = remote_records(file_id, metas.drop_last(), existing);
        if holds(existing, metas.last().hash@) {
            before
        } else {
            before.push(remote(file_id, metas.last()))
        }
    }
}

/// The owners that a manifest tells of: every owner for every chunk.
pub open spec fn told_owners(metas: Seq<ChunkMeta>, owners: Seq<Seq<char>>) -> Seq<
    (Seq<char>, Seq<char>),
>
    decreases metas.len(),
{
    if metas.len() == 0 {
        seq![]
    } else {
        told_owners(metas.drop_last(), owners) + owners.map_values(
            |o: Seq<char>| (metas.last().hash@, o),
        )
    }
}

/// What follows from a manifest: the record of the file, the records of chunks that we do
/// not hold, and the owners.
pub struct ManifestEntry {
    pub file: FileRecord,
    pub chunks: Vec<Chunk>,
    pub owners: Vec<(String, NodeId)>,
}

/// Takes a manifest: the file can be fetched from its owners afterwards. Records of
/// chunks that we hold stay as they are.
pub fn handle_manifest(manifest: &FileManifest, existing: &Vec<Chunk>, index: &mut ChunkIndex) -> (r:
    ManifestEntry)
    requires
        manifest.chunks@.len() <= i64::MAX,
    ensures
        r.file.file_id@ == manifest.file_id@,
        r.file.name@ == manifest.name@,
        r.file.size_bytes == manifest.size_bytes,
        r.file.total_chunks == manifest.chunks@.len(),
        r.file.owner_key@ == (if manifest.owners@.len() > 0 {
            manifest.owners@[0]@
        } else {
            Seq::empty()
        }),
        option_string(r.file.mime_type) == option_string(manifest.mime_type),
        chunk_views(r.chunks@) == remote_records(
            manifest.file_id@,
            manifest.chunks@,
            existing@,
        ),
        entry_texts(r.owners@) == told_owners(manifest.chunks@, node_names(manifest.owners@)),
        final(index)@ == with_owners(
            old(index)@,
            told_owners(manifest.chunks@, node_names(manifest.owners@)),
        ),
{
    let owner_key: String = match manifest.original_owner() {
        Some(n) => n.0.clone(),
        None => String::new(),
    };
    let mime_type: Option<String> = match &manifest.mime_type {
        Some(t) => Some(t.clone()),
        None => None,
    };
    let file: FileRecord = FileRecord {
        file_id: manifest.file_id.clone(),
        name: manifest.name.clone(),
        size_bytes: manifest.size_bytes,
        total_chunks: manifest.chunks.len() as i64,
        owner_key,
        mime_type,
    };
    let ghost metas = manifest.chunks@;
    let ghost names = node_names(manifest.owners@);
    let ghost m = index@;
    let mut chunks: Vec<Chunk> = Vec::new();
    let mut owners: Vec<(String, NodeId)> = Vec::new();
    let mut i: usize = 0;
    assert(metas.take(0).len() == 0);
    assert(chunk_views(chunks@) =~= seq![]);
    assert(entry_texts(owners@) =~= seq![]);
    while i < manifest.chunks.len()
        invariant
            i <= manifest.chunks@.len(),
            metas == manifest.chunks@,
            names == node_names(manifest.owners@),
            chunk_views(chunks@) == remote_records(
                manifest.file_id@,
                metas.take(i as int),
                existing@,
            ),
            entry_texts(owners@) == told_owners(metas.take(i as int), names),
            index@ == with_owners(m, told_owners(metas.take(i as int), names)),
        decreases manifest.chunks@.len() - i,
    {
        let cm: &ChunkMeta = &manifest.chunks[i];
        let ghost c0 = chunk_views(chunks@);
        assert(metas.take(i + 1).drop_last() =~= metas.take(i as int));
        assert(metas.take(i + 1).last() == *cm);
        if !holds_chunk(existing, cm.hash.as_str()) {
            chunks.push(
                Chunk {
                    hash: cm.hash.clone(),
                    file_id: manifest.file_id.clone(),
                    chunk_index: cm.index,
                    size_bytes: cm.size,
                    is_local: false,
                    local_path: None,
                },
            );
            assert(chunk_views(chunks@) =~= c0.push(remote(manifest.file_id@, *cm)));
        }
        let ghost told = told_owners(metas.take(i as int), names);
        let ghost here = names.map_values(|o: Seq<char>| (cm.hash@, o));
        let mut j: usize = 0;
        assert(told + here.take(0) =~= told);
        while j < manifest.owners.len()
            invariant
                j <= manifest.owners@.len(),
                names == node_names(manifest.owners@),
                here == names.map_values(|o: Seq<char>| (cm.hash@, o)),
                entry_texts(owners@) == told + here.take(j as int),
                index@ == with_owners(m, told + here.take(j as int)),
            decreases manifest.owners@.len() - j,
        {
            let owner: &NodeId = &manifest.owners[j];
            let ghost o0 = entry_texts(owners@);
            assert(here[j as int] == (cm.hash@, owner@));
            proof {
                let longer = told + here.take(j + 1);
                assert(longer.drop_last() =~= told + here.take(j as int));
                assert(longer.last() == (cm.hash@, owner@));
            }
            owners.push((cm.hash.clone(), owner.clone()));
            assert(entry_texts(owners@) =~= o0.push((cm.hash@, owner@)));
            assert(entry_texts(owners@) =~= told + here.take(j + 1));
            index.add_owner(cm.hash.as_str(), owner);
            j = j + 1;
        }
        assert(here.take(j as int) =~= here);
        i = i + 1;
    }
    assert(metas.take(i as int) =~= metas);
    ManifestEntry { file, chunks, owners }
}

/// Notes that a node has chunks: those that it has announced, or our own after a
/// download.
pub fn handle_announce(index: &mut ChunkIndex, peer_id: &NodeId, hashes: &Vec<String>)
    ensures
        final(index)@ == with_owners(
            old(index)@,
            owned_by(string_texts(hashes@), peer_id@),
        ),
{
    let ghost entries = owned_by(string_texts(hashes@), peer_id@);
    let ghost m = index@;
    let mut i: usize = 0;
    assert(entries.take(0).len() == 0);
    while i < hashes.len()
        invariant
            i <= hashes@.len(),
            entries == owned_by(string_texts(hashes@), peer_id@),
            index@ == with_owners(m, entries.take(i as int)),
        decreases hashes@.len() - i,
    {
        assert(entries.take(i + 1).drop_last() =~= entries.take(i as int));
        assert(entries.take(i + 1).last() == (hashes@[i as int]@, peer_id@));
        index.add_owner(hashes[i].as_str(), peer_id);
        i = i + 1;
    }
    assert(entries.take(i as int) =~= entries);
}

/// The next thing to do in a download.
#[derive(Debug, PartialEq, Eq)]
pub enum DownloadStep {
    /// Read the chunk from our own store, for its place in the file.
    ReadLocal { hash: String, place: usize },
    /// Start to fetch the chunk of the given number from one of its owners, for its place
    /// in the file.
    Fetch { hash: String, chunk_index: i64, place: usize, owners: Vec<NodeId> },
    /// Wait for the fetches that were started.
    Collect { pending: usize },
    /// All chunks are there.
    Done,
}

/// A download: chunks are taken a few at a time, and between these the download can be
/// stopped. The place of a chunk is where it stands in the list of the file's chunks,
/// whatever their numbers are.
pub struct Download {
    chunks: Vec<Chunk>,
    slots: Vec<Option<Vec<u8>>>,
    position: usize,
    waiting: Vec<usize>,
}

/// The state of a download.
#[verifier::ext_equal]
pub struct DownloadView {
    pub chunks: Seq<Chunk>,
    pub slots: Seq<Option<Vec<u8>>>,
    /// How many chunks have been started.
    pub position: int,
    /// The places of those that have not come yet.
    pub waiting: Seq<usize>,
}

impl View for Download {
    type V = DownloadView;

    closed spec fn view(&self) -> DownloadView {
        DownloadView {
            chunks: self.chunks@,
            slots: self.slots@,
            position: self.position as int,
            waiting: self.waiting@,
        }
    }
}

impl DownloadView {
    /// Whether a place has its chunk, or will get it.
    pub open spec fn provided(self, place: int) -> bool {
        self.waiting.contains(place as usize) || self.slots[place] is Some
    }

    /// How many chunks of the current batch have been started.
    pub open spec fn in_batch(self) -> int {
        let n = self.position % DOWNLOAD_CONCURRENCY as int;
        if n == 0 && self.position > 0 {
            DOWNLOAD_CONCURRENCY as int
        } else {
            n
        }
    }

    /// Whether each chunk that was started has come or is waited for, and only chunks of
    /// the current batch are.
    pub open spec fn valid(self) -> bool {
        &&& self.slots.len() == self.chunks.len()
        &&& 0 <= self.position <= self.chunks.len() <= usize::MAX
        &&& self.waiting.len() <= self.in_batch()
        &&& forall|i: int| 0 <= i < self.position ==> #[trigger] self.provided(i)
    }

    /// Whether a batch of chunks has been started, or none yet.
    pub open spec fn between_batches(self) -> bool {
        self.position % DOWNLOAD_CONCURRENCY as int == 0 || self.position == self.chunks.len()
    }

    /// The state after the next chunk was started.
    pub open spec fn started(self) -> DownloadView {
        DownloadView {
            position: self.position + 1,
            waiting: self.waiting.push(self.position as usize),
            ..self
        }
    }

    /// The state after a chunk has come to its place.
    pub open spec fn filled(self, place: usize, data: Vec<u8>) -> DownloadView {
        DownloadView {
            slots: self.slots.update(place as int, Some(data)),
            waiting: without_first(self.waiting, place),
            ..self
        }
    }
}

/// A sequence without the first occurrence of a number.
pub open spec fn without_first(s: Seq<usize>, x: usize) -> Seq<usize>
    decreases s.len(),
{
    if s.len() == 0 {
        s
    } else if s[0] == x {
        s.drop_first()
    } else {
        seq![s[0]] + without_first(s.drop_first(), x)
    }
}

/// Nothing is added.
proof fn lemma_without_first_len(s: Seq<usize>, x: usize)
    ensures
        without_first(s, x).len() <= s.len(),
    decreases s.len(),
{
    if s.len() > 0 && s[0] != x {
        lemma_without_first_len(s.drop_first(), x);
    }
}

/// Any other number stays.
proof fn lemma_without_first_keeps(s: Seq<usize>, x: usize, y: usize)
    requires
        s.contains(y),
        x != y,
    ensures
        without_first(s, x).contains(y),
    decreases s.len(),
{
    let i: int = choose|i: int| 0 <= i < s.len() && s[i] == y;
    let rest = s.drop_first();
    if s[0] == x {
        assert(rest[i - 1] == y);
    } else if i == 0 {
        assert(without_first(s, x)[0] == y);
    } else {
        assert(rest[i - 1] == y);
        lemma_without_first_keeps(rest, x, y);
        let w = without_first(rest, x);
        let k: int = choose|k: int| 0 <= k < w.len() && w[k] == y;
        assert(without_first(s, x)[k + 1] == y);
    }
}

/// Without the first occurrence at a place, the sequence is what stands before that place
/// and what stands after it.
proof fn lemma_without_first_at(s: Seq<usize>, x: usize, i: int)
    requires
        0 <= i < s.len(),
        s[i] == x,
        forall|j: int| 0 <= j < i ==> s[j] != x,
    ensures
        without_first(s, x) == s.remove(i),
    decreases i,
{
    if i == 0 {
        assert(s.drop_first() =~= s.remove(0));
    } else {
        let rest = s.drop_first();
        lemma_without_first_at(rest, x, i - 1);
        assert(seq![s[0]] + rest.remove(i - 1) =~= s.remove(i));
    }
}

/// Without an occurrence, the sequence stays.
proof fn lemma_without_first_absent(s: Seq<usize>, x: usize)
    requires
        forall|j: int| 0 <= j < s.len() ==> s[j] != x,
    ensures
        without_first(s, x) == s,
    decreases s.len(),
{
    if s.len() > 0 {
        lemma_without_first_absent(s.drop_first(), x);
        assert(seq![s[0]] + s.drop_first() =~= s);
    }
}

/// Starting a chunk and filling a place keep each chunk that was started provided for.
proof fn lemma_download_stays_valid(d: DownloadView)
    requires
        d.valid(),
    ensures
        d.position < d.chunks.len() && !(d.between_batches() && d.waiting.len() > 0)
            ==> d.started().valid(),
        forall|place: usize, data: Vec<u8>|
            place < d.slots.len() ==> (#[trigger] d.filled(place, data)).valid(),
{
    if d.position < d.chunks.len() && !(d.between_batches() && d.waiting.len() > 0) {
        let after = d.started();
        let c = DOWNLOAD_CONCURRENCY as int;
        assert(after.in_batch() == d.position % c + 1);
        assert(after.waiting[d.waiting.len() as int] == d.position);
        assert forall|i: int| 0 <= i < after.position implies #[trigger] after.provided(i) by {
            if i < d.position {
                assert(d.provided(i));
                if d.waiting.contains(i as usize) {
                    let k: int = choose|k: int|
                        0 <= k < d.waiting.len() && d.waiting[k] == i as usize;
                    assert(after.waiting[k] == i as usize);
                }
            }
        }
    }
    assert forall|place: usize, data: Vec<u8>| place < d.slots.len() implies (
    #[trigger] d.filled(place, data)).valid() by {
        let after = d.filled(place, data);
        lemma_without_first_len(d.waiting, place);
        assert forall|i: int| 0 <= i < after.position implies #[trigger] after.provided(i) by {
            assert(d.provided(i));
            if i != place && d.waiting.contains(i as usize) {
                lemma_without_first_keeps(d.waiting, place, i as usize);
            }
        }
    }
}

impl Download {
    /// The download of a file with the given chunks, in the order in which they make up the
    /// file.
    pub fn new(chunks: Vec<Chunk>) -> (r: Download)
        ensures
            r@.valid(),
            r@.chunks == chunks@,
            r@.position == 0,
            r@.waiting == Seq::<usize>::empty(),
            forall|i: int| 0 <= i < r@.slots.len() ==> #[trigger] r@.slots[i] is None,
    {
        let mut slots: Vec<Option<Vec<u8>>> = Vec::new();
        let mut i: usize = 0;
        while i < chunks.len()
            invariant
                i <= chunks@.len(),
                slots@.len() == i,
                forall|j: int| 0 <= j < i ==> #[trigger] slots@[j] is None,
            decreases chunks@.len() - i,
        {
            slots.push(None);
            i = i + 1;
        }
        Download { chunks, slots, position: 0, waiting: Vec::new() }
    }

    /// The next thing to do. What was started in one batch is waited for before the next
    /// batch; before each batch the download can be stopped. A chunk that we hold is
    /// read, any other is fetched from its owners; one that nobody has ends the download.
    pub fn next(&mut self, cancelled: bool, index: &ChunkIndex) -> (r: Result<
        DownloadStep,
        StorageError,
    >)
        requires
            old(self)@.valid(),
        ensures
            final(self)@.valid(),
            ({
                let d = old(self)@;
                let after = final(self)@;
                if d.between_batches() && d.waiting.len() > 0 {
                    &&& r matches Ok(DownloadStep::Collect { pending }) && pending
                        == d.waiting.len()
                    &&& after == d
                } else if d.position == d.chunks.len() {
                    r == Ok::<DownloadStep, StorageError>(DownloadStep::Done) && after == d
                } else if d.between_batches() && cancelled {
                    r matches Err(StorageError::Cancelled) && after == d
                } else {
                    let c = d.chunks[d.position];
                    if c.is_local {
                        &&& r matches Ok(DownloadStep::ReadLocal { hash, place }) && hash == c.hash
                            && place == d.position
                        &&& after == d.started()
                    } else if owners_of(index@, c.hash@) == Set::<Seq<char>>::empty() {
                        r matches Err(StorageError::NoPeersForChunk(h)) && h == c.hash && after == d
                    } else {
                        &&& r matches Ok(DownloadStep::Fetch { hash, chunk_index, place, owners })
                            && hash == c.hash && chunk_index == c.chunk_index && place
                            == d.position && lists_names(owners@, owners_of(index@, c.hash@))
                        &&& after == d.started()
                    }
                }
            }),
    {
        let ghost d = self@;
        proof {
            lemma_download_stays_valid(d);
        }
        let between: bool = self.position % DOWNLOAD_CONCURRENCY == 0 || self.position
            == self.chunks.len();
        if between && self.waiting.len() > 0 {
            return Ok(DownloadStep::Collect { pending: self.waiting.len() });
        }
        if self.position == self.chunks.len() {
            return Ok(DownloadStep::Done);
        }
        if between && cancelled {
            return Err(StorageError::Cancelled);
        }
        let hash: String = self.chunks[self.position].hash.clone();
        let chunk_index: i64 = self.chunks[self.position].chunk_index;
        let place: usize = self.position;
        if self.chunks[self.position].is_local {
            self.position = self.position + 1;
            self.waiting.push(place);
            assert(self@ =~= d.started());
            return Ok(DownloadStep::ReadLocal { hash, place });
        }
        let owners: Vec<NodeId> = index.get_owners(hash.as_str());
        let ghost known = owners_of(index@, hash@);
        if owners.len() == 0 {
            assert(known =~= Set::<Seq<char>>::empty());
            return Err(StorageError::NoPeersForChunk(hash));
        }
        assert(known.contains(owners@[0]@));
        self.position = self.position + 1;
        self.waiting.push(place);
        assert(self@ =~= d.started());
        Ok(DownloadStep::Fetch { hash, chunk_index, place, owners })
    }

    /// Puts a chunk that was read or fetched to its place.
    pub fn fill(&mut self, place: usize, data: Vec<u8>)
        requires
            old(self)@.valid(),
            place < old(self)@.slots.len(),
        ensures
            final(self)@.valid(),
            final(self)@ == old(self)@.filled(place, data),
    {
        let ghost d = self@;
        proof {
            lemma_download_stays_valid(d);
        }
        self.slots[place] = Some(data);
        assert(self@ =~= (DownloadView { slots: d.slots.update(place as int, Some(data)), ..d }));
        let mut i: usize = 0;
        while i < self.waiting.len() && self.waiting[i] != place
            invariant
                i <= self.waiting@.len(),
                self@ == (DownloadView { slots: d.slots.update(place as int, Some(data)), ..d }),
                self.waiting@ == d.waiting,
                forall|j: int| 0 <= j < i ==> d.waiting[j] != place,
            decreases self.waiting@.len() - i,
        {
            i = i + 1;
        }
        let ghost found = i < d.waiting.len();
        if i < self.waiting.len() {
            self.waiting.remove(i);
        }
        proof {
            if found {
                lemma_without_first_at(d.waiting, place, i as int);
            } else {
                lemma_without_first_absent(d.waiting, place);
            }
            assert(self@ =~= d.filled(place, data));
        }
    }

    /// The chunks in the order of their places. A place that was never filled counts as
    /// empty.
    pub fn finish(self) -> (r: Vec<Vec<u8>>)
        ensures
            chunk_bytes(r@) == slot_bytes(self@.slots),
    {
        let mut out: Vec<Vec<u8>> = Vec::new();
        let mut i: usize = 0;
        while i < self.slots.len()
            invariant
                i <= self.slots@.len(),
                out@.len() == i,
                forall|j: int|
                    0 <= j < i ==> (#[trigger] out@[j])@ == slot_bytes(self.slots@)[j],
            decreases self.slots@.len() - i,
        {
            let data: Vec<u8> = match &self.slots[i] {
                Some(d) => bytes_of(d.as_slice()),
                None => Vec::new(),
            };
            assert(data@ =~= slot_bytes(self.slots@)[i as int]);
            out.push(data);
            i = i + 1;
        }
        assert(chunk_bytes(out@) =~= slot_bytes(self.slots@));
        out
    }
}

/// The bytes at the places of a download; one that is not filled counts as empty.
pub open spec fn slot_bytes(slots: Seq<Option<Vec<u8>>>) -> Seq<Seq<u8>> {
    slots.map_values(
        |o: Option<Vec<u8>>|
            match o {
                Some(d) => d@,
                None => Seq::<u8>::empty(),
            },
    )
}

/// The first of the peers that is the given node.
pub open spec fn peer_of(peers: Seq<PeerInfo>, node: Seq<char>) -> Option<SocketAddr>
    decreases peers.len(),
{
    if peers.len() == 0 {
        None
    } else if peers[0].id@ == node {
        Some(SocketAddr { ip: peers[0].ip, port: peers[0].port })
    } else {
        peer_of(peers.drop_first(), node)
    }
}

/// Where a node listens, if it is among the peers.
fn find_peer(peers: &Vec<PeerInfo>, node: &NodeId) -> (r: Option<SocketAddr>)
    ensures
        r == peer_of(peers@, node@),
{
    let mut i: usize = 0;
    assert(peers@.skip(0) =~= peers@);
    while i < peers.len()
        invariant
            i <= peers@.len(),
            peer_of(peers@, node@) == peer_of(peers@.skip(i as int), node@),
        decreases peers@.len() - i,
    {
        assert(peers@.skip(i as int).drop_first() =~= peers@.skip(i + 1));
        if peers[i].id.same(node) {
            return Some(SocketAddr { ip: peers[i].ip, port: peers[i].port });
        }
        i = i + 1;
    }
    None
}

/// The next owner to ask, from the one numbered `from` on: the first that is among the
/// active peers.
pub fn next_owner(owners: &Vec<NodeId>, peers: &Vec<PeerInfo>, from: usize) -> (r: Option<
    (usize, SocketAddr),
>)
    ensures
        match r {
            Some((i, addr)) => {
                &&& from <= i < owners@.len()
                &&& peer_of(peers@, owners@[i as int]@) == Some(addr)
                &&& forall|j: int|
                    from <= j < i ==> peer_of(peers@, (#[trigger] owners@[j])@) is None
            },
            None => forall|j: int|
                from <= j < owners@.len() ==> peer_of(peers@, (#[trigger] owners@[j])@) is None,
        },
        forall|j: int, p: int|
            from <= j < owners@.len() && 0 <= p < peers@.len() && (#[trigger] owners@[j])@ == (
            #[trigger] peers@[p]).id@ ==> (r matches Some((i, _)) && i <= j),
        r matches Some((i, addr)) ==> exists|p: int|
            {
                &&& 0 <= p < peers@.len()
                &&& (#[trigger] peers@[p]).id@ == owners@[i as int]@
                &&& addr == (SocketAddr { ip: peers@[p].ip, port: peers@[p].port })
                &&& forall|q: int|
                    0 <= q < p ==> (#[trigger] peers@[q]).id@ != owners@[i as int]@
            },
{
    let mut i: usize = from;
    while i < owners.len()
        invariant
            from <= i,
            forall|j: int| from <= j < i ==> peer_of(peers@, (#[trigger] owners@[j])@) is None,
        decreases owners@.len() - i,
    {
        if let Some(addr) = find_peer(peers, &owners[i]) {
            proof {
                let p: int = lemma_first_peer(peers@, owners@[i as int]@);
                law_active_owner_is_found(peers@, owners@[i as int]@, p);
                assert forall|j: int, q: int|
                    from <= j < owners@.len() && 0 <= q < peers@.len() && (#[trigger] owners@[j])@
                        == (#[trigger] peers@[q]).id@ implies i <= j by {
                    law_only_absent_owners_are_passed_over(peers@, owners@[j]@);
                }
            }
            return Some((i, addr));
        }
        i = i + 1;
    }
    proof {
        assert forall|j: int, q: int|
            from <= j < owners@.len() && 0 <= q < peers@.len() implies (#[trigger] owners@[j])@ != (
        #[trigger] peers@[q]).id@ by {
            law_only_absent_owners_are_passed_over(peers@, owners@[j]@);
        }
    }
    None
}

/// What follows from an attempt to fetch a chunk.
#[derive(Debug, PartialEq, Eq)]
pub enum FetchVerdict {
    /// The chunk is there: it is stored and recorded, and its sender gets credit.
    Keep { record: Chunk, event: ChunkEvent },
    /// The next owner is asked. Who has sent a chunk that is not what its hash says is
    /// told on.
    AskNext { event: Option<ChunkEvent> },
}

/// Whether that follows from an attempt to fetch a chunk from an owner.
pub open spec fn judged(
    r: FetchVerdict,
    hash: Seq<char>,
    chunk_index: i64,
    owner: NodeId,
    store: ChunkStore,
    got: Result<Vec<u8>, StorageError>,
) -> bool {
    match got {
        Ok(d) => r matches FetchVerdict::Keep { record, event } && {
            &&& record.hash@ == hash
            &&& record.file_id@ == Seq::<char>::empty()
            &&& record.chunk_index == chunk_index
            &&& record.size_bytes == d@.len()
            &&& record.is_local
            &&& option_string(record.local_path) == Some(store.path(hash))
            &&& event == (ChunkEvent::Valid { peer: owner, size_bytes: d@.len() as i64 })
        },
        Err(StorageError::IntegrityFailure { .. }) => r == (FetchVerdict::AskNext {
            event: Some(ChunkEvent::Bad { peer: owner }),
        }),
        Err(_) => r == (FetchVerdict::AskNext { event: None }),
    }
}

/// What follows from an attempt to fetch a chunk from an owner.
pub fn judge_fetch(
    hash: &str,
    chunk_index: i64,
    owner: &NodeId,
    store: &ChunkStore,
    got: &Result<Vec<u8>, StorageError>,
) -> (r: FetchVerdict)
    requires
        has_prefix_text(hash@),
        *got matches Ok(d) ==> d@.len() <= i64::MAX,
    ensures
        judged(r, hash@, chunk_index, *owner, *store, *got),
{
    match got {
        Ok(d) => {
            let record: Chunk = Chunk {
                hash: hash.to_owned(),
                file_id: String::new(),
                chunk_index,
                size_bytes: d.len() as i64,
                is_local: true,
                local_path: Some(store.chunk_path(hash)),
            };
            FetchVerdict::Keep {
                record,
                event: ChunkEvent::Valid { peer: owner.clone(), size_bytes: d.len() as i64 },
            }
        },
        Err(StorageError::IntegrityFailure { expected: _, actual: _ }) => FetchVerdict::AskNext {
            event: Some(ChunkEvent::Bad { peer: owner.clone() }),
        },
        Err(_) => FetchVerdict::AskNext { event: None },
    }
}

/// The error where no owner is left to ask.
pub fn no_owner_left(hash: &str) -> (r: StorageError)
    ensures
        r matches StorageError::NoPeersForChunk(h) && h@ == hash@,
{
    StorageError::NoPeersForChunk(hash.to_owned())
}

/// The next thing to do to read a whole file from our own store.
#[derive(Debug, PartialEq, Eq)]
pub enum ReadStep {
    Read(String),
    Done,
}

/// Whether that is the next thing to do to read a whole file, of which the chunks up to the
/// position have been read. A file cannot be read where neither a record of it is known
/// nor a chunk; a chunk that we do not hold ends the reading.
pub open spec fn reads_next(
    r: Result<ReadStep, StorageError>,
    file_id: Seq<char>,
    known: bool,
    chunks: Seq<Chunk>,
    position: int,
) -> bool {
    if !known && chunks.len() == 0 {
        r matches Err(StorageError::FileNotFound(f)) && f@ == file_id
    } else if position >= chunks.len() {
        r matches Ok(ReadStep::Done)
    } else if !chunks[position].is_local {
        r matches Err(StorageError::ChunkNotFound(h)) && h == chunks[position].hash
    } else {
        r matches Ok(ReadStep::Read(h)) && h == chunks[position].hash
    }
}

/// The next thing to do to read a whole file. A known file without chunks is empty.
pub fn read_step(file_id: &str, known: bool, chunks: &Vec<Chunk>, position: usize) -> (r: Result<
    ReadStep,
    StorageError,
>)
    ensures
        reads_next(r, file_id@, known, chunks@, position as int),
{
    if !known && chunks.len() == 0 {
        return Err(StorageError::FileNotFound(file_id.to_owned()));
    }
    if position >= chunks.len() {
        return Ok(ReadStep::Done);
    }
    if !chunks[position].is_local {
        return Err(StorageError::ChunkNotFound(chunks[position].hash.clone()));
    }
    Ok(ReadStep::Read(chunks[position].hash.clone()))
}

/// Whether we hold all chunks.
pub fn all_local(chunks: &Vec<Chunk>) -> (r: bool)
    ensures
        r == (forall|i: int| 0 <= i < chunks@.len() ==> (#[trigger] chunks@[i]).is_local),
{
    let mut i: usize = 0;
    while i < chunks.len()
        invariant
            i <= chunks@.len(),
            forall|j: int| 0 <= j < i ==> (#[trigger] chunks@[j]).is_local,
        decreases chunks@.len() - i,
    {
        if !chunks[i].is_local {
            return false;
        }
        i = i + 1;
    }
    true
}

/// A file that was published is read back as it was, an empty one too: the chunks are read
/// one after the other, and what was stored under their hashes, in a row, is the content.
pub proof fn law_published_file_reads_back(
    p: Publication,
    me: Seq<char>,
    store: ChunkStore,
    content: Seq<u8>,
    stored: Map<Seq<char>, Seq<u8>>,
)
    requires
        splits(p.split, content),
        records_file(p, me, store),
        forall|i: int|
            0 <= i < p.chunks@.len() ==> stored[(#[trigger] p.split.chunks@[i]).hash@]
                == p.split.data@[i]@,
    ensures
        forall|r: Result<ReadStep, StorageError>, i: int|
            0 <= i < p.chunks@.len() && #[trigger] reads_next(
                r,
                p.file.file_id@,
                true,
                p.chunks@,
                i,
            ) ==> (r matches Ok(ReadStep::Read(h)) && h@ == piece_hashes(content)[i]),
        forall|r: Result<ReadStep, StorageError>|
            #[trigger] reads_next(
                r,
                p.file.file_id@,
                true,
                p.chunks@,
                p.chunks@.len() as int,
            ) ==> r matches Ok(ReadStep::Done),
        joined(Seq::new(p.chunks@.len(), |i: int| stored[p.chunks@[i].hash@])) == content,
{
    let read = Seq::new(p.chunks@.len(), |i: int| stored[p.chunks@[i].hash@]);
    assert(chunk_bytes(p.split.data@).len() == p.split.data@.len());
    assert forall|i: int| 0 <= i < read.len() implies #[trigger] read[i] == pieces(content)[i] by {
        assert(p.chunks@[i].hash@ == p.split.chunks@[i].hash@);
        assert(chunk_bytes(p.split.data@)[i] == p.split.data@[i]@);
    }
    assert(read =~= pieces(content));
    law_split_joins_back(content);
}

/// A file that was published and is fetched chunk by chunk is the file: where each place
/// of a download holds the chunk of that number, the chunks in a row are the content.
pub proof fn law_download_gives_back_content(content: Seq<u8>, slots: Seq<Option<Vec<u8>>>)
    requires
        slots.len() == pieces(content).len(),
        forall|i: int|
            0 <= i < slots.len() ==> ((#[trigger] slots[i]) matches Some(d) && d@ == piece(
                content,
                i,
            )),
    ensures
        joined(slot_bytes(slots)) == content,
{
    assert(slot_bytes(slots) =~= pieces(content));
    law_split_joins_back(content);
}

/// No more than a few chunks are fetched at a time.
pub proof fn law_few_fetches_at_a_time(d: DownloadView)
    requires
        d.valid(),
    ensures
        d.waiting.len() <= DOWNLOAD_CONCURRENCY,
{
}

/// A download that is done has all chunks: where nothing is waited for any more, each
/// place has its chunk, whatever the chunks' numbers are.
pub proof fn law_done_download_is_complete(d: DownloadView)
    requires
        d.valid(),
        d.position == d.chunks.len(),
        d.waiting.len() == 0,
    ensures
        forall|i: int| 0 <= i < d.slots.len() ==> #[trigger] d.slots[i] is Some,
        slot_bytes(d.slots).len() == d.chunks.len(),
        forall|i: int|
            0 <= i < d.slots.len() ==> (d.slots[i] matches Some(data) && #[trigger] slot_bytes(
                d.slots,
            )[i] == data@),
{
    assert forall|i: int| 0 <= i < d.slots.len() implies #[trigger] d.slots[i] is Some by {
        assert(d.provided(i));
    }
}

/// Whether chunks are listed in the order of their numbers.
pub open spec fn in_index_order(chunks: Seq<Chunk>) -> bool {
    forall|i: int, j: int|
        0 <= i <= j < chunks.len() ==> (#[trigger] chunks[i]).chunk_index <= (
        #[trigger] chunks[j]).chunk_index
}

/// What a download gives is in the order of the chunks' numbers, where they are listed so:
/// the chunk with the smaller number has the earlier place. Numbers that are left out
/// leave no hole.
pub proof fn law_download_keeps_index_order(d: DownloadView, i: int, j: int)
    requires
        d.valid(),
        in_index_order(d.chunks),
        0 <= i < d.chunks.len(),
        0 <= j < d.chunks.len(),
        d.chunks[i].chunk_index < d.chunks[j].chunk_index,
    ensures
        i < j,
        slot_bytes(d.slots).len() == d.chunks.len(),
{
}

/// A manifest carries a file: a node that knew nothing of the file has, after the manifest
/// of an owner, a record of each of its chunks, as it does not hold them yet, and an owner
/// to fetch each from.
pub proof fn law_manifest_carries_the_file(
    m: Map<Seq<char>, Set<Seq<char>>>,
    file_id: Seq<char>,
    metas: Seq<ChunkMeta>,
    chunks: Seq<Chunk>,
    owner: Seq<char>,
    i: int,
)
    requires
        describes(metas, chunks),
        0 <= i < chunks.len(),
    ensures
        ({
            let records = remote_records(file_id, metas, seq![]);
            &&& records.len() == chunks.len()
            &&& records[i].hash == chunks[i].hash@
            &&& records[i].chunk_index == chunks[i].chunk_index
            &&& records[i].size_bytes == chunks[i].size_bytes
            &&& !records[i].is_local
        }),
        owners_of(with_owners(m, told_owners(metas, seq![owner])), chunks[i].hash@).contains(owner),
{
    lemma_told_owner_is_owner(m, metas, owner, i);
    lemma_nothing_held(file_id, metas);
    assert(remote_records(file_id, metas, seq![])[i] == remote(file_id, metas[i]));
}

/// Where no chunk is held there is a record for each description.
proof fn lemma_nothing_held(file_id: Seq<char>, metas: Seq<ChunkMeta>)
    ensures
        ({
            let records = remote_records(file_id, metas, seq![]);
            &&& records.len() == metas.len()
            &&& forall|i: int|
                0 <= i < metas.len() ==> #[trigger] records[i] == remote(file_id, metas[i])
        }),
    decreases metas.len(),
{
    if metas.len() > 0 {
        lemma_nothing_held(file_id, metas.drop_last());
        assert(!holds(seq![], metas.last().hash@));
    }
}

/// Two manifests of one file by different owners make both of them owners of each of its
/// chunks.
pub proof fn law_manifests_merge(
    m: Map<Seq<char>, Set<Seq<char>>>,
    metas: Seq<ChunkMeta>,
    a: Seq<char>,
    b: Seq<char>,
    i: int,
)
    requires
        0 <= i < metas.len(),
    ensures
        ({
            let both = with_owners(
                with_owners(m, told_owners(metas, seq![a])),
                told_owners(metas, seq![b]),
            );
            &&& owners_of(both, metas[i].hash@).contains(a)
            &&& owners_of(both, metas[i].hash@).contains(b)
        }),
{
    let first = with_owners(m, told_owners(metas, seq![a]));
    lemma_told_owner_is_owner(m, metas, a, i);
    lemma_told_owner_is_owner(first, metas, b, i);
    lemma_owners_stay(first, told_owners(metas, seq![b]), metas[i].hash@, a);
}

/// An owner stays one when others are added.
proof fn lemma_owners_stay(
    m: Map<Seq<char>, Set<Seq<char>>>,
    entries: Seq<(Seq<char>, Seq<char>)>,
    hash: Seq<char>,
    owner: Seq<char>,
)
    requires
        owners_of(m, hash).contains(owner),
    ensures
        owners_of(with_owners(m, entries), hash).contains(owner),
    decreases entries.len(),
{
    if entries.len() > 0 {
        lemma_owners_stay(m, entries.drop_last(), hash, owner);
    }
}

/// The one owner of a manifest becomes the owner of each of its chunks.
proof fn lemma_told_owner_is_owner(
    m: Map<Seq<char>, Set<Seq<char>>>,
    metas: Seq<ChunkMeta>,
    owner: Seq<char>,
    i: int,
)
    requires
        0 <= i < metas.len(),
    ensures
        owners_of(with_owners(m, told_owners(metas, seq![owner])), metas[i].hash@).contains(owner),
    decreases metas.len(),
{
    let head = metas.drop_last();
    let told = told_owners(head, seq![owner]);
    let all = told_owners(metas, seq![owner]);
    assert(all =~= told.push((metas.last().hash@, owner)));
    assert(all.drop_last() =~= told);
    if i < metas.len() - 1 {
        lemma_told_owner_is_owner(m, head, owner, i);
        assert(head[i] == metas[i]);
    }
}

/// An owner who is any of the active peers is found, whatever its address: it listens
/// where the first of the peers with its name does.
pub proof fn law_active_owner_is_found(peers: Seq<PeerInfo>, node: Seq<char>, i: int)
    requires
        0 <= i < peers.len(),
        peers[i].id@ == node,
        forall|j: int| 0 <= j < i ==> (#[trigger] peers[j]).id@ != node,
    ensures
        peer_of(peers, node) == Some(SocketAddr { ip: peers[i].ip, port: peers[i].port }),
    decreases peers.len(),
{
    if i > 0 {
        let rest = peers.drop_first();
        assert(peers[0].id@ != node);
        assert forall|j: int| 0 <= j < i - 1 implies (#[trigger] rest[j]).id@ != node by {
            assert(rest[j] == peers[j + 1]);
        }
        law_active_owner_is_found(rest, node, i - 1);
    }
}

/// An owner is passed over only where no active peer has its name.
pub proof fn law_only_absent_owners_are_passed_over(peers: Seq<PeerInfo>, node: Seq<char>)
    ensures
        peer_of(peers, node) is None <==> forall|i: int|
            0 <= i < peers.len() ==> (#[trigger] peers[i]).id@ != node,
    decreases peers.len(),
{
    if peers.len() > 0 {
        let rest = peers.drop_first();
        law_only_absent_owners_are_passed_over(rest, node);
        if forall|i: int| 0 <= i < peers.len() ==> (#[trigger] peers[i]).id@ != node {
            assert(peers[0].id@ != node);
            assert forall|i: int| 0 <= i < rest.len() implies (#[trigger] rest[i]).id@ != node by {
                assert(rest[i] == peers[i + 1]);
            }
        }
        if peer_of(peers, node) is None {
            assert forall|i: int| 0 <= i < peers.len() implies (#[trigger] peers[i]).id@
                != node by {
                if i > 0 {
                    assert(rest[i - 1] == peers[i]);
                }
            }
        }
    }
}

/// The extension of a name is what stands after its last dot; a name without a dot is all
/// extension.
pub proof fn law_extension_follows_the_last_dot(front: Seq<char>, ext: Seq<char>)
    requires
        !ext.contains('.'),
    ensures
        extension(front + seq!['.'] + ext) == ext,
        extension(ext) == ext,
    decreases ext.len(),
{
    if ext.len() == 0 {
        let name = front + seq!['.'] + ext;
        assert(name.last() == '.');
        assert(extension(name) =~= ext);
        assert(extension(ext) =~= ext);
    } else {
        let e = ext.drop_last();
        let name = front + seq!['.'] + ext;
        assert(!e.contains('.')) by {
            if e.contains('.') {
                let i: int = choose|i: int| 0 <= i < e.len() && e[i] == '.';
                assert(ext[i] == '.');
            }
        }
        law_extension_follows_the_last_dot(front, e);
        assert(ext.contains(ext[ext.len() - 1]));
        assert(name.drop_last() =~= front + seq!['.'] + e);
        assert(extension(name) =~= ext);
        assert(extension(ext) =~= ext);
    }
}

/// The types that are known, each by its extensions; every other extension has none.
pub proof fn law_types_of_files(ext: Seq<char>)
    ensures
        mime_of("jpg"@) == Some("image/jpeg"@),
        mime_of("jpeg"@) == Some("image/jpeg"@),
        mime_of("png"@) == Some("image/png"@),
        mime_of("gif"@) == Some("image/gif"@),
        mime_of("mp4"@) == Some("video/mp4"@),
        mime_of("mkv"@) == Some("video/x-matroska"@),
        mime_of("pdf"@) == Some("application/pdf"@),
        mime_of("zip"@) == Some("application/zip"@),
        mime_of("txt"@) == Some("text/plain"@),
        mime_of("html"@) == Some("text/html"@),
        mime_of(ext) is Some <==> ext == "jpg"@ || ext == "jpeg"@ || ext == "png"@ || ext == "gif"@
            || ext == "mp4"@ || ext == "mkv"@ || ext == "pdf"@ || ext == "zip"@ || ext == "txt"@
            || ext == "html"@,
{
    reveal_strlit("jpg");
    reveal_strlit("jpeg");
    reveal_strlit("png");
    reveal_strlit("gif");
    reveal_strlit("mp4");
    reveal_strlit("mkv");
    reveal_strlit("pdf");
    reveal_strlit("zip");
    reveal_strlit("txt");
    reveal_strlit("html");
    assert("jpg"@[0] == 'j' && "png"@[0] == 'p' && "png"@[1] == 'n' && "gif"@[0] == 'g');
    assert("mp4"@[0] == 'm' && "mp4"@[1] == 'p' && "mkv"@[0] == 'm' && "mkv"@[1] == 'k');
    assert("pdf"@[0] == 'p' && "pdf"@[1] == 'd' && "zip"@[0] == 'z' && "txt"@[0] == 't');
    assert("jpeg"@.len() == 4 && "html"@.len() == 4 && "jpeg"@[0] == 'j' && "html"@[0] == 'h');
}

/// A node becomes an owner of each chunk of a file that it publishes or announces.
pub proof fn law_publisher_owns_each_chunk(
    m: Map<Seq<char>, Set<Seq<char>>>,
    hashes: Seq<Seq<char>>,
    node: Seq<char>,
    hash: Seq<char>,
    other: Seq<char>,
)
    ensures
        hashes.contains(hash) ==> owners_of(with_owners(m, owned_by(hashes, node)), hash).contains(
            node,
        ),
        other != node || !hashes.contains(hash) ==> (owners_of(
            with_owners(m, owned_by(hashes, node)),
            hash,
        ).contains(other) <==> owners_of(m, hash).contains(other)),
{
    let entries = owned_by(hashes, node);
    law_each_note_makes_an_owner(m, entries, hash, node);
    law_each_note_makes_an_owner(m, entries, hash, other);
    if hashes.contains(hash) {
        let i: int = choose|i: int| 0 <= i < hashes.len() && hashes[i] == hash;
        assert(entries[i] == (hash, node));
    }
    if entries.contains((hash, other)) {
        let i: int = choose|i: int| 0 <= i < entries.len() && entries[i] == (hash, other);
        assert(hashes[i] == hash);
    }
}

/// The records of a published file: the file under its name in the network, with its size, the
/// number of its chunks and us as the owner; and for each chunk, in order, a record that we hold
/// it, with its size and where it lies.
pub proof fn law_published_file_is_recorded(
    p: Publication,
    me: Seq<char>,
    store: ChunkStore,
    content: Seq<u8>,
    i: int,
)
    requires
        splits(p.split, content),
        records_file(p, me, store),
        0 <= i < pieces(content).len(),
    ensures
        p.file.file_id@ == p.split.file_id@,
        p.file.name@ == p.split.file_name@,
        p.file.size_bytes == p.split.total_size,
        p.file.total_chunks == pieces(content).len(),
        p.file.owner_key@ == me,
        option_string(p.file.mime_type) == mime_of(lowercase_of(extension(p.split.file_name@))),
        p.chunks@.len() == pieces(content).len(),
        p.chunks@[i].hash@ == chunk_hash(pieces(content)[i]),
        p.chunks@[i].file_id@ == p.file.file_id@,
        p.chunks@[i].chunk_index == i,
        p.chunks@[i].size_bytes == pieces(content)[i].len(),
        p.chunks@[i].is_local,
        option_string(p.chunks@[i].local_path) == Some(
            store.path(chunk_hash(pieces(content)[i])),
        ),
{
    assert(chunk_bytes(p.split.data@).len() == p.split.data@.len());
    assert(p.split.chunks@[i].hash@ == chunk_hash(piece(content, i)));
    assert(p.chunks@[i].hash@ == p.split.chunks@[i].hash@);
}

/// A chunk counts as held just where one of the records says so of its hash.
pub proof fn law_held_chunk(existing: Seq<Chunk>, c: Chunk, hash: Seq<char>)
    ensures
        !holds(seq![], hash),
        holds(existing.push(c), hash) <==> holds(existing, hash) || (c.is_local && c.hash@ == hash),
{
    let more = existing.push(c);
    if holds(existing, hash) {
        let i: int = choose|i: int|
            0 <= i < existing.len() && (#[trigger] existing[i]).is_local && existing[i].hash@ == hash;
        assert(more[i].is_local && more[i].hash@ == hash);
    }
    if c.is_local && c.hash@ == hash {
        assert(more[existing.len() as int].is_local && more[existing.len() as int].hash@ == hash);
    }
    if holds(more, hash) {
        let i: int = choose|i: int|
            0 <= i < more.len() && (#[trigger] more[i]).is_local && more[i].hash@ == hash;
        if i < existing.len() {
            assert(existing[i].is_local && existing[i].hash@ == hash);
        }
    }
}

/// A manifest leads to a record of each of its chunks that we do not hold, in order, with the
/// number and the size that it tells; chunks that we hold get none.
pub proof fn law_missing_chunks_are_recorded(
    file_id: Seq<char>,
    metas: Seq<ChunkMeta>,
    meta: ChunkMeta,
    existing: Seq<Chunk>,
)
    ensures
        remote_records(file_id, seq![], existing) == Seq::<ChunkView>::empty(),
        holds(existing, meta.hash@) ==> remote_records(file_id, metas.push(meta), existing)
            == remote_records(file_id, metas, existing),
        !holds(existing, meta.hash@) ==> remote_records(file_id, metas.push(meta), existing)
            == remote_records(file_id, metas, existing).push(
            ChunkView {
                hash: meta.hash@,
                file_id,
                chunk_index: meta.index,
                size_bytes: meta.size,
                is_local: false,
                local_path: None,
            },
        ),
{
    assert(metas.push(meta).drop_last() =~= metas);
}

/// A manifest tells of each of its owners for each of its chunks, and of nobody else.
pub proof fn law_every_owner_of_every_chunk(
    metas: Seq<ChunkMeta>,
    owners: Seq<Seq<char>>,
    hash: Seq<char>,
    owner: Seq<char>,
)
    ensures
        told_owners(metas, owners).contains((hash, owner)) <==> owners.contains(owner) && exists|
            i: int,
        | 0 <= i < metas.len() && (#[trigger] metas[i]).hash@ == hash,
        told_owners(metas, owners).len() == metas.len() * owners.len(),
    decreases metas.len(),
{
    if metas.len() > 0 {
        let head = metas.drop_last();
        let last = metas.last();
        law_every_owner_of_every_chunk(head, owners, hash, owner);
        let before = told_owners(head, owners);
        let here = owners.map_values(|o: Seq<char>| (last.hash@, o));
        let all = told_owners(metas, owners);
        assert(all == before + here);
        assert(metas[metas.len() - 1] == last);
        assert(metas.len() * owners.len() == (metas.len() - 1) * owners.len() + owners.len())
            by (nonlinear_arith);
        if all.contains((hash, owner)) {
            let k: int = choose|k: int| 0 <= k < all.len() && all[k] == (hash, owner);
            if k < before.len() {
                assert(before[k] == (hash, owner));
                let i: int = choose|i: int|
                    0 <= i < head.len() && (#[trigger] head[i]).hash@ == hash;
                assert(metas[i].hash@ == hash);
            } else {
                assert(here[k - before.len()] == (hash, owner));
                assert(owners[k - before.len()] == owner);
            }
        }
        if owners.contains(owner) && exists|i: int|
            0 <= i < metas.len() && (#[trigger] metas[i]).hash@ == hash {
            let i: int = choose|i: int| 0 <= i < metas.len() && (#[trigger] metas[i]).hash@ == hash;
            if i < head.len() {
                assert(head[i].hash@ == hash);
                let k: int = choose|k: int| 0 <= k < before.len() && before[k] == (hash, owner);
                assert(all[k] == (hash, owner));
            } else {
                let o: int = choose|o: int| 0 <= o < owners.len() && owners[o] == owner;
                assert(here[o] == (hash, owner));
                assert(all[before.len() + o] == (hash, owner));
            }
        }
    } else {
        assert(0 * owners.len() == 0);
    }
}

/// A manifest describes each chunk by its hash, its number and its size, in order.
pub proof fn law_manifest_describes_each_chunk(metas: Seq<ChunkMeta>, chunks: Seq<Chunk>, i: int)
    requires
        describes(metas, chunks),
    ensures
        metas.len() == chunks.len(),
        0 <= i < chunks.len() ==> metas[i].hash == chunks[i].hash && metas[i].index
            == chunks[i].chunk_index && metas[i].size == chunks[i].size_bytes,
{
}

/// Four chunks are fetched at a time: the download can be stopped, and waits for what was
/// started, where the number of chunks that were started is a multiple of four, and at the end.
pub proof fn law_batches_of_four(d: DownloadView)
    ensures
        d.between_batches() <==> d.position % 4 == 0 || d.position == d.chunks.len(),
        DOWNLOAD_CONCURRENCY == 4,
        d.valid() ==> d.waiting.len() <= 4,
        d.valid() ==> d.slots.len() == d.chunks.len() && 0 <= d.position <= d.chunks.len(),
{
}

/// A chunk that is started is waited for at its place, which is the next one, and nothing else
/// changes.
pub proof fn law_started_chunk_is_waited_for(d: DownloadView)
    ensures
        d.started().position == d.position + 1,
        d.started().waiting == d.waiting.push(d.position as usize),
        d.started().chunks == d.chunks,
        d.started().slots == d.slots,
{
}

/// A chunk that has come stands at its place and is waited for no longer: one wait for the
/// place ends, the others go on. Nothing else changes.
pub proof fn law_chunk_comes_to_its_place(d: DownloadView, place: usize, data: Vec<u8>, other: int)
    requires
        place < d.slots.len(),
        0 <= other < d.slots.len(),
        other != place,
    ensures
        d.filled(place, data).slots.len() == d.slots.len(),
        d.filled(place, data).slots[place as int] == Some(data),
        d.filled(place, data).slots[other] == d.slots[other],
        d.filled(place, data).chunks == d.chunks,
        d.filled(place, data).position == d.position,
        d.waiting.contains(place) ==> d.filled(place, data).waiting.len() == d.waiting.len() - 1,
        !d.waiting.contains(place) ==> d.filled(place, data).waiting == d.waiting,
        d.waiting.contains(other as usize) && other <= usize::MAX ==> d.filled(
            place,
            data,
        ).waiting.contains(other as usize),
{
    let w = d.waiting;
    if w.contains(place) {
        law_first_occurrence_goes(w, place);
    } else {
        assert forall|j: int| 0 <= j < w.len() implies w[j] != place by {
            if w[j] == place {
                assert(w.contains(place));
            }
        }
        lemma_without_first_absent(w, place);
    }
    if w.contains(other as usize) && other <= usize::MAX {
        lemma_without_first_keeps(w, place, other as usize);
    }
}

/// The first occurrence of a number goes from a sequence, and nothing else.
pub proof fn law_first_occurrence_goes(s: Seq<usize>, x: usize)
    requires
        s.contains(x),
    ensures
        exists|i: int|
            {
                &&& 0 <= i < s.len()
                &&& s[i] == x
                &&& forall|j: int| 0 <= j < i ==> s[j] != x
                &&& without_first(s, x) == #[trigger] s.remove(i)
            },
{
    let i: int = lemma_first_of(s, x, 0);
    lemma_without_first_at(s, x, i);
}

/// The first place of a number from a place on.
proof fn lemma_first_of(s: Seq<usize>, x: usize, from: int) -> (i: int)
    requires
        s.contains(x),
        0 <= from <= s.len(),
        forall|j: int| 0 <= j < from ==> s[j] != x,
    ensures
        0 <= i < s.len(),
        s[i] == x,
        forall|j: int| 0 <= j < i ==> s[j] != x,
    decreases s.len() - from,
{
    let k: int = choose|k: int| 0 <= k < s.len() && s[k] == x;
    if from < s.len() && s[from] == x {
        from
    } else if from < s.len() {
        lemma_first_of(s, x, from + 1)
    } else {
        k
    }
}

/// A place of a download shows the bytes that have come to it, and nothing where none have.
pub proof fn law_places_show_their_bytes(slots: Seq<Option<Vec<u8>>>, i: int)
    requires
        0 <= i < slots.len(),
    ensures
        slot_bytes(slots).len() == slots.len(),
        slots[i] matches Some(d) ==> slot_bytes(slots)[i] == d@,
        slots[i] is None ==> slot_bytes(slots)[i].len() == 0,
{
}

/// What follows from an attempt to fetch a chunk. One that has come is kept: it is recorded as
/// held, with its number, its size and where it lies, and its sender gets credit for the size.
/// A sender of something else is told on, and the next owner is asked; after any other failure
/// the next owner is asked, and nobody is told on.
pub proof fn law_fetched_chunk_is_kept(
    r: FetchVerdict,
    hash: Seq<char>,
    chunk_index: i64,
    owner: NodeId,
    store: ChunkStore,
    got: Result<Vec<u8>, StorageError>,
)
    requires
        judged(r, hash, chunk_index, owner, store, got),
    ensures
        r is Keep <==> got is Ok,
        r matches FetchVerdict::Keep { record, event } ==> {
            &&& record.hash@ == hash && record.chunk_index == chunk_index && record.is_local
            &&& record.size_bytes == got->Ok_0@.len()
            &&& record.file_id@.len() == 0
            &&& option_string(record.local_path) == Some(store.path(hash))
            &&& event == (ChunkEvent::Valid { peer: owner, size_bytes: got->Ok_0@.len() as i64 })
        },
        r matches FetchVerdict::AskNext { event } ==> {
            &&& got matches Err(StorageError::IntegrityFailure { .. }) ==> event == Some(
                ChunkEvent::Bad { peer: owner },
            )
            &&& !(got matches Err(StorageError::IntegrityFailure { .. })) ==> event is None
        },
{
}

/// A file is read chunk by chunk up to its end, whether a record of it is known or only its
/// chunks; the first chunk that we do not hold ends the reading, as does a file of which nothing
/// is known. A known file without chunks is read at once.
pub proof fn law_file_is_read_to_its_end(
    r: Result<ReadStep, StorageError>,
    file_id: Seq<char>,
    known: bool,
    chunks: Seq<Chunk>,
    position: int,
)
    requires
        reads_next(r, file_id, known, chunks, position),
        0 <= position,
    ensures
        (r matches Err(StorageError::FileNotFound(_))) <==> !known && chunks.len() == 0,
        r matches Err(StorageError::FileNotFound(f)) ==> f@ == file_id,
        (r matches Ok(ReadStep::Done)) <==> position >= chunks.len() && (known || chunks.len() > 0),
        position < chunks.len() && chunks[position].is_local ==> r == Ok::<ReadStep, StorageError>(
            ReadStep::Read(chunks[position].hash),
        ),
        position < chunks.len() && !chunks[position].is_local ==> r == Err::<
            ReadStep,
            StorageError,
        >(StorageError::ChunkNotFound(chunks[position].hash)),
{
}

/// Chunks are in the order of their numbers just where no chunk has a smaller number than one
/// before it.
pub proof fn law_order_of_chunks(chunks: Seq<Chunk>, c: Chunk)
    ensures
        in_index_order(seq![]),
        in_index_order(chunks.push(c)) <==> in_index_order(chunks) && forall|i: int|
            0 <= i < chunks.len() ==> (#[trigger] chunks[i]).chunk_index <= c.chunk_index,
{
    let more = chunks.push(c);
    let n: int = chunks.len() as int;
    assert(more[n] == c);
    if in_index_order(more) {
        assert forall|i: int, j: int| 0 <= i <= j < chunks.len() implies (
        #[trigger] chunks[i]).chunk_index <= (#[trigger] chunks[j]).chunk_index by {
            assert(more[i] == chunks[i] && more[j] == chunks[j]);
        }
        assert forall|i: int| 0 <= i < chunks.len() implies (#[trigger] chunks[i]).chunk_index
            <= c.chunk_index by {
            assert(more[i] == chunks[i]);
            assert(more[i].chunk_index <= more[n].chunk_index);
        }
    }
    if in_index_order(chunks) && forall|i: int|
        0 <= i < chunks.len() ==> (#[trigger] chunks[i]).chunk_index <= c.chunk_index {
        assert forall|i: int, j: int| 0 <= i <= j < more.len() implies (
        #[trigger] more[i]).chunk_index <= (#[trigger] more[j]).chunk_index by {
            if i < n {
                assert(more[i] == chunks[i]);
            }
            if j < n {
                assert(more[j] == chunks[j]);
            }
        }
    }
}

/// Records are compared whole, in their order.
pub proof fn law_records_are_compared_whole(s: Seq<Chunk>, i: int)
    requires
        0 <= i < s.len(),
    ensures
        chunk_views(s).len() == s.len(),
        chunk_views(s)[i].hash == s[i].hash@,
        chunk_views(s)[i].file_id == s[i].file_id@,
        chunk_views(s)[i].chunk_index == s[i].chunk_index,
        chunk_views(s)[i].size_bytes == s[i].size_bytes,
        chunk_views(s)[i].is_local == s[i].is_local,
        chunk_views(s)[i].local_path is Some <==> s[i].local_path is Some,
        s[i].local_path matches Some(p) ==> chunk_views(s)[i].local_path == Some(p@),
{
}

/// The first of the peers with a name, where one has it.
proof fn lemma_first_peer(peers: Seq<PeerInfo>, node: Seq<char>) -> (p: int)
    requires
        peer_of(peers, node) is Some,
    ensures
        0 <= p < peers.len(),
        peers[p].id@ == node,
        forall|q: int| 0 <= q < p ==> (#[trigger] peers[q]).id@ != node,
    decreases peers.len(),
{
    if peers[0].id@ == node {
        0
    } else {
        let rest = peers.drop_first();
        let p: int = lemma_first_peer(rest, node);
        assert forall|q: int| 0 <= q < p + 1 implies (#[trigger] peers[q]).id@ != node by {
            if q > 0 {
                assert(rest[q - 1] == peers[q]);
            }
        }
        p + 1
    }
}

} // verus!

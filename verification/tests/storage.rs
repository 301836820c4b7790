use void_connect::db::chunks::{local_hashes, Chunk, FileRecord};
use void_connect::db::messages::Direction;
use void_connect::node::addr::{IpAddr, SocketAddr};
use void_connect::node::identity::NodeId;
use void_connect::node::peer::{PeerInfo, Service};
use void_connect::storage::chunk_store::{hash_of_file, read_chunk, ChunkStore, PutStep};
use void_connect::storage::chunker::{assembled_size, concat_chunks, split_bytes, CHUNK_SIZE};
use void_connect::storage::error::StorageError;
use void_connect::storage::events::ChunkEvent;
use void_connect::storage::fetch::{ChunkFetch, FetchStep};
use void_connect::storage::index::ChunkIndex;
use void_connect::storage::integrity::{check_hash, compute_file_id, hash_chunk, verify_chunk};
use void_connect::storage::manager::{
    all_local, file_manifest, handle_announce, handle_manifest, judge_fetch, mime_of_extension,
    mime_type_from_name, next_owner, no_owner_left, publish_file, read_step, Download,
    DownloadStep, FetchVerdict, Publication, ReadStep,
};
use void_connect::storage::transfer::{
    accept_data, expected_len, header_too_large, request_for, respond, ChunkRequest, ChunkResponse,
    ChunkResponseStatus,
};

fn node(seed: u8) -> NodeId {
    NodeId::from_public_key_bytes(&[seed; 32])
}

fn sample_content() -> Vec<u8> {
    (0..600_000u32).map(|i| (i % 251) as u8).collect()
}

fn store() -> ChunkStore {
    ChunkStore::new("/data/chunks".into())
}

fn published(seed: u8, index: &mut ChunkIndex) -> Publication {
    publish_file(Some("data.bin".into()), 600_000, &sample_content(), &node(seed), &store(), index)
}

fn peer_a() -> PeerInfo {
    PeerInfo {
        id: node(1),
        name: "A".into(),
        ip: IpAddr::localhost(),
        port: 7704,
        chat_port: 7706,
        services: vec![Service::Storage],
        last_seen: 0,
    }
}

#[test]
fn publish_creates_local_state() {
    let mut index = ChunkIndex::new();
    let p = published(1, &mut index);
    assert_eq!(p.file.name, "data.bin");
    assert_eq!(p.file.size_bytes, 600_000);
    assert_eq!(p.file.owner_key, node(1).0);
    assert_eq!(p.chunks.len(), 3);
    assert!(p.chunks.iter().all(|c| c.is_local));
    assert!(all_local(&p.chunks));
    let mut position = 0;
    let mut read_back = Vec::new();
    loop {
        match read_step(&p.file.file_id, true, &p.chunks, position).unwrap() {
            ReadStep::Read(hash) => {
                let found = p.split.data[position].clone();
                read_back.extend(read_chunk(&hash, Some(found)).unwrap());
                position += 1;
            },
            ReadStep::Done => break,
        }
    }
    assert_eq!(read_back, sample_content(), "read_file должен вернуть исходное содержимое");
    for c in &p.chunks {
        assert_eq!(index.get_owners(&c.hash), vec![node(1)]);
        assert_eq!(c.local_path, Some(store().chunk_path(&c.hash)));
    }
}

fn remote(p: &Publication) -> Vec<Chunk> {
    p.chunks
        .iter()
        .map(|c| Chunk {
            hash: c.hash.clone(),
            file_id: c.file_id.clone(),
            chunk_index: c.chunk_index,
            size_bytes: c.size_bytes,
            is_local: false,
            local_path: None,
        })
        .collect()
}

fn download(chunks: Vec<Chunk>, index: &ChunkIndex, from: &Publication) -> (Vec<u8>, Vec<ChunkEvent>) {
    let mut d = Download::new(chunks);
    let mut waiting: Vec<(usize, Vec<u8>)> = Vec::new();
    let mut events = Vec::new();
    loop {
        match d.next(false, index).unwrap() {
            DownloadStep::ReadLocal { hash, place } => {
                let i = from.chunks.iter().position(|c| c.hash == hash).unwrap();
                d.fill(place, from.split.data[i].clone());
            },
            DownloadStep::Fetch { hash, chunk_index, place, owners } => {
                let (i, _) = next_owner(&owners, &vec![peer_a()], 0).unwrap();
                let request = request_for(&hash, &node(2));
                let at = from.chunks.iter().position(|c| c.hash == request.chunk_hash).unwrap();
                let found = Ok(from.split.data[at].clone());
                let response = respond(&request, &found);
                let addr = SocketAddr { ip: peer_a().ip, port: peer_a().port };
                let n = expected_len(&response, &hash, &addr).unwrap();
                let data = found.unwrap();
                assert_eq!(n as usize, data.len());
                let got = accept_data(&hash, data);
                match judge_fetch(&hash, chunk_index, &owners[i], &store(), &got) {
                    FetchVerdict::Keep { record, event } => {
                        assert!(record.is_local);
                        events.push(event);
                    },
                    FetchVerdict::AskNext { .. } => panic!("a good chunk is kept"),
                }
                waiting.push((place, got.unwrap()));
            },
            DownloadStep::Collect { pending } => {
                assert_eq!(pending, waiting.len());
                for (place, data) in waiting.drain(..) {
                    d.fill(place, data);
                }
            },
            DownloadStep::Done => break,
        }
    }
    (concat_chunks(&d.finish()), events)
}

#[test]
fn publish_then_download_between_two_nodes() {
    let p = published(1, &mut ChunkIndex::new());
    let chunks = remote(&p);
    let mut index = ChunkIndex::new();
    let hashes: Vec<String> = chunks.iter().map(|c| c.hash.clone()).collect();
    handle_announce(&mut index, &node(1), &hashes);
    let (got, _) = download(chunks, &index, &p);
    assert_eq!(got, sample_content(), "скачанный файл должен побайтово совпадать с исходным");
}

#[test]
fn manifest_announce_then_download() {
    let p = published(1, &mut ChunkIndex::new());
    let manifest = file_manifest(&p.file, &p.chunks, &node(1));
    assert_eq!(manifest.owners, vec![node(1)]);
    assert_eq!(manifest.total_chunks(), 3);
    let mut index = ChunkIndex::new();
    let entry = handle_manifest(&manifest, &vec![], &mut index);
    assert_eq!(entry.file.name, "data.bin");
    assert_eq!(entry.file.owner_key, node(1).0);
    assert!(entry.chunks.iter().all(|c| !c.is_local));
    let (got, _) = download(entry.chunks, &index, &p);
    assert_eq!(got, sample_content(), "скачанный по манифесту файл должен совпадать с исходным");
}

#[test]
fn manifest_merge_registers_multiple_seeders() {
    let p = published(1, &mut ChunkIndex::new());
    let m1 = file_manifest(&p.file, &p.chunks, &node(1));
    assert_eq!(m1.owners, vec![node(1)]);
    let mut m2 = m1.clone();
    m2.owners = vec![node(2)];
    let mut index = ChunkIndex::new();
    let first = handle_manifest(&m1, &vec![], &mut index);
    let second = handle_manifest(&m2, &first.chunks, &mut index);
    assert_eq!(second.chunks.len(), 3);
    for c in &second.chunks {
        let owners = index.get_owners(&c.hash);
        assert!(owners.contains(&node(1)), "владелец A отсутствует");
        assert!(owners.contains(&node(2)), "владелец B отсутствует");
    }
}

#[test]
fn held_chunks_stay_held_after_a_manifest() {
    let p = published(1, &mut ChunkIndex::new());
    let m = file_manifest(&p.file, &p.chunks, &node(1));
    let entry = handle_manifest(&m, &p.chunks, &mut ChunkIndex::new());
    assert_eq!(entry.chunks, vec![]);
    assert_eq!(entry.owners.len(), 3);
}

#[test]
fn download_can_be_cancelled() {
    let p = published(1, &mut ChunkIndex::new());
    let mut index = ChunkIndex::new();
    let manifest = file_manifest(&p.file, &p.chunks, &node(1));
    let entry = handle_manifest(&manifest, &vec![], &mut index);
    let mut d = Download::new(entry.chunks);
    assert_eq!(d.next(true, &index), Err(StorageError::Cancelled), "ожидалась отмена");
}

#[test]
fn download_emits_valid_chunk_events() {
    let p = published(1, &mut ChunkIndex::new());
    let mut index = ChunkIndex::new();
    let manifest = file_manifest(&p.file, &p.chunks, &node(1));
    let entry = handle_manifest(&manifest, &vec![], &mut index);
    let (content, events) = download(entry.chunks, &index, &p);
    let mut total = 0i64;
    let mut count = 0;
    for ev in events {
        match ev {
            ChunkEvent::Valid { peer, size_bytes } => {
                assert_eq!(peer, node(1), "владелец валидного чанка — A");
                total += size_bytes;
                count += 1;
            },
            ChunkEvent::Bad { .. } => panic!("неожиданное Bad-событие"),
        }
    }
    assert_eq!(count, 3, "ожидалось 3 события Valid (по чанку)");
    assert_eq!(total, content.len() as i64, "сумма размеров чанков = размер файла");
}

#[test]
fn chunks_that_nobody_has_end_the_download() {
    let p = published(1, &mut ChunkIndex::new());
    let chunks = remote(&p);
    let hash = chunks[0].hash.clone();
    let mut d = Download::new(chunks);
    assert_eq!(
        d.next(false, &ChunkIndex::new()),
        Err(StorageError::NoPeersForChunk(hash.clone()))
    );
    assert_eq!(no_owner_left(&hash), StorageError::NoPeersForChunk(hash));
}

#[test]
fn fetches_come_four_at_a_time() {
    let chunk = |i: i64| Chunk {
        hash: format!("{i:02}"),
        file_id: "f".into(),
        chunk_index: i,
        size_bytes: 1,
        is_local: false,
        local_path: None,
    };
    let chunks: Vec<Chunk> = (0..5).map(chunk).collect();
    let mut index = ChunkIndex::new();
    for c in &chunks {
        index.add_owner(&c.hash, &node(1));
    }
    let mut d = Download::new(chunks);
    for i in 0..4i64 {
        let want = DownloadStep::Fetch {
            hash: format!("{i:02}"),
            chunk_index: i,
            place: i as usize,
            owners: vec![node(1)],
        };
        assert_eq!(d.next(i > 0, &index), Ok(want));
    }
    assert_eq!(d.next(false, &index), Ok(DownloadStep::Collect { pending: 4 }));
    for i in [2, 0, 3, 1] {
        d.fill(i, vec![i as u8]);
    }
    assert_eq!(d.next(true, &index), Err(StorageError::Cancelled));
    assert!(matches!(d.next(false, &index), Ok(DownloadStep::Fetch { place: 4, .. })));
    assert_eq!(d.next(false, &index), Ok(DownloadStep::Collect { pending: 1 }));
    d.fill(4, vec![4]);
    assert_eq!(d.next(false, &index), Ok(DownloadStep::Done));
    assert_eq!(d.finish(), vec![vec![0], vec![1], vec![2], vec![3], vec![4]]);
}

#[test]
fn numbers_left_out_leave_no_hole() {
    let chunk = |hash: &str, chunk_index: i64, is_local: bool| Chunk {
        hash: hash.into(),
        file_id: "f".into(),
        chunk_index,
        size_bytes: 1,
        is_local,
        local_path: None,
    };
    let chunks = vec![chunk("aa", 0, true), chunk("cc", 2, false), chunk("zz", -7, true)];
    let mut index = ChunkIndex::new();
    index.add_owner("cc", &node(1));
    let mut d = Download::new(chunks);
    let local = DownloadStep::ReadLocal { hash: "aa".into(), place: 0 };
    assert_eq!(d.next(false, &index), Ok(local));
    d.fill(0, vec![1]);
    let fetch = DownloadStep::Fetch {
        hash: "cc".into(),
        chunk_index: 2,
        place: 1,
        owners: vec![node(1)],
    };
    assert_eq!(d.next(false, &index), Ok(fetch));
    let last = DownloadStep::ReadLocal { hash: "zz".into(), place: 2 };
    assert_eq!(d.next(false, &index), Ok(last));
    d.fill(2, vec![3]);
    assert_eq!(d.next(false, &index), Ok(DownloadStep::Collect { pending: 1 }));
    d.fill(1, vec![2]);
    assert_eq!(d.next(false, &index), Ok(DownloadStep::Done));
    assert_eq!(d.finish(), vec![vec![1], vec![2], vec![3]]);
}

#[test]
fn an_empty_file_reads_as_empty() {
    let mut index = ChunkIndex::new();
    let p = publish_file(Some("empty.txt".into()), 0, &[], &node(1), &store(), &mut index);
    assert_eq!(p.chunks.len(), 0);
    assert_eq!(p.file.total_chunks, 0);
    assert!(all_local(&p.chunks));
    assert_eq!(read_step(&p.file.file_id, true, &p.chunks, 0), Ok(ReadStep::Done));
    assert_eq!(concat_chunks(&p.split.data), Vec::<u8>::new());
    let mut d = Download::new(p.chunks);
    assert_eq!(d.next(false, &index), Ok(DownloadStep::Done));
    assert_eq!(concat_chunks(&d.finish()), Vec::<u8>::new());
}

#[test]
fn hash_roundtrip() {
    let data = b"hello void";
    let hash = hash_chunk(data);
    assert!(verify_chunk(&hash, data).is_ok());
}

#[test]
fn bad_data_fails() {
    let hash = hash_chunk(b"hello void");
    assert!(verify_chunk(&hash, b"tampered").is_err());
    assert_eq!(
        verify_chunk(&hash, b"tampered"),
        Err(StorageError::IntegrityFailure {
            expected: hash.clone(),
            actual: hash_chunk(b"tampered"),
        })
    );
    assert_eq!(check_hash("ab", "ab".into()), Ok(()));
}

#[test]
fn file_ids_are_hashes_of_hashes() {
    assert_eq!(
        compute_file_id(&vec!["ab".into(), "cd".into()]),
        "88d4266fd4e6338d13b845fcf289579d209c897823b9217da3e161936f031589"
    );
    assert_eq!(
        compute_file_id(&vec![]),
        "e3b0c44298fc1c149afbf4c8996fb92427ae41e4649b934ca495991b7852b855"
    );
}

#[test]
fn splits_join_back() {
    let r = split_bytes(None, 600_000, &sample_content());
    let sizes: Vec<usize> = r.chunks.iter().map(|c| c.size).collect();
    assert_eq!(sizes, vec![CHUNK_SIZE, CHUNK_SIZE, 600_000 - 2 * CHUNK_SIZE]);
    let places: Vec<u32> = r.chunks.iter().map(|c| c.index).collect();
    assert_eq!(places, vec![0, 1, 2]);
    assert_eq!(r.file_name, "unknown");
    assert_eq!(concat_chunks(&r.data), sample_content());
    assert_eq!(assembled_size(&r.data), 600_000);
    assert_eq!(split_bytes(None, 0, &[]).chunks.len(), 0);
    assert_eq!(split_bytes(None, 0, &vec![0; CHUNK_SIZE]).chunks.len(), 1);
}

#[test]
fn chunk_files() {
    let s = store();
    assert_eq!(s.base_dir(), "/data/chunks");
    assert_eq!(s.chunk_path("abcd"), "/data/chunks/ab/abcd.chunk");
    assert_eq!(hash_of_file("abcd.chunk"), Some("abcd".into()));
    assert_eq!(hash_of_file("abcd.chunk.tmp"), None);
    let hash = hash_chunk(b"x");
    assert_eq!(s.put(&hash, b"x", true), Ok(PutStep::Skip));
    assert_eq!(s.put(&hash, b"x", false), Ok(PutStep::Write(s.chunk_path(&hash))));
    assert!(matches!(s.put(&hash, b"y", true), Err(StorageError::IntegrityFailure { .. })));
    assert_eq!(read_chunk(&hash, None), Err(StorageError::ChunkNotFound(hash.clone())));
    assert_eq!(read_chunk(&hash, Some(b"x".to_vec())), Ok(b"x".to_vec()));
    assert!(matches!(
        read_chunk(&hash, Some(b"y".to_vec())),
        Err(StorageError::IntegrityFailure { .. })
    ));
}

#[test]
fn reading_needs_all_chunks() {
    let none: Vec<Chunk> = vec![];
    assert_eq!(read_step("f", false, &none, 0), Err(StorageError::FileNotFound("f".into())));
    assert_eq!(read_step("f", true, &none, 0), Ok(ReadStep::Done));
    let chunks = remote(&published(1, &mut ChunkIndex::new()));
    assert_eq!(
        read_step("f", true, &chunks, 0),
        Err(StorageError::ChunkNotFound(chunks[0].hash.clone()))
    );
    assert!(!all_local(&chunks));
    assert_eq!(local_hashes(&chunks), Vec::<String>::new());
}

#[test]
fn forgotten_peers_own_nothing() {
    let mut index = ChunkIndex::new();
    index.bulk_load(&vec![
        ("h1".to_string(), node(1)),
        ("h1".to_string(), node(2)),
        ("h2".to_string(), node(1)),
    ]);
    index.add_owner("h1", &node(1));
    assert_eq!(index.len(), 2);
    assert_eq!(index.get_owners("h1").len(), 2);
    let mut held = index.get_peer_chunks(&node(1));
    held.sort();
    assert_eq!(held, vec!["h1", "h2"]);
    index.remove_peer(&node(1));
    assert_eq!(index.get_owners("h1"), vec![node(2)]);
    assert_eq!(index.get_owners("h2"), vec![]);
    assert_eq!(index.get_peer_chunks(&node(1)), Vec::<String>::new());
    assert_eq!(index.len(), 1);
}

#[test]
fn answers_to_chunk_requests() {
    let request = ChunkRequest { chunk_hash: "ab".into(), requester_id: "r".into() };
    let answer = respond(&request, &Ok(vec![0; 7]));
    assert_eq!((answer.status, answer.data_len), (ChunkResponseStatus::Found, 7));
    let missing = Err(StorageError::ChunkNotFound("ab".into()));
    assert_eq!(respond(&request, &missing).status, ChunkResponseStatus::NotFound);
    let broken = Err(StorageError::Io("x".into()));
    assert_eq!(respond(&request, &broken).status, ChunkResponseStatus::Error);
}

#[test]
fn chunk_answers_are_checked() {
    let addr = SocketAddr { ip: IpAddr::localhost(), port: 7704 };
    let answer = |status: ChunkResponseStatus, data_len: u32| ChunkResponse {
        chunk_hash: "ab".into(),
        status,
        data_len,
    };
    assert_eq!(expected_len(&answer(ChunkResponseStatus::Found, 524_288), "ab", &addr), Ok(524_288));
    assert_eq!(
        expected_len(&answer(ChunkResponseStatus::Found, 524_289), "ab", &addr),
        Err(StorageError::Network("invalid data_len: 524289".into()))
    );
    assert_eq!(
        expected_len(&answer(ChunkResponseStatus::Found, 0), "ab", &addr),
        Err(StorageError::Network("invalid data_len: 0".into()))
    );
    assert_eq!(
        expected_len(&answer(ChunkResponseStatus::NotFound, 0), "ab", &addr),
        Err(StorageError::ChunkNotFound("ab".into()))
    );
    assert!(matches!(
        expected_len(&answer(ChunkResponseStatus::Error, 0), "ab", &addr),
        Err(StorageError::Network(_))
    ));
    assert_eq!(accept_data(&hash_chunk(b"x"), b"x".to_vec()), Ok(b"x".to_vec()));
    assert!(accept_data(&hash_chunk(b"x"), b"y".to_vec()).is_err());
    assert!(matches!(header_too_large(), StorageError::Network(_)));
}

#[test]
fn owners_are_asked_in_turn() {
    let peers = vec![peer_a()];
    let owners = vec![node(3), node(1), node(1)];
    let addr = SocketAddr { ip: IpAddr::localhost(), port: 7704 };
    assert_eq!(next_owner(&owners, &peers, 0), Some((1, addr)));
    assert_eq!(next_owner(&owners, &peers, 2), Some((2, addr)));
    assert_eq!(next_owner(&owners, &peers, 3), None);
    let bad = Err(StorageError::IntegrityFailure { expected: "a".into(), actual: "b".into() });
    assert_eq!(
        judge_fetch("abcd", 0, &node(1), &store(), &bad),
        FetchVerdict::AskNext { event: Some(ChunkEvent::Bad { peer: node(1) }) }
    );
    let lost = Err(StorageError::Timeout("t".into()));
    assert_eq!(
        judge_fetch("abcd", 0, &node(1), &store(), &lost),
        FetchVerdict::AskNext { event: None }
    );
}

#[test]
fn the_first_good_owner_serves() {
    let peer = |seed: u8| PeerInfo { id: node(seed), port: 7000 + seed as u16, ..peer_a() };
    let ask = |seed: u8| FetchStep::Ask {
        owner: node(seed),
        addr: SocketAddr { ip: IpAddr::localhost(), port: 7000 + seed as u16 },
    };
    let owners = vec![node(9), node(1), node(2), node(8), node(3), node(4)];
    let peers = vec![peer(4), peer(3), peer(2), peer(1)];
    let mut fetch = ChunkFetch::new("abcd".into(), 6, owners, peers);
    assert_eq!(fetch.next(), ask(1));
    assert_eq!(fetch.next(), ask(1));
    let bad = Err(StorageError::IntegrityFailure { expected: "a".into(), actual: "b".into() });
    let told = FetchVerdict::AskNext { event: Some(ChunkEvent::Bad { peer: node(1) }) };
    assert_eq!(fetch.take(&store(), &bad), told);
    assert_eq!(fetch.next(), ask(2));
    let lost = Err(StorageError::Timeout("t".into()));
    assert_eq!(fetch.take(&store(), &lost), FetchVerdict::AskNext { event: None });
    assert_eq!(fetch.next(), ask(3));
    match fetch.take(&store(), &Ok(vec![1, 2, 3])) {
        FetchVerdict::Keep { record, event } => {
            assert_eq!((record.hash.as_str(), record.chunk_index, record.size_bytes), ("abcd", 6, 3));
            assert_eq!(event, ChunkEvent::Valid { peer: node(3), size_bytes: 3 });
        },
        FetchVerdict::AskNext { .. } => panic!("a good chunk is kept"),
    }
}

#[test]
fn a_chunk_that_no_owner_sends_is_given_up() {
    let none = FetchStep::GiveUp(StorageError::NoPeersForChunk("abcd".into()));
    let mut fetch = ChunkFetch::new("abcd".into(), 0, vec![node(9)], vec![peer_a()]);
    assert_eq!(fetch.next(), none);
    let mut fetch = ChunkFetch::new("abcd".into(), 0, vec![node(1)], vec![peer_a()]);
    assert!(matches!(fetch.next(), FetchStep::Ask { .. }));
    let lost = Err(StorageError::Timeout("t".into()));
    assert_eq!(fetch.take(&store(), &lost), FetchVerdict::AskNext { event: None });
    assert_eq!(fetch.next(), none);
    assert_eq!(fetch.next(), none);
}

#[test]
fn media_types() {
    assert_eq!(mime_type_from_name("a.JPG"), Some("image/jpeg".into()));
    assert_eq!(mime_type_from_name("a.b.png"), Some("image/png".into()));
    assert_eq!(mime_type_from_name("zip"), Some("application/zip".into()));
    assert_eq!(mime_type_from_name("a.bin"), None);
    assert_eq!(mime_type_from_name("a."), None);
    for (ext, want) in [
        ("jpeg", "image/jpeg"),
        ("gif", "image/gif"),
        ("mp4", "video/mp4"),
        ("mkv", "video/x-matroska"),
        ("pdf", "application/pdf"),
        ("txt", "text/plain"),
        ("html", "text/html"),
    ] {
        assert_eq!(mime_of_extension(ext), Some(want.to_string()));
    }
    assert_eq!(mime_of_extension("JPEG"), None);
}

#[test]
fn manifests_follow_records() {
    let file = FileRecord {
        file_id: "f".into(),
        name: "n.txt".into(),
        size_bytes: 5,
        total_chunks: 0,
        owner_key: node(9).0,
        mime_type: Some("text/plain".into()),
    };
    let m = file_manifest(&file, &vec![], &node(1));
    assert_eq!((m.file_id.as_str(), m.name.as_str(), m.size_bytes), ("f", "n.txt", 5));
    assert_eq!(m.mime_type, Some("text/plain".into()));
    assert_eq!(m.owners, vec![node(1)]);
    let entry = handle_manifest(&m, &vec![], &mut ChunkIndex::new());
    assert_eq!(entry.file.owner_key, node(1).0);
    assert_eq!(entry.owners, vec![]);
}

#[test]
fn directions_read_back() {
    assert_eq!(Direction::from_str(Direction::In.as_str()), Direction::In);
    assert_eq!(Direction::from_str(Direction::Out.as_str()), Direction::Out);
    assert_eq!(Direction::from_str("?"), Direction::In);
}

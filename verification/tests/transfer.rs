use nitro::engine::{DownloadEngine, DownloadError, FileStep};
use nitro::metadata::{DownloadMetadata, RECORD_ENDING};
use nitro::multi_part::{PartsAction, PartsEvent};
use nitro::single_stream::SingleStream;
use std::path::Path;

const MIB: u64 = 1024 * 1024;

#[test]
fn the_record_stands_beside_the_file() {
    assert_eq!(
        DownloadMetadata::metadata_path("downloads/ubuntu-24.04.iso"),
        "downloads/ubuntu-24.04.iso.meta"
    );
    assert_ne!(
        DownloadMetadata::metadata_path("./downloads/a.iso"),
        DownloadMetadata::metadata_path("./downloads/a.zip")
    );
    assert_eq!(DownloadMetadata::metadata_path("noext"), "noext".to_string() + RECORD_ENDING);
    assert_eq!(RECORD_ENDING, ".meta");
}

#[test]
fn what_stands_behind_the_name_makes_no_difference() {
    for path in ["a/b", "a/b/", "a/b/.", "a/b//", "a/b/./", "a/b/././/"] {
        let record = DownloadMetadata::metadata_path(path);
        assert_eq!(record, "a/b.meta");
        assert_eq!(Path::new(&record).parent(), Path::new(path).parent());
        assert_eq!(Path::new(&record).extension().unwrap(), "meta");
    }
    assert_eq!(DownloadMetadata::metadata_path("./downloads/"), "./downloads.meta");
    assert_eq!(DownloadMetadata::metadata_path("/b/"), "/b.meta");
    assert_eq!(DownloadMetadata::metadata_path("a/.b"), "a/.b.meta");
    assert_eq!(DownloadMetadata::metadata_path("a/b."), "a/b..meta");
    assert_eq!(DownloadMetadata::metadata_path("a/..."), "a/....meta");
    assert_eq!(DownloadMetadata::metadata_path("a/../b"), "a/../b.meta");
    assert_eq!(DownloadMetadata::metadata_path("קובץ/"), "קובץ.meta");
}

#[test]
fn a_path_without_a_name_stays_as_it_is() {
    for path in ["", "/", "//", ".", "./", "./.", "/.", "..", "../", "a/..", "a/../.", "/.."] {
        assert!(Path::new(path).file_name().is_none());
        assert_eq!(DownloadMetadata::metadata_path(path), path);
    }
}

#[test]
fn a_multi_part_download_begins_with_all_chunks() {
    let engine = DownloadEngine::new(false, Some(4));
    let etag = Some("\"abc123\"".to_string());
    let parts = engine.begin_multi_part("https://e.com/f", 20 * MIB, etag, 1708512000);
    assert_eq!(parts.meta.url, "https://e.com/f");
    assert_eq!(parts.meta.etag.as_deref(), Some("\"abc123\""));
    assert_eq!(parts.meta.total_size, 20 * MIB);
    assert_eq!(parts.meta.downloaded, 0);
    assert_eq!(parts.meta.timestamp, 1708512000);
    assert_eq!(parts.meta.chunks_completed, vec![false; 4]);
    assert_eq!(parts.chunks.len(), 4);
    assert_eq!(parts.chunks[3].end, 20 * MIB - 1);
    assert_eq!(
        parts.opening,
        vec![FileStep::SaveRecord, FileStep::Create, FileStep::SetLength(20 * MIB)]
    );
    assert_eq!(parts.position, 0);
}

#[test]
fn records_bear_the_time_of_the_call() {
    let engine = DownloadEngine::new(false, None);
    let before = chrono::Utc::now().timestamp();
    let parts = engine.run_multi_part("https://e.com/f", 20 * MIB, None);
    let stream = engine.run_single_stream("https://e.com/f", 5, 2, None);
    let after = chrono::Utc::now().timestamp();
    assert!(before <= parts.meta.timestamp && parts.meta.timestamp <= after);
    assert!(before <= stream.meta.timestamp && stream.meta.timestamp <= after);
    assert!(before > 0);
    assert_eq!(parts.chunks.len(), 8);
    assert_eq!(stream.start_byte, 2);
    assert_eq!(stream.meta.downloaded, 2);
}

#[test]
fn a_resumed_download_keeps_its_record() {
    let engine = DownloadEngine::new(false, None);
    let done = vec![true, true, false, false, true, false, true, false];
    let meta = DownloadMetadata {
        url: "https://e.com/f".to_string(),
        etag: None,
        total_size: 1073741824,
        downloaded: 536870912,
        timestamp: 1708512000,
        chunks_completed: done.clone(),
    };
    assert!(!meta.all_chunks_completed());
    let mut parts = engine.resume_multi_part(meta, 1073741824);
    assert_eq!(parts.opening, vec![FileStep::Open, FileStep::SetLength(1073741824)]);
    assert_eq!(parts.position, 536870912);
    assert_eq!(parts.meta.chunks_completed, done);
    assert_eq!(parts.meta.downloaded, 536870912);
    let ids: Vec<usize> = parts.chunks.iter().map(|c| c.id).collect();
    assert_eq!(ids, vec![2, 3, 5, 7]);
    for (n, id) in [7, 2, 5, 3].into_iter().enumerate() {
        assert!(!parts.meta.all_chunks_completed());
        let fetched = 1000 * n as u64;
        let event = PartsEvent::ChunkDone { chunk_id: id, fetched };
        assert!(matches!(parts.step(event), PartsAction::SaveRecord));
        assert!(parts.meta.chunks_completed[id]);
        assert_eq!(parts.meta.downloaded, 536870912 + fetched);
        assert_eq!(parts.meta.url, "https://e.com/f");
        assert_eq!(parts.meta.timestamp, 1708512000);
    }
    assert!(parts.meta.all_chunks_completed());
    match parts.step(PartsEvent::NoneLeft) {
        PartsAction::Finish { steps } => {
            assert_eq!(steps, vec![FileStep::Sync, FileStep::RemoveRecord])
        }
        _ => panic!(),
    }
}

#[test]
fn a_failed_worker_fails_the_download_and_keeps_the_record() {
    let engine = DownloadEngine::new(false, Some(2));
    let mut parts = engine.begin_multi_part("u", 100, None, 1);
    parts.step(PartsEvent::ChunkDone { chunk_id: 1, fetched: 60 });
    assert!(matches!(parts.step(PartsEvent::ChunkFailed), PartsAction::Fail));
    assert_eq!(parts.meta.chunks_completed, vec![false, true]);
    assert_eq!(parts.meta.downloaded, 60);
}

#[test]
fn a_stream_from_the_start_has_no_range() {
    let s = SingleStream::begin("u", 1000, 0, Some("\"t\"".to_string()), 7);
    assert_eq!(s.range(), None);
    assert_eq!(
        s.opening(),
        vec![FileStep::RemoveRecord, FileStep::Create, FileStep::SaveRecord]
    );
    assert_eq!(s.closing(), vec![FileStep::Flush, FileStep::RemoveRecord]);
    assert_eq!(s.meta.url, "u");
    assert_eq!(s.meta.etag.as_deref(), Some("\"t\""));
    assert_eq!(s.meta.total_size, 1000);
    assert_eq!(s.meta.downloaded, 0);
    assert_eq!(s.meta.timestamp, 7);
    assert!(s.meta.chunks_completed.is_empty());
    assert!(s.meta.all_chunks_completed());
}

#[test]
fn a_resumed_stream_asks_for_the_rest() {
    let s = SingleStream::begin("u", 1000, 400, None, 7);
    assert_eq!(s.range().as_deref(), Some("bytes=400-"));
    assert_eq!(
        s.opening(),
        vec![FileStep::Open, FileStep::SetLength(400), FileStep::Seek(400)]
    );
}

#[test]
fn only_partial_content_is_written_behind_what_is_there() {
    let begin = || SingleStream::begin("u", 12, 4, Some("\"t\"".to_string()), 7);

    let mut s = begin();
    assert_eq!(s.on_reply(206), Ok(()));
    assert_eq!((s.start_byte, s.fetched, s.meta.downloaded), (4, 0, 4));
    assert_eq!(
        s.opening(),
        vec![FileStep::Open, FileStep::SetLength(4), FileStep::Seek(4)]
    );

    for status in [200, 203, 299] {
        let mut s = begin();
        assert_eq!(s.on_reply(status), Ok(()));
        assert_eq!((s.start_byte, s.fetched, s.meta.downloaded), (0, 0, 0));
        assert_eq!(
            s.opening(),
            vec![FileStep::RemoveRecord, FileStep::Create, FileStep::SaveRecord]
        );
        assert_eq!(s.meta.etag.as_deref(), Some("\"t\""));
        assert_eq!((s.meta.total_size, s.meta.timestamp), (12, 7));
    }

    let mut s = begin();
    assert_eq!(s.on_reply(416), Err(DownloadError::ServerStatus(416)));
    assert_eq!(s.on_reply(503), Err(DownloadError::ServerStatus(503)));
    assert_eq!((s.start_byte, s.fetched, s.meta.downloaded), (4, 0, 4));
}

#[test]
fn the_record_of_a_stream_is_written_every_five_mebibytes() {
    let mut s = SingleStream::begin("u", 100 * MIB, 10, None, 7);
    assert!(!s.on_piece(0));
    assert!(!s.on_piece(5 * MIB - 1));
    assert_eq!(s.meta.downloaded, 10);
    assert!(s.on_piece(1));
    assert_eq!(s.meta.downloaded, 5 * MIB + 10);
    assert!(!s.on_piece(0));
    assert!(s.on_piece(5 * MIB + 1));
    assert_eq!(s.meta.downloaded, 10 * MIB + 11);
    assert!(!s.on_piece(5 * MIB - 2));
    assert_eq!(s.meta.downloaded, 10 * MIB + 11);
    assert!(s.on_piece(20 * MIB));
    assert_eq!(s.meta.downloaded, 35 * MIB + 9);
    assert_eq!(s.fetched, 35 * MIB - 1);
    assert!(s.can_take(u64::MAX - 35 * MIB - 9));
    assert!(!s.can_take(u64::MAX - 35 * MIB - 8));

    let mut s = SingleStream::begin("u", 100 * MIB, 0, None, 7);
    assert!(!s.on_piece(3 * MIB));
    assert!(s.on_piece(3 * MIB));
    assert_eq!(s.meta.downloaded, 6 * MIB);
}

#[test]
fn the_count_stays_within_bounds() {
    let engine = DownloadEngine::new(false, Some(2));
    let mut meta = engine.begin_multi_part("u", 100, None, 1).meta;
    meta.downloaded = u64::MAX - 5;
    let mut parts = engine.resume_multi_part(meta, 100);
    parts.step(PartsEvent::ChunkDone { chunk_id: 0, fetched: 5 });
    assert_eq!(parts.meta.downloaded, u64::MAX);
    parts.step(PartsEvent::ChunkDone { chunk_id: 1, fetched: 100 });
    assert_eq!(parts.meta.downloaded, u64::MAX);
}

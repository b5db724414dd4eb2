use nitro::engine::{
    mebibytes, referer_of, referer_of_domain, Decision, Discard, DownloadAction, DownloadEngine,
    DownloadError, DownloadEvent, FileStep, Fresh, LocalFile, RemoteFile, Reply, Resume,
};
use nitro::headers::ReplyHeaders;
use nitro::metadata::DownloadMetadata;

const URL: &str = "https://example.com/ubuntu-24.04.iso";
const MIB: u64 = 1024 * 1024;

fn engine() -> DownloadEngine {
    DownloadEngine::new(false, None)
}

fn meta(etag: Option<&str>, total_size: u64, chunks: &[bool]) -> DownloadMetadata {
    DownloadMetadata {
        url: URL.to_string(),
        etag: etag.map(|s| s.to_string()),
        total_size,
        downloaded: 0,
        timestamp: 1708512000,
        chunks_completed: chunks.to_vec(),
    }
}

fn remote(etag: Option<&str>, size: u64, supports_range: bool) -> RemoteFile {
    RemoteFile { size, supports_range, etag: etag.map(|s| s.to_string()) }
}

fn recorded(meta: DownloadMetadata, len: u64) -> LocalFile {
    LocalFile::Recorded { meta, len }
}

fn reply(status: u16, length: Option<&str>, range: Option<&str>, accept: Option<&str>) -> Reply {
    Reply {
        status,
        headers: ReplyHeaders {
            content_range: range.map(|s| s.as_bytes().to_vec()),
            content_length: length.map(|s| s.as_bytes().to_vec()),
            accept_ranges: accept.map(|s| s.as_bytes().to_vec()),
            etag: Some(b"\"abc123\"".to_vec()),
        },
    }
}

#[test]
fn an_engine_has_eight_workers_unless_told_otherwise() {
    let e = engine();
    assert_eq!(e.num_workers, 8);
    assert_eq!(e.buffer_size, 8 * 1024 * 1024);
    assert!(!e.client.accept_invalid_certs);
    assert!(e.client.http1_only);
    assert_eq!(e.client.pool_max_idle_per_host, 20);
    assert_eq!(e.client.pool_idle_timeout_secs, 90);
    assert_eq!(e.client.tcp_keepalive_secs, 30);
    assert_eq!(e.client.timeout_secs, 300);
    assert_eq!(e.client.max_redirects, 10);
    assert_eq!(e.client.headers.len(), 10);
    let e = DownloadEngine::new(true, Some(3));
    assert_eq!(e.num_workers, 3);
    assert!(e.client.accept_invalid_certs);
    assert_eq!(DownloadEngine::new(false, Some(0)).num_workers, 0);
}

#[test]
fn an_engine_can_be_cloned() {
    let mut first = DownloadEngine::new(true, Some(3));
    first.client.headers.append("dnt", reqwest::header::HeaderValue::from_static("0"));
    let second = first.clone();
    assert_eq!(second.num_workers, 3);
    assert_eq!(second.buffer_size, first.buffer_size);
    assert_eq!(second.client.headers, first.client.headers);
    assert_eq!(second.client.headers.get_all("dnt").iter().count(), 2);
    assert!(second.client.accept_invalid_certs && second.client.http1_only);
    assert_eq!(second.client.timeout_secs, 300);
}

#[test]
fn requests_claim_to_come_from_the_domain() {
    assert_eq!(referer_of(URL), "https://example.com/");
    assert_eq!(referer_of("http://Sub.Example.COM:8080/a?b#c"), "https://sub.example.com/");
    assert_eq!(referer_of("https://127.0.0.1/file"), "https://www.google.com/");
    assert_eq!(referer_of("not a url"), "https://www.google.com/");
    assert_eq!(referer_of("mailto:a@example.net"), "https://www.google.com/");
    assert_eq!(referer_of_domain(&Some("e.org".to_string())), "https://e.org/");
    assert_eq!(referer_of_domain(&None), "https://www.google.com/");
}

#[test]
fn a_download_begins_with_a_head_request() {
    match engine().download(URL, &DownloadEvent::Begin) {
        DownloadAction::SendHead { referer } => assert_eq!(referer, "https://example.com/"),
        _ => panic!(),
    }
}

#[test]
fn the_answer_to_head_describes_the_file() {
    let event = DownloadEvent::HeadReply(reply(200, Some("1073741824"), None, Some("bytes")));
    match engine().download(URL, &event) {
        DownloadAction::Inspect(file) => {
            assert_eq!(file.size, 1073741824);
            assert!(file.supports_range);
            assert_eq!(file.etag.as_deref(), Some("\"abc123\""));
        }
        _ => panic!(),
    }
    let event = DownloadEvent::HeadReply(reply(200, Some("5"), None, None));
    match engine().download(URL, &event) {
        DownloadAction::Inspect(file) => assert!(!file.supports_range),
        _ => panic!(),
    }
}

#[test]
fn head_blocked_leads_to_get_with_range() {
    let event = DownloadEvent::HeadReply(reply(403, Some("5"), None, None));
    match engine().download(URL, &event) {
        DownloadAction::SendProbe { referer, range } => {
            assert_eq!(referer, "https://example.com/");
            assert_eq!(range, "bytes=0-0");
        }
        _ => panic!(),
    }
}

#[test]
fn the_answer_to_get_describes_the_file() {
    let event =
        DownloadEvent::ProbeReply(reply(206, Some("1"), Some("bytes 0-0/1234567"), None));
    match engine().download(URL, &event) {
        DownloadAction::Inspect(file) => {
            assert_eq!(file.size, 1234567);
            assert!(file.supports_range);
        }
        _ => panic!(),
    }
    let event = DownloadEvent::ProbeReply(reply(200, Some("77"), Some("bytes */*"), Some("none")));
    match engine().download(URL, &event) {
        DownloadAction::Inspect(file) => {
            assert_eq!(file.size, 77);
            assert!(!file.supports_range);
        }
        _ => panic!(),
    }
}

fn failure(event: DownloadEvent) -> DownloadError {
    match engine().download(URL, &event) {
        DownloadAction::Fail(error) => error,
        _ => panic!(),
    }
}

#[test]
fn failures_are_told_apart() {
    assert_eq!(
        failure(DownloadEvent::HeadReply(reply(404, Some("5"), None, None))),
        DownloadError::ServerStatus(404)
    );
    assert_eq!(
        failure(DownloadEvent::HeadReply(reply(200, None, Some("bytes 0-0/9"), None))),
        DownloadError::NoContentLength
    );
    assert_eq!(
        failure(DownloadEvent::ProbeReply(reply(403, Some("5"), None, None))),
        DownloadError::ServerStatus(403)
    );
    assert_eq!(
        failure(DownloadEvent::ProbeReply(reply(206, None, Some("bytes 0-0/*"), None))),
        DownloadError::NoFileSize
    );
}

fn decision(remote: RemoteFile, local: LocalFile) -> Decision {
    let event = DownloadEvent::Inspected { remote, local };
    match engine().download(URL, &event) {
        DownloadAction::Perform(decision) => decision,
        _ => panic!(),
    }
}

#[test]
fn large_files_are_fetched_in_parts() {
    assert_eq!(
        decision(remote(None, 10 * MIB + 1, true), LocalFile::Absent),
        Decision::Start(Discard::Nothing, Fresh::MultiPart)
    );
    assert_eq!(
        decision(remote(None, 10 * MIB, true), LocalFile::Absent),
        Decision::Start(Discard::Nothing, Fresh::SingleStream)
    );
    assert_eq!(
        decision(remote(None, 1024 * MIB, false), LocalFile::Absent),
        Decision::Start(Discard::Nothing, Fresh::SingleStream)
    );
}

#[test]
fn a_file_without_a_record_is_judged_by_its_size() {
    assert_eq!(
        decision(remote(None, 1000, true), LocalFile::Unrecorded { len: 1000 }),
        Decision::AlreadyPresent
    );
    assert_eq!(
        decision(remote(None, 1000, true), LocalFile::Unrecorded { len: 999 }),
        Decision::Start(Discard::Unrecorded, Fresh::SingleStream)
    );
}

#[test]
fn a_changed_file_starts_anew() {
    let (old, new) = (Some("\"a\""), Some("\"b\""));
    assert_eq!(
        decision(remote(new, 1000, true), recorded(meta(old, 1000, &[]), 1000)),
        Decision::Start(Discard::EtagChanged, Fresh::SingleStream)
    );
    assert_eq!(
        decision(remote(new, 1000, true), recorded(meta(None, 1000, &[]), 500)),
        Decision::Start(Discard::EtagChanged, Fresh::SingleStream)
    );
    assert_eq!(
        decision(remote(old, 1001, true), recorded(meta(old, 1000, &[]), 500)),
        Decision::Start(Discard::SizeChanged, Fresh::SingleStream)
    );
    assert_eq!(
        decision(remote(None, 1000, true), recorded(meta(old, 1000, &[]), 500)),
        Decision::Resume(Resume::SingleStream { start_byte: 500 })
    );
}

#[test]
fn a_stream_is_taken_up_where_it_stopped() {
    let tag = Some("\"a\"");
    assert_eq!(
        decision(remote(tag, 1000, true), recorded(meta(tag, 1000, &[]), 400)),
        Decision::Resume(Resume::SingleStream { start_byte: 400 })
    );
    assert_eq!(
        decision(remote(tag, 1000, false), recorded(meta(tag, 1000, &[]), 400)),
        Decision::Start(Discard::Nothing, Fresh::SingleStream)
    );
    assert_eq!(
        decision(remote(tag, 1000, true), recorded(meta(tag, 1000, &[]), 1001)),
        Decision::Start(Discard::Nothing, Fresh::SingleStream)
    );
    assert_eq!(
        decision(remote(tag, 1000, true), recorded(meta(tag, 1000, &[]), 1000)),
        Decision::AlreadyComplete
    );
}

#[test]
fn an_interrupted_multi_part_download_goes_on_with_its_chunks() {
    let chunks = [true, true, false, false, true, false, true, false];
    let tag = Some("\"abc123\"");
    let total = 1073741824;
    assert_eq!(
        decision(remote(tag, total, true), recorded(meta(tag, total, &chunks), total)),
        Decision::Resume(Resume::MultiPart)
    );
    assert_eq!(
        decision(remote(tag, total, true), recorded(meta(tag, total, &chunks), 0)),
        Decision::Resume(Resume::MultiPart)
    );
    assert_eq!(
        decision(remote(tag, total, true), recorded(meta(tag, total, &[true; 8]), total)),
        Decision::AlreadyComplete
    );
    assert_eq!(
        decision(remote(tag, total, false), recorded(meta(tag, total, &chunks), total)),
        Decision::Start(Discard::ChunksLost, Fresh::SingleStream)
    );
    assert_eq!(
        decision(remote(tag, total, true), recorded(meta(tag, total, &[false; 4]), total)),
        Decision::Start(Discard::ChunksLost, Fresh::MultiPart)
    );
    assert_eq!(
        decision(remote(tag, total, true), recorded(meta(tag, total, &[false; 4]), 70)),
        Decision::Resume(Resume::SingleStream { start_byte: 70 })
    );
}

#[test]
fn decisions_say_what_is_removed() {
    let start = |discard| Decision::Start(discard, Fresh::MultiPart).removals();
    assert_eq!(Decision::AlreadyComplete.removals(), vec![FileStep::RemoveRecord]);
    assert_eq!(Decision::AlreadyPresent.removals(), vec![]);
    assert_eq!(Decision::Resume(Resume::MultiPart).removals(), vec![]);
    assert_eq!(start(Discard::Nothing), vec![]);
    assert_eq!(start(Discard::Unrecorded), vec![FileStep::RemoveFile]);
    assert_eq!(start(Discard::EtagChanged), vec![FileStep::RemoveFile, FileStep::RemoveRecord]);
    assert_eq!(start(Discard::SizeChanged), vec![FileStep::RemoveFile, FileStep::RemoveRecord]);
    assert_eq!(start(Discard::ChunksLost), vec![FileStep::RemoveFile, FileStep::RemoveRecord]);
}

#[test]
fn sizes_are_shown_in_whole_mebibytes() {
    assert_eq!(mebibytes(1073741824), 1024);
    assert_eq!(mebibytes(1048575), 0);
}

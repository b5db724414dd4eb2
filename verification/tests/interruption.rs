use nitro::engine::{
    Decision, DownloadAction, DownloadEngine, DownloadEvent, FileStep, Fresh, LocalFile,
    RemoteFile, Resume,
};
use nitro::metadata::DownloadMetadata;
use nitro::multi_part::{MultiPart, PartsAction, PartsEvent};
use nitro::single_stream::SingleStream;
use nitro::worker::{ChunkAction, ChunkEvent, ChunkWorker};

const URL: &str = "https://example.com/large.bin";
const PIECE: usize = 700_000;

/// A disk, and how much may still happen before the power fails.
struct Disk {
    file: Option<Vec<u8>>,
    record: Option<DownloadMetadata>,
    cursor: usize,
    budget: usize,
}

/// The power failed.
struct Interrupted;

impl Disk {
    fn empty(budget: usize) -> Disk {
        Disk { file: None, record: None, cursor: 0, budget }
    }

    fn write(&mut self, offset: usize, data: &[u8]) {
        let file = self.file.as_mut().unwrap();
        if file.len() < offset + data.len() {
            file.resize(offset + data.len(), 0);
        }
        file[offset..offset + data.len()].copy_from_slice(data);
    }

    fn tick(&mut self) -> Result<(), Interrupted> {
        if self.budget == 0 {
            return Err(Interrupted);
        }
        self.budget -= 1;
        Ok(())
    }

    fn apply(&mut self, step: FileStep, meta: Option<&DownloadMetadata>) -> Result<(), Interrupted> {
        self.tick()?;
        match step {
            FileStep::SaveRecord => self.record = meta.cloned(),
            FileStep::Create => {
                self.file = Some(Vec::new());
                self.cursor = 0;
            }
            FileStep::SetLength(len) => self.file.as_mut().unwrap().resize(len as usize, 0),
            FileStep::RemoveFile => self.file = None,
            FileStep::RemoveRecord => self.record = None,
            FileStep::Open => self.cursor = 0,
            FileStep::Seek(place) => self.cursor = place as usize,
            FileStep::Sync | FileStep::Flush => {}
        }
        Ok(())
    }
}

/// Fetches one chunk, in pieces, with a failure now and then.
fn fetch(
    disk: &mut Disk,
    content: &[u8],
    parts: &MultiPart,
    chunk: usize,
    buffer_size: usize,
) -> Result<(usize, u64), Interrupted> {
    let range = parts.chunks[chunk];
    let mut worker = ChunkWorker::new(range, buffer_size);
    let mut event = ChunkEvent::Begin;
    let mut at = range.start as usize;
    let mut turn = 0;
    let mut fetched = 0;
    loop {
        disk.tick()?;
        turn += 1;
        assert!(worker.can_take(&event));
        event = match worker.step(event) {
            ChunkAction::Request { range } => {
                assert!(range.starts_with(&format!("bytes={}-", at)));
                if turn == 1 { ChunkEvent::Reply(500) } else { ChunkEvent::Reply(206) }
            }
            ChunkAction::Rest { .. } => ChunkEvent::Rested,
            ChunkAction::Read => {
                let end = (at + PIECE).min(range.end as usize + 1);
                if turn == 6 {
                    ChunkEvent::StreamBroken
                } else if at == end {
                    ChunkEvent::StreamEnded
                } else {
                    let data = content[at..end].to_vec();
                    at = end;
                    ChunkEvent::Data(data)
                }
            }
            ChunkAction::Write { offset, data } => {
                let half = data.len() / 2;
                disk.write(offset as usize, &data[..half]);
                disk.tick()?;
                disk.write(offset as usize + half, &data[half..]);
                fetched += data.len() as u64;
                ChunkEvent::Written
            }
            ChunkAction::Done { chunk_id } => return Ok((chunk_id, fetched)),
            ChunkAction::GiveUp { .. } => panic!("gave up"),
        };
    }
}

/// Fetches a file in one stream, from a server that answers with `status`, and
/// writes it out whenever two pieces have gathered.
fn stream(
    disk: &mut Disk,
    content: &[u8],
    mut single: SingleStream,
    status: u16,
) -> Result<(), Interrupted> {
    assert_eq!(single.range().is_some(), single.start_byte > 0);
    let asked = single.start_byte;
    assert_eq!(single.on_reply(status), Ok(()));
    let mut at = if status == 206 { asked as usize } else { 0 };
    for step in single.opening() {
        disk.apply(step, Some(&single.meta))?;
    }
    let mut buffered = Vec::new();
    while at < content.len() {
        let end = (at + PIECE).min(content.len());
        buffered.extend_from_slice(&content[at..end]);
        disk.tick()?;
        let len = (end - at) as u64;
        assert!(single.can_take(len));
        if single.on_piece(len) {
            disk.apply(FileStep::SaveRecord, Some(&single.meta))?;
        }
        at = end;
        if buffered.len() > PIECE {
            disk.write(disk.cursor, &buffered);
            disk.cursor += buffered.len();
            buffered.clear();
        }
    }
    for step in single.closing() {
        if step == FileStep::Flush {
            disk.write(disk.cursor, &buffered);
        }
        disk.apply(step, None)?;
    }
    Ok(())
}

/// Whether the server supports ranges, and how it answers a request for one.
#[derive(Clone, Copy)]
struct Server {
    supports_range: bool,
    status: u16,
}

const PARTIAL: Server = Server { supports_range: true, status: 206 };

fn run(
    disk: &mut Disk,
    engine: &DownloadEngine,
    content: &[u8],
    server: Server,
) -> Result<(), Interrupted> {
    let remote = RemoteFile {
        size: content.len() as u64,
        supports_range: server.supports_range,
        etag: Some("\"tag\"".to_string()),
    };
    let size = remote.size;
    let etag = remote.etag.clone();
    let local = match (&disk.file, &disk.record) {
        (None, _) => LocalFile::Absent,
        (Some(f), None) => LocalFile::Unrecorded { len: f.len() as u64 },
        (Some(f), Some(m)) => LocalFile::Recorded { meta: m.clone(), len: f.len() as u64 },
    };
    let decision = match engine.download(URL, &DownloadEvent::Inspected { remote, local }) {
        DownloadAction::Perform(decision) => decision,
        _ => panic!(),
    };
    for step in decision.removals() {
        disk.apply(step, None)?;
    }
    let mut parts = match decision {
        Decision::AlreadyComplete | Decision::AlreadyPresent => return Ok(()),
        Decision::Resume(Resume::MultiPart) => {
            engine.resume_multi_part(disk.record.clone().unwrap(), size)
        }
        Decision::Start(_, Fresh::MultiPart) => engine.run_multi_part(URL, size, etag),
        Decision::Resume(Resume::SingleStream { start_byte }) => {
            let single = engine.run_single_stream(URL, size, start_byte, etag);
            return stream(disk, content, single, server.status);
        }
        Decision::Start(_, Fresh::SingleStream) => {
            let single = engine.run_single_stream(URL, size, 0, etag);
            return stream(disk, content, single, 200);
        }
    };
    for step in parts.opening.clone() {
        disk.apply(step, Some(&parts.meta))?;
    }
    let before = parts.meta.downloaded;
    let mut all = 0;
    for chunk in 0..parts.chunks.len() {
        let (chunk_id, fetched) = fetch(disk, content, &parts, chunk, engine.buffer_size / 8)?;
        all += fetched;
        match parts.step(PartsEvent::ChunkDone { chunk_id, fetched: all }) {
            PartsAction::SaveRecord => disk.apply(FileStep::SaveRecord, Some(&parts.meta))?,
            _ => panic!(),
        }
        assert_eq!(parts.meta.downloaded, before + all);
    }
    match parts.step(PartsEvent::NoneLeft) {
        PartsAction::Finish { steps } => {
            for step in steps {
                disk.apply(step, None)?;
            }
        }
        _ => panic!(),
    }
    Ok(())
}

fn content() -> Vec<u8> {
    (0..11 * 1024 * 1024u32).map(|i| (i.wrapping_mul(2654435761) >> 24) as u8).collect()
}

/// Interrupts a first run after each of its steps, and lets a second one finish.
fn interrupt_everywhere(
    content: &[u8],
    start: fn(usize) -> Disk,
    first: (&DownloadEngine, Server),
    second: (&DownloadEngine, Server),
) {
    let mut whole = start(100_000);
    assert!(run(&mut whole, first.0, content, first.1).is_ok());
    assert!(whole.file.as_deref() == Some(content));
    assert!(whole.record.is_none());
    let steps = 100_000 - whole.budget;
    assert!(steps > 10);
    for budget in 0..=steps {
        let mut disk = start(budget);
        let result = run(&mut disk, first.0, content, first.1);
        assert_eq!(result.is_ok(), budget == steps);
        disk.budget = 100_000;
        assert!(run(&mut disk, second.0, content, second.1).is_ok());
        assert!(disk.file.as_deref() == Some(content), "interrupted after {}", budget);
        assert!(disk.record.is_none());
    }
}

#[test]
fn a_download_survives_an_interruption_at_any_moment() {
    let engine = DownloadEngine::new(false, Some(3));
    interrupt_everywhere(&content(), Disk::empty, (&engine, PARTIAL), (&engine, PARTIAL));
}

#[test]
fn another_number_of_workers_finishes_the_download() {
    let first = DownloadEngine::new(false, Some(3));
    let second = DownloadEngine::new(false, Some(2));
    interrupt_everywhere(&content(), Disk::empty, (&first, PARTIAL), (&second, PARTIAL));
}

#[test]
fn a_server_that_loses_its_ranges_is_coped_with() {
    let engine = DownloadEngine::new(false, Some(2));
    let without = Server { supports_range: false, status: 200 };
    interrupt_everywhere(&content(), Disk::empty, (&engine, PARTIAL), (&engine, without));
    interrupt_everywhere(&content(), Disk::empty, (&engine, without), (&engine, PARTIAL));
}

#[test]
fn a_stream_is_finished_whether_or_not_the_server_minds_the_range() {
    let content = &content()[..6 * 1024 * 1024];
    let engine = DownloadEngine::new(false, Some(4));
    let ignoring = Server { supports_range: true, status: 200 };
    interrupt_everywhere(content, Disk::empty, (&engine, PARTIAL), (&engine, PARTIAL));
    interrupt_everywhere(content, Disk::empty, (&engine, PARTIAL), (&engine, ignoring));
}

/// A disk with the record of a file that is gone.
fn record_without_a_file(budget: usize) -> Disk {
    let record = DownloadMetadata {
        url: URL.to_string(),
        etag: Some("\"tag\"".to_string()),
        total_size: 11 * 1024 * 1024,
        downloaded: 11 * 1024 * 1024,
        timestamp: 1,
        chunks_completed: vec![true; 3],
    };
    Disk { record: Some(record), ..Disk::empty(budget) }
}

#[test]
fn the_record_of_a_file_that_is_gone_misleads_nobody() {
    let engine = DownloadEngine::new(false, Some(3));
    let without = Server { supports_range: false, status: 200 };
    let start = record_without_a_file;
    interrupt_everywhere(&content(), start, (&engine, without), (&engine, PARTIAL));
    interrupt_everywhere(&content(), start, (&engine, PARTIAL), (&engine, PARTIAL));
}

#[test]
fn a_download_survives_many_interruptions() {
    let content = content();
    let engine = DownloadEngine::new(false, None);
    let mut disk = Disk::empty(0);
    let mut runs = 0;
    loop {
        runs += 1;
        assert!(runs < 1000);
        disk.budget = 17;
        if run(&mut disk, &engine, &content, PARTIAL).is_ok() {
            break;
        }
    }
    assert!(runs > 3);
    assert!(disk.file.as_ref() == Some(&content));
}

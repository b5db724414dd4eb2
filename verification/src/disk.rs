//! The disk as a model: what steps and writes do to it, what can be relied on
//! whenever the downloader is interrupted, and what a worker leaves on it.

use vstd::prelude::*;

use crate::chunks::ChunkRange;
use crate::engine::{Decision, FileStep, Resume};

verus! {

/// The bytes of the output and what its record says, and the place in the
/// output where a stream is written next.
pub struct Disk {
    pub file: Option<Seq<u8>>,
    pub record: Option<crate::metadata::MetadataView>,
    pub cursor: int,
}

/// What a run finds on disk.
pub open spec fn found(disk: Disk) -> crate::engine::LocalFileView {
    match disk.file {
        None => crate::engine::LocalFileView::Absent,
        Some(file) => match disk.record {
            None => crate::engine::LocalFileView::Unrecorded { len: file.len() as int },
            Some(meta) => crate::engine::LocalFileView::Recorded { meta, len: file.len() as int },
        },
    }
}

/// A file that is cut or filled up with zeros to a length.
pub open spec fn resized(file: Seq<u8>, len: int) -> Seq<u8> {
    Seq::new(
        len as nat,
        |i: int|
            if i < file.len() {
                file[i]
            } else {
                0
            },
    )
}

/// A file into which `data` was written from `offset` on. What lies between the
/// old end and the new bytes is zero.
pub open spec fn overwritten(file: Seq<u8>, offset: int, data: Seq<u8>) -> Seq<u8> {
    let len = if offset + data.len() > file.len() {
        offset + data.len()
    } else {
        file.len() as int
    };
    Seq::new(
        len as nat,
        |i: int|
            if offset <= i < offset + data.len() {
                data[i - offset]
            } else if i < file.len() {
                file[i]
            } else {
                0
            },
    )
}

/// The disk after a step, where `meta` is what the record says when it is
/// written.
pub open spec fn after_step(
    disk: Disk,
    step: FileStep,
    meta: crate::metadata::MetadataView,
) -> Disk {
    match step {
        FileStep::SaveRecord => Disk { record: Some(meta), ..disk },
        FileStep::Create => Disk { file: Some(Seq::empty()), cursor: 0, ..disk },
        FileStep::SetLength(len) => match disk.file {
            Some(file) => Disk { file: Some(resized(file, len as int)), ..disk },
            None => disk,
        },
        FileStep::Open => Disk { cursor: 0, ..disk },
        FileStep::Seek(place) => Disk { cursor: place as int, ..disk },
        FileStep::Sync => disk,
        FileStep::Flush => disk,
        FileStep::RemoveFile => Disk { file: None, ..disk },
        FileStep::RemoveRecord => Disk { record: None, ..disk },
    }
}

/// The disk after `data` was written from `offset` on.
pub open spec fn after_write(disk: Disk, offset: int, data: Seq<u8>) -> Disk {
    match disk.file {
        Some(file) => Disk { file: Some(overwritten(file, offset, data)), ..disk },
        None => disk,
    }
}

/// The disk after `data`, a piece of a stream, was written.
pub open spec fn after_stream(disk: Disk, data: Seq<u8>) -> Disk {
    Disk { cursor: disk.cursor + data.len(), ..after_write(disk, disk.cursor, data) }
}

/// Whether a file holds the bytes of `content` from `first` up to, and not with,
/// `end`.
pub open spec fn holds(file: Seq<u8>, content: Seq<u8>, first: int, end: int) -> bool {
    forall|b: int| first <= b < end ==> 0 <= b < file.len() && #[trigger] file[b] == content[b]
}

/// Whether a file holds the bytes of chunk `id`, of a file that is divided among
/// `workers`.
pub open spec fn holds_chunk(file: Seq<u8>, content: Seq<u8>, workers: int, id: int) -> bool {
    let total = content.len() as int;
    holds(
        file,
        content,
        crate::chunks::chunk_start(total, workers, id),
        crate::chunks::chunk_end(total, workers, id) + 1,
    )
}

/// Whether a record is about a file of this size and with this entity tag.
pub open spec fn is_about(
    meta: crate::metadata::MetadataView,
    etag: Option<Seq<char>>,
    size: int,
) -> bool {
    (etag matches Some(tag) ==> meta.etag == Some(tag)) && meta.total_size == size
}

/// What a record may say of a file, where the server has `content`. The count is
/// one that a record can hold. A file that is too short is the beginning of
/// `content`. One of full length is `content`, if the record is that of a
/// stream. A chunk is marked only in a file that has its full length and holds
/// the chunk, and what is marked has been counted.
pub open spec fn is_truthful(
    file: Seq<u8>,
    meta: crate::metadata::MetadataView,
    content: Seq<u8>,
) -> bool {
    let done = meta.chunks_completed;
    let n = done.len() as int;
    &&& 0 <= meta.downloaded <= u64::MAX
    &&& file.len() < content.len() ==> holds(file, content, 0, file.len() as int)
    &&& file.len() == content.len() && n == 0 ==> file == content
    &&& forall|id: int|
        0 <= id < n && #[trigger] done[id] ==> {
            &&& crate::chunks::divisible(content.len() as int, n)
            &&& content.len() <= file.len()
            &&& holds_chunk(file, content, n, id)
        }
    &&& crate::chunks::divisible(content.len() as int, n) ==> crate::chunks::finished_len(
        content.len() as int,
        done,
        n,
    ) <= meta.downloaded
}

/// What can be relied on at any moment, whether the downloader is at work or
/// was interrupted, where the server has `content` under this entity tag: the
/// record, if it is about this file, says nothing of the file that is not so;
/// and a file of full length without a record is `content`.
pub open spec fn sound(disk: Disk, etag: Option<Seq<char>>, content: Seq<u8>) -> bool {
    disk.file matches Some(file) ==> match disk.record {
        None => file.len() == content.len() ==> file == content,
        Some(meta) => is_about(meta, etag, content.len() as int) ==> is_truthful(
            file,
            meta,
            content,
        ),
    }
}

/// What the server says of a file with this content and this entity tag.
pub open spec fn stated(
    content: Seq<u8>,
    etag: Option<Seq<char>>,
    supports_range: bool,
) -> crate::engine::RemoteFileView {
    crate::engine::RemoteFileView { size: content.len() as int, supports_range, etag }
}

// ---------------------------------------------------------------------------
// Laws
// ---------------------------------------------------------------------------

/// A file of full length that holds every chunk is the server's file.
pub proof fn all_chunks_make_the_file(file: Seq<u8>, content: Seq<u8>, workers: int)
    requires
        crate::chunks::divisible(content.len() as int, workers),
        file.len() == content.len(),
        forall|id: int| 0 <= id < workers ==> #[trigger] holds_chunk(file, content, workers, id),
    ensures
        file == content,
{
    assert forall|b: int| 0 <= b < content.len() implies file[b] == content[b] by {
        crate::chunks::each_byte_has_one_chunk(content.len() as int, workers, b);
        let id = choose|id: int|
            0 <= id < workers && #[trigger] crate::chunks::in_chunk(
                content.len() as int,
                workers,
                id,
                b,
            );
        assert(holds_chunk(file, content, workers, id));
    }
    assert(file =~= content);
}

/// An interrupted download is never taken for a complete one: a file that counts
/// as complete or as present is the server's file, byte for byte, whatever the
/// number of workers and whether or not the server supports ranges.
pub proof fn complete_means_whole(
    disk: Disk,
    content: Seq<u8>,
    etag: Option<Seq<char>>,
    workers: int,
    supports_range: bool,
)
    requires
        sound(disk, etag, content),
        ({
            let remote = stated(content, etag, supports_range);
            let decision = crate::engine::decide(workers, remote, found(disk));
            decision == Decision::AlreadyComplete || decision == Decision::AlreadyPresent
        }),
    ensures
        disk.file == Some(content),
{
    if let Some(meta) = disk.record {
        let file = disk.file->0;
        let n = meta.chunks_completed.len() as int;
        if n > 0 {
            assert(meta.chunks_completed[0]);
            assert forall|id: int| 0 <= id < n implies #[trigger] holds_chunk(
                file,
                content,
                n,
                id,
            ) by {
                assert(meta.chunks_completed[id]);
            }
            all_chunks_make_the_file(file, content, n);
        }
    }
}

/// A download in parts that was interrupted goes on with exactly the chunks that
/// are not marked, and those that are marked need not be fetched: the file holds
/// them.
pub proof fn interrupted_download_goes_on(
    disk: Disk,
    content: Seq<u8>,
    etag: Option<Seq<char>>,
    workers: int,
)
    requires
        0 < workers <= usize::MAX,
        sound(disk, etag, content),
        disk.record matches Some(meta) && is_about(meta, etag, content.len() as int)
            && meta.chunks_completed.len() == workers && !crate::metadata::no_chunk_missing(
            meta.chunks_completed,
        ),
        disk.file matches Some(file) && file.len() <= content.len(),
    ensures
        crate::engine::decide(workers, stated(content, etag, true), found(disk))
            == Decision::Resume(Resume::MultiPart),
        ({
            let total = content.len() as int;
            let parts = crate::multi_part::resumed_parts(disk.record->0, total);
            forall|id: int|
                0 <= id < workers ==> (parts.chunks.contains(
                    #[trigger] crate::chunks::chunk(total, workers, id),
                ) <==> !disk.record->0.chunks_completed[id]) && (parts.chunks.contains(
                    crate::chunks::chunk(total, workers, id),
                ) || holds_chunk(disk.file->0, content, workers, id))
        }),
{
    let meta = disk.record->0;
    crate::chunks::only_unfinished_chunks_are_pending(
        content.len() as int,
        meta.chunks_completed,
    );
}

/// The disk after all writes of a worker's course.
pub open spec fn after_course(
    disk: Disk,
    range: ChunkRange,
    buffer_size: int,
    events: Seq<crate::worker::EventView>,
) -> Disk
    decreases events.len(),
{
    if events.len() == 0 {
        disk
    } else {
        let before = crate::worker::course(range, buffer_size, events.drop_last());
        let now = after_course(disk, range, buffer_size, events.drop_last());
        match crate::worker::worker_step(before.worker, events.last()).1 {
            crate::worker::ActionView::Write { offset, data } => after_write(now, offset, data),
            _ => now,
        }
    }
}

/// A worker writes into its chunk and nowhere else: all other bytes of the file
/// stay as they are, whatever the server sends, and the record stays as it is.
pub proof fn workers_leave_other_bytes_alone(
    disk: Disk,
    range: ChunkRange,
    buffer_size: int,
    events: Seq<crate::worker::EventView>,
)
    requires
        disk.file is Some,
        crate::worker::possible(range, buffer_size, events),
    ensures
        ({
            let end = after_course(disk, range, buffer_size, events);
            let file = disk.file->0;
            &&& end.record == disk.record
            &&& end.file matches Some(now) && file.len() <= now.len() && forall|b: int|
                0 <= b < file.len() && !(range.start <= b <= range.end) ==> #[trigger] now[b]
                    == file[b]
            &&& range.end < file.len() ==> end.file->0.len() == file.len()
        }),
    decreases events.len(),
{
    if events.len() > 0 {
        let front = events.drop_last();
        workers_leave_other_bytes_alone(disk, range, buffer_size, front);
        assert(front.push(events.last()) =~= events);
        crate::worker::writes_stay_inside_the_chunk(range, buffer_size, front, events.last());
    }
}

proof fn lemma_course_writes(
    disk: Disk,
    content: Seq<u8>,
    range: ChunkRange,
    buffer_size: int,
    events: Seq<crate::worker::EventView>,
)
    requires
        disk.file is Some,
        crate::worker::possible(range, buffer_size, events),
        crate::worker::is_served(content, range, buffer_size, events),
    ensures
        ({
            let c = crate::worker::course(range, buffer_size, events);
            let end = after_course(disk, range, buffer_size, events);
            end.file matches Some(now) && holds(
                now,
                content,
                range.start as int,
                range.start + c.handed_out.len(),
            )
        }),
    decreases events.len(),
{
    if events.len() > 0 {
        let front = events.drop_last();
        let last = events.last();
        let before = crate::worker::course(range, buffer_size, front);
        let c = crate::worker::course(range, buffer_size, events);
        lemma_course_writes(disk, content, range, buffer_size, front);
        assert(front.push(last) =~= events);
        crate::worker::writes_go_where_they_belong(range, buffer_size, front, last);
        crate::worker::what_is_taken_is_what_the_server_has(content, range, buffer_size, events);
        crate::worker::bytes_are_kept_in_order(range, buffer_size, events);
        if let crate::worker::ActionView::Write { offset, data } = crate::worker::worker_step(
            before.worker,
            last,
        ).1 {
            assert(c.handed_out == before.handed_out + data);
            assert(c.received.len() == c.handed_out.len() + c.worker.buffer.len());
            let now = after_course(disk, range, buffer_size, events).file->0;
            let then = after_course(disk, range, buffer_size, front).file->0;
            assert(now == overwritten(then, offset, data));
            assert forall|b: int|
                range.start <= b < range.start + c.handed_out.len() implies 0 <= b < now.len()
                && #[trigger] now[b] == content[b] by {
                if b < offset {
                    assert(then[b] == content[b]);
                } else {
                    assert(now[b] == data[b - offset]);
                    assert(data[b - offset] == c.received[b - range.start]);
                    assert(content[range.start + (b - range.start)] == content[b]);
                }
            }
        }
    }
}

/// A worker that reports its chunk as complete has put every byte of it on disk
/// as the server has it, so that the chunk can be marked.
pub proof fn finished_worker_leaves_its_chunk_on_disk(
    disk: Disk,
    content: Seq<u8>,
    workers: int,
    id: int,
    buffer_size: int,
    events: Seq<crate::worker::EventView>,
)
    requires
        crate::chunks::divisible(content.len() as int, workers),
        content.len() <= u64::MAX,
        0 <= id < workers,
        disk.file is Some,
        ({
            let range = crate::chunks::chunk(content.len() as int, workers, id);
            &&& crate::worker::possible(range, buffer_size, events)
            &&& crate::worker::is_served(content, range, buffer_size, events)
            &&& crate::worker::course(range, buffer_size, events).worker.phase
                == crate::worker::WorkerPhase::Finished
        }),
    ensures
        ({
            let range = crate::chunks::chunk(content.len() as int, workers, id);
            after_course(disk, range, buffer_size, events).file matches Some(now) && holds_chunk(
                now,
                content,
                workers,
                id,
            )
        }),
{
    let range = crate::chunks::chunk(content.len() as int, workers, id);
    crate::chunks::chunk_bounds(content.len() as int, workers, id);
    crate::worker::finished_worker_has_written_its_chunk(range, buffer_size, events);
    lemma_course_writes(disk, content, range, buffer_size, events);
}

/// A download in one stream that was interrupted goes on right behind the bytes
/// that are there: they are kept, and what arrives is put behind them, so that
/// the file is the beginning of the server's file, without a gap.
pub proof fn stream_goes_on_where_it_stopped(
    disk: Disk,
    content: Seq<u8>,
    etag: Option<Seq<char>>,
    workers: int,
    count: int,
)
    requires
        workers > 0,
        content.len() <= u64::MAX,
        sound(disk, etag, content),
        disk.record matches Some(meta) && is_about(meta, etag, content.len() as int)
            && meta.chunks_completed.len() == 0,
        disk.file matches Some(file) && 0 < file.len() < content.len(),
        0 <= count <= content.len() - disk.file->0.len(),
    ensures
        ({
            let len = disk.file->0.len() as int;
            let meta = disk.record->0;
            let steps = crate::single_stream::stream_opening(len);
            let opened = after_step(
                after_step(after_step(disk, steps[0], meta), steps[1], meta),
                steps[2],
                meta,
            );
            let end = after_stream(opened, content.subrange(len, len + count));
            &&& crate::engine::decide(workers, stated(content, etag, true), found(disk))
                == Decision::Resume(Resume::SingleStream { start_byte: len as u64 })
            &&& steps.len() == 3
            &&& opened.file == disk.file
            &&& end.file == Some(content.take(len + count))
        }),
{
    let file = disk.file->0;
    let len = file.len() as int;
    assert(resized(file, len) =~= file);
    assert(overwritten(file, len, content.subrange(len, len + count)) =~= content.take(len + count));
}

/// A server that has a file states it: an answer of success with the length of
/// the file in `Content-Length`, to `HEAD`, or behind the slash of
/// `Content-Range`, to `GET` for the first byte, leads to what `stated` says of
/// the file.
pub proof fn a_server_states_its_file(
    content: Seq<u8>,
    etag: Option<Seq<char>>,
    workers: int,
    referer: Seq<char>,
    reply: crate::engine::ReplyView,
    range: Seq<char>,
)
    requires
        content.len() <= u64::MAX,
        reply.status / 100 == 2,
        match etag {
            Some(tag) => crate::headers::spells(reply.headers.etag, tag),
            None => reply.headers.etag is None,
        },
        !range.contains('/'),
    ensures
        ({
            let headers = reply.headers;
            let length = crate::text::decimal(content.len());
            let in_bytes = crate::headers::spells(
                headers.accept_ranges,
                seq!['b', 'y', 't', 'e', 's'],
            );
            &&& crate::headers::spells(headers.content_length, length)
                ==> crate::engine::next_action(
                workers,
                referer,
                crate::engine::DownloadEventView::HeadReply(reply),
            ) == crate::engine::DownloadActionView::Inspect(stated(content, etag, in_bytes))
            &&& crate::headers::spells(headers.content_range, range + seq!['/'] + length)
                ==> crate::engine::next_action(
                workers,
                referer,
                crate::engine::DownloadEventView::ProbeReply(reply),
            ) == crate::engine::DownloadActionView::Inspect(
                stated(content, etag, in_bytes || headers.accept_ranges is None),
            )
        }),
{
    let length = crate::text::decimal(content.len());
    crate::text::decimal_is_read_back(content.len() as u64);
    crate::text::decimal_denotes(content.len());
    assert(!length.contains('/')) by {
        if length.contains('/') {
            let i = choose|i: int| 0 <= i < length.len() && length[i] == '/';
            assert(crate::text::is_digit(length[i]));
        }
    }
    crate::engine::an_answer_to_head_describes_the_file(workers, referer, reply, length);
    crate::engine::an_answer_to_get_describes_the_file(
        workers,
        referer,
        reply,
        range,
        length,
        length,
        length,
    );
}

} // verus!

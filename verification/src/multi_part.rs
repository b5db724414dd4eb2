//! A download in parts: what is recorded, which chunks are fetched, and what
//! is done as they come in.

use vstd::prelude::*;

use crate::chunks::{pending_chunks, ChunkRange};
use crate::clock::unix_now;
use crate::engine::{DownloadEngine, FileStep};
use crate::metadata::DownloadMetadata;

verus! {

/// A download in parts.
pub struct MultiPart {
    /// The record.
    pub meta: DownloadMetadata,
    /// The chunks that are fetched.
    pub chunks: Vec<ChunkRange>,
    /// What is done to the file before any chunk is fetched.
    pub opening: Vec<FileStep>,
    /// How many bytes were counted before any chunk is fetched.
    pub position: u64,
}

pub struct MultiPartView {
    pub meta: crate::metadata::MetadataView,
    pub chunks: Seq<ChunkRange>,
    pub opening: Seq<FileStep>,
    pub position: int,
}

impl View for MultiPart {
    type V = MultiPartView;

    open spec fn view(&self) -> MultiPartView {
        MultiPartView {
            meta: self.meta@,
            chunks: self.chunks@,
            opening: self.opening@,
            position: self.position as int,
        }
    }
}

/// What becomes of the workers.
#[derive(Clone, Copy, Debug, PartialEq, Eq, Structural)]
pub enum PartsEvent {
    /// A worker is done; so many bytes have been written by all of them.
    ChunkDone { chunk_id: usize, fetched: u64 },
    /// A worker failed.
    ChunkFailed,
    /// No worker is left.
    NoneLeft,
}

/// What is done next.
pub enum PartsAction {
    /// Write the record.
    SaveRecord,
    /// Fail, and leave the file and its record as they are.
    Fail,
    /// Do this, and the download is complete.
    Finish { steps: Vec<FileStep> },
}

pub enum PartsActionView {
    SaveRecord,
    Fail,
    Finish { steps: Seq<FileStep> },
}

impl View for PartsAction {
    type V = PartsActionView;

    open spec fn view(&self) -> PartsActionView {
        match *self {
            PartsAction::SaveRecord => PartsActionView::SaveRecord,
            PartsAction::Fail => PartsActionView::Fail,
            PartsAction::Finish { steps } => PartsActionView::Finish { steps: steps@ },
        }
    }
}

/// `n` chunks of which none is finished.
pub open spec fn none_done(n: int) -> Seq<bool> {
    Seq::new(n as nat, |i: int| false)
}

/// The record of a download in parts that begins.
pub open spec fn first_record(
    url: Seq<char>,
    etag: Option<Seq<char>>,
    total: int,
    workers: int,
    timestamp: int,
) -> crate::metadata::MetadataView {
    crate::metadata::MetadataView {
        url,
        etag,
        total_size: total,
        downloaded: 0,
        timestamp,
        chunks_completed: none_done(workers),
    }
}

/// A download in parts that begins: the record is written before the file is
/// given its full length, so that a file of full length with chunks missing
/// never stands without a record that says so.
pub open spec fn first_parts(
    url: Seq<char>,
    etag: Option<Seq<char>>,
    total: int,
    workers: int,
    timestamp: int,
) -> MultiPartView {
    MultiPartView {
        meta: first_record(url, etag, total, workers, timestamp),
        chunks: crate::chunks::pending(total, none_done(workers)),
        opening: seq![FileStep::SaveRecord, FileStep::Create, FileStep::SetLength(total as u64)],
        position: 0,
    }
}

/// A download in parts that is taken up again. The file is given its full length
/// here too: the download may have been interrupted before it had it.
pub open spec fn resumed_parts(
    meta: crate::metadata::MetadataView,
    total: int,
) -> MultiPartView {
    MultiPartView {
        meta,
        chunks: crate::chunks::pending(total, meta.chunks_completed),
        opening: seq![FileStep::Open, FileStep::SetLength(total as u64)],
        position: meta.downloaded,
    }
}

/// The bytes that count as downloaded when `fetched` came to `position`; the
/// count stays at the largest number that it can hold.
pub open spec fn counted(position: int, fetched: int) -> int {
    if position + fetched <= u64::MAX {
        position + fetched
    } else {
        u64::MAX as int
    }
}

/// The record after a chunk came in.
pub open spec fn with_chunk(
    meta: crate::metadata::MetadataView,
    chunk_id: int,
    downloaded: int,
) -> crate::metadata::MetadataView {
    crate::metadata::MetadataView {
        chunks_completed: meta.chunks_completed.update(chunk_id, true),
        downloaded,
        ..meta
    }
}

/// The record and the action that follow from what became of the workers.
pub open spec fn parts_step(
    meta: crate::metadata::MetadataView,
    position: int,
    event: PartsEvent,
) -> (crate::metadata::MetadataView, PartsActionView) {
    match event {
        PartsEvent::ChunkDone { chunk_id, fetched } => (
            with_chunk(meta, chunk_id as int, counted(position, fetched as int)),
            PartsActionView::SaveRecord,
        ),
        PartsEvent::ChunkFailed => (meta, PartsActionView::Fail),
        PartsEvent::NoneLeft => (
            meta,
            PartsActionView::Finish { steps: seq![FileStep::Sync, FileStep::RemoveRecord] },
        ),
    }
}

impl DownloadEngine {
    /// Begins a download in parts. The record bears the time of the call.
    pub fn run_multi_part(&self, url: &str, total_size: u64, server_etag: Option<String>) -> (parts:
        MultiPart)
        requires
            crate::chunks::divisible(total_size as int, self.num_workers as int),
        ensures
            parts.meta.timestamp >= 0,
            parts@ == first_parts(
                url@,
                crate::text::text_view(server_etag),
                total_size as int,
                self.num_workers as int,
                parts.meta.timestamp as int,
            ),
    {
        self.begin_multi_part(url, total_size, server_etag, unix_now())
    }

    /// Begins a download in parts at a given time.
    pub fn begin_multi_part(
        &self,
        url: &str,
        total_size: u64,
        server_etag: Option<String>,
        timestamp: i64,
    ) -> (parts: MultiPart)
        requires
            crate::chunks::divisible(total_size as int, self.num_workers as int),
        ensures
            parts.meta.timestamp == timestamp,
            parts@ == first_parts(
                url@,
                crate::text::text_view(server_etag),
                total_size as int,
                self.num_workers as int,
                timestamp as int,
            ),
    {
        let done: Vec<bool> = vec![false; self.num_workers];
        assert(done@ =~= none_done(self.num_workers as int));
        let chunks: Vec<ChunkRange> = pending_chunks(total_size, &done);
        let opening: Vec<FileStep> = vec![
            FileStep::SaveRecord,
            FileStep::Create,
            FileStep::SetLength(total_size),
        ];
        let meta = DownloadMetadata {
            url: url.to_owned(),
            etag: server_etag,
            total_size,
            downloaded: 0,
            timestamp,
            chunks_completed: done,
        };
        let parts = MultiPart { meta, chunks, opening, position: 0 };
        assert(parts@.opening =~= seq![
            FileStep::SaveRecord,
            FileStep::Create,
            FileStep::SetLength(total_size),
        ]);
        parts
    }

    /// Takes a download in parts up again: the chunks that the record does not
    /// mark are fetched, and the record is kept as it is.
    pub fn resume_multi_part(&self, meta: DownloadMetadata, total_size: u64) -> (parts: MultiPart)
        requires
            crate::chunks::divisible(total_size as int, self.num_workers as int),
            meta.chunks_completed@.len() == self.num_workers,
        ensures
            parts@ == resumed_parts(meta@, total_size as int),
    {
        let chunks: Vec<ChunkRange> = pending_chunks(total_size, &meta.chunks_completed);
        let opening: Vec<FileStep> = vec![FileStep::Open, FileStep::SetLength(total_size)];
        let position: u64 = meta.downloaded;
        let parts = MultiPart { meta, chunks, opening, position };
        assert(parts@.opening =~= seq![FileStep::Open, FileStep::SetLength(total_size)]);
        parts
    }
}

impl MultiPart {
    /// Tells what became of the workers, and learns what to do next.
    pub fn step(&mut self, event: PartsEvent) -> (action: PartsAction)
        requires
            event matches PartsEvent::ChunkDone { chunk_id, .. } ==> chunk_id
                < old(self).meta.chunks_completed@.len(),
        ensures
            (final(self)@.meta, action@) == parts_step(
                old(self)@.meta,
                old(self)@.position,
                event,
            ),
            final(self)@.chunks == old(self)@.chunks,
            final(self)@.opening == old(self)@.opening,
            final(self)@.position == old(self)@.position,
    {
        match event {
            PartsEvent::ChunkDone { chunk_id, fetched } => {
                self.meta.chunks_completed.set(chunk_id, true);
                self.meta.downloaded = if fetched <= u64::MAX - self.position {
                    self.position + fetched
                } else {
                    u64::MAX
                };
                PartsAction::SaveRecord
            },
            PartsEvent::ChunkFailed => PartsAction::Fail,
            PartsEvent::NoneLeft => {
                let steps: Vec<FileStep> = vec![FileStep::Sync, FileStep::RemoveRecord];
                assert(steps@ =~= seq![FileStep::Sync, FileStep::RemoveRecord]);
                PartsAction::Finish { steps }
            },
        }
    }
}

// ---------------------------------------------------------------------------
// Laws
// ---------------------------------------------------------------------------

/// The marks after the chunks `ids` came in, one after the other.
pub open spec fn marked(done: Seq<bool>, ids: Seq<int>) -> Seq<bool>
    decreases ids.len(),
{
    if ids.len() == 0 {
        done
    } else {
        marked(done, ids.drop_last()).update(ids.last(), true)
    }
}

/// A mark is set for each chunk that came in, and for no other; none is ever
/// taken back.
pub proof fn marks_are_those_of_finished_chunks(done: Seq<bool>, ids: Seq<int>)
    requires
        forall|k: int| 0 <= k < ids.len() ==> 0 <= #[trigger] ids[k] < done.len(),
    ensures
        marked(done, ids).len() == done.len(),
        forall|i: int|
            0 <= i < done.len() ==> (#[trigger] marked(done, ids)[i] <==> done[i]
                || ids.contains(i)),
    decreases ids.len(),
{
    if ids.len() > 0 {
        let front = ids.drop_last();
        assert forall|k: int| 0 <= k < front.len() implies 0 <= #[trigger] front[k]
            < done.len() by {
            assert(front[k] == ids[k]);
        }
        marks_are_those_of_finished_chunks(done, front);
        let last = ids.last();
        assert(ids[ids.len() - 1] == last);
        assert forall|i: int| 0 <= i < done.len() implies (#[trigger] marked(done, ids)[i]
            <==> done[i] || ids.contains(i)) by {
            assert(marked(done, ids)[i] == (i == last || marked(done, front)[i]));
            if front.contains(i) {
                let k = choose|k: int| 0 <= k < front.len() && front[k] == i;
                assert(ids[k] == i);
            }
            if ids.contains(i) && i != last {
                let k = choose|k: int| 0 <= k < ids.len() && ids[k] == i;
                assert(front[k] == i);
            }
        }
    }
}

/// When all chunks that were fetched came in, no chunk is missing, whether the
/// download began or was taken up again.
pub proof fn nothing_is_missing_in_the_end(total: int, done: Seq<bool>, ids: Seq<int>)
    requires
        done.len() <= usize::MAX,
        forall|k: int| 0 <= k < ids.len() ==> 0 <= #[trigger] ids[k] < done.len(),
        forall|k: int|
            0 <= k < crate::chunks::pending(total, done).len() ==> ids.contains(
                (#[trigger] crate::chunks::pending(total, done)[k]).id as int,
            ),
    ensures
        crate::metadata::no_chunk_missing(marked(done, ids)),
        crate::chunks::pending(total, marked(done, ids)).len() == 0,
{
    marks_are_those_of_finished_chunks(done, ids);
    crate::chunks::only_unfinished_chunks_are_pending(total, done);
    let after = marked(done, ids);
    assert forall|i: int| 0 <= i < after.len() implies #[trigger] after[i] by {
        if !done[i] {
            let c = crate::chunks::chunk(total, done.len() as int, i);
            assert(crate::chunks::pending(total, done).contains(c));
            let k = choose|k: int|
                0 <= k < crate::chunks::pending(total, done).len() && crate::chunks::pending(
                    total,
                    done,
                )[k] == c;
            assert(crate::chunks::pending(total, done)[k].id == i);
        }
    }
    crate::chunks::only_unfinished_chunks_are_pending(total, after);
    if crate::chunks::pending(total, after).len() > 0 {
        let c = crate::chunks::pending(total, after)[0];
        assert(after[c.id as int]);
    }
}

/// The record after a row of events.
pub open spec fn after_events(
    meta: crate::metadata::MetadataView,
    position: int,
    events: Seq<PartsEvent>,
) -> crate::metadata::MetadataView
    decreases events.len(),
{
    if events.len() == 0 {
        meta
    } else {
        parts_step(after_events(meta, position, events.drop_last()), position, events.last()).0
    }
}

/// A download that is taken up again never loses what its record says,
/// whatever becomes of the workers: the record keeps what it is about, a mark
/// stays, and the count never falls below what it was. A worker that fails
/// changes nothing in it.
pub proof fn resumed_record_loses_nothing(
    meta: crate::metadata::MetadataView,
    total: int,
    events: Seq<PartsEvent>,
)
    requires
        meta.downloaded <= u64::MAX,
        forall|k: int|
            0 <= k < events.len() ==> (#[trigger] events[k] matches PartsEvent::ChunkDone {
                chunk_id,
                ..
            } ==> chunk_id < meta.chunks_completed.len()),
    ensures
        ({
            let parts = resumed_parts(meta, total);
            let now = after_events(parts.meta, parts.position, events);
            &&& now.url == meta.url
            &&& now.etag == meta.etag
            &&& now.total_size == meta.total_size
            &&& now.timestamp == meta.timestamp
            &&& now.chunks_completed.len() == meta.chunks_completed.len()
            &&& forall|i: int|
                0 <= i < meta.chunks_completed.len() && meta.chunks_completed[i]
                    ==> #[trigger] now.chunks_completed[i]
            &&& now.downloaded >= meta.downloaded
            &&& parts_step(now, parts.position, PartsEvent::ChunkFailed) == (
                now,
                PartsActionView::Fail,
            )
        }),
    decreases events.len(),
{
    if events.len() > 0 {
        let front = events.drop_last();
        assert forall|k: int| 0 <= k < front.len() implies (
        #[trigger] front[k] matches PartsEvent::ChunkDone { chunk_id, .. } ==> chunk_id
            < meta.chunks_completed.len()) by {
            assert(front[k] == events[k]);
        }
        resumed_record_loses_nothing(meta, total, front);
        let last = events[events.len() - 1];
        assert(last == events.last());
    }
}

/// The sum of `written` over the chunks that `done` does not mark, of the first
/// `upto`.
pub open spec fn fetched_len(done: Seq<bool>, written: Seq<int>, upto: int) -> int
    decreases upto,
{
    if upto <= 0 {
        0
    } else if done[upto - 1] {
        fetched_len(done, written, upto - 1)
    } else {
        fetched_len(done, written, upto - 1) + written[upto - 1]
    }
}

/// Whether the worker of chunk `i` may have written `written[i]` bytes: no more
/// than the chunk has, and all of them where `now` marks it.
pub open spec fn tallies(
    total: int,
    done: Seq<bool>,
    now: Seq<bool>,
    written: Seq<int>,
    i: int,
) -> bool {
    let len = crate::chunks::chunk_len(total, done.len() as int, i);
    if done[i] {
        now[i]
    } else {
        0 <= written[i] <= len && (now[i] ==> written[i] == len)
    }
}

/// Whether `written` says how many bytes each worker may have written.
pub open spec fn is_tally(total: int, done: Seq<bool>, now: Seq<bool>, written: Seq<int>) -> bool {
    &&& now.len() == done.len()
    &&& written.len() == done.len()
    &&& forall|i: int| 0 <= i < done.len() ==> #[trigger] tallies(total, done, now, written, i)
}

proof fn lemma_tally(total: int, done: Seq<bool>, now: Seq<bool>, written: Seq<int>, upto: int)
    requires
        is_tally(total, done, now, written),
        0 <= upto <= done.len(),
    ensures
        0 <= fetched_len(done, written, upto) <= crate::chunks::missing_len(total, done, upto),
        crate::chunks::finished_len(total, now, upto) <= crate::chunks::finished_len(
            total,
            done,
            upto,
        ) + fetched_len(done, written, upto),
    decreases upto,
{
    if upto > 0 {
        lemma_tally(total, done, now, written, upto - 1);
        assert(tallies(total, done, now, written, upto - 1));
    }
}

/// The count in the record takes in at least what is finished, and at most what
/// was counted before and what was then missing. So in a download that begins,
/// it lies between the finished chunks and the whole file.
pub proof fn the_count_takes_in_what_is_finished(
    total: int,
    done: Seq<bool>,
    now: Seq<bool>,
    written: Seq<int>,
    position: int,
)
    requires
        total <= u64::MAX,
        crate::chunks::divisible(total, done.len() as int),
        is_tally(total, done, now, written),
        crate::chunks::finished_len(total, done, done.len() as int) <= position,
    ensures
        ({
            let n = done.len() as int;
            let count = counted(position, fetched_len(done, written, n));
            &&& 0 <= fetched_len(done, written, n) <= total
            &&& crate::chunks::finished_len(total, now, n) <= count
            &&& count <= position + crate::chunks::missing_len(total, done, n)
            &&& position == 0 ==> count <= total
        }),
{
    lemma_tally(total, done, now, written, done.len() as int);
    crate::chunks::finished_and_missing_lengths_add_up(total, done);
    crate::chunks::finished_and_missing_lengths_add_up(total, now);
}

/// A download in parts that begins is about the file that it was begun for: its
/// record has a mark for each worker, none of them set, and counts nothing. Each
/// chunk is fetched, in order. The record is written first, and the file gets
/// its full length last.
pub proof fn a_download_in_parts_begins_with_nothing_done(
    url: Seq<char>,
    etag: Option<Seq<char>>,
    total: u64,
    workers: int,
    timestamp: int,
    id: int,
)
    requires
        0 <= id < workers <= usize::MAX,
    ensures
        ({
            let parts = first_parts(url, etag, total as int, workers, timestamp);
            &&& parts.meta.url == url
            &&& parts.meta.etag == etag
            &&& parts.meta.total_size == total
            &&& parts.meta.timestamp == timestamp
            &&& parts.meta.downloaded == 0
            &&& parts.meta.chunks_completed.len() == workers
            &&& !parts.meta.chunks_completed[id]
            &&& parts.chunks.len() == workers
            &&& parts.chunks[id] == crate::chunks::chunk(total as int, workers, id)
            &&& parts.position == 0
            &&& parts.opening == seq![
                FileStep::SaveRecord,
                FileStep::Create,
                FileStep::SetLength(total),
            ]
        }),
{
    lemma_all_unfinished(total as int, workers, workers);
}

proof fn lemma_all_unfinished(total: int, workers: int, upto: int)
    requires
        0 <= upto <= workers,
    ensures
        ({
            let all = crate::chunks::unfinished(total, none_done(workers), upto);
            &&& all.len() == upto
            &&& forall|id: int|
                0 <= id < upto ==> #[trigger] all[id] == crate::chunks::chunk(total, workers, id)
        }),
    decreases upto,
{
    if upto > 0 {
        lemma_all_unfinished(total, workers, upto - 1);
    }
}

/// A download in parts that is taken up again keeps its record as it is, counts
/// on from what it says, and fetches a chunk if and only if it is not marked.
pub proof fn a_resumed_download_fetches_what_is_not_marked(
    meta: crate::metadata::MetadataView,
    total: u64,
    id: int,
)
    requires
        0 <= id < meta.chunks_completed.len() <= usize::MAX,
    ensures
        ({
            let parts = resumed_parts(meta, total as int);
            let n = meta.chunks_completed.len() as int;
            &&& parts.meta == meta
            &&& parts.position == meta.downloaded
            &&& parts.opening == seq![FileStep::Open, FileStep::SetLength(total)]
            &&& parts.chunks.contains(crate::chunks::chunk(total as int, n, id))
                <==> !meta.chunks_completed[id]
            &&& forall|k: int|
                0 <= k < parts.chunks.len() ==> (#[trigger] parts.chunks[k]).id < n
                    && !meta.chunks_completed[parts.chunks[k].id as int]
            &&& forall|j: int, k: int|
                0 <= j < k < parts.chunks.len() ==> #[trigger] parts.chunks[j].id
                    < #[trigger] parts.chunks[k].id
        }),
{
    crate::chunks::only_unfinished_chunks_are_pending(total as int, meta.chunks_completed);
}

/// A chunk that came in is marked, and all other marks stay; the count is what
/// was counted before and all that was fetched, as far as 64 bits hold it; and
/// the record is written.
pub proof fn a_chunk_that_came_in_is_marked_and_counted(
    meta: crate::metadata::MetadataView,
    position: int,
    chunk_id: usize,
    fetched: u64,
    i: int,
)
    requires
        0 <= position,
        chunk_id < meta.chunks_completed.len(),
        0 <= i < meta.chunks_completed.len(),
    ensures
        ({
            let (after, action) = parts_step(
                meta,
                position,
                PartsEvent::ChunkDone { chunk_id, fetched },
            );
            &&& action == PartsActionView::SaveRecord
            &&& after.chunks_completed.len() == meta.chunks_completed.len()
            &&& after.chunks_completed[i] <==> i == chunk_id || meta.chunks_completed[i]
            &&& position + fetched <= u64::MAX ==> after.downloaded == position + fetched
            &&& position + fetched > u64::MAX ==> after.downloaded == u64::MAX
            &&& after.url == meta.url
            &&& after.etag == meta.etag
            &&& after.total_size == meta.total_size
            &&& after.timestamp == meta.timestamp
        }),
{
}

/// A worker that fails ends the download, and leaves the record as it is. When
/// no worker is left, the file is handed over to the disk before the record is
/// removed.
pub proof fn a_download_in_parts_fails_or_finishes(
    meta: crate::metadata::MetadataView,
    position: int,
)
    ensures
        parts_step(meta, position, PartsEvent::ChunkFailed) == (meta, PartsActionView::Fail),
        parts_step(meta, position, PartsEvent::NoneLeft) == (
            meta,
            (PartsActionView::Finish { steps: seq![FileStep::Sync, FileStep::RemoveRecord] }),
        ),
{
}

/// A download in parts and what is done next show what they hold.
pub proof fn parts_show_what_they_hold(parts: MultiPart, steps: Vec<FileStep>)
    ensures
        parts@ == (MultiPartView {
            meta: parts.meta@,
            chunks: parts.chunks@,
            opening: parts.opening@,
            position: parts.position as int,
        }),
        PartsAction::SaveRecord@ == PartsActionView::SaveRecord,
        PartsAction::Fail@ == PartsActionView::Fail,
        (PartsAction::Finish { steps })@ == (PartsActionView::Finish { steps: steps@ }),
{
}

} // verus!

//! Why a download that is reported as complete is complete, however often the
//! downloader was interrupted and started again, with whatever number of
//! workers, in parts or in one stream.
//!
//! The server has one file throughout. A run decides what to do about what it
//! finds on disk, and carries it out step by step. It can be interrupted after
//! each step, and in the middle of each write.

use vstd::prelude::*;

use crate::chunks::ChunkRange;
use crate::engine::{Decision, Discard, FileStep, Fresh, Resume};
use crate::multi_part::PartsEvent;
use crate::worker::WorkerPhase;

verus! {

/// The file that the server has.
pub struct Server {
    pub content: Seq<u8>,
    pub etag: Option<Seq<char>>,
}

/// One run of the downloader, and whether the server supports ranges in it.
pub struct Run {
    pub url: Seq<char>,
    pub workers: int,
    pub buffer_size: int,
    pub supports_range: bool,
    pub timestamp: int,
}

/// A worker at work.
pub struct Task {
    pub worker: crate::worker::WorkerView,
    /// What it has handed out for writing that is not yet on disk.
    pub unwritten: Seq<u8>,
    /// The text of its last request.
    pub request: Seq<char>,
    /// How many bytes it has taken out of the answer to it.
    pub taken: int,
}

/// How far a run has come.
pub enum Stage {
    /// No run is under way.
    Idle,
    /// So many of the removals of the decision are done.
    Removing { run: Run, decision: Decision, done: int },
    /// So many of the first steps of a download in parts are done.
    Opening { run: Run, parts: crate::multi_part::MultiPartView, done: int },
    /// The workers are at work, one for each chunk that is fetched.
    Fetching {
        run: Run,
        parts: crate::multi_part::MultiPartView,
        meta: crate::metadata::MetadataView,
        tasks: Seq<Option<Task>>,
    },
    /// So many of the last steps of a download in parts are done.
    Closing { meta: crate::metadata::MetadataView, done: int },
    /// A download in one stream waits for the answer to its request.
    Asking {
        stream: crate::single_stream::SingleStreamView,
        request: Option<Seq<char>>,
    },
    /// So many of the first steps of a download in one stream are done; the
    /// server sends the byte `next` of its file next.
    StreamOpening { stream: crate::single_stream::SingleStreamView, next: int, done: int },
    /// The stream comes in; this much of it is not yet on disk.
    Streaming {
        stream: crate::single_stream::SingleStreamView,
        next: int,
        buffered: Seq<u8>,
    },
    /// So many of the last steps of a download in one stream are done.
    StreamClosing {
        stream: crate::single_stream::SingleStreamView,
        buffered: Seq<u8>,
        done: int,
    },
    /// The download was reported as complete.
    Reported,
}

/// The disk, and how far the run has come.
pub struct State {
    pub disk: crate::disk::Disk,
    pub stage: Stage,
}

/// What can happen.
pub enum RunEvent {
    /// A run begins, and decides what to do.
    Begin(Run),
    /// The next step is done.
    Step,
    /// All steps are done, and the run goes on.
    Proceed,
    /// Something happens to the worker of a chunk.
    Worker { id: int, event: crate::worker::EventView },
    /// So many bytes of what a worker handed out are written.
    Write { id: int, count: int },
    /// A worker that is done is taken note of.
    ChunkDone { id: int },
    /// All workers have been taken note of.
    NoneLeft,
    /// The server answers the request for a stream with this status.
    Answer { status: int },
    /// A piece of the stream arrives.
    Piece { data: Seq<u8> },
    /// So many bytes of the stream are written.
    Spill { count: int },
    /// The stream comes to its end.
    StreamEnded,
    /// The run is interrupted, or fails.
    Interrupt,
}

// ---------------------------------------------------------------------------
// What happens
// ---------------------------------------------------------------------------

pub open spec fn size_of(server: Server) -> int {
    server.content.len() as int
}

/// The first byte that a task handed out and that is not on disk.
pub open spec fn place(task: Task) -> int {
    task.worker.pos + task.worker.in_flight - task.unwritten.len()
}

/// The tasks of a download in parts: one for each chunk that is fetched.
pub open spec fn first_tasks(
    server: Server,
    run: Run,
    parts: crate::multi_part::MultiPartView,
) -> Seq<Option<Task>> {
    Seq::new(
        run.workers as nat,
        |id: int|
            {
                let range = crate::chunks::chunk(size_of(server), run.workers, id);
                if parts.chunks.contains(range) {
                    Some(
                        Task {
                            worker: crate::worker::fresh_worker(range, run.buffer_size),
                            unwritten: Seq::empty(),
                            request: Seq::empty(),
                            taken: 0,
                        },
                    )
                } else {
                    None
                }
            },
    )
}

/// How many bytes each worker has reported as written.
pub open spec fn written_by(tasks: Seq<Option<Task>>) -> Seq<int> {
    Seq::new(
        tasks.len(),
        |id: int|
            match tasks[id] {
                Some(task) => task.worker.pos - task.worker.range.start,
                None => 0,
            },
    )
}

/// How many bytes all workers have reported as written.
pub open spec fn fetched_so_far(
    parts: crate::multi_part::MultiPartView,
    tasks: Seq<Option<Task>>,
) -> int {
    crate::multi_part::fetched_len(
        parts.meta.chunks_completed,
        written_by(tasks),
        tasks.len() as int,
    )
}

/// The last steps of a download in parts.
pub open spec fn parts_closing(meta: crate::metadata::MetadataView) -> Seq<FileStep> {
    crate::multi_part::parts_step(meta, 0, PartsEvent::NoneLeft).1->steps
}

/// The last steps of a download in one stream.
pub open spec fn stream_closing() -> Seq<FileStep> {
    seq![FileStep::Flush, FileStep::RemoveRecord]
}

/// Whether an event can happen in a state. Of the server it is demanded that it
/// sends the bytes of its file that it was asked for, and that a stream does not
/// end before the file does.
pub open spec fn can_happen(server: Server, state: State, event: RunEvent) -> bool {
    match event {
        RunEvent::Begin(run) => {
            &&& state.stage == Stage::Idle || state.stage == Stage::Reported
            &&& 0 <= run.workers <= usize::MAX
            &&& 0 <= run.buffer_size
        },
        RunEvent::Step => match state.stage {
            Stage::Removing { decision, done, .. } => done < crate::engine::removals(
                decision,
            ).len(),
            Stage::Opening { parts, done, .. } => done < parts.opening.len(),
            Stage::Closing { meta, done } => done < parts_closing(meta).len(),
            Stage::StreamOpening { stream, done, .. } => done < crate::single_stream::stream_opening(
                stream.start_byte,
            ).len(),
            Stage::StreamClosing { done, .. } => done < stream_closing().len(),
            _ => false,
        },
        RunEvent::Proceed => match state.stage {
            Stage::Removing { decision, done, .. } => done == crate::engine::removals(
                decision,
            ).len(),
            Stage::Opening { parts, done, .. } => done == parts.opening.len(),
            Stage::Closing { meta, done } => done == parts_closing(meta).len(),
            Stage::StreamOpening { stream, done, .. } => done == crate::single_stream::stream_opening(
                stream.start_byte,
            ).len(),
            Stage::StreamClosing { done, .. } => done == stream_closing().len(),
            _ => false,
        },
        RunEvent::Worker { id, event } => {
            &&& state.stage matches Stage::Fetching { tasks, .. }
            &&& 0 <= id < tasks.len()
            &&& tasks[id] matches Some(task)
            &&& crate::worker::expects(task.worker.phase, event)
            &&& event == crate::worker::EventView::Written ==> task.unwritten.len() == 0
            &&& sends_what_is_asked(server, task, event)
        },
        RunEvent::Write { id, count } => {
            &&& state.stage matches Stage::Fetching { tasks, .. }
            &&& 0 <= id < tasks.len()
            &&& tasks[id] matches Some(task)
            &&& 0 <= count <= task.unwritten.len()
        },
        RunEvent::ChunkDone { id } => {
            &&& state.stage matches Stage::Fetching { tasks, .. }
            &&& 0 <= id < tasks.len()
            &&& tasks[id] matches Some(task)
            &&& task.worker.phase == WorkerPhase::Finished
        },
        RunEvent::NoneLeft => {
            &&& state.stage matches Stage::Fetching { meta, tasks, .. }
            &&& forall|id: int|
                0 <= id < tasks.len() && #[trigger] tasks[id] is Some
                    ==> meta.chunks_completed[id]
        },
        RunEvent::Answer { .. } => state.stage is Asking,
        RunEvent::Piece { data } => {
            &&& state.stage matches Stage::Streaming { next, .. }
            &&& next + data.len() <= size_of(server)
            &&& data == server.content.subrange(next, next + data.len())
        },
        RunEvent::Spill { count } => {
            &&& state.stage matches Stage::Streaming { buffered, .. }
            &&& 0 <= count <= buffered.len()
        },
        RunEvent::StreamEnded => {
            &&& state.stage matches Stage::Streaming { next, .. }
            &&& next == size_of(server)
        },
        RunEvent::Interrupt => true,
    }
}

/// Whether what a worker takes when an event happens to it are the bytes of the
/// server's file that its request asks for: the body of an answer begins with
/// the first byte that the text of the request names.
pub open spec fn sends_what_is_asked(
    server: Server,
    task: Task,
    event: crate::worker::EventView,
) -> bool {
    let new = crate::worker::bytes_in(task.worker, event);
    let reached = crate::worker::first_asked(task.request)->0 + task.taken;
    forall|k: int| 0 <= k < new.len() ==> #[trigger] new[k] == server.content[reached + k]
}

/// The first byte that the answer to a request for a stream holds: the one that
/// the text of the request names, if the answer is the part that was asked for,
/// and else the first of the file.
pub open spec fn answer_begins_at(request: Option<Seq<char>>, status: int) -> int {
    match request {
        Some(text) if status == 206 => crate::worker::first_asked(text)->0,
        _ => 0,
    }
}

/// A stream that is asked for, with the text of its request.
pub open spec fn asking(stream: crate::single_stream::SingleStreamView) -> Stage {
    Stage::Asking { stream, request: crate::single_stream::open_range(stream.start_byte) }
}

/// How a run goes on when its removals are done.
pub open spec fn after_removals(
    server: Server,
    disk: crate::disk::Disk,
    run: Run,
    decision: Decision,
) -> Stage {
    let size = size_of(server);
    match decision {
        Decision::AlreadyComplete => Stage::Reported,
        Decision::AlreadyPresent => Stage::Reported,
        Decision::Resume(Resume::MultiPart) => if crate::chunks::divisible(size, run.workers) {
            Stage::Opening {
                run,
                parts: crate::multi_part::resumed_parts(disk.record->0, size),
                done: 0,
            }
        } else {
            Stage::Idle
        },
        Decision::Start(_, Fresh::MultiPart) => if crate::chunks::divisible(size, run.workers) {
            Stage::Opening {
                run,
                parts: crate::multi_part::first_parts(
                    run.url,
                    server.etag,
                    size,
                    run.workers,
                    run.timestamp,
                ),
                done: 0,
            }
        } else {
            Stage::Idle
        },
        Decision::Resume(Resume::SingleStream { start_byte }) => asking(
            crate::single_stream::first_stream(
                run.url,
                server.etag,
                size,
                start_byte as int,
                run.timestamp,
            ),
        ),
        Decision::Start(_, Fresh::SingleStream) => asking(
            crate::single_stream::first_stream(
                run.url,
                server.etag,
                size,
                0,
                run.timestamp,
            ),
        ),
    }
}

/// The state after the next step of the stage.
pub open spec fn after_next_step(state: State) -> State {
    let disk = state.disk;
    match state.stage {
        Stage::Removing { run, decision, done } => State {
            disk: crate::disk::after_step(
                disk,
                crate::engine::removals(decision)[done],
                disk.record->0,
            ),
            stage: Stage::Removing { run, decision, done: done + 1 },
        },
        Stage::Opening { run, parts, done } => State {
            disk: crate::disk::after_step(disk, parts.opening[done], parts.meta),
            stage: Stage::Opening { run, parts, done: done + 1 },
        },
        Stage::Closing { meta, done } => State {
            disk: crate::disk::after_step(disk, parts_closing(meta)[done], meta),
            stage: Stage::Closing { meta, done: done + 1 },
        },
        Stage::StreamOpening { stream, next, done } => State {
            disk: crate::disk::after_step(
                disk,
                crate::single_stream::stream_opening(stream.start_byte)[done],
                stream.meta,
            ),
            stage: Stage::StreamOpening { stream, next, done: done + 1 },
        },
        Stage::StreamClosing { stream, buffered, done } => {
            let step = stream_closing()[done];
            if step == FileStep::Flush {
                State {
                    disk: crate::disk::after_stream(disk, buffered),
                    stage: Stage::StreamClosing {
                        stream,
                        buffered: Seq::empty(),
                        done: done + 1,
                    },
                }
            } else {
                State {
                    disk: crate::disk::after_step(disk, step, stream.meta),
                    stage: Stage::StreamClosing { stream, buffered, done: done + 1 },
                }
            }
        },
        _ => state,
    }
}

/// The stage that follows when all steps are done.
pub open spec fn next_stage(server: Server, state: State) -> Stage {
    match state.stage {
        Stage::Removing { run, decision, .. } => after_removals(
            server,
            state.disk,
            run,
            decision,
        ),
        Stage::Opening { run, parts, .. } => Stage::Fetching {
            run,
            parts,
            meta: parts.meta,
            tasks: first_tasks(server, run, parts),
        },
        Stage::Closing { .. } => Stage::Reported,
        Stage::StreamOpening { stream, next, .. } => Stage::Streaming {
            stream,
            next,
            buffered: Seq::empty(),
        },
        Stage::StreamClosing { .. } => Stage::Reported,
        _ => state.stage,
    }
}

/// The task after something happened to its worker.
pub open spec fn after_worker(task: Task, event: crate::worker::EventView) -> Task {
    let (worker, action) = crate::worker::worker_step(task.worker, event);
    let unwritten = crate::worker::bytes_out(action);
    match action {
        crate::worker::ActionView::Request { range } => Task {
            worker,
            unwritten,
            request: range,
            taken: 0,
        },
        _ => Task {
            worker,
            unwritten,
            request: task.request,
            taken: task.taken + crate::worker::bytes_in(task.worker, event).len(),
        },
    }
}

/// The state after an event.
pub open spec fn next_state(server: Server, state: State, event: RunEvent) -> State {
    let disk = state.disk;
    match event {
        RunEvent::Begin(run) => State {
            disk,
            stage: Stage::Removing {
                run,
                decision: crate::engine::decide(
                    run.workers,
                    crate::disk::stated(server.content, server.etag, run.supports_range),
                    crate::disk::found(disk),
                ),
                done: 0,
            },
        },
        RunEvent::Step => after_next_step(state),
        RunEvent::Proceed => State { disk, stage: next_stage(server, state) },
        RunEvent::Worker { id, event } => match state.stage {
            Stage::Fetching { run, parts, meta, tasks } => State {
                disk,
                stage: Stage::Fetching {
                    run,
                    parts,
                    meta,
                    tasks: tasks.update(id, Some(after_worker(tasks[id]->0, event))),
                },
            },
            _ => state,
        },
        RunEvent::Write { id, count } => match state.stage {
            Stage::Fetching { run, parts, meta, tasks } => {
                let task = tasks[id]->0;
                State {
                    disk: crate::disk::after_write(
                        disk,
                        place(task),
                        task.unwritten.take(count),
                    ),
                    stage: Stage::Fetching {
                        run,
                        parts,
                        meta,
                        tasks: tasks.update(
                            id,
                            Some(Task { unwritten: task.unwritten.skip(count), ..task }),
                        ),
                    },
                }
            },
            _ => state,
        },
        RunEvent::ChunkDone { id } => match state.stage {
            Stage::Fetching { run, parts, meta, tasks } => {
                let event = PartsEvent::ChunkDone {
                    chunk_id: id as usize,
                    fetched: fetched_so_far(parts, tasks) as u64,
                };
                let (after, _) = crate::multi_part::parts_step(meta, parts.position, event);
                State {
                    disk: crate::disk::after_step(disk, FileStep::SaveRecord, after),
                    stage: Stage::Fetching { run, parts, meta: after, tasks },
                }
            },
            _ => state,
        },
        RunEvent::NoneLeft => match state.stage {
            Stage::Fetching { meta, .. } => State { disk, stage: Stage::Closing { meta, done: 0 } },
            _ => state,
        },
        RunEvent::Answer { status } => match state.stage {
            Stage::Asking { stream, request } => State {
                disk,
                stage: if crate::worker::is_success(status) {
                    Stage::StreamOpening {
                        stream: crate::single_stream::after_grant(stream, status),
                        next: answer_begins_at(request, status),
                        done: 0,
                    }
                } else {
                    Stage::Idle
                },
            },
            _ => state,
        },
        RunEvent::Piece { data } => match state.stage {
            Stage::Streaming { stream, next, buffered } => {
                let len = data.len() as int;
                let now = crate::single_stream::after_piece(stream, len);
                State {
                    disk: if crate::single_stream::fills_a_unit(stream.fetched, len) {
                        crate::disk::after_step(disk, FileStep::SaveRecord, now.meta)
                    } else {
                        disk
                    },
                    stage: Stage::Streaming {
                        stream: now,
                        next: next + len,
                        buffered: buffered + data,
                    },
                }
            },
            _ => state,
        },
        RunEvent::Spill { count } => match state.stage {
            Stage::Streaming { stream, next, buffered } => State {
                disk: crate::disk::after_stream(disk, buffered.take(count)),
                stage: Stage::Streaming { stream, next, buffered: buffered.skip(count) },
            },
            _ => state,
        },
        RunEvent::StreamEnded => match state.stage {
            Stage::Streaming { stream, buffered, .. } => State {
                disk,
                stage: Stage::StreamClosing { stream, buffered, done: 0 },
            },
            _ => state,
        },
        RunEvent::Interrupt => State { disk, stage: Stage::Idle },
    }
}

// ---------------------------------------------------------------------------
// What can be relied on
// ---------------------------------------------------------------------------

/// Whether a download can be begun over what lies on disk: a file that is there
/// does not have its full length, and is no wrong beginning.
pub open spec fn can_be_replaced(server: Server, disk: crate::disk::Disk) -> bool {
    disk.file matches Some(file) ==> {
        &&& file.len() != size_of(server)
        &&& file.len() < size_of(server) ==> crate::disk::holds(
            file,
            server.content,
            0,
            file.len() as int,
        )
    }
}

/// Whether a stream can be continued from `start_byte` on: the file is that much
/// of the server's file.
pub open spec fn can_be_continued(
    server: Server,
    disk: crate::disk::Disk,
    start_byte: int,
) -> bool {
    &&& 0 < start_byte < size_of(server)
    &&& disk.file == Some(server.content.take(start_byte))
    &&& nothing_marked(server, disk)
}

/// Whether the record marks no chunk, if it is about the server's file.
pub open spec fn nothing_marked(server: Server, disk: crate::disk::Disk) -> bool {
    disk.record matches Some(meta) ==> crate::disk::is_about(meta, server.etag, size_of(server))
        ==> forall|id: int|
        0 <= id < meta.chunks_completed.len() ==> !(#[trigger] meta.chunks_completed[id])
}

/// What holds after `done` removals.
pub open spec fn removing_in_order(
    server: Server,
    disk: crate::disk::Disk,
    run: Run,
    decision: Decision,
    done: int,
) -> bool {
    &&& 0 <= done <= crate::engine::removals(decision).len()
    &&& match decision {
        Decision::AlreadyComplete => {
            &&& disk.file == Some(server.content)
            &&& done > 0 ==> disk.record is None
        },
        Decision::AlreadyPresent => disk.file == Some(server.content) && disk.record is None,
        Decision::Resume(_) => decision == crate::engine::decide(
            run.workers,
            crate::disk::stated(server.content, server.etag, run.supports_range),
            crate::disk::found(disk),
        ),
        Decision::Start(discard, _) => if discard == Discard::Nothing {
            can_be_replaced(server, disk)
        } else {
            done > 0 ==> disk.file is None
        },
    }
}

/// What holds of the disk when chunks of a download in parts are fetched, as far
/// as the record and the length of the file go.
pub open spec fn ready_for_parts(
    server: Server,
    disk: crate::disk::Disk,
    meta: crate::metadata::MetadataView,
    workers: int,
) -> bool {
    &&& disk.record == Some(meta)
    &&& crate::disk::is_about(meta, server.etag, size_of(server))
    &&& meta.chunks_completed.len() == workers
    &&& disk.file matches Some(file) && file.len() == size_of(server)
}

/// What holds after `done` of the first steps of a download in parts.
pub open spec fn opening_in_order(
    server: Server,
    disk: crate::disk::Disk,
    run: Run,
    parts: crate::multi_part::MultiPartView,
    done: int,
) -> bool {
    let size = size_of(server);
    let begun = crate::multi_part::first_parts(
        run.url,
        server.etag,
        size,
        run.workers,
        run.timestamp,
    );
    &&& crate::chunks::divisible(size, run.workers)
    &&& 0 <= run.workers <= usize::MAX
    &&& 0 <= done <= parts.opening.len()
    &&& if parts == begun {
        &&& done == 0 ==> can_be_replaced(server, disk)
        &&& done > 0 ==> disk.record == Some(parts.meta)
        &&& done == 2 ==> disk.file == Some(Seq::<u8>::empty())
        &&& done == 3 ==> ready_for_parts(server, disk, parts.meta, run.workers)
    } else {
        &&& parts == crate::multi_part::resumed_parts(parts.meta, size)
        &&& disk.record == Some(parts.meta)
        &&& crate::disk::is_about(parts.meta, server.etag, size)
        &&& parts.meta.chunks_completed.len() == run.workers
        &&& disk.file matches Some(file) && file.len() <= size && (done == 2 ==> file.len()
            == size)
    }
}

/// What holds of the task of chunk `id`: what its worker was given, has handed
/// out and has written is what the server has. A chunk that the record marks was
/// marked from the start, or its worker is done.
pub open spec fn task_in_order(
    server: Server,
    file: Seq<u8>,
    done: Seq<bool>,
    now: Seq<bool>,
    tasks: Seq<Option<Task>>,
    id: int,
) -> bool {
    match tasks[id] {
        None => done[id] && now[id],
        Some(task) => {
            let w = task.worker;
            &&& !done[id]
            &&& now[id] ==> w.phase == WorkerPhase::Finished
            &&& w.range == crate::chunks::chunk(size_of(server), done.len() as int, id)
            &&& crate::worker::is_sane(w)
            &&& task.unwritten.len() <= w.in_flight
            &&& w.phase == WorkerPhase::Requested || w.phase == WorkerPhase::Reading || w.phase
                == WorkerPhase::WritingBatch ==> {
                &&& crate::worker::first_asked(task.request) is Some
                &&& crate::worker::first_asked(task.request)->0 + task.taken == w.pos + w.in_flight
                    + w.buffer.len()
            }
            &&& crate::disk::holds(file, server.content, w.range.start as int, place(task))
            &&& forall|k: int|
                0 <= k < task.unwritten.len() ==> #[trigger] task.unwritten[k]
                    == server.content[place(task) + k]
            &&& forall|k: int|
                0 <= k < w.buffer.len() ==> #[trigger] w.buffer[k] == server.content[w.pos
                    + w.in_flight + k]
        },
    }
}

/// What holds while chunks are fetched. The count in the record is at least the
/// length of the marked chunks, as the record is truthful. It is never less than
/// it was when the run began, and at most that and what has been fetched since,
/// which is no more than what was missing.
pub open spec fn fetching_in_order(
    server: Server,
    disk: crate::disk::Disk,
    run: Run,
    parts: crate::multi_part::MultiPartView,
    meta: crate::metadata::MetadataView,
    tasks: Seq<Option<Task>>,
) -> bool {
    let size = size_of(server);
    let done = parts.meta.chunks_completed;
    &&& crate::chunks::divisible(size, run.workers)
    &&& run.workers <= usize::MAX
    &&& ready_for_parts(server, disk, meta, run.workers)
    &&& done.len() == run.workers
    &&& tasks.len() == run.workers
    &&& forall|id: int|
        0 <= id < run.workers ==> #[trigger] task_in_order(
            server,
            disk.file->0,
            done,
            meta.chunks_completed,
            tasks,
            id,
        )
    &&& crate::chunks::finished_len(size, done, run.workers) <= parts.position
    &&& parts.position <= meta.downloaded <= crate::multi_part::counted(
        parts.position,
        fetched_so_far(parts, tasks),
    )
    &&& meta.downloaded <= parts.position + crate::chunks::missing_len(size, done, run.workers)
}

/// What holds of a stream throughout: its record is that of a stream, and about
/// the server's file.
pub open spec fn is_stream_of(
    server: Server,
    stream: crate::single_stream::SingleStreamView,
) -> bool {
    &&& stream.meta.etag == server.etag
    &&& stream.meta.total_size == size_of(server)
    &&& stream.meta.chunks_completed.len() == 0
    &&& 0 <= stream.start_byte
    &&& 0 <= stream.fetched
    &&& 0 <= stream.meta.downloaded <= size_of(server)
}

/// What holds after `done` of the first steps of a download in one stream.
pub open spec fn stream_opening_in_order(
    server: Server,
    disk: crate::disk::Disk,
    stream: crate::single_stream::SingleStreamView,
    done: int,
) -> bool {
    &&& is_stream_of(server, stream)
    &&& stream.fetched == 0
    &&& 0 <= done <= crate::single_stream::stream_opening(stream.start_byte).len()
    &&& if stream.start_byte > 0 {
        &&& can_be_continued(server, disk, stream.start_byte)
        &&& done == 3 ==> disk.cursor == stream.start_byte
    } else {
        &&& done == 0 ==> can_be_replaced(server, disk)
        &&& done == 1 || done == 2 ==> disk.record is None
        &&& done == 3 ==> disk.record == Some(stream.meta)
        &&& done >= 2 ==> disk.file == Some(Seq::<u8>::empty()) && disk.cursor == 0
    }
}

/// What holds while a stream comes in: the file is the beginning of the server's
/// file, and what is buffered comes next.
pub open spec fn streaming_in_order(
    server: Server,
    disk: crate::disk::Disk,
    stream: crate::single_stream::SingleStreamView,
    buffered: Seq<u8>,
) -> bool {
    &&& is_stream_of(server, stream)
    &&& nothing_marked(server, disk)
    &&& 0 <= disk.cursor
    &&& disk.cursor + buffered.len() == stream.start_byte + stream.fetched <= size_of(server)
    &&& disk.file == Some(server.content.take(disk.cursor))
    &&& buffered == server.content.subrange(disk.cursor, disk.cursor + buffered.len())
}

/// What holds of every state that a run can come to.
pub open spec fn in_order(server: Server, state: State) -> bool {
    &&& crate::disk::sound(state.disk, server.etag, server.content)
    &&& match state.stage {
        Stage::Idle => true,
        Stage::Removing { run, decision, done } => {
            &&& 0 <= run.workers <= usize::MAX
            &&& removing_in_order(server, state.disk, run, decision, done)
        },
        Stage::Opening { run, parts, done } => opening_in_order(
            server,
            state.disk,
            run,
            parts,
            done,
        ),
        Stage::Fetching { run, parts, meta, tasks } => fetching_in_order(
            server,
            state.disk,
            run,
            parts,
            meta,
            tasks,
        ),
        Stage::Closing { meta, done } => {
            &&& 0 <= done <= 2
            &&& state.disk.file == Some(server.content)
            &&& done == 2 ==> state.disk.record is None
        },
        Stage::Asking { stream, request } => {
            &&& stream_opening_in_order(server, state.disk, stream, 0)
            &&& request == crate::single_stream::open_range(stream.start_byte)
        },
        Stage::StreamOpening { stream, next, done } => {
            &&& stream_opening_in_order(server, state.disk, stream, done)
            &&& next == stream.start_byte
        },
        Stage::Streaming { stream, next, buffered } => {
            &&& streaming_in_order(server, state.disk, stream, buffered)
            &&& next == stream.start_byte + stream.fetched
        },
        Stage::StreamClosing { stream, buffered, done } => {
            &&& 0 <= done <= 2
            &&& streaming_in_order(server, state.disk, stream, buffered)
            &&& stream.start_byte + stream.fetched == size_of(server)
            &&& done > 0 ==> state.disk.file == Some(server.content)
            &&& done == 2 ==> state.disk.record is None
        },
        Stage::Reported => state.disk.file == Some(server.content) && state.disk.record is None,
    }
}

// ---------------------------------------------------------------------------
// Laws
// ---------------------------------------------------------------------------

proof fn lemma_begin(server: Server, state: State, run: Run)
    requires
        size_of(server) <= u64::MAX,
        in_order(server, state),
        can_happen(server, state, RunEvent::Begin(run)),
    ensures
        in_order(server, next_state(server, state, RunEvent::Begin(run))),
{
    let disk = state.disk;
    let decision = crate::engine::decide(
        run.workers,
        crate::disk::stated(server.content, server.etag, run.supports_range),
        crate::disk::found(disk),
    );
    if decision == Decision::AlreadyComplete || decision == Decision::AlreadyPresent {
        crate::disk::complete_means_whole(
            disk,
            server.content,
            server.etag,
            run.workers,
            run.supports_range,
        );
    }
}

proof fn lemma_step(server: Server, state: State)
    requires
        size_of(server) <= u64::MAX,
        in_order(server, state),
        can_happen(server, state, RunEvent::Step),
    ensures
        in_order(server, next_state(server, state, RunEvent::Step)),
{
    let disk = state.disk;
    match state.stage {
        Stage::Opening { run, parts, done } => {
            lemma_opening_step(server, state, run, parts, done);
        },
        Stage::StreamOpening { stream, done, .. } => {
            if stream.start_byte > 0 {
                let file = disk.file->0;
                assert(crate::disk::resized(file, stream.start_byte) =~= file);
            } else {
                assert(server.content.len() == 0 ==> Seq::<u8>::empty() =~= server.content);
            }
        },
        Stage::StreamClosing { stream, buffered, done } => {
            if done == 0 {
                lemma_spill(server, disk, stream, buffered, buffered.len() as int);
                assert(buffered.take(buffered.len() as int) =~= buffered);
                assert(buffered.skip(buffered.len() as int) =~= Seq::<u8>::empty());
                assert(server.content.take(size_of(server)) =~= server.content);
            }
        },
        _ => {},
    }
}

proof fn lemma_opening_step(
    server: Server,
    state: State,
    run: Run,
    parts: crate::multi_part::MultiPartView,
    done: int,
)
    requires
        size_of(server) <= u64::MAX,
        state.stage == (Stage::Opening { run, parts, done }),
        in_order(server, state),
        done < parts.opening.len(),
    ensures
        in_order(server, after_next_step(state)),
{
    let size = size_of(server);
    let disk = state.disk;
    let begun = crate::multi_part::first_parts(
        run.url,
        server.etag,
        size,
        run.workers,
        run.timestamp,
    );
    if parts == begun {
        lemma_nothing_finished(size, run.workers, run.workers);
        assert(parts.meta.chunks_completed == crate::multi_part::none_done(run.workers));
    } else if done == 1 {
        let file = disk.file->0;
        if file.len() == size {
            assert(crate::disk::resized(file, size) =~= file);
        }
    }
}

proof fn lemma_nothing_finished(total: int, workers: int, upto: int)
    requires
        0 <= upto <= workers,
    ensures
        crate::chunks::finished_len(total, crate::multi_part::none_done(workers), upto) == 0,
    decreases upto,
{
    if upto > 0 {
        lemma_nothing_finished(total, workers, upto - 1);
    }
}

proof fn lemma_proceed(server: Server, state: State)
    requires
        size_of(server) <= u64::MAX,
        in_order(server, state),
        can_happen(server, state, RunEvent::Proceed),
    ensures
        in_order(server, next_state(server, state, RunEvent::Proceed)),
{
    let disk = state.disk;
    match state.stage {
        Stage::Removing { run, decision, done } => {
            if let Decision::Resume(Resume::SingleStream { start_byte }) = decision {
                let file = disk.file->0;
                assert(file =~= server.content.take(file.len() as int));
            }
        },
        Stage::Opening { run, parts, done } => {
            lemma_workers_begin(server, state, run, parts, done);
        },
        Stage::StreamOpening { .. } => {
            assert(server.content.take(0) =~= Seq::<u8>::empty());
            assert(server.content.subrange(disk.cursor, disk.cursor) =~= Seq::<u8>::empty());
        },
        _ => {},
    }
}

proof fn lemma_workers_begin(
    server: Server,
    state: State,
    run: Run,
    parts: crate::multi_part::MultiPartView,
    done: int,
)
    requires
        size_of(server) <= u64::MAX,
        state.stage == (Stage::Opening { run, parts, done }),
        in_order(server, state),
        done == parts.opening.len(),
    ensures
        fetching_in_order(
            server,
            state.disk,
            run,
            parts,
            parts.meta,
            first_tasks(server, run, parts),
        ),
{
    let size = size_of(server);
    let marks = parts.meta.chunks_completed;
    let tasks = first_tasks(server, run, parts);
    let file = state.disk.file->0;
    lemma_nothing_finished(size, run.workers, run.workers);
    crate::chunks::only_unfinished_chunks_are_pending(size, marks);
    crate::chunks::finished_and_missing_lengths_add_up(size, marks);
    assert forall|id: int| 0 <= id < run.workers implies #[trigger] task_in_order(
        server,
        file,
        marks,
        marks,
        tasks,
        id,
    ) by {
        crate::chunks::chunk_bounds(size, run.workers, id);
        let range = crate::chunks::chunk(size, run.workers, id);
        assert(!marks[id] <==> parts.chunks.contains(range));
    }
    lemma_nothing_fetched(marks, written_by(tasks), run.workers);
}

proof fn lemma_fetched_grows(done: Seq<bool>, before: Seq<int>, after: Seq<int>, upto: int)
    requires
        0 <= upto <= done.len(),
        done.len() == before.len() == after.len(),
        forall|i: int| 0 <= i < upto ==> #[trigger] before[i] <= #[trigger] after[i],
    ensures
        crate::multi_part::fetched_len(done, before, upto) <= crate::multi_part::fetched_len(
            done,
            after,
            upto,
        ),
    decreases upto,
{
    if upto > 0 {
        assert(before[upto - 1] <= after[upto - 1]);
        lemma_fetched_grows(done, before, after, upto - 1);
    }
}

proof fn lemma_nothing_fetched(done: Seq<bool>, written: Seq<int>, upto: int)
    requires
        0 <= upto <= done.len() == written.len(),
        forall|i: int| 0 <= i < upto ==> #[trigger] written[i] == 0,
    ensures
        crate::multi_part::fetched_len(done, written, upto) == 0,
    decreases upto,
{
    if upto > 0 {
        assert(written[upto - 1] == 0);
        lemma_nothing_fetched(done, written, upto - 1);
    }
}

/// Two chunks have no byte in common.
proof fn lemma_chunks_are_apart(total: int, workers: int, i: int, j: int)
    requires
        crate::chunks::divisible(total, workers),
        0 <= i < workers,
        0 <= j < workers,
        i != j,
    ensures
        forall|b: int|
            #![trigger crate::chunks::in_chunk(total, workers, i, b)]
            crate::chunks::in_chunk(total, workers, i, b) ==> !crate::chunks::in_chunk(
                total,
                workers,
                j,
                b,
            ),
{
    assert forall|b: int|
        #![trigger crate::chunks::in_chunk(total, workers, i, b)]
        crate::chunks::in_chunk(total, workers, i, b) implies !crate::chunks::in_chunk(
        total,
        workers,
        j,
        b,
    ) by {
        crate::chunks::each_byte_has_one_chunk(total, workers, b);
    }
}

proof fn lemma_worker(
    server: Server,
    state: State,
    id: int,
    event: crate::worker::EventView,
)
    requires
        size_of(server) <= u64::MAX,
        in_order(server, state),
        can_happen(server, state, RunEvent::Worker { id, event }),
    ensures
        in_order(server, next_state(server, state, RunEvent::Worker { id, event })),
{
    if let Stage::Fetching { run, parts, meta, tasks } = state.stage {
        let file = state.disk.file->0;
        let done = parts.meta.chunks_completed;
        let now = meta.chunks_completed;
        let task = tasks[id]->0;
        let w = task.worker;
        let after = after_worker(task, event);
        let all = tasks.update(id, Some(after));
        assert(task_in_order(server, file, done, now, tasks, id));
        crate::worker::every_event_keeps_a_worker_sane(w, event);
        if after.worker.phase == WorkerPhase::Requested {
            crate::worker::requests_are_read_back(after.worker.pos as u64, w.range.end);
        }
        let new = crate::worker::bytes_in(w, event);
        assert(forall|k: int|
            0 <= k < new.len() ==> #[trigger] new[k] == server.content[w.pos + w.buffer.len() + k]);
        if let crate::worker::EventView::Data(data) = event {
            let buffer = w.buffer + new;
            assert forall|k: int| 0 <= k < buffer.len() implies #[trigger] buffer[k]
                == server.content[w.pos + k] by {
                if k < w.buffer.len() {
                    assert(buffer[k] == w.buffer[k]);
                } else {
                    assert(buffer[k] == new[k - w.buffer.len()]);
                }
            }
            assert(task_in_order(server, file, done, now, all, id));
        } else {
            assert(task_in_order(server, file, done, now, all, id));
        }
        assert forall|i: int| 0 <= i < run.workers implies #[trigger] task_in_order(
            server,
            file,
            done,
            now,
            all,
            i,
        ) by {
            if i != id {
                assert(task_in_order(server, file, done, now, tasks, i));
                assert(all[i] == tasks[i]);
            }
        }
        lemma_fetched_grows(done, written_by(tasks), written_by(all), run.workers);
    }
}

proof fn lemma_write(server: Server, state: State, id: int, count: int)
    requires
        size_of(server) <= u64::MAX,
        in_order(server, state),
        can_happen(server, state, RunEvent::Write { id, count }),
    ensures
        in_order(server, next_state(server, state, RunEvent::Write { id, count })),
{
    if let Stage::Fetching { run, parts, meta, tasks } = state.stage {
        let size = size_of(server);
        let n = run.workers;
        let file = state.disk.file->0;
        let done = parts.meta.chunks_completed;
        let now = meta.chunks_completed;
        let task = tasks[id]->0;
        let w = task.worker;
        let from = place(task);
        let data = task.unwritten.take(count);
        let after = Task { unwritten: task.unwritten.skip(count), ..task };
        let all = tasks.update(id, Some(after));
        let next = crate::disk::overwritten(file, from, data);
        assert(task_in_order(server, file, done, now, tasks, id));
        crate::chunks::chunk_bounds(size, n, id);
        assert(w.range.start <= from && from + count <= w.range.end + 1);
        assert(next.len() == file.len());
        assert forall|b: int| w.range.start <= b < place(after) implies 0 <= b < next.len()
            && #[trigger] next[b] == server.content[b] by {
            if b < from {
                assert(file[b] == server.content[b]);
            } else {
                assert(next[b] == data[b - from]);
                assert(data[b - from] == task.unwritten[b - from]);
            }
        }
        assert forall|k: int| 0 <= k < after.unwritten.len() implies #[trigger] after.unwritten[k]
            == server.content[place(after) + k] by {
            assert(after.unwritten[k] == task.unwritten[count + k]);
        }
        assert(written_by(all) =~= written_by(tasks));
        assert(task_in_order(server, next, done, now, all, id));
        assert forall|i: int| 0 <= i < n implies #[trigger] task_in_order(
            server,
            next,
            done,
            now,
            all,
            i,
        ) by {
            if i != id {
                assert(task_in_order(server, file, done, now, tasks, i));
                assert(all[i] == tasks[i]);
                if let Some(other) = tasks[i] {
                    crate::chunks::chunk_bounds(size, n, i);
                    lemma_chunks_are_apart(size, n, i, id);
                    assert forall|b: int| other.worker.range.start <= b < place(other) implies 0
                        <= b < next.len() && #[trigger] next[b] == server.content[b] by {
                        assert(crate::chunks::in_chunk(size, n, i, b));
                        assert(file[b] == server.content[b]);
                    }
                }
            }
        }
        assert forall|i: int| 0 <= i < n && #[trigger] now[i] implies crate::disk::holds_chunk(
            next,
            server.content,
            n,
            i,
        ) by {
            assert(crate::disk::holds_chunk(file, server.content, n, i));
            if i == id {
                assert(count == 0);
                assert(next =~= file);
            } else {
                crate::chunks::chunk_bounds(size, n, i);
                lemma_chunks_are_apart(size, n, i, id);
                assert forall|b: int|
                    crate::chunks::chunk_start(size, n, i) <= b < crate::chunks::chunk_end(
                        size,
                        n,
                        i,
                    ) + 1 implies 0 <= b < next.len() && #[trigger] next[b]
                    == server.content[b] by {
                    assert(crate::chunks::in_chunk(size, n, i, b));
                    assert(file[b] == server.content[b]);
                }
                assert(crate::disk::holds_chunk(next, server.content, n, i));
            }
        }
    }
}

/// What the count becomes when the worker of chunk `id` is taken note of.
proof fn lemma_tally(server: Server, state: State, id: int)
    requires
        size_of(server) <= u64::MAX,
        in_order(server, state),
        can_happen(server, state, RunEvent::ChunkDone { id }),
    ensures
        ({
            let size = size_of(server);
            let parts = state.stage->Fetching_parts;
            let fetched = fetched_so_far(parts, state.stage->Fetching_tasks);
            let done = parts.meta.chunks_completed;
            let n = done.len() as int;
            let marks = state.stage->Fetching_meta.chunks_completed.update(id, true);
            let count = crate::multi_part::counted(parts.position, fetched);
            &&& 0 <= fetched <= size
            &&& crate::chunks::finished_len(size, marks, n) <= count
            &&& count <= parts.position + crate::chunks::missing_len(size, done, n)
        }),
{
    if let Stage::Fetching { run, parts, meta, tasks } = state.stage {
        let size = size_of(server);
        let done = parts.meta.chunks_completed;
        let marks = meta.chunks_completed.update(id, true);
        let written = written_by(tasks);
        assert forall|i: int| 0 <= i < done.len() implies #[trigger] crate::multi_part::tallies(
            size,
            done,
            marks,
            written,
            i,
        ) by {
            assert(task_in_order(
                server,
                state.disk.file->0,
                done,
                meta.chunks_completed,
                tasks,
                i,
            ));
            crate::chunks::chunk_bounds(size, run.workers, i);
        }
        crate::multi_part::the_count_takes_in_what_is_finished(
            size,
            done,
            marks,
            written,
            parts.position,
        );
    }
}

proof fn lemma_chunk_done(server: Server, state: State, id: int)
    requires
        size_of(server) <= u64::MAX,
        in_order(server, state),
        can_happen(server, state, RunEvent::ChunkDone { id }),
    ensures
        in_order(server, next_state(server, state, RunEvent::ChunkDone { id })),
{
    if let Stage::Fetching { run, parts, meta, tasks } = state.stage {
        let size = size_of(server);
        let n = run.workers;
        let file = state.disk.file->0;
        let done = parts.meta.chunks_completed;
        let now = meta.chunks_completed;
        let marks = now.update(id, true);
        let task = tasks[id]->0;
        assert(id as usize == id);
        assert(task_in_order(server, file, done, now, tasks, id));
        assert forall|i: int| 0 <= i < n implies #[trigger] task_in_order(
            server,
            file,
            done,
            marks,
            tasks,
            i,
        ) by {
            assert(task_in_order(server, file, done, now, tasks, i));
        }
        lemma_tally(server, state, id);
        assert forall|i: int| 0 <= i < n && #[trigger] marks[i] implies crate::disk::holds_chunk(
            file,
            server.content,
            n,
            i,
        ) by {
            crate::chunks::chunk_bounds(size, n, i);
            if i == id {
                assert(task.worker.pos == crate::chunks::chunk_end(size, n, id) + 1);
            } else {
                assert(now[i]);
            }
        }
    }
}

proof fn lemma_none_left(server: Server, state: State)
    requires
        size_of(server) <= u64::MAX,
        in_order(server, state),
        can_happen(server, state, RunEvent::NoneLeft),
    ensures
        in_order(server, next_state(server, state, RunEvent::NoneLeft)),
{
    if let Stage::Fetching { run, parts, meta, tasks } = state.stage {
        let n = run.workers;
        let file = state.disk.file->0;
        assert forall|id: int| 0 <= id < n implies #[trigger] crate::disk::holds_chunk(
            file,
            server.content,
            n,
            id,
        ) by {
            assert(task_in_order(
                server,
                file,
                parts.meta.chunks_completed,
                meta.chunks_completed,
                tasks,
                id,
            ));
            assert(meta.chunks_completed[id]);
        }
        crate::disk::all_chunks_make_the_file(file, server.content, n);
    }
}

proof fn lemma_answer(server: Server, state: State, status: int)
    requires
        size_of(server) <= u64::MAX,
        in_order(server, state),
        can_happen(server, state, RunEvent::Answer { status }),
    ensures
        in_order(server, next_state(server, state, RunEvent::Answer { status })),
{
    if let Stage::Asking { stream, .. } = state.stage {
        crate::single_stream::the_rest_is_asked_for_where_the_file_goes_on(
            stream.start_byte as u64,
        );
    }
}

proof fn lemma_piece(server: Server, state: State, data: Seq<u8>)
    requires
        size_of(server) <= u64::MAX,
        in_order(server, state),
        can_happen(server, state, RunEvent::Piece { data }),
    ensures
        in_order(server, next_state(server, state, RunEvent::Piece { data })),
{
    if let Stage::Streaming { buffered, .. } = state.stage {
        let cursor = state.disk.cursor;
        let all = buffered + data;
        assert(all =~= server.content.subrange(cursor, cursor + all.len()));
        assert(server.content.take(size_of(server)) =~= server.content);
    }
}

proof fn lemma_spill(
    server: Server,
    disk: crate::disk::Disk,
    stream: crate::single_stream::SingleStreamView,
    buffered: Seq<u8>,
    count: int,
)
    requires
        0 <= count <= buffered.len(),
        crate::disk::sound(disk, server.etag, server.content),
        streaming_in_order(server, disk, stream, buffered),
    ensures
        ({
            let next = crate::disk::after_stream(disk, buffered.take(count));
            &&& crate::disk::sound(next, server.etag, server.content)
            &&& streaming_in_order(server, next, stream, buffered.skip(count))
        }),
{
    let next = crate::disk::after_stream(disk, buffered.take(count));
    let file = disk.file->0;
    assert(next.file->0 =~= server.content.take(disk.cursor + count));
    assert(buffered.skip(count) =~= server.content.subrange(
        next.cursor,
        next.cursor + buffered.skip(count).len(),
    ));
    assert(server.content.take(size_of(server)) =~= server.content);
}

/// Whatever can happen in a state that is in order leads to one that is.
pub proof fn every_event_keeps_order(server: Server, state: State, event: RunEvent)
    requires
        size_of(server) <= u64::MAX,
        in_order(server, state),
        can_happen(server, state, event),
    ensures
        in_order(server, next_state(server, state, event)),
{
    match event {
        RunEvent::Begin(run) => lemma_begin(server, state, run),
        RunEvent::Step => lemma_step(server, state),
        RunEvent::Proceed => lemma_proceed(server, state),
        RunEvent::Worker { id, event } => lemma_worker(server, state, id, event),
        RunEvent::Write { id, count } => lemma_write(server, state, id, count),
        RunEvent::ChunkDone { id } => lemma_chunk_done(server, state, id),
        RunEvent::NoneLeft => lemma_none_left(server, state),
        RunEvent::Answer { status } => lemma_answer(server, state, status),
        RunEvent::Piece { data } => lemma_piece(server, state, data),
        RunEvent::Spill { count } => {
            if let Stage::Streaming { stream, buffered, .. } = state.stage {
                lemma_spill(server, state.disk, stream, buffered, count);
            }
        },
        RunEvent::StreamEnded => {},
        RunEvent::Interrupt => {},
    }
}

/// As long as chunks are fetched, the count in the record never falls, and no
/// mark is taken back.
pub proof fn the_count_never_falls(server: Server, state: State, event: RunEvent)
    requires
        size_of(server) <= u64::MAX,
        in_order(server, state),
        can_happen(server, state, event),
        state.stage is Fetching,
        next_state(server, state, event).stage is Fetching,
    ensures
        ({
            let before = state.stage->Fetching_meta;
            let after = next_state(server, state, event).stage->Fetching_meta;
            &&& before.downloaded <= after.downloaded
            &&& after.chunks_completed.len() == before.chunks_completed.len()
            &&& forall|id: int|
                0 <= id < before.chunks_completed.len() && before.chunks_completed[id]
                    ==> #[trigger] after.chunks_completed[id]
        }),
{
    if let RunEvent::ChunkDone { id } = event {
        lemma_tally(server, state, id);
    }
}

/// A server that sends what it is asked for over the whole course of a worker
/// does so at each event.
pub proof fn answers_that_begin_as_asked_go_on_as_asked(
    server: Server,
    range: ChunkRange,
    buffer_size: int,
    events: Seq<crate::worker::EventView>,
    event: crate::worker::EventView,
)
    requires
        crate::worker::possible(range, buffer_size, events.push(event)),
        crate::worker::is_served(server.content, range, buffer_size, events.push(event)),
    ensures
        ({
            let c = crate::worker::course(range, buffer_size, events);
            let task = Task {
                worker: c.worker,
                unwritten: Seq::empty(),
                request: c.request,
                taken: c.body.len() as int,
            };
            sends_what_is_asked(server, task, event)
        }),
{
    let all = events.push(event);
    assert(all.drop_last() =~= events);
    let before = crate::worker::course(range, buffer_size, events);
    let after = crate::worker::course(range, buffer_size, all);
    let new = crate::worker::bytes_in(before.worker, event);
    let reached = crate::worker::first_asked(before.request)->0 + before.body.len();
    assert forall|k: int| 0 <= k < new.len() implies #[trigger] new[k] == server.content[reached
        + k] by {
        assert(after.body == before.body + new);
        assert(after.body[before.body.len() + k] == new[k]);
    }
}

/// The state after a row of events, from a disk on which no run is under way.
pub open spec fn history(server: Server, disk: crate::disk::Disk, events: Seq<RunEvent>) -> State
    decreases events.len(),
{
    if events.len() == 0 {
        State { disk, stage: Stage::Idle }
    } else {
        next_state(server, history(server, disk, events.drop_last()), events.last())
    }
}

/// Whether each of the events can happen when it happens.
pub open spec fn is_possible(
    server: Server,
    disk: crate::disk::Disk,
    events: Seq<RunEvent>,
) -> bool
    decreases events.len(),
{
    events.len() > 0 ==> {
        &&& is_possible(server, disk, events.drop_last())
        &&& can_happen(server, history(server, disk, events.drop_last()), events.last())
    }
}

/// A download that is reported as complete is complete: the file is the
/// server's file, byte for byte and of the same length, whatever happened
/// before, and no record is left beside it. And at every moment, what lies on disk can be relied on by the next
/// run.
pub proof fn reported_success_is_success(
    server: Server,
    disk: crate::disk::Disk,
    events: Seq<RunEvent>,
)
    requires
        size_of(server) <= u64::MAX,
        crate::disk::sound(disk, server.etag, server.content),
        is_possible(server, disk, events),
    ensures
        in_order(server, history(server, disk, events)),
        crate::disk::sound(history(server, disk, events).disk, server.etag, server.content),
        history(server, disk, events).stage == Stage::Reported ==> history(
            server,
            disk,
            events,
        ).disk.file == Some(server.content),
        history(server, disk, events).stage == Stage::Reported ==> history(
            server,
            disk,
            events,
        ).disk.record is None,
    decreases events.len(),
{
    if events.len() > 0 {
        let before = history(server, disk, events.drop_last());
        reported_success_is_success(server, disk, events.drop_last());
        every_event_keeps_order(server, before, events.last());
    }
}

/// A disk without the file is one to begin from, whatever record lies on it.
pub proof fn a_disk_without_the_file_is_sound(
    record: Option<crate::metadata::MetadataView>,
    etag: Option<Seq<char>>,
    content: Seq<u8>,
    cursor: int,
)
    ensures
        crate::disk::sound(crate::disk::Disk { file: None, record, cursor }, etag, content),
{
}

} // verus!

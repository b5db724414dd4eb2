//! The worker that fetches one chunk: what it asks for next, when it writes,
//! how it retries and when it gives up.
//!
//! The worker performs nothing itself. It is told what happened, and answers
//! with the one thing to do next.

use vstd::prelude::*;

use crate::chunks::ChunkRange;
use crate::text::decimal_text;

verus! {

/// The number of failures in a row after which a worker gives up.
pub const MAX_RETRIES: u32 = 10;

/// The failure from which on the pause grows no longer.
pub const LONGEST_PAUSE_AT: u32 = 5;

/// The status of an answer that holds the part that was asked for.
pub const PARTIAL_CONTENT: u16 = 206;

/// What a worker is waiting for.
#[derive(Clone, Copy, Debug, PartialEq, Eq, Structural)]
pub enum WorkerPhase {
    /// To be set to work.
    Ready,
    /// For the answer to a request.
    Requested,
    /// For the end of a pause.
    Resting,
    /// For the next piece of the answer's body.
    Reading,
    /// For a full buffer to be on disk, in the middle of a body.
    WritingBatch,
    /// For the remainder to be on disk, at the end of a body.
    WritingRest,
    /// For what arrived of a body that broke off to be on disk.
    WritingSalvage,
    /// For nothing: the chunk is complete.
    Finished,
    /// For nothing: there were too many failures.
    Abandoned,
}

/// What can happen to a worker.
pub enum ChunkEvent {
    /// It is set to work.
    Begin,
    /// The server answered with this status.
    Reply(u16),
    /// The request failed.
    NoReply,
    /// The pause is over.
    Rested,
    /// A piece of the body arrived.
    Data(Vec<u8>),
    /// The body broke off with an error.
    StreamBroken,
    /// The body came to its end.
    StreamEnded,
    /// What was to be written is written.
    Written,
}

/// What a worker wants done next.
pub enum ChunkAction {
    /// Ask for these bytes, in the words of the `Range` header.
    Request { range: String },
    /// Pause for this many seconds.
    Rest { seconds: u64 },
    /// Wait for the next piece of the body.
    Read,
    /// Write `data` to the file from `offset` on.
    Write { offset: u64, data: Vec<u8> },
    /// Report the chunk as complete.
    Done { chunk_id: usize },
    /// Report that the chunk failed too often.
    GiveUp { chunk_id: usize },
}

/// A worker and its share of the file.
pub struct ChunkWorker {
    range: ChunkRange,
    pos: u64,
    asked: u64,
    retries: u32,
    buffer: Vec<u8>,
    buffer_size: usize,
    in_flight: u64,
    phase: WorkerPhase,
}

// ---------------------------------------------------------------------------
// The worker as a state machine
// ---------------------------------------------------------------------------

/// The state of a worker.
pub struct WorkerView {
    /// The chunk it fetches.
    pub range: ChunkRange,
    /// The first byte that is not known to be on disk.
    pub pos: int,
    /// The first byte that the last request asked for.
    pub asked: int,
    /// The failures since the last full buffer was written.
    pub retries: int,
    /// What arrived and is not yet handed out for writing.
    pub buffer: Seq<u8>,
    /// The length from which on the buffer counts as full.
    pub buffer_size: int,
    /// How many bytes are handed out for writing and not yet reported as written.
    pub in_flight: int,
    pub phase: WorkerPhase,
}

pub enum EventView {
    Begin,
    Reply(int),
    NoReply,
    Rested,
    Data(Seq<u8>),
    StreamBroken,
    StreamEnded,
    Written,
}

pub enum ActionView {
    Request { range: Seq<char> },
    Rest { seconds: int },
    Read,
    Write { offset: int, data: Seq<u8> },
    Done { chunk_id: int },
    GiveUp { chunk_id: int },
}

impl View for ChunkEvent {
    type V = EventView;

    open spec fn view(&self) -> EventView {
        match *self {
            ChunkEvent::Begin => EventView::Begin,
            ChunkEvent::Reply(status) => EventView::Reply(status as int),
            ChunkEvent::NoReply => EventView::NoReply,
            ChunkEvent::Rested => EventView::Rested,
            ChunkEvent::Data(data) => EventView::Data(data@),
            ChunkEvent::StreamBroken => EventView::StreamBroken,
            ChunkEvent::StreamEnded => EventView::StreamEnded,
            ChunkEvent::Written => EventView::Written,
        }
    }
}

impl View for ChunkAction {
    type V = ActionView;

    open spec fn view(&self) -> ActionView {
        match *self {
            ChunkAction::Request { range } => ActionView::Request { range: range@ },
            ChunkAction::Rest { seconds } => ActionView::Rest { seconds: seconds as int },
            ChunkAction::Read => ActionView::Read,
            ChunkAction::Write { offset, data } => ActionView::Write {
                offset: offset as int,
                data: data@,
            },
            ChunkAction::Done { chunk_id } => ActionView::Done { chunk_id: chunk_id as int },
            ChunkAction::GiveUp { chunk_id } => ActionView::GiveUp { chunk_id: chunk_id as int },
        }
    }
}

impl View for ChunkWorker {
    type V = WorkerView;

    closed spec fn view(&self) -> WorkerView {
        WorkerView {
            range: self.range,
            pos: self.pos as int,
            asked: self.asked as int,
            retries: self.retries as int,
            buffer: self.buffer@,
            buffer_size: self.buffer_size as int,
            in_flight: self.in_flight as int,
            phase: self.phase,
        }
    }
}

/// A status that says that the request was granted.
pub open spec fn is_success(status: int) -> bool {
    200 <= status <= 299
}

/// Whether an answer with this status holds the bytes from `first` on. One that
/// takes no notice of the range begins with the first byte of the file.
pub open spec fn is_granted(status: int, first: int) -> bool {
    is_success(status) && (status == PARTIAL_CONTENT || first == 0)
}

/// The `Range` header that asks for the bytes `first` to `last`.
pub open spec fn byte_range(first: nat, last: nat) -> Seq<char> {
    "bytes="@ + crate::text::decimal(first) + "-"@ + crate::text::decimal(last)
}

/// The pause after so many failures in a row, in seconds.
pub open spec fn pause_seconds(failures: int) -> int {
    if failures < LONGEST_PAUSE_AT {
        vstd::arithmetic::power2::pow2(failures as nat) as int
    } else {
        vstd::arithmetic::power2::pow2(LONGEST_PAUSE_AT as nat) as int
    }
}

/// A worker that has not begun.
pub open spec fn fresh_worker(range: ChunkRange, buffer_size: int) -> WorkerView {
    WorkerView {
        range,
        pos: range.start as int,
        asked: range.start as int,
        retries: 0,
        buffer: Seq::empty(),
        buffer_size,
        in_flight: 0,
        phase: WorkerPhase::Ready,
    }
}

/// A worker between two requests: it is done when all of its chunk is on disk,
/// gives up after too many failures, and otherwise asks for what is missing.
pub open spec fn next_request(w: WorkerView) -> (WorkerView, ActionView) {
    if w.pos > w.range.end {
        (
            WorkerView { phase: WorkerPhase::Finished, ..w },
            ActionView::Done { chunk_id: w.range.id as int },
        )
    } else if w.retries >= MAX_RETRIES {
        (
            WorkerView { phase: WorkerPhase::Abandoned, ..w },
            ActionView::GiveUp { chunk_id: w.range.id as int },
        )
    } else {
        (
            WorkerView { asked: w.pos, phase: WorkerPhase::Requested, ..w },
            ActionView::Request { range: byte_range(w.pos as nat, w.range.end as nat) },
        )
    }
}

/// A worker that pauses after its last failure.
pub open spec fn pausing(w: WorkerView) -> (WorkerView, ActionView) {
    (
        WorkerView { phase: WorkerPhase::Resting, ..w },
        ActionView::Rest { seconds: pause_seconds(w.retries) },
    )
}

/// A worker with one more failure.
pub open spec fn failed(w: WorkerView) -> WorkerView {
    WorkerView { retries: w.retries + 1, ..w }
}

/// A worker that hands its whole buffer out for writing.
pub open spec fn write_out(w: WorkerView, phase: WorkerPhase) -> (WorkerView, ActionView) {
    (
        WorkerView { buffer: Seq::empty(), in_flight: w.buffer.len() as int, phase, ..w },
        ActionView::Write { offset: w.pos, data: w.buffer },
    )
}

/// What a worker takes of a piece of the body: nothing that lies behind the end
/// of its chunk.
pub open spec fn taken(w: WorkerView, data: Seq<u8>) -> Seq<u8> {
    let room = w.range.end + 1 - w.pos - w.buffer.len();
    if data.len() <= room {
        data
    } else {
        data.take(room)
    }
}

/// A worker that took in a piece of the body.
pub open spec fn after_data(w: WorkerView, data: Seq<u8>) -> (WorkerView, ActionView) {
    let w = WorkerView { buffer: w.buffer + taken(w, data), ..w };
    if w.buffer.len() >= w.buffer_size {
        write_out(w, WorkerPhase::WritingBatch)
    } else {
        (WorkerView { phase: WorkerPhase::Reading, ..w }, ActionView::Read)
    }
}

/// Whether the body brought no byte that was not there before the request.
pub open spec fn body_was_empty(w: WorkerView) -> bool {
    w.buffer.len() == 0 && w.pos <= w.asked
}

/// A worker whose body came to its end. One that was empty is a failure.
pub open spec fn after_body(w: WorkerView) -> (WorkerView, ActionView) {
    if w.buffer.len() > 0 {
        write_out(w, WorkerPhase::WritingRest)
    } else if body_was_empty(w) {
        pausing(failed(w))
    } else {
        next_request(w)
    }
}

/// A worker whose body broke off, and of which all that arrived is on disk.
pub open spec fn after_salvage(w: WorkerView) -> (WorkerView, ActionView) {
    if w.pos > w.range.end {
        next_request(w)
    } else {
        pausing(w)
    }
}

/// A worker whose body broke off.
pub open spec fn after_break(w: WorkerView) -> (WorkerView, ActionView) {
    if w.buffer.len() > 0 {
        write_out(failed(w), WorkerPhase::WritingSalvage)
    } else {
        after_salvage(failed(w))
    }
}

/// A worker whose data is on disk. Only a full buffer wipes out the failures.
pub open spec fn after_write(w: WorkerView) -> (WorkerView, ActionView) {
    let moved = WorkerView { pos: w.pos + w.in_flight, in_flight: 0, ..w };
    if w.phase == WorkerPhase::WritingBatch {
        (WorkerView { retries: 0, phase: WorkerPhase::Reading, ..moved }, ActionView::Read)
    } else if w.phase == WorkerPhase::WritingSalvage {
        after_salvage(moved)
    } else {
        next_request(moved)
    }
}

/// Whether `event` is one that a worker in this phase can meet.
pub open spec fn expects(phase: WorkerPhase, event: EventView) -> bool {
    match event {
        EventView::Begin => phase == WorkerPhase::Ready,
        EventView::Reply(_) => phase == WorkerPhase::Requested,
        EventView::NoReply => phase == WorkerPhase::Requested,
        EventView::Rested => phase == WorkerPhase::Resting,
        EventView::Data(_) => phase == WorkerPhase::Reading,
        EventView::StreamBroken => phase == WorkerPhase::Reading,
        EventView::StreamEnded => phase == WorkerPhase::Reading,
        EventView::Written => is_writing(phase),
    }
}

/// Whether a worker waits for data to be written.
pub open spec fn is_writing(phase: WorkerPhase) -> bool {
    phase == WorkerPhase::WritingBatch || phase == WorkerPhase::WritingRest || phase
        == WorkerPhase::WritingSalvage
}

/// What a worker becomes and wants done when `event` happens to it.
pub open spec fn worker_step(w: WorkerView, event: EventView) -> (WorkerView, ActionView) {
    match event {
        EventView::Begin => next_request(w),
        EventView::Reply(status) => if is_granted(status, w.pos) {
            (WorkerView { phase: WorkerPhase::Reading, ..w }, ActionView::Read)
        } else {
            pausing(failed(w))
        },
        EventView::NoReply => pausing(failed(w)),
        EventView::Rested => next_request(w),
        EventView::Data(data) => after_data(w, data),
        EventView::StreamBroken => after_break(w),
        EventView::StreamEnded => after_body(w),
        EventView::Written => after_write(w),
    }
}

/// What holds of every worker, whatever has happened to it.
pub open spec fn is_sane(w: WorkerView) -> bool {
    &&& w.range.start <= w.pos
    &&& 0 <= w.in_flight
    &&& w.pos + w.in_flight + w.buffer.len() <= if w.range.start <= w.range.end {
        w.range.end + 1
    } else {
        w.range.start as int
    }
    &&& !is_writing(w.phase) ==> w.in_flight == 0
    &&& w.phase != WorkerPhase::Reading ==> w.buffer.len() == 0
    &&& 0 <= w.retries <= MAX_RETRIES
    &&& match w.phase {
        WorkerPhase::Ready => w.pos == w.range.start,
        WorkerPhase::Requested => w.asked == w.pos <= w.range.end && w.retries < MAX_RETRIES,
        WorkerPhase::Reading => w.asked <= w.pos && w.asked <= w.range.end && w.retries
            < MAX_RETRIES,
        WorkerPhase::WritingBatch => w.asked <= w.pos && w.asked <= w.range.end && w.retries
            < MAX_RETRIES,
        WorkerPhase::WritingRest => w.retries < MAX_RETRIES,
        WorkerPhase::WritingSalvage => true,
        WorkerPhase::Resting => w.pos <= w.range.end,
        WorkerPhase::Finished => w.pos > w.range.end,
        WorkerPhase::Abandoned => w.pos <= w.range.end && w.retries == MAX_RETRIES,
    }
    &&& w.phase != WorkerPhase::Ready && w.phase != WorkerPhase::Finished ==> w.range.start
        <= w.range.end
}

/// A worker keeps its chunk and its sanity, whatever happens to it.
pub proof fn every_event_keeps_a_worker_sane(w: WorkerView, event: EventView)
    requires
        is_sane(w),
        expects(w.phase, event),
    ensures
        is_sane(worker_step(w, event).0),
        worker_step(w, event).0.range == w.range,
        worker_step(w, event).0.buffer_size == w.buffer_size,
{
}

// ---------------------------------------------------------------------------
// The worker that runs
// ---------------------------------------------------------------------------

/// Whether a status says that the request was granted.
pub fn status_is_success(status: u16) -> (success: bool)
    ensures
        success == is_success(status as int),
{
    200 <= status && status <= 299
}

/// The `Range` header that asks for the bytes `first` to `last`.
pub fn byte_range_text(first: u64, last: u64) -> (text: String)
    ensures
        text@ == byte_range(first as nat, last as nat),
{
    let mut text: String = "bytes=".to_owned();
    text.append(decimal_text(first).as_str());
    text.append("-");
    text.append(decimal_text(last).as_str());
    text
}

/// The pause after so many failures in a row, in seconds.
pub fn pause_after(failures: u32) -> (seconds: u64)
    ensures
        seconds == pause_seconds(failures as int),
{
    let exponent: u32 = if failures < LONGEST_PAUSE_AT {
        failures
    } else {
        LONGEST_PAUSE_AT
    };
    proof {
        vstd::arithmetic::power2::lemma2_to64();
    }
    match exponent {
        0 => 1,
        1 => 2,
        2 => 4,
        3 => 8,
        4 => 16,
        _ => 32,
    }
}

impl ChunkWorker {
    /// What holds of every worker.
    pub closed spec fn wf(&self) -> bool {
        self.range.end < u64::MAX && is_sane(self@)
    }

    /// A worker for `range` that writes whenever `buffer_size` bytes or more
    /// have gathered. No file has a byte behind the one that is left out.
    pub fn new(range: ChunkRange, buffer_size: usize) -> (worker: Self)
        requires
            range.end < u64::MAX,
        ensures
            worker.wf(),
            worker@ == fresh_worker(range, buffer_size as int),
    {
        let worker = ChunkWorker {
            range,
            pos: range.start,
            asked: range.start,
            retries: 0,
            buffer: Vec::new(),
            buffer_size,
            in_flight: 0,
            phase: WorkerPhase::Ready,
        };
        assert(worker@.buffer =~= Seq::empty());
        worker
    }

    /// Whether `event` is one that this worker can take now.
    pub fn can_take(&self, event: &ChunkEvent) -> (can: bool)
        ensures
            can == expects(self@.phase, event@),
    {
        match event {
            ChunkEvent::Begin => self.phase == WorkerPhase::Ready,
            ChunkEvent::Reply(_) => self.phase == WorkerPhase::Requested,
            ChunkEvent::NoReply => self.phase == WorkerPhase::Requested,
            ChunkEvent::Rested => self.phase == WorkerPhase::Resting,
            ChunkEvent::Data(_) => self.phase == WorkerPhase::Reading,
            ChunkEvent::StreamBroken => self.phase == WorkerPhase::Reading,
            ChunkEvent::StreamEnded => self.phase == WorkerPhase::Reading,
            ChunkEvent::Written => self.phase == WorkerPhase::WritingBatch || self.phase
                == WorkerPhase::WritingRest || self.phase == WorkerPhase::WritingSalvage,
        }
    }

    /// Tells the worker what happened, and learns what to do next.
    pub fn step(&mut self, event: ChunkEvent) -> (action: ChunkAction)
        requires
            old(self).wf(),
            expects(old(self)@.phase, event@),
        ensures
            final(self).wf(),
            (final(self)@, action@) == worker_step(old(self)@, event@),
    {
        proof {
            every_event_keeps_a_worker_sane(self@, event@);
        }
        match event {
            ChunkEvent::Begin => self.ask(),
            ChunkEvent::Reply(status) => {
                if status_is_success(status) && (status == PARTIAL_CONTENT || self.pos == 0) {
                    self.phase = WorkerPhase::Reading;
                    ChunkAction::Read
                } else {
                    self.retries = self.retries + 1;
                    self.pause()
                }
            },
            ChunkEvent::NoReply => {
                self.retries = self.retries + 1;
                self.pause()
            },
            ChunkEvent::Rested => self.ask(),
            ChunkEvent::Data(data) => self.take_in(data),
            ChunkEvent::StreamBroken => {
                self.retries = self.retries + 1;
                if self.buffer.len() > 0 {
                    self.hand_out(WorkerPhase::WritingSalvage)
                } else {
                    self.end_salvage()
                }
            },
            ChunkEvent::StreamEnded => {
                if self.buffer.len() > 0 {
                    self.hand_out(WorkerPhase::WritingRest)
                } else if self.pos <= self.asked {
                    self.retries = self.retries + 1;
                    self.pause()
                } else {
                    self.ask()
                }
            },
            ChunkEvent::Written => {
                self.pos = self.pos + self.in_flight;
                self.in_flight = 0;
                if self.phase == WorkerPhase::WritingBatch {
                    self.retries = 0;
                    self.phase = WorkerPhase::Reading;
                    ChunkAction::Read
                } else if self.phase == WorkerPhase::WritingSalvage {
                    self.end_salvage()
                } else {
                    self.ask()
                }
            },
        }
    }

    fn ask(&mut self) -> (action: ChunkAction)
        ensures
            final(self).range == old(self).range,
            (final(self)@, action@) == next_request(old(self)@),
    {
        if self.pos > self.range.end {
            self.phase = WorkerPhase::Finished;
            ChunkAction::Done { chunk_id: self.range.id }
        } else if self.retries >= MAX_RETRIES {
            self.phase = WorkerPhase::Abandoned;
            ChunkAction::GiveUp { chunk_id: self.range.id }
        } else {
            self.asked = self.pos;
            self.phase = WorkerPhase::Requested;
            ChunkAction::Request { range: byte_range_text(self.pos, self.range.end) }
        }
    }

    fn pause(&mut self) -> (action: ChunkAction)
        ensures
            final(self).range == old(self).range,
            (final(self)@, action@) == pausing(old(self)@),
    {
        self.phase = WorkerPhase::Resting;
        ChunkAction::Rest { seconds: pause_after(self.retries) }
    }

    fn end_salvage(&mut self) -> (action: ChunkAction)
        ensures
            final(self).range == old(self).range,
            (final(self)@, action@) == after_salvage(old(self)@),
    {
        if self.pos > self.range.end {
            self.ask()
        } else {
            self.pause()
        }
    }

    fn take_in(&mut self, data: Vec<u8>) -> (action: ChunkAction)
        requires
            old(self).wf(),
            old(self).phase == WorkerPhase::Reading,
        ensures
            final(self).range == old(self).range,
            (final(self)@, action@) == after_data(old(self)@, data@),
    {
        let mut data: Vec<u8> = data;
        let ghost all = data@;
        let room: u64 = self.range.end + 1 - self.pos - self.buffer.len() as u64;
        if data.len() as u64 > room {
            data.truncate(room as usize);
        }
        assert(data@ =~= taken(self@, all));
        let ghost before = self.buffer@;
        self.buffer.extend_from_slice(data.as_slice());
        assert(self.buffer@ =~= before + data@);
        if self.buffer.len() >= self.buffer_size {
            self.hand_out(WorkerPhase::WritingBatch)
        } else {
            ChunkAction::Read
        }
    }

    fn hand_out(&mut self, phase: WorkerPhase) -> (action: ChunkAction)
        ensures
            final(self).range == old(self).range,
            (final(self)@, action@) == write_out(old(self)@, phase),
    {
        let mut data: Vec<u8> = Vec::new();
        std::mem::swap(&mut data, &mut self.buffer);
        self.in_flight = data.len() as u64;
        self.phase = phase;
        assert(self@.buffer =~= Seq::empty());
        ChunkAction::Write { offset: self.pos, data }
    }
}

// ---------------------------------------------------------------------------
// What a request says
// ---------------------------------------------------------------------------

/// What a `Range` header asks for, in its own words: what follows `bytes=`.
pub open spec fn asked_part(text: Seq<char>) -> Option<Seq<char>> {
    if text.len() >= 6 && text.take(6) == "bytes="@ {
        Some(text.skip(6))
    } else {
        None
    }
}

/// The first byte that a `Range` header asks for, as its reader finds it: the
/// number before the hyphen.
pub open spec fn first_asked(text: Seq<char>) -> Option<int> {
    match asked_part(text) {
        Some(part) => match crate::text::number_in(crate::text::before_first(part, '-')) {
            Some(first) => Some(first as int),
            None => None,
        },
        None => None,
    }
}

/// The last byte that a `Range` header asks for: the number behind the hyphen,
/// if there is one.
pub open spec fn last_asked(text: Seq<char>) -> Option<int> {
    match asked_part(text) {
        Some(part) => match crate::text::second_field(part, '-') {
            Some(field) => match crate::text::number_in(field) {
                Some(last) => Some(last as int),
                None => None,
            },
            None => None,
        },
        None => None,
    }
}

/// Whether a text is made of digits alone, with no zero in front.
pub open spec fn is_plain_number(s: Seq<char>) -> bool {
    &&& s.len() > 0
    &&& forall|i: int| 0 <= i < s.len() ==> '0' <= #[trigger] s[i] && s[i] <= '9'
    &&& s[0] == '0' ==> s.len() == 1
}

/// A number is written in digits alone, with no zero in front, and so without a
/// hyphen.
pub proof fn lemma_decimal_is_plain(n: nat)
    ensures
        is_plain_number(crate::text::decimal(n)),
        n > 0 ==> crate::text::decimal(n)[0] != '0',
        !crate::text::decimal(n).contains('-'),
    decreases n,
{
    let s = crate::text::decimal(n);
    crate::text::decimal_denotes(n);
    assert forall|i: int| 0 <= i < s.len() implies '0' <= #[trigger] s[i] && s[i] <= '9' by {
        assert(crate::text::is_digit(s[i]));
    }
    if n >= 10 {
        lemma_decimal_is_plain(n / 10);
        assert(s[0] == crate::text::decimal(n / 10)[0]);
    }
}

/// The text of a request, read back, names its two bounds: it is `bytes=`, the
/// first byte in digits, a hyphen and the last byte in digits, and nothing else.
pub proof fn requests_are_read_back(first: u64, last: u64)
    ensures
        ({
            let text = byte_range(first as nat, last as nat);
            let part = text.skip(6);
            let before = crate::text::before_first(part, '-');
            &&& text.take(6) == "bytes="@
            &&& first_asked(text) == Some(first as int)
            &&& last_asked(text) == Some(last as int)
            &&& crate::text::number_in(before) == Some(first)
            &&& crate::text::second_field(part, '-') matches Some(behind)
                && crate::text::number_in(behind) == Some(last) && is_plain_number(before)
                && is_plain_number(behind) && part == before + seq!['-'] + behind
        }),
{
    reveal_strlit("bytes=");
    reveal_strlit("-");
    let a = crate::text::decimal(first as nat);
    let b = crate::text::decimal(last as nat);
    let text = byte_range(first as nat, last as nat);
    lemma_decimal_is_plain(first as nat);
    lemma_decimal_is_plain(last as nat);
    crate::text::decimal_is_read_back(first);
    crate::text::decimal_is_read_back(last);
    assert(text.take(6) =~= "bytes="@);
    assert(text.skip(6) =~= a + seq!['-'] + b);
    crate::text::texts_split_where_they_were_joined(a, b, b, b, '-');
}

// ---------------------------------------------------------------------------
// Laws
// ---------------------------------------------------------------------------

/// What came of a worker to which a row of events happened.
pub struct Course {
    pub worker: WorkerView,
    /// All bytes that the worker took, in the order of their arrival.
    pub received: Seq<u8>,
    /// All bytes that were handed out for writing, in that order.
    pub handed_out: Seq<u8>,
    /// The text of its last request.
    pub request: Seq<char>,
    /// The bytes that the worker took out of the answer to it.
    pub body: Seq<u8>,
    /// The failures since the last full buffer was written.
    pub failures: int,
}

/// The bytes that a worker takes when an event happens to it.
pub open spec fn bytes_in(w: WorkerView, event: EventView) -> Seq<u8> {
    match event {
        EventView::Data(data) => taken(w, data),
        _ => Seq::empty(),
    }
}

/// The bytes that an action writes.
pub open spec fn bytes_out(action: ActionView) -> Seq<u8> {
    match action {
        ActionView::Write { data, .. } => data,
        _ => Seq::empty(),
    }
}

/// A request that was not granted, or a body that broke off or was empty.
pub open spec fn is_failure(w: WorkerView, event: EventView) -> bool {
    match event {
        EventView::Reply(status) => !is_granted(status, w.asked),
        EventView::NoReply => true,
        EventView::StreamBroken => true,
        EventView::StreamEnded => body_was_empty(w),
        _ => false,
    }
}

/// The course of a worker for `range`, after `events`.
pub open spec fn course(range: ChunkRange, buffer_size: int, events: Seq<EventView>) -> Course
    decreases events.len(),
{
    if events.len() == 0 {
        Course {
            worker: fresh_worker(range, buffer_size),
            received: Seq::empty(),
            handed_out: Seq::empty(),
            request: Seq::empty(),
            body: Seq::empty(),
            failures: 0,
        }
    } else {
        let before = course(range, buffer_size, events.drop_last());
        let event = events.last();
        let (worker, action) = worker_step(before.worker, event);
        Course {
            worker,
            received: before.received + bytes_in(before.worker, event),
            handed_out: before.handed_out + bytes_out(action),
            request: match action {
                ActionView::Request { range } => range,
                _ => before.request,
            },
            body: if action is Request {
                Seq::empty()
            } else {
                before.body + bytes_in(before.worker, event)
            },
            failures: if is_failure(before.worker, event) {
                before.failures + 1
            } else if event == EventView::Written && before.worker.phase
                == WorkerPhase::WritingBatch {
                0
            } else {
                before.failures
            },
        }
    }
}

/// Whether each of the events is one that the worker can meet when it happens.
pub open spec fn possible(range: ChunkRange, buffer_size: int, events: Seq<EventView>) -> bool
    decreases events.len(),
{
    events.len() > 0 ==> {
        &&& possible(range, buffer_size, events.drop_last())
        &&& expects(course(range, buffer_size, events.drop_last()).worker.phase, events.last())
    }
}

/// The worker of a course is sane.
pub proof fn every_course_is_sane(range: ChunkRange, buffer_size: int, events: Seq<EventView>)
    requires
        possible(range, buffer_size, events),
    ensures
        is_sane(course(range, buffer_size, events).worker),
        course(range, buffer_size, events).worker.range == range,
    decreases events.len(),
{
    if events.len() > 0 {
        every_course_is_sane(range, buffer_size, events.drop_last());
        let before = course(range, buffer_size, events.drop_last());
        every_event_keeps_a_worker_sane(before.worker, events.last());
    }
}

/// No byte is lost, repeated or put out of order, whatever fails and however
/// often: what was handed out for writing, followed by what is still in the
/// buffer, is what the worker took; and what was handed out stands in the file
/// without a gap from the start of the chunk.
pub proof fn bytes_are_kept_in_order(range: ChunkRange, buffer_size: int, events: Seq<EventView>)
    requires
        possible(range, buffer_size, events),
    ensures
        ({
            let c = course(range, buffer_size, events);
            &&& c.handed_out + c.worker.buffer == c.received
            &&& c.worker.pos + c.worker.in_flight == range.start + c.handed_out.len()
        }),
    decreases events.len(),
{
    let c = course(range, buffer_size, events);
    if events.len() > 0 {
        bytes_are_kept_in_order(range, buffer_size, events.drop_last());
        every_course_is_sane(range, buffer_size, events.drop_last());
    }
    assert(c.handed_out + c.worker.buffer =~= c.received);
}

/// Every request, as its reader finds it, asks for the first byte that the worker
/// has not taken, and everything behind it to the end of the chunk.
pub proof fn requests_ask_for_what_is_missing(
    range: ChunkRange,
    buffer_size: int,
    events: Seq<EventView>,
    event: EventView,
)
    requires
        possible(range, buffer_size, events.push(event)),
    ensures
        ({
            let before = course(range, buffer_size, events);
            let (after, action) = worker_step(before.worker, event);
            action matches ActionView::Request { range: text } ==> {
                &&& first_asked(text) == Some(range.start + before.received.len() as int)
                &&& last_asked(text) == Some(range.end as int)
                &&& range.start + before.received.len() <= range.end
                &&& after.asked == range.start + before.received.len()
                &&& text == byte_range(after.asked as nat, range.end as nat)
            }
        }),
{
    let all = events.push(event);
    assert(all.drop_last() =~= events);
    every_course_is_sane(range, buffer_size, events);
    every_course_is_sane(range, buffer_size, all);
    bytes_are_kept_in_order(range, buffer_size, all);
    let c = course(range, buffer_size, all);
    assert(c.received.len() == c.handed_out.len() + c.worker.buffer.len());
    requests_are_read_back(c.worker.pos as u64, range.end);
}

/// What a worker takes out of an answer follows on from the byte that its
/// request names: while it reads, the place in the file that it has reached lies
/// as many bytes behind that one as it has taken out of this answer.
pub proof fn places_follow_the_request(range: ChunkRange, buffer_size: int, events: Seq<EventView>)
    requires
        possible(range, buffer_size, events),
    ensures
        ({
            let c = course(range, buffer_size, events);
            c.worker.phase == WorkerPhase::Requested || c.worker.phase == WorkerPhase::Reading
                || c.worker.phase == WorkerPhase::WritingBatch ==> {
                &&& first_asked(c.request) == Some(c.worker.asked)
                &&& last_asked(c.request) == Some(range.end as int)
                &&& first_asked(c.request)->0 + c.body.len() == c.worker.pos + c.worker.in_flight
                    + c.worker.buffer.len()
            }
        }),
    decreases events.len(),
{
    every_course_is_sane(range, buffer_size, events);
    if events.len() > 0 {
        every_course_is_sane(range, buffer_size, events.drop_last());
        places_follow_the_request(range, buffer_size, events.drop_last());
        let c = course(range, buffer_size, events);
        if c.worker.phase == WorkerPhase::Requested {
            requests_are_read_back(c.worker.pos as u64, range.end);
        }
    }
}

/// Each write puts its bytes where they belong: the byte that the worker took
/// as number `k` goes to the place `k` bytes after the start of the chunk.
pub proof fn writes_go_where_they_belong(
    range: ChunkRange,
    buffer_size: int,
    events: Seq<EventView>,
    event: EventView,
)
    requires
        possible(range, buffer_size, events.push(event)),
    ensures
        ({
            let before = course(range, buffer_size, events);
            let after = course(range, buffer_size, events.push(event));
            let (_, action) = worker_step(before.worker, event);
            action matches ActionView::Write { offset, data } ==> {
                &&& offset == range.start + before.handed_out.len()
                &&& data == after.received.subrange(
                    offset - range.start,
                    offset - range.start + data.len(),
                )
            }
        }),
{
    let all = events.push(event);
    assert(all.drop_last() =~= events);
    every_course_is_sane(range, buffer_size, events);
    bytes_are_kept_in_order(range, buffer_size, events);
    bytes_are_kept_in_order(range, buffer_size, all);
    let before = course(range, buffer_size, events);
    let after = course(range, buffer_size, all);
    let (_, action) = worker_step(before.worker, event);
    if let ActionView::Write { offset, data } = action {
        let k = before.handed_out.len() as int;
        assert(after.handed_out == before.handed_out + data);
        assert(after.received.subrange(k, k + data.len()) =~= data);
    }
}

/// Whether the server sends what it is asked for, of a file with this content:
/// what the worker takes out of an answer are the bytes of `content` from the
/// one that the text of its request names.
pub open spec fn is_served(
    content: Seq<u8>,
    range: ChunkRange,
    buffer_size: int,
    events: Seq<EventView>,
) -> bool
    decreases events.len(),
{
    events.len() > 0 ==> {
        let c = course(range, buffer_size, events);
        &&& is_served(content, range, buffer_size, events.drop_last())
        &&& forall|k: int|
            0 <= k < c.body.len() ==> #[trigger] c.body[k] == content[first_asked(c.request)->0
                + k]
    }
}

/// Where the server sends what it is asked for, what a worker has taken is what
/// the server has from the start of the chunk on, whatever failed in between.
pub proof fn what_is_taken_is_what_the_server_has(
    content: Seq<u8>,
    range: ChunkRange,
    buffer_size: int,
    events: Seq<EventView>,
)
    requires
        possible(range, buffer_size, events),
        is_served(content, range, buffer_size, events),
    ensures
        ({
            let c = course(range, buffer_size, events);
            forall|k: int|
                0 <= k < c.received.len() ==> #[trigger] c.received[k] == content[range.start + k]
        }),
    decreases events.len(),
{
    if events.len() > 0 {
        let front = events.drop_last();
        let before = course(range, buffer_size, front);
        let c = course(range, buffer_size, events);
        what_is_taken_is_what_the_server_has(content, range, buffer_size, front);
        every_course_is_sane(range, buffer_size, front);
        bytes_are_kept_in_order(range, buffer_size, front);
        places_follow_the_request(range, buffer_size, front);
        assert(before.received.len() == before.handed_out.len() + before.worker.buffer.len());
        let new = bytes_in(before.worker, events.last());
        assert forall|k: int| 0 <= k < c.received.len() implies #[trigger] c.received[k]
            == content[range.start + k] by {
            if k < before.received.len() {
                assert(c.received[k] == before.received[k]);
            } else {
                let j = k - before.received.len();
                assert(c.received[k] == new[j]);
                assert(c.body == before.body + new);
                assert(c.body[before.body.len() + j] == new[j]);
            }
        }
    }
}

/// No byte is written outside the chunk, whatever the server sends.
pub proof fn writes_stay_inside_the_chunk(
    range: ChunkRange,
    buffer_size: int,
    events: Seq<EventView>,
    event: EventView,
)
    requires
        possible(range, buffer_size, events.push(event)),
    ensures
        ({
            let before = course(range, buffer_size, events);
            let (_, action) = worker_step(before.worker, event);
            action matches ActionView::Write { offset, data } ==> range.start <= offset && offset
                + data.len() <= range.end + 1
        }),
{
    let all = events.push(event);
    assert(all.drop_last() =~= events);
    every_course_is_sane(range, buffer_size, events);
    every_course_is_sane(range, buffer_size, all);
}

/// A worker that reports its chunk as complete has had every byte of the chunk
/// written, and no other: as many as the chunk is long, each of them once.
pub proof fn finished_worker_has_written_its_chunk(
    range: ChunkRange,
    buffer_size: int,
    events: Seq<EventView>,
)
    requires
        range.start <= range.end,
        possible(range, buffer_size, events),
        course(range, buffer_size, events).worker.phase == WorkerPhase::Finished,
    ensures
        ({
            let c = course(range, buffer_size, events);
            &&& c.handed_out == c.received
            &&& c.worker.in_flight == 0
            &&& c.received.len() == range.end + 1 - range.start
        }),
{
    bytes_are_kept_in_order(range, buffer_size, events);
    every_course_is_sane(range, buffer_size, events);
    let c = course(range, buffer_size, events);
    assert(c.handed_out + c.worker.buffer =~= c.handed_out);
}

/// A worker gives up after ten failures between which no full buffer was
/// written, and not before.
pub proof fn ten_failures_in_a_row_end_a_worker(
    range: ChunkRange,
    buffer_size: int,
    events: Seq<EventView>,
)
    requires
        possible(range, buffer_size, events),
    ensures
        ({
            let c = course(range, buffer_size, events);
            &&& c.worker.retries == c.failures
            &&& 0 <= c.failures <= 10
            &&& c.worker.phase == WorkerPhase::Abandoned ==> c.failures == 10
            &&& c.worker.phase == WorkerPhase::Requested ==> c.failures < 10
        }),
    decreases events.len(),
{
    every_course_is_sane(range, buffer_size, events);
    if events.len() > 0 {
        every_course_is_sane(range, buffer_size, events.drop_last());
        ten_failures_in_a_row_end_a_worker(range, buffer_size, events.drop_last());
    }
}

/// Between a failure and the next request there is a pause, whose length goes by
/// the failures in a row. What arrived before a body broke off is written
/// first. Only a worker whose chunk is complete does not pause.
pub proof fn failures_are_followed_by_a_pause(w: WorkerView, event: EventView)
    requires
        is_sane(w),
        expects(w.phase, event),
        is_failure(w, event) || w.phase == WorkerPhase::WritingSalvage,
    ensures
        ({
            let (after, action) = worker_step(w, event);
            &&& after.retries == w.retries + if is_failure(w, event) {
                1int
            } else {
                0
            }
            &&& match action {
                ActionView::Rest { seconds } => seconds == pause_seconds(after.retries)
                    && after.phase == WorkerPhase::Resting,
                ActionView::Write { .. } => after.phase == WorkerPhase::WritingSalvage,
                ActionView::Done { .. } => after.pos > after.range.end,
                _ => false,
            }
        }),
{
}

/// The statuses of success are those from 200 on whose first digit is a two.
pub proof fn success_begins_with_a_two(status: int)
    ensures
        is_success(status) <==> status / 100 == 2,
{
}

/// A worker begins with nothing, at the start of its chunk.
pub proof fn a_worker_begins_at_its_chunk(range: ChunkRange, buffer_size: int)
    ensures
        ({
            let w = fresh_worker(range, buffer_size);
            &&& w.range == range
            &&& w.buffer_size == buffer_size
            &&& w.pos == range.start
            &&& w.retries == 0
            &&& w.in_flight == 0
            &&& w.buffer.len() == 0
            &&& w.phase == WorkerPhase::Ready
        }),
{
}

/// A worker takes every event that can follow from what it wanted done, and no
/// other.
pub proof fn each_action_has_its_events(phase: WorkerPhase, status: int, data: Seq<u8>)
    ensures
        expects(phase, EventView::Begin) <==> phase == WorkerPhase::Ready,
        expects(phase, EventView::Reply(status)) <==> phase == WorkerPhase::Requested,
        expects(phase, EventView::NoReply) <==> phase == WorkerPhase::Requested,
        expects(phase, EventView::Rested) <==> phase == WorkerPhase::Resting,
        expects(phase, EventView::Data(data)) <==> phase == WorkerPhase::Reading,
        expects(phase, EventView::StreamEnded) <==> phase == WorkerPhase::Reading,
        expects(phase, EventView::StreamBroken) <==> phase == WorkerPhase::Reading,
        expects(phase, EventView::Written) <==> phase == WorkerPhase::WritingBatch || phase
            == WorkerPhase::WritingRest || phase == WorkerPhase::WritingSalvage,
{
}

/// A worker that begins or has rested reports its own chunk as done if no byte
/// of it is missing, and as failed after the tenth failure. Else it asks for the
/// bytes from the first that is missing to the last of the chunk.
pub proof fn a_worker_asks_until_nothing_is_missing(w: WorkerView, rested: bool)
    requires
        is_sane(w),
        w.range.start <= w.range.end,
        w.phase == if rested {
            WorkerPhase::Resting
        } else {
            WorkerPhase::Ready
        },
    ensures
        ({
            let event = if rested {
                EventView::Rested
            } else {
                EventView::Begin
            };
            let (after, action) = worker_step(w, event);
            &&& match action {
                ActionView::Done { chunk_id } => w.pos == w.range.end + 1 && chunk_id == w.range.id
                    && after.phase == WorkerPhase::Finished,
                ActionView::GiveUp { chunk_id } => w.pos <= w.range.end && w.retries == 10
                    && chunk_id == w.range.id && after.phase == WorkerPhase::Abandoned,
                ActionView::Request { range } => {
                    &&& w.retries < 10
                    &&& first_asked(range) == Some(w.pos)
                    &&& last_asked(range) == Some(w.range.end as int)
                    &&& after.phase == WorkerPhase::Requested
                    &&& after.asked == w.pos
                },
                _ => false,
            }
            &&& after == WorkerView { asked: after.asked, phase: after.phase, ..w }
        }),
{
    if w.pos <= w.range.end {
        requests_are_read_back(w.pos as u64, w.range.end);
    }
}

/// An answer is read if and only if it holds the bytes that were asked for: it
/// says so, or it is one of success and they are the first of the file. Any
/// other answer is a failure, and so is none.
pub proof fn only_what_was_asked_for_is_read(w: WorkerView, status: int)
    requires
        is_sane(w),
        w.phase == WorkerPhase::Requested,
    ensures
        ({
            let (after, action) = worker_step(w, EventView::Reply(status));
            let (silent, pause) = worker_step(w, EventView::NoReply);
            &&& action == ActionView::Read <==> status == 206 || w.pos == 0 && status / 100 == 2
            &&& action == ActionView::Read ==> after == WorkerView {
                phase: WorkerPhase::Reading,
                ..w
            }
            &&& action != ActionView::Read ==> (after, action) == (silent, pause)
            &&& pause == ActionView::Rest { seconds: pause_seconds(w.retries + 1) }
            &&& silent == WorkerView {
                phase: WorkerPhase::Resting,
                retries: w.retries + 1,
                ..w
            }
        }),
{
}

/// A piece of the body comes behind what has gathered, but for what lies behind
/// the end of the chunk. All that has gathered is written, at the first place
/// that is missing, as soon as it is as much as the buffer is to hold.
pub proof fn pieces_gather_until_the_buffer_is_full(w: WorkerView, data: Seq<u8>)
    requires
        is_sane(w),
        w.phase == WorkerPhase::Reading,
    ensures
        ({
            let (after, action) = worker_step(w, EventView::Data(data));
            let gathered = match action {
                ActionView::Write { data, .. } => data,
                _ => after.buffer,
            };
            let more = gathered.len() - w.buffer.len();
            &&& 0 <= more <= data.len()
            &&& gathered == w.buffer + data.take(more)
            &&& w.pos + gathered.len() <= w.range.end + 1
            &&& more < data.len() ==> w.pos + gathered.len() == w.range.end + 1
            &&& if gathered.len() >= w.buffer_size {
                &&& action matches ActionView::Write { offset, .. } && offset == w.pos
                &&& after.phase == WorkerPhase::WritingBatch
                &&& after.buffer.len() == 0
                &&& after.in_flight == gathered.len()
            } else {
                &&& action == ActionView::Read
                &&& after.phase == WorkerPhase::Reading
                &&& after.in_flight == 0
            }
            &&& after.pos == w.pos
            &&& after.asked == w.asked
            &&& after.retries == w.retries
            &&& after.range == w.range
            &&& after.buffer_size == w.buffer_size
        }),
{
    assert(data.take(data.len() as int) =~= data);
    let (after, action) = worker_step(w, EventView::Data(data));
    let gathered = match action {
        ActionView::Write { data, .. } => data,
        _ => after.buffer,
    };
    assert(gathered =~= w.buffer + data.take(gathered.len() - w.buffer.len()));
}

/// When a body is over, what has gathered is written at the first place that is
/// missing. Where nothing has gathered, the worker is done, or asks for the
/// rest, unless the body broke off or brought nothing: that is a failure.
pub proof fn what_has_gathered_is_written_in_the_end(w: WorkerView, broken: bool)
    requires
        is_sane(w),
        w.phase == WorkerPhase::Reading,
    ensures
        ({
            let event = if broken {
                EventView::StreamBroken
            } else {
                EventView::StreamEnded
            };
            let (after, action) = worker_step(w, event);
            let nothing_new = w.buffer.len() == 0 && w.pos == w.asked;
            &&& after.retries == if broken || nothing_new {
                w.retries + 1
            } else {
                w.retries
            }
            &&& after.pos == w.pos
            &&& after.range == w.range
            &&& after.buffer_size == w.buffer_size
            &&& after.buffer.len() == 0
            &&& match action {
                ActionView::Write { offset, data } => {
                    &&& data == w.buffer
                    &&& data.len() > 0
                    &&& offset == w.pos
                    &&& after.in_flight == data.len()
                    &&& after.asked == w.asked
                    &&& after.phase == if broken {
                        WorkerPhase::WritingSalvage
                    } else {
                        WorkerPhase::WritingRest
                    }
                },
                ActionView::Done { chunk_id } => {
                    &&& w.buffer.len() == 0
                    &&& w.pos == w.range.end + 1
                    &&& chunk_id == w.range.id
                    &&& after.phase == WorkerPhase::Finished
                },
                ActionView::Rest { seconds } => {
                    &&& broken || nothing_new
                    &&& w.buffer.len() == 0
                    &&& w.pos <= w.range.end
                    &&& seconds == pause_seconds(after.retries)
                    &&& after.phase == WorkerPhase::Resting
                },
                ActionView::Request { range } => {
                    &&& !broken && !nothing_new
                    &&& w.buffer.len() == 0
                    &&& first_asked(range) == Some(w.pos)
                    &&& last_asked(range) == Some(w.range.end as int)
                    &&& after.phase == WorkerPhase::Requested
                    &&& after.asked == w.pos
                },
                _ => false,
            }
        }),
{
    if w.pos <= w.range.end {
        requests_are_read_back(w.pos as u64, w.range.end);
    }
}

/// What is written moves the worker on by as many bytes. A full buffer wipes out
/// the failures, and the body is read on. After the last bytes of a body the
/// worker is done, or asks for the rest; if the body broke off, it pauses first.
pub proof fn what_is_written_is_not_asked_for_again(w: WorkerView)
    requires
        is_sane(w),
        w.phase == WorkerPhase::WritingBatch || w.phase == WorkerPhase::WritingRest || w.phase
            == WorkerPhase::WritingSalvage,
    ensures
        ({
            let (after, action) = worker_step(w, EventView::Written);
            &&& after.pos == w.pos + w.in_flight
            &&& after.in_flight == 0
            &&& after.buffer.len() == 0
            &&& after.range == w.range
            &&& after.buffer_size == w.buffer_size
            &&& after.retries == if w.phase == WorkerPhase::WritingBatch {
                0
            } else {
                w.retries
            }
            &&& match action {
                ActionView::Read => w.phase == WorkerPhase::WritingBatch && after.phase
                    == WorkerPhase::Reading && after.asked == w.asked,
                ActionView::Done { chunk_id } => {
                    &&& w.phase != WorkerPhase::WritingBatch
                    &&& after.pos == w.range.end + 1
                    &&& chunk_id == w.range.id
                    &&& after.phase == WorkerPhase::Finished
                },
                ActionView::Rest { seconds } => {
                    &&& w.phase == WorkerPhase::WritingSalvage
                    &&& after.pos <= w.range.end
                    &&& seconds == pause_seconds(w.retries)
                    &&& after.phase == WorkerPhase::Resting
                },
                ActionView::Request { range } => {
                    &&& w.phase == WorkerPhase::WritingRest
                    &&& first_asked(range) == Some(after.pos)
                    &&& last_asked(range) == Some(w.range.end as int)
                    &&& after.phase == WorkerPhase::Requested
                    &&& after.asked == after.pos
                },
                _ => false,
            }
        }),
{
    every_event_keeps_a_worker_sane(w, EventView::Written);
    let pos = w.pos + w.in_flight;
    if pos <= w.range.end {
        requests_are_read_back(pos as u64, w.range.end);
    }
}

/// What a worker is told and what it answers is what its events and actions
/// hold.
pub proof fn events_and_actions_show_what_they_hold(
    status: u16,
    seconds: u64,
    offset: u64,
    chunk_id: usize,
    data: Vec<u8>,
    range: String,
)
    ensures
        ChunkEvent::Begin@ == EventView::Begin,
        ChunkEvent::Reply(status)@ == EventView::Reply(status as int),
        ChunkEvent::NoReply@ == EventView::NoReply,
        ChunkEvent::Rested@ == EventView::Rested,
        ChunkEvent::Data(data)@ == EventView::Data(data@),
        ChunkEvent::StreamBroken@ == EventView::StreamBroken,
        ChunkEvent::StreamEnded@ == EventView::StreamEnded,
        ChunkEvent::Written@ == EventView::Written,
        (ChunkAction::Request { range })@ == (ActionView::Request { range: range@ }),
        (ChunkAction::Rest { seconds })@ == (ActionView::Rest { seconds: seconds as int }),
        ChunkAction::Read@ == ActionView::Read,
        (ChunkAction::Write { offset, data })@ == (ActionView::Write {
            offset: offset as int,
            data: data@,
        }),
        (ChunkAction::Done { chunk_id })@ == (ActionView::Done { chunk_id: chunk_id as int }),
        (ChunkAction::GiveUp { chunk_id })@ == (ActionView::GiveUp { chunk_id: chunk_id as int }),
{
}

/// The pause doubles from failure to failure until the fifth, and is half a
/// minute or a little more from then on.
pub proof fn pauses_double(failures: int)
    requires
        failures >= 0,
    ensures
        pause_seconds(0) == 1,
        failures < 5 ==> pause_seconds(failures + 1) == 2 * pause_seconds(failures),
        failures >= 5 ==> pause_seconds(failures) == 32,
{
    vstd::arithmetic::power2::lemma2_to64();
    vstd::arithmetic::power2::lemma_pow2_unfold((failures + 1) as nat);
}

} // verus!

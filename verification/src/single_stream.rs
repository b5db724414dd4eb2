//! A download in one stream.

use vstd::prelude::*;

use crate::clock::unix_now;
use crate::engine::{DownloadEngine, DownloadError, FileStep};
use crate::metadata::DownloadMetadata;
use crate::text::decimal_text;
use crate::worker::{status_is_success, PARTIAL_CONTENT};

verus! {

/// The record is written whenever another so many bytes have been fetched: 5 MiB.
pub const RECORD_EVERY: u64 = 5242880;

/// A download in one stream.
pub struct SingleStream {
    /// The record.
    pub meta: DownloadMetadata,
    /// The byte from which on the file is fetched.
    pub start_byte: u64,
    /// How many bytes have been fetched since then.
    pub fetched: u64,
}

pub struct SingleStreamView {
    pub meta: crate::metadata::MetadataView,
    pub start_byte: int,
    pub fetched: int,
}

impl View for SingleStream {
    type V = SingleStreamView;

    open spec fn view(&self) -> SingleStreamView {
        SingleStreamView {
            meta: self.meta@,
            start_byte: self.start_byte as int,
            fetched: self.fetched as int,
        }
    }
}

/// A download in one stream that begins, from `start_byte` on.
pub open spec fn first_stream(
    url: Seq<char>,
    etag: Option<Seq<char>>,
    total: int,
    start_byte: int,
    timestamp: int,
) -> SingleStreamView {
    SingleStreamView {
        meta: crate::metadata::MetadataView {
            url,
            etag,
            total_size: total,
            downloaded: start_byte,
            timestamp,
            chunks_completed: Seq::empty(),
        },
        start_byte,
        fetched: 0,
    }
}

/// The `Range` header that asks for all from `start_byte` on. A file that is
/// fetched from its start is asked for without one.
pub open spec fn open_range(start_byte: int) -> Option<Seq<char>> {
    if start_byte > 0 {
        Some("bytes="@ + crate::text::decimal(start_byte as nat) + "-"@)
    } else {
        None
    }
}

/// A download whose request was granted with this status. Only an answer with
/// the part that was asked for is written behind what the file holds; any other
/// brings the file from its start, and the download begins anew.
pub open spec fn after_grant(stream: SingleStreamView, status: int) -> SingleStreamView {
    if status == PARTIAL_CONTENT {
        stream
    } else {
        first_stream(
            stream.meta.url,
            stream.meta.etag,
            stream.meta.total_size,
            0,
            stream.meta.timestamp,
        )
    }
}

/// What is done to the file before the stream is written. A file that is
/// continued is cut to the bytes that are kept, and written behind them. One
/// that is begun parts first with any record of what it held before, and then
/// gets its own.
pub open spec fn stream_opening(start_byte: int) -> Seq<FileStep> {
    if start_byte > 0 {
        seq![
            FileStep::Open,
            FileStep::SetLength(start_byte as u64),
            FileStep::Seek(start_byte as u64),
        ]
    } else {
        seq![FileStep::RemoveRecord, FileStep::Create, FileStep::SaveRecord]
    }
}

/// Whether another unit is full when `len` bytes come to `fetched`.
pub open spec fn fills_a_unit(fetched: int, len: int) -> bool {
    (fetched + len) / (RECORD_EVERY as int) > fetched / (RECORD_EVERY as int)
}

/// A download to which `len` more bytes came. The record learns of them when
/// they fill another unit.
pub open spec fn after_piece(stream: SingleStreamView, len: int) -> SingleStreamView {
    let fetched = stream.fetched + len;
    SingleStreamView {
        meta: if fills_a_unit(stream.fetched, len) {
            crate::metadata::MetadataView { downloaded: stream.start_byte + fetched, ..stream.meta }
        } else {
            stream.meta
        },
        fetched,
        ..stream
    }
}

impl DownloadEngine {
    /// Begins a download in one stream, from `start_byte` on. The record bears
    /// the time of the call.
    pub fn run_single_stream(
        &self,
        url: &str,
        total_size: u64,
        start_byte: u64,
        server_etag: Option<String>,
    ) -> (stream: SingleStream)
        ensures
            stream.meta.timestamp >= 0,
            stream@ == first_stream(
                url@,
                crate::text::text_view(server_etag),
                total_size as int,
                start_byte as int,
                stream.meta.timestamp as int,
            ),
    {
        SingleStream::begin(url, total_size, start_byte, server_etag, unix_now())
    }
}

impl SingleStream {
    /// Begins a download in one stream at a given time.
    pub fn begin(
        url: &str,
        total_size: u64,
        start_byte: u64,
        server_etag: Option<String>,
        timestamp: i64,
    ) -> (stream: Self)
        ensures
            stream.meta.timestamp == timestamp,
            stream@ == first_stream(
                url@,
                crate::text::text_view(server_etag),
                total_size as int,
                start_byte as int,
                timestamp as int,
            ),
    {
        let meta = DownloadMetadata {
            url: url.to_owned(),
            etag: server_etag,
            total_size,
            downloaded: start_byte,
            timestamp,
            chunks_completed: Vec::new(),
        };
        let stream = SingleStream { meta, start_byte, fetched: 0 };
        assert(stream@.meta.chunks_completed =~= Seq::empty());
        stream
    }

    /// The `Range` header of the request, if it has one.
    pub fn range(&self) -> (range: Option<String>)
        ensures
            crate::text::text_view(range) == open_range(self@.start_byte),
    {
        if self.start_byte > 0 {
            let mut range: String = "bytes=".to_owned();
            range.append(decimal_text(self.start_byte).as_str());
            range.append("-");
            Some(range)
        } else {
            None
        }
    }

    /// Takes note of the status of the answer: an error where the request was
    /// not granted, and a new beginning where the answer is not the part that
    /// was asked for.
    pub fn on_reply(&mut self, status: u16) -> (granted: Result<(), DownloadError>)
        ensures
            granted == (if crate::worker::is_success(status as int) {
                Ok::<(), DownloadError>(())
            } else {
                Err(DownloadError::ServerStatus(status))
            }),
            final(self)@ == (if crate::worker::is_success(status as int) {
                after_grant(old(self)@, status as int)
            } else {
                old(self)@
            }),
    {
        if status_is_success(status) {
            if status != PARTIAL_CONTENT {
                self.start_byte = 0;
                self.fetched = 0;
                self.meta.downloaded = 0;
                self.meta.chunks_completed = Vec::new();
                assert(self@.meta.chunks_completed =~= Seq::empty());
            }
            Ok(())
        } else {
            Err(DownloadError::ServerStatus(status))
        }
    }

    /// What is done to the file before the stream is written.
    pub fn opening(&self) -> (steps: Vec<FileStep>)
        ensures
            steps@ == stream_opening(self@.start_byte),
    {
        let steps: Vec<FileStep> = if self.start_byte > 0 {
            vec![
                FileStep::Open,
                FileStep::SetLength(self.start_byte),
                FileStep::Seek(self.start_byte),
            ]
        } else {
            vec![FileStep::RemoveRecord, FileStep::Create, FileStep::SaveRecord]
        };
        assert(steps@ =~= stream_opening(self@.start_byte));
        steps
    }

    /// Whether `len` more bytes can be counted within 64 bits.
    pub fn can_take(&self, len: u64) -> (can: bool)
        ensures
            can == (self.start_byte + self.fetched + len <= u64::MAX),
    {
        self.start_byte <= u64::MAX - self.fetched && len <= u64::MAX - self.fetched
            - self.start_byte
    }

    /// Tells that `len` more bytes were written, and learns whether the record
    /// is to be written.
    pub fn on_piece(&mut self, len: u64) -> (save: bool)
        requires
            old(self).start_byte + old(self).fetched + len <= u64::MAX,
        ensures
            final(self)@ == after_piece(old(self)@, len as int),
            save == fills_a_unit(old(self)@.fetched, len as int),
    {
        let units: u64 = self.fetched / RECORD_EVERY;
        self.fetched = self.fetched + len;
        if self.fetched / RECORD_EVERY > units {
            self.meta.downloaded = self.start_byte + self.fetched;
            true
        } else {
            false
        }
    }

    /// What is done when the stream has come to its end.
    pub fn closing(&self) -> (steps: Vec<FileStep>)
        ensures
            steps@ == seq![FileStep::Flush, FileStep::RemoveRecord],
    {
        let steps: Vec<FileStep> = vec![FileStep::Flush, FileStep::RemoveRecord];
        assert(steps@ =~= seq![FileStep::Flush, FileStep::RemoveRecord]);
        steps
    }
}

// ---------------------------------------------------------------------------
// Laws
// ---------------------------------------------------------------------------

/// A download to which pieces of these lengths came, one after the other.
pub open spec fn after_pieces(stream: SingleStreamView, lengths: Seq<int>) -> SingleStreamView
    decreases lengths.len(),
{
    if lengths.len() == 0 {
        stream
    } else {
        after_piece(after_pieces(stream, lengths.drop_last()), lengths.last())
    }
}

pub open spec fn sum(lengths: Seq<int>) -> int
    decreases lengths.len(),
{
    if lengths.len() == 0 {
        0
    } else {
        sum(lengths.drop_last()) + lengths.last()
    }
}

/// The record of a stream never claims more than has arrived, and lags behind it
/// by less than a unit: it claims as many full units as have been fetched. All
/// else in it stays as it was.
pub proof fn stream_record_is_honest(
    url: Seq<char>,
    etag: Option<Seq<char>>,
    total: int,
    start_byte: int,
    timestamp: int,
    lengths: Seq<int>,
)
    requires
        forall|i: int| 0 <= i < lengths.len() ==> 0 <= #[trigger] lengths[i],
    ensures
        ({
            let first = first_stream(url, etag, total, start_byte, timestamp);
            let now = after_pieces(first, lengths);
            &&& now.start_byte == start_byte
            &&& now.fetched == sum(lengths)
            &&& start_byte <= now.meta.downloaded <= start_byte + now.fetched
            &&& (now.meta.downloaded - start_byte) / (RECORD_EVERY as int) == now.fetched / (
            RECORD_EVERY as int)
            &&& now.meta == crate::metadata::MetadataView {
                downloaded: now.meta.downloaded,
                ..first.meta
            }
        }),
    decreases lengths.len(),
{
    if lengths.len() > 0 {
        let front = lengths.drop_last();
        assert forall|i: int| 0 <= i < front.len() implies 0 <= #[trigger] front[i] by {
            assert(front[i] == lengths[i]);
        }
        assert(0 <= lengths[lengths.len() - 1]);
        stream_record_is_honest(url, etag, total, start_byte, timestamp, front);
        let before = after_pieces(first_stream(url, etag, total, start_byte, timestamp), front);
        vstd::arithmetic::div_mod::lemma_div_is_ordered(
            before.fetched,
            before.fetched + lengths.last(),
            RECORD_EVERY as int,
        );
    }
}

/// The text of the request for the rest of a file, read back, names the byte
/// where the file goes on: it is `bytes=`, that byte in digits and a hyphen. So
/// the first byte that it asks for is the place that is then written, and as
/// many bytes are kept. A file that is fetched from its start is asked for
/// without such a text.
pub proof fn the_rest_is_asked_for_where_the_file_goes_on(start_byte: u64)
    ensures
        start_byte == 0 ==> open_range(start_byte as int) is None,
        start_byte > 0 ==> {
            &&& open_range(start_byte as int) matches Some(text)
            &&& text.take(6) == "bytes="@
            &&& text.last() == '-'
            &&& crate::worker::is_plain_number(text.subrange(6, text.len() - 1))
            &&& crate::text::number_in(text.subrange(6, text.len() - 1)) == Some(start_byte)
            &&& crate::worker::first_asked(text) == Some(start_byte as int)
            &&& crate::worker::last_asked(text) is None
            &&& stream_opening(start_byte as int).contains(
                FileStep::Seek(crate::worker::first_asked(text)->0 as u64),
            )
            &&& stream_opening(start_byte as int).contains(
                FileStep::SetLength(crate::worker::first_asked(text)->0 as u64),
            )
        },
{
    if start_byte > 0 {
        reveal_strlit("bytes=");
        reveal_strlit("-");
        let a = crate::text::decimal(start_byte as nat);
        let text = open_range(start_byte as int)->0;
        let empty = Seq::<char>::empty();
        crate::worker::lemma_decimal_is_plain(start_byte as nat);
        crate::text::decimal_is_read_back(start_byte);
        assert(text.take(6) =~= "bytes="@);
        assert(text.subrange(6, text.len() - 1) =~= a);
        assert(text.skip(6) =~= a + seq!['-'] + empty);
        crate::text::texts_split_where_they_were_joined(a, empty, empty, empty, '-');
        crate::text::numbers_are_read_digit_by_digit(empty, '0');
        let steps = stream_opening(start_byte as int);
        assert(steps[1] == FileStep::SetLength(start_byte));
        assert(steps[2] == FileStep::Seek(start_byte));
    }
}

/// A stream that begins is about the file that it was begun for, and has fetched
/// nothing; its record counts what is kept, and has no chunks.
pub proof fn a_stream_is_about_its_file(
    url: Seq<char>,
    etag: Option<Seq<char>>,
    total: int,
    start_byte: int,
    timestamp: int,
)
    ensures
        ({
            let stream = first_stream(url, etag, total, start_byte, timestamp);
            &&& stream.start_byte == start_byte
            &&& stream.fetched == 0
            &&& stream.meta.url == url
            &&& stream.meta.etag == etag
            &&& stream.meta.total_size == total
            &&& stream.meta.downloaded == start_byte
            &&& stream.meta.timestamp == timestamp
            &&& stream.meta.chunks_completed.len() == 0
        }),
{
}

/// After an answer with the part that was asked for, a stream goes on as it was.
/// After any other it begins anew, from the first byte, for the same file.
pub proof fn only_the_part_asked_for_is_written_behind(stream: SingleStreamView, status: int)
    ensures
        status == 206 ==> after_grant(stream, status) == stream,
        status != 206 ==> {
            let anew = after_grant(stream, status);
            &&& anew.start_byte == 0
            &&& anew.fetched == 0
            &&& anew.meta.downloaded == 0
            &&& anew.meta.chunks_completed.len() == 0
            &&& anew.meta.url == stream.meta.url
            &&& anew.meta.etag == stream.meta.etag
            &&& anew.meta.total_size == stream.meta.total_size
            &&& anew.meta.timestamp == stream.meta.timestamp
        },
{
}

/// A file that is continued is opened, cut to the bytes that are kept and
/// written behind them. One that is begun loses its old record before it is
/// emptied, and gets its own after that.
pub proof fn a_stream_opens_its_file(start_byte: u64)
    ensures
        start_byte > 0 ==> stream_opening(start_byte as int) == seq![
            FileStep::Open,
            FileStep::SetLength(start_byte),
            FileStep::Seek(start_byte),
        ],
        start_byte == 0 ==> stream_opening(start_byte as int) == seq![
            FileStep::RemoveRecord,
            FileStep::Create,
            FileStep::SaveRecord,
        ],
{
}

/// A piece is counted in full, and the record is written if and only if a
/// multiple of five mebibytes is reached or passed with it; the record then
/// counts all that the file holds, and else what it did before.
pub proof fn the_record_is_written_every_five_mebibytes(stream: SingleStreamView, len: int)
    requires
        stream.fetched >= 0,
        len >= 0,
    ensures
        fills_a_unit(stream.fetched, len) <==> exists|k: int|
            stream.fetched < #[trigger] (k * 5242880) <= stream.fetched + len,
        after_piece(stream, len).fetched == stream.fetched + len,
        after_piece(stream, len).start_byte == stream.start_byte,
        after_piece(stream, len).meta == (crate::metadata::MetadataView {
            downloaded: after_piece(stream, len).meta.downloaded,
            ..stream.meta
        }),
        fills_a_unit(stream.fetched, len) ==> after_piece(stream, len).meta.downloaded
            == stream.start_byte + stream.fetched + len,
        !fills_a_unit(stream.fetched, len) ==> after_piece(stream, len).meta.downloaded
            == stream.meta.downloaded,
{
    let before = stream.fetched;
    let after = stream.fetched + len;
    if fills_a_unit(before, len) {
        let k = after / 5242880;
        assert(before < k * 5242880 <= after);
    }
    if exists|k: int| before < #[trigger] (k * 5242880) <= after {
        let k = choose|k: int| before < #[trigger] (k * 5242880) <= after;
        assert(before / 5242880 < k <= after / 5242880);
    }
}

/// A stream shows what it holds.
pub proof fn streams_show_what_they_hold(stream: SingleStream)
    ensures
        stream@ == (SingleStreamView {
            meta: stream.meta@,
            start_byte: stream.start_byte as int,
            fetched: stream.fetched as int,
        }),
{
}

} // verus!

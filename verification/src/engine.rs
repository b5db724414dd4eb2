//! The download as a whole: how the server is asked about the file, and what
//! is then done about what lies on disk.

use reqwest::header::{HeaderMap, HeaderValue};
use vstd::prelude::*;

use crate::headers::{copy_headers, default_headers, ReplyHeaders};
use crate::metadata::DownloadMetadata;
use crate::text::same_text;
use crate::worker::status_is_success;

verus! {

/// The number of parallel streams where none is asked for.
pub const DEFAULT_WORKERS: usize = 8;

/// The length from which on a worker writes what it has gathered: 8 MiB.
pub const BUFFER_SIZE: usize = 8388608;

/// A file that is larger than this is fetched in parts: 10 MiB.
pub const MULTI_PART_ABOVE: u64 = 10485760;

/// The status by which a server refuses a request.
pub const FORBIDDEN: u16 = 403;

/// How the HTTP client is set up.
pub struct ClientSettings {
    pub headers: HeaderMap<HeaderValue>,
    pub http1_only: bool,
    pub pool_max_idle_per_host: usize,
    pub pool_idle_timeout_secs: u64,
    pub tcp_keepalive_secs: u64,
    pub timeout_secs: u64,
    pub max_redirects: usize,
    pub accept_invalid_certs: bool,
}

/// Fetches files.
pub struct DownloadEngine {
    pub client: ClientSettings,
    pub num_workers: usize,
    pub buffer_size: usize,
}

// ---------------------------------------------------------------------------
// Questions and answers
// ---------------------------------------------------------------------------

/// A server's answer about the file.
pub struct Reply {
    pub status: u16,
    pub headers: ReplyHeaders,
}

pub struct ReplyView {
    pub status: int,
    pub headers: crate::headers::ReplyHeadersView,
}

impl View for Reply {
    type V = ReplyView;

    open spec fn view(&self) -> ReplyView {
        ReplyView { status: self.status as int, headers: self.headers@ }
    }
}

/// What the server says about the file.
pub struct RemoteFile {
    pub size: u64,
    pub supports_range: bool,
    pub etag: Option<String>,
}

pub struct RemoteFileView {
    pub size: int,
    pub supports_range: bool,
    pub etag: Option<Seq<char>>,
}

impl View for RemoteFile {
    type V = RemoteFileView;

    open spec fn view(&self) -> RemoteFileView {
        RemoteFileView {
            size: self.size as int,
            supports_range: self.supports_range,
            etag: crate::text::text_view(self.etag),
        }
    }
}

/// What lies on disk at the path of the output.
pub enum LocalFile {
    /// No file.
    Absent,
    /// A file of this length without a record.
    Unrecorded { len: u64 },
    /// A file of this length with a record.
    Recorded { meta: DownloadMetadata, len: u64 },
}

pub enum LocalFileView {
    Absent,
    Unrecorded { len: int },
    Recorded { meta: crate::metadata::MetadataView, len: int },
}

impl View for LocalFile {
    type V = LocalFileView;

    open spec fn view(&self) -> LocalFileView {
        match *self {
            LocalFile::Absent => LocalFileView::Absent,
            LocalFile::Unrecorded { len } => LocalFileView::Unrecorded { len: len as int },
            LocalFile::Recorded { meta, len } => LocalFileView::Recorded {
                meta: meta@,
                len: len as int,
            },
        }
    }
}

/// What is removed from disk before a download starts anew, and why.
#[derive(Clone, Copy, Debug, PartialEq, Eq, Structural)]
pub enum Discard {
    /// Nothing.
    Nothing,
    /// The file and its record: the server's entity tag is another one now.
    EtagChanged,
    /// The file and its record: the server's file has another size now.
    SizeChanged,
    /// The file: there is no record of how far it came.
    Unrecorded,
    /// The file and its record: chunks are missing and cannot be fetched singly.
    ChunksLost,
}

/// How a file is fetched from its start.
#[derive(Clone, Copy, Debug, PartialEq, Eq, Structural)]
pub enum Fresh {
    MultiPart,
    SingleStream,
}

/// How a download is taken up again.
#[derive(Clone, Copy, Debug, PartialEq, Eq, Structural)]
pub enum Resume {
    /// Fetch the chunks that are not finished.
    MultiPart,
    /// Fetch what comes after the bytes that are there.
    SingleStream { start_byte: u64 },
}

/// What is done about a file.
#[derive(Clone, Copy, Debug, PartialEq, Eq, Structural)]
pub enum Decision {
    /// It is complete: the record is removed, and that is all.
    AlreadyComplete,
    /// It is there, and of the size it should have: nothing is done.
    AlreadyPresent,
    /// The download is taken up again.
    Resume(Resume),
    /// The download starts anew, after the discarded things are removed.
    Start(Discard, Fresh),
}

/// Something that is done to the file or to its record.
#[derive(Clone, Copy, Debug, PartialEq, Eq, Structural)]
pub enum FileStep {
    /// Write the record.
    SaveRecord,
    /// Create the file, or empty it.
    Create,
    /// Give the file this length.
    SetLength(u64),
    /// Open the file as it is, at its start.
    Open,
    /// Go to this place in the file, where the next bytes are written.
    Seek(u64),
    /// Hand all written bytes over to the disk.
    Sync,
    /// Write out what is still buffered.
    Flush,
    /// Remove the file.
    RemoveFile,
    /// Remove the record, if it is there.
    RemoveRecord,
}

/// Why nothing is fetched.
#[derive(Clone, Copy, Debug, PartialEq, Eq, Structural)]
pub enum DownloadError {
    /// The server answered with this status.
    ServerStatus(u16),
    /// The answer to `HEAD` gives no size.
    NoContentLength,
    /// The answer to `GET` gives no size.
    NoFileSize,
}

/// What happens in the course of a download before any of the file is fetched.
pub enum DownloadEvent {
    /// It begins.
    Begin,
    /// The server answered the `HEAD` request.
    HeadReply(Reply),
    /// The server answered the `GET` request for the first byte.
    ProbeReply(Reply),
    /// The disk was looked at.
    Inspected { remote: RemoteFile, local: LocalFile },
}

/// What is done next in the course of a download.
pub enum DownloadAction {
    /// Send a `HEAD` request with this `Referer`.
    SendHead { referer: String },
    /// Send a `GET` request with this `Referer` and this `Range`.
    SendProbe { referer: String, range: String },
    /// Look at what lies on disk.
    Inspect(RemoteFile),
    /// Fail.
    Fail(DownloadError),
    /// Carry out the decision.
    Perform(Decision),
}

pub enum DownloadEventView {
    Begin,
    HeadReply(ReplyView),
    ProbeReply(ReplyView),
    Inspected { remote: RemoteFileView, local: LocalFileView },
}

pub enum DownloadActionView {
    SendHead { referer: Seq<char> },
    SendProbe { referer: Seq<char>, range: Seq<char> },
    Inspect(RemoteFileView),
    Fail(DownloadError),
    Perform(Decision),
}

impl View for DownloadEvent {
    type V = DownloadEventView;

    open spec fn view(&self) -> DownloadEventView {
        match *self {
            DownloadEvent::Begin => DownloadEventView::Begin,
            DownloadEvent::HeadReply(reply) => DownloadEventView::HeadReply(reply@),
            DownloadEvent::ProbeReply(reply) => DownloadEventView::ProbeReply(reply@),
            DownloadEvent::Inspected { remote, local } => DownloadEventView::Inspected {
                remote: remote@,
                local: local@,
            },
        }
    }
}

impl View for DownloadAction {
    type V = DownloadActionView;

    open spec fn view(&self) -> DownloadActionView {
        match *self {
            DownloadAction::SendHead { referer } => DownloadActionView::SendHead {
                referer: referer@,
            },
            DownloadAction::SendProbe { referer, range } => DownloadActionView::SendProbe {
                referer: referer@,
                range: range@,
            },
            DownloadAction::Inspect(remote) => DownloadActionView::Inspect(remote@),
            DownloadAction::Fail(error) => DownloadActionView::Fail(error),
            DownloadAction::Perform(decision) => DownloadActionView::Perform(decision),
        }
    }
}

// ---------------------------------------------------------------------------
// The referer
// ---------------------------------------------------------------------------

/// The domain that `reqwest::Url` finds in a URL: none where the text is no
/// URL, or where its host is absent or a number.
pub uninterp spec fn url_domain(url: Seq<char>) -> Option<Seq<char>>;

/// `Url::parse` and `Url::domain`: the domain of a URL, named by `url_domain`.
#[verifier::external_body]
fn parse_domain(url: &str) -> (domain: Option<String>)
    ensures
        crate::text::text_view(domain) == url_domain(url@),
{
    match reqwest::Url::parse(url) {
        Ok(parsed) => parsed.domain().map(|domain| domain.to_string()),
        Err(_) => None,
    }
}

/// The page that a request claims to come from.
pub open spec fn referer_for(domain: Option<Seq<char>>) -> Seq<char> {
    match domain {
        Some(domain) => "https://"@ + domain + "/"@,
        None => "https://www.google.com/"@,
    }
}

/// The front page of the domain, or that of a search engine where there is no
/// domain.
pub fn referer_of_domain(domain: &Option<String>) -> (referer: String)
    ensures
        referer@ == referer_for(crate::text::text_view(*domain)),
{
    match domain {
        Some(domain) => {
            let mut referer: String = "https://".to_owned();
            referer.append(domain.as_str());
            referer.append("/");
            referer
        },
        None => "https://www.google.com/".to_owned(),
    }
}

/// The page that a request for `url` claims to come from.
pub fn referer_of(url: &str) -> (referer: String)
    ensures
        referer@ == referer_for(url_domain(url@)),
{
    referer_of_domain(&parse_domain(url))
}

// ---------------------------------------------------------------------------
// The answers
// ---------------------------------------------------------------------------

/// What follows from the answer to the `HEAD` request: a server that forbids it
/// is asked for the first byte instead.
pub open spec fn after_head(referer: Seq<char>, reply: ReplyView) -> DownloadActionView {
    if reply.status == FORBIDDEN {
        DownloadActionView::SendProbe { referer, range: "bytes=0-0"@ }
    } else if !crate::worker::is_success(reply.status) {
        DownloadActionView::Fail(DownloadError::ServerStatus(reply.status as u16))
    } else {
        match crate::headers::stated_length(reply.headers) {
            Some(size) => DownloadActionView::Inspect(
                RemoteFileView {
                    size: size as int,
                    supports_range: crate::headers::ranges_accepted(reply.headers, false),
                    etag: crate::headers::stated_tag(reply.headers),
                },
            ),
            None => DownloadActionView::Fail(DownloadError::NoContentLength),
        }
    }
}

/// What follows from the answer to the `GET` request for the first byte: the
/// size is the one of `Content-Range` rather than that of `Content-Length`, and
/// a server that says nothing about ranges is taken to support them.
pub open spec fn after_probe(reply: ReplyView) -> DownloadActionView {
    if !crate::worker::is_success(reply.status) {
        DownloadActionView::Fail(DownloadError::ServerStatus(reply.status as u16))
    } else {
        let size = match crate::headers::range_size(reply.headers) {
            Some(size) => Some(size),
            None => crate::headers::stated_length(reply.headers),
        };
        match size {
            Some(size) => DownloadActionView::Inspect(
                RemoteFileView {
                    size: size as int,
                    supports_range: crate::headers::ranges_accepted(reply.headers, true),
                    etag: crate::headers::stated_tag(reply.headers),
                },
            ),
            None => DownloadActionView::Fail(DownloadError::NoFileSize),
        }
    }
}

fn action_after_head(referer: String, reply: &Reply) -> (action: DownloadAction)
    ensures
        action@ == after_head(referer@, reply@),
{
    if reply.status == FORBIDDEN {
        DownloadAction::SendProbe { referer, range: "bytes=0-0".to_owned() }
    } else if !status_is_success(reply.status) {
        DownloadAction::Fail(DownloadError::ServerStatus(reply.status))
    } else {
        match reply.headers.length() {
            Some(size) => DownloadAction::Inspect(
                RemoteFile {
                    size,
                    supports_range: reply.headers.accepts_ranges(false),
                    etag: reply.headers.entity_tag(),
                },
            ),
            None => DownloadAction::Fail(DownloadError::NoContentLength),
        }
    }
}

fn action_after_probe(reply: &Reply) -> (action: DownloadAction)
    ensures
        action@ == after_probe(reply@),
{
    if !status_is_success(reply.status) {
        return DownloadAction::Fail(DownloadError::ServerStatus(reply.status));
    }
    let size: Option<u64> = match reply.headers.size_of_range() {
        Some(size) => Some(size),
        None => reply.headers.length(),
    };
    match size {
        Some(size) => DownloadAction::Inspect(
            RemoteFile {
                size,
                supports_range: reply.headers.accepts_ranges(true),
                etag: reply.headers.entity_tag(),
            },
        ),
        None => DownloadAction::Fail(DownloadError::NoFileSize),
    }
}

// ---------------------------------------------------------------------------
// The decision
// ---------------------------------------------------------------------------

/// How a file is fetched from its start.
pub open spec fn fresh_mode(remote: RemoteFileView) -> Fresh {
    if remote.supports_range && remote.size > MULTI_PART_ABOVE {
        Fresh::MultiPart
    } else {
        Fresh::SingleStream
    }
}

/// How an unfinished download is taken up again: by chunks if it was divided
/// among as many workers as there are now, and else in one stream.
pub open spec fn resume_mode(
    workers: int,
    meta: crate::metadata::MetadataView,
    len: int,
) -> Resume {
    if meta.chunks_completed.len() == workers {
        Resume::MultiPart
    } else {
        Resume::SingleStream { start_byte: len as u64 }
    }
}

/// Whether the server's entity tag shows that the file is another one now.
pub open spec fn tag_changed(recorded: Option<Seq<char>>, stated: Option<Seq<char>>) -> bool {
    stated is Some && recorded != stated
}

/// What is done about a file that has a record and is the one that the server
/// still has. The space of a file in parts is reserved beforehand, so such a
/// file is complete only if no chunk is missing.
pub open spec fn decide_unchanged(
    workers: int,
    remote: RemoteFileView,
    meta: crate::metadata::MetadataView,
    len: int,
) -> Decision {
    if len == remote.size {
        if crate::metadata::no_chunk_missing(meta.chunks_completed) {
            Decision::AlreadyComplete
        } else if remote.supports_range && meta.chunks_completed.len() == workers {
            Decision::Resume(Resume::MultiPart)
        } else {
            Decision::Start(Discard::ChunksLost, fresh_mode(remote))
        }
    } else if len < remote.size && remote.supports_range {
        Decision::Resume(resume_mode(workers, meta, len))
    } else {
        Decision::Start(Discard::Nothing, fresh_mode(remote))
    }
}

/// What is done about a file.
pub open spec fn decide(workers: int, remote: RemoteFileView, local: LocalFileView) -> Decision {
    match local {
        LocalFileView::Absent => Decision::Start(Discard::Nothing, fresh_mode(remote)),
        LocalFileView::Unrecorded { len } => if len == remote.size {
            Decision::AlreadyPresent
        } else {
            Decision::Start(Discard::Unrecorded, fresh_mode(remote))
        },
        LocalFileView::Recorded { meta, len } => if tag_changed(meta.etag, remote.etag) {
            Decision::Start(Discard::EtagChanged, fresh_mode(remote))
        } else if meta.total_size != remote.size {
            Decision::Start(Discard::SizeChanged, fresh_mode(remote))
        } else {
            decide_unchanged(workers, remote, meta, len)
        },
    }
}

/// What follows from `event` in the course of a download.
pub open spec fn next_action(
    workers: int,
    referer: Seq<char>,
    event: DownloadEventView,
) -> DownloadActionView {
    match event {
        DownloadEventView::Begin => DownloadActionView::SendHead { referer },
        DownloadEventView::HeadReply(reply) => after_head(referer, reply),
        DownloadEventView::ProbeReply(reply) => after_probe(reply),
        DownloadEventView::Inspected { remote, local } => DownloadActionView::Perform(
            decide(workers, remote, local),
        ),
    }
}

/// What is removed from disk by a decision, before anything is fetched.
pub open spec fn removals(decision: Decision) -> Seq<FileStep> {
    match decision {
        Decision::AlreadyComplete => seq![FileStep::RemoveRecord],
        Decision::AlreadyPresent => seq![],
        Decision::Resume(_) => seq![],
        Decision::Start(Discard::Nothing, _) => seq![],
        Decision::Start(Discard::Unrecorded, _) => seq![FileStep::RemoveFile],
        Decision::Start(_, _) => seq![FileStep::RemoveFile, FileStep::RemoveRecord],
    }
}

impl Decision {
    /// What is removed from disk before anything is fetched.
    pub fn removals(&self) -> (steps: Vec<FileStep>)
        ensures
            steps@ == removals(*self),
    {
        let steps: Vec<FileStep> = match self {
            Decision::AlreadyComplete => vec![FileStep::RemoveRecord],
            Decision::AlreadyPresent => Vec::new(),
            Decision::Resume(_) => Vec::new(),
            Decision::Start(Discard::Nothing, _) => Vec::new(),
            Decision::Start(Discard::Unrecorded, _) => vec![FileStep::RemoveFile],
            Decision::Start(_, _) => vec![FileStep::RemoveFile, FileStep::RemoveRecord],
        };
        assert(steps@ =~= removals(*self));
        steps
    }
}

/// The whole mebibytes in a number of bytes.
pub fn mebibytes(bytes: u64) -> (whole: u64)
    ensures
        whole == bytes as int / 1048576,
        whole * 1048576 <= bytes,
        bytes - whole * 1048576 < 1048576,
{
    bytes / 1024 / 1024
}

fn start_mode(remote: &RemoteFile) -> (mode: Fresh)
    ensures
        mode == fresh_mode(remote@),
{
    if remote.supports_range && remote.size > MULTI_PART_ABOVE {
        Fresh::MultiPart
    } else {
        Fresh::SingleStream
    }
}

/// The settings of the client of an engine.
pub open spec fn standard_settings(settings: ClientSettings, insecure: bool) -> bool {
    &&& crate::headers::header_contents(settings.headers) == crate::headers::browser_headers()
    &&& settings.http1_only
    &&& settings.pool_max_idle_per_host == 20
    &&& settings.pool_idle_timeout_secs == 90
    &&& settings.tcp_keepalive_secs == 30
    &&& settings.timeout_secs == 300
    &&& settings.max_redirects == 10
    &&& settings.accept_invalid_certs == insecure
}

impl Clone for ClientSettings {
    fn clone(&self) -> (copy: Self)
        ensures
            crate::headers::header_contents(copy.headers) == crate::headers::header_contents(
                self.headers,
            ),
            copy == (ClientSettings { headers: copy.headers, ..*self }),
    {
        ClientSettings {
            headers: copy_headers(&self.headers),
            http1_only: self.http1_only,
            pool_max_idle_per_host: self.pool_max_idle_per_host,
            pool_idle_timeout_secs: self.pool_idle_timeout_secs,
            tcp_keepalive_secs: self.tcp_keepalive_secs,
            timeout_secs: self.timeout_secs,
            max_redirects: self.max_redirects,
            accept_invalid_certs: self.accept_invalid_certs,
        }
    }
}

impl Clone for DownloadEngine {
    fn clone(&self) -> (copy: Self)
        ensures
            crate::headers::header_contents(copy.client.headers)
                == crate::headers::header_contents(self.client.headers),
            copy.client == (ClientSettings { headers: copy.client.headers, ..self.client }),
            copy.num_workers == self.num_workers,
            copy.buffer_size == self.buffer_size,
    {
        DownloadEngine {
            client: self.client.clone(),
            num_workers: self.num_workers,
            buffer_size: self.buffer_size,
        }
    }
}

impl DownloadEngine {
    /// An engine with so many parallel streams. One that is `insecure` does not
    /// check the certificates of servers.
    pub fn new(insecure: bool, num_workers: Option<usize>) -> (engine: Self)
        ensures
            standard_settings(engine.client, insecure),
            engine.client.accept_invalid_certs == insecure,
            engine.client.http1_only,
            engine.client.pool_max_idle_per_host == 20,
            engine.client.pool_idle_timeout_secs == 90,
            engine.client.tcp_keepalive_secs == 30,
            engine.client.timeout_secs == 300,
            engine.client.max_redirects == 10,
            engine.num_workers == (match num_workers {
                Some(n) => n,
                None => 8,
            }),
            engine.buffer_size == 8 * 1024 * 1024,
    {
        let client = ClientSettings {
            headers: default_headers(),
            http1_only: true,
            pool_max_idle_per_host: 20,
            pool_idle_timeout_secs: 90,
            tcp_keepalive_secs: 30,
            timeout_secs: 300,
            max_redirects: 10,
            accept_invalid_certs: insecure,
        };
        DownloadEngine {
            client,
            num_workers: match num_workers {
                Some(n) => n,
                None => DEFAULT_WORKERS,
            },
            buffer_size: BUFFER_SIZE,
        }
    }

    /// Tells what happened in the course of a download, and learns what to do
    /// next.
    pub fn download(&self, url: &str, event: &DownloadEvent) -> (action: DownloadAction)
        ensures
            action@ == next_action(
                self.num_workers as int,
                referer_for(url_domain(url@)),
                event@,
            ),
    {
        self.download_from(referer_of(url), event)
    }

    /// What `download` does, with the `Referer` that the URL gives.
    pub fn download_from(&self, referer: String, event: &DownloadEvent) -> (action:
        DownloadAction)
        ensures
            action@ == next_action(self.num_workers as int, referer@, event@),
    {
        match event {
            DownloadEvent::Begin => DownloadAction::SendHead { referer },
            DownloadEvent::HeadReply(reply) => action_after_head(referer, reply),
            DownloadEvent::ProbeReply(reply) => action_after_probe(reply),
            DownloadEvent::Inspected { remote, local } => DownloadAction::Perform(
                self.decide_about(remote, local),
            ),
        }
    }

    /// What is done about a file, given what the server and the disk hold.
    pub fn decide_about(&self, remote: &RemoteFile, local: &LocalFile) -> (decision: Decision)
        ensures
            decision == decide(self.num_workers as int, remote@, local@),
    {
        match local {
            LocalFile::Absent => Decision::Start(Discard::Nothing, start_mode(remote)),
            LocalFile::Unrecorded { len } => {
                if *len == remote.size {
                    Decision::AlreadyPresent
                } else {
                    Decision::Start(Discard::Unrecorded, start_mode(remote))
                }
            },
            LocalFile::Recorded { meta, len } => {
                if remote.etag.is_some() && !same_text(&meta.etag, &remote.etag) {
                    Decision::Start(Discard::EtagChanged, start_mode(remote))
                } else if meta.total_size != remote.size {
                    Decision::Start(Discard::SizeChanged, start_mode(remote))
                } else if *len == remote.size {
                    if meta.all_chunks_completed() {
                        Decision::AlreadyComplete
                    } else if remote.supports_range && meta.chunks_completed.len()
                        == self.num_workers {
                        Decision::Resume(Resume::MultiPart)
                    } else {
                        Decision::Start(Discard::ChunksLost, start_mode(remote))
                    }
                } else if *len < remote.size && remote.supports_range {
                    Decision::Resume(self.resume_download(meta, *len))
                } else {
                    Decision::Start(Discard::Nothing, start_mode(remote))
                }
            },
        }
    }

    /// How an unfinished download is taken up again.
    pub fn resume_download(&self, meta: &DownloadMetadata, current_len: u64) -> (mode: Resume)
        ensures
            mode == resume_mode(self.num_workers as int, meta@, current_len as int),
    {
        if meta.chunks_completed.len() == self.num_workers {
            Resume::MultiPart
        } else {
            Resume::SingleStream { start_byte: current_len }
        }
    }
}

// ---------------------------------------------------------------------------
// Laws
// ---------------------------------------------------------------------------

/// A server that forbids `HEAD` requests is asked for the first byte instead.
pub proof fn forbidden_head_leads_to_a_probe(workers: int, referer: Seq<char>, reply: ReplyView)
    ensures
        reply.status == FORBIDDEN <==> next_action(
            workers,
            referer,
            DownloadEventView::HeadReply(reply),
        ) is SendProbe,
{
}

/// A file whose entity tag or size is another one on the server now is never
/// taken for complete and never taken up again: it is thrown away, and fetched
/// from its start.
pub proof fn changed_files_start_anew(
    workers: int,
    remote: RemoteFileView,
    meta: crate::metadata::MetadataView,
    len: int,
)
    ensures
        remote.etag matches Some(tag) && meta.etag != Some(tag) ==> decide(
            workers,
            remote,
            LocalFileView::Recorded { meta, len },
        ) == Decision::Start(Discard::EtagChanged, fresh_mode(remote)),
        (remote.etag matches Some(tag) ==> meta.etag == Some(tag)) && meta.total_size
            != remote.size ==> decide(
            workers,
            remote,
            LocalFileView::Recorded { meta, len },
        ) == Decision::Start(Discard::SizeChanged, fresh_mode(remote)),
{
}

/// An entity tag has changed if and only if the server states one and it is not,
/// character for character, the one that was recorded.
pub proof fn tags_are_compared_as_they_are(
    recorded: Option<Seq<char>>,
    stated: Option<Seq<char>>,
)
    ensures
        tag_changed(recorded, stated) <==> stated is Some && recorded != stated,
{
}

/// A server that supports no ranges is never asked for one: nothing is taken up
/// again, and nothing is fetched in parts.
pub proof fn no_ranges_without_support(
    workers: int,
    remote: RemoteFileView,
    local: LocalFileView,
)
    requires
        !remote.supports_range,
    ensures
        !(decide(workers, remote, local) is Resume),
        decide(workers, remote, local) matches Decision::Start(_, mode) ==> mode
            == Fresh::SingleStream,
{
}

/// A file in parts that was interrupted is taken up again where it stopped: as
/// long as a chunk is missing and the server still has the same file, a run with
/// as many workers goes on with the chunks, whatever the length of the file on
/// disk up to its full size.
pub proof fn interrupted_parts_are_resumed(
    workers: int,
    remote: RemoteFileView,
    meta: crate::metadata::MetadataView,
    len: int,
)
    requires
        remote.supports_range,
        remote.etag matches Some(tag) ==> meta.etag == Some(tag),
        meta.total_size == remote.size,
        meta.chunks_completed.len() == workers,
        exists|id: int|
            0 <= id < meta.chunks_completed.len() && !(#[trigger] meta.chunks_completed[id]),
        0 <= len <= remote.size,
    ensures
        decide(workers, remote, LocalFileView::Recorded { meta, len }) == Decision::Resume(
            Resume::MultiPart,
        ),
{
}

/// Whether something is the only thing there is to be said of a file whose size
/// is `size`, by these headers: it is of that size, ranges are supported if the
/// header says so in the word `bytes`, or is absent and they are presumed, and
/// the entity tag is the text of its header, if it has one.
pub open spec fn describes(
    remote: RemoteFileView,
    headers: crate::headers::ReplyHeadersView,
    size: int,
    presumed: bool,
) -> bool {
    &&& remote.size == size
    &&& remote.supports_range <==> crate::headers::spells(
        headers.accept_ranges,
        seq!['b', 'y', 't', 'e', 's'],
    ) || headers.accept_ranges is None && presumed
    &&& remote.etag matches Some(tag) ==> crate::headers::spells(headers.etag, tag)
    &&& forall|tag: Seq<char>| #[trigger]
        crate::headers::spells(headers.etag, tag) ==> remote.etag == Some(tag)
}

proof fn lemma_describes(headers: crate::headers::ReplyHeadersView, size: u64, presumed: bool)
    ensures
        describes(
            RemoteFileView {
                size: size as int,
                supports_range: crate::headers::ranges_accepted(headers, presumed),
                etag: crate::headers::stated_tag(headers),
            },
            headers,
            size as int,
            presumed,
        ),
{
    crate::headers::ranges_are_accepted_in_bytes(headers, presumed);
    let etag = crate::headers::stated_tag(headers);
    assert forall|tag: Seq<char>| #[trigger]
        crate::headers::spells(headers.etag, tag) implies etag == Some(tag) by {
        crate::headers::lengths_and_tags_are_read_as_they_are_spelled(headers, tag);
    }
    if let Some(tag) = etag {
        crate::headers::values_are_the_text_they_spell(headers.etag->0);
    }
}

/// What follows from an answer to `HEAD`: one that forbids the request leads to
/// one for the first byte, any other failure is passed on with its status. One
/// of success describes the file, whose size is the number that
/// `Content-Length` spells; where that is no number, the download fails.
pub proof fn an_answer_to_head_describes_the_file(
    workers: int,
    referer: Seq<char>,
    reply: ReplyView,
    length: Seq<char>,
)
    requires
        0 <= reply.status <= u16::MAX,
    ensures
        ({
            let headers = reply.headers;
            let action = next_action(workers, referer, DownloadEventView::HeadReply(reply));
            &&& reply.status == 403 ==> {
                &&& action matches DownloadActionView::SendProbe { referer: page, range }
                &&& page == referer
                &&& crate::worker::first_asked(range) == Some(0int)
                &&& crate::worker::last_asked(range) == Some(0int)
            }
            &&& reply.status != 403 && reply.status / 100 != 2 ==> {
                &&& action matches DownloadActionView::Fail(DownloadError::ServerStatus(status))
                &&& status == reply.status
            }
            &&& reply.status / 100 == 2 && crate::headers::spells(headers.content_length, length)
                ==> match crate::text::number_in(length) {
                Some(size) => action matches DownloadActionView::Inspect(remote) && describes(
                    remote,
                    headers,
                    size as int,
                    false,
                ),
                None => action == DownloadActionView::Fail(DownloadError::NoContentLength),
            }
            &&& reply.status / 100 == 2 && !(exists|text: Seq<char>|
                crate::headers::spells(headers.content_length, text)) ==> action
                == DownloadActionView::Fail(DownloadError::NoContentLength)
        }),
{
    let headers = reply.headers;
    reveal_strlit("bytes=");
    reveal_strlit("-");
    reveal_strlit("bytes=0-0");
    crate::worker::requests_are_read_back(0, 0);
    assert(crate::text::decimal(0) =~= seq!['0']);
    assert(crate::worker::byte_range(0, 0) =~= "bytes=0-0"@);
    crate::headers::lengths_and_tags_are_read_as_they_are_spelled(headers, length);
    if let Some(size) = crate::headers::stated_length(headers) {
        lemma_describes(headers, size, false);
    }
}

/// What follows from an answer to `GET` for the first byte: a failure is passed
/// on with its status. One of success describes the file, whose size is the
/// number behind the slash of `Content-Range`; where there is none, it is the
/// number that `Content-Length` spells; where that is none either, the download
/// fails.
pub proof fn an_answer_to_get_describes_the_file(
    workers: int,
    referer: Seq<char>,
    reply: ReplyView,
    range: Seq<char>,
    size: Seq<char>,
    rest: Seq<char>,
    length: Seq<char>,
)
    requires
        0 <= reply.status <= u16::MAX,
        !range.contains('/'),
        !size.contains('/'),
    ensures
        ({
            let headers = reply.headers;
            let action = next_action(workers, referer, DownloadEventView::ProbeReply(reply));
            let with_size = crate::headers::spells(
                headers.content_range,
                range + seq!['/'] + size,
            ) || crate::headers::spells(
                headers.content_range,
                range + seq!['/'] + size + seq!['/'] + rest,
            );
            let without_size = headers.content_range is None || crate::headers::spells(
                headers.content_range,
                range,
            ) || with_size && crate::text::number_in(size) is None;
            &&& reply.status / 100 != 2 ==> {
                &&& action matches DownloadActionView::Fail(DownloadError::ServerStatus(status))
                &&& status == reply.status
            }
            &&& reply.status / 100 == 2 && with_size ==> (crate::text::number_in(
                size,
            ) matches Some(n) ==> action matches DownloadActionView::Inspect(remote) && describes(
                remote,
                headers,
                n as int,
                true,
            ))
            &&& reply.status / 100 == 2 && without_size && crate::headers::spells(
                headers.content_length,
                length,
            ) ==> match crate::text::number_in(length) {
                Some(n) => action matches DownloadActionView::Inspect(remote) && describes(
                    remote,
                    headers,
                    n as int,
                    true,
                ),
                None => action == DownloadActionView::Fail(DownloadError::NoFileSize),
            }
            &&& reply.status / 100 == 2 && without_size && !(exists|text: Seq<char>|
                crate::headers::spells(headers.content_length, text)) ==> action
                == DownloadActionView::Fail(DownloadError::NoFileSize)
        }),
{
    let headers = reply.headers;
    crate::headers::sizes_stand_behind_the_slash(headers, range, size, rest);
    crate::headers::lengths_and_tags_are_read_as_they_are_spelled(headers, length);
    if let Some(n) = crate::headers::range_size(headers) {
        lemma_describes(headers, n, true);
    }
    if let Some(n) = crate::headers::stated_length(headers) {
        lemma_describes(headers, n, true);
    }
}

/// A download begins with a `HEAD` request from the page given, and ends with
/// the decision about what the disk and the server hold.
pub proof fn a_download_begins_with_a_question_and_ends_with_a_decision(
    workers: int,
    referer: Seq<char>,
    remote: RemoteFileView,
    local: LocalFileView,
)
    ensures
        next_action(workers, referer, DownloadEventView::Begin) == (DownloadActionView::SendHead {
            referer,
        }),
        next_action(workers, referer, DownloadEventView::Inspected { remote, local })
            == DownloadActionView::Perform(decide(workers, remote, local)),
{
}

/// The page that a request claims to come from is the front page of the domain,
/// over a secure connection.
pub proof fn referers_are_front_pages(domain: Seq<char>)
    ensures
        ({
            let page = referer_for(Some(domain));
            let n = domain.len() as int;
            &&& page.len() == 8 + n + 1
            &&& page.take(8) == seq!['h', 't', 't', 'p', 's', ':', '/', '/']
            &&& page.subrange(8, 8 + n) == domain
            &&& page[8 + n] == '/'
        }),
        referer_for(None) == "https://www.google.com/"@,
{
    reveal_strlit("https://");
    reveal_strlit("/");
    let page = referer_for(Some(domain));
    let n = domain.len() as int;
    assert(page.take(8) =~= seq!['h', 't', 't', 'p', 's', ':', '/', '/']);
    assert(page.subrange(8, 8 + n) =~= domain);
}

/// A file is fetched from its start in parts if and only if the server supports
/// ranges and the file is larger than ten mebibytes.
pub proof fn only_large_files_are_fetched_in_parts(remote: RemoteFileView)
    ensures
        fresh_mode(remote) == Fresh::MultiPart <==> remote.supports_range && remote.size > 10
            * 1024 * 1024,
{
}

/// What is done about a file without a record: one that is not there is fetched,
/// one of the right size is taken as it is, and any other is thrown away.
pub proof fn a_file_without_a_record_is_judged_by_its_size(
    workers: int,
    remote: RemoteFileView,
    len: int,
)
    ensures
        decide(workers, remote, LocalFileView::Absent) == Decision::Start(
            Discard::Nothing,
            fresh_mode(remote),
        ),
        decide(workers, remote, LocalFileView::Unrecorded { len }) == if len == remote.size {
            Decision::AlreadyPresent
        } else {
            Decision::Start(Discard::Unrecorded, fresh_mode(remote))
        },
{
}

/// What is done about a file whose record is about the file that the server
/// still has. Of full length, it is complete if and only if every chunk is
/// marked; else the missing chunks are fetched, if there are as many workers as
/// chunks and the server supports ranges, or the file is thrown away. A shorter
/// one goes on, by chunks if there are as many workers, and else behind its last
/// byte, if the server supports ranges. Any other starts anew.
pub proof fn a_recorded_file_goes_on_where_it_stopped(
    workers: int,
    remote: RemoteFileView,
    meta: crate::metadata::MetadataView,
    len: int,
)
    requires
        remote.etag matches Some(tag) ==> meta.etag == Some(tag),
        meta.total_size == remote.size,
        0 <= len <= u64::MAX,
    ensures
        ({
            let done = meta.chunks_completed;
            let all_marked = forall|id: int| 0 <= id < done.len() ==> #[trigger] done[id];
            let by_chunks = remote.supports_range && done.len() == workers;
            match decide(workers, remote, LocalFileView::Recorded { meta, len }) {
                Decision::AlreadyComplete => len == remote.size && all_marked,
                Decision::AlreadyPresent => false,
                Decision::Resume(Resume::MultiPart) => by_chunks && (len < remote.size || len
                    == remote.size && !all_marked),
                Decision::Resume(Resume::SingleStream { start_byte }) => len < remote.size
                    && remote.supports_range && !by_chunks && start_byte == len,
                Decision::Start(Discard::ChunksLost, mode) => len == remote.size && !all_marked
                    && !by_chunks && mode == fresh_mode(remote),
                Decision::Start(Discard::Nothing, mode) => (len > remote.size || len < remote.size
                    && !remote.supports_range) && mode == fresh_mode(remote),
                Decision::Start(_, _) => false,
            }
        }),
{
}

/// An unfinished download is taken up again by its chunks if and only if it was
/// divided among as many workers as there are now; else it goes on behind the
/// last byte that is there.
pub proof fn a_stream_goes_on_behind_the_last_byte(
    workers: int,
    meta: crate::metadata::MetadataView,
    len: u64,
)
    ensures
        match resume_mode(workers, meta, len as int) {
            Resume::MultiPart => meta.chunks_completed.len() == workers,
            Resume::SingleStream { start_byte } => meta.chunks_completed.len() != workers
                && start_byte == len,
        },
{
}

/// A decision removes the file if the download starts anew for a reason, and the
/// record if it is of no more use: always the file first.
pub proof fn decisions_remove_what_is_of_no_use(decision: Decision)
    ensures
        ({
            let file = decision matches Decision::Start(discard, _) && discard != Discard::Nothing;
            let record = decision == Decision::AlreadyComplete || file && !(
            decision matches Decision::Start(discard, _) && discard == Discard::Unrecorded);
            removals(decision) == if file && record {
                seq![FileStep::RemoveFile, FileStep::RemoveRecord]
            } else if file {
                seq![FileStep::RemoveFile]
            } else if record {
                seq![FileStep::RemoveRecord]
            } else {
                seq![]
            }
        }),
{
}

/// What the server says of the file, what lies on disk, and what is told and
/// answered in the course of a download is what the values hold.
pub proof fn values_show_what_they_hold(
    reply: Reply,
    remote: RemoteFile,
    meta: DownloadMetadata,
    len: u64,
    local: LocalFile,
    text: String,
    range: String,
    error: DownloadError,
    decision: Decision,
)
    ensures
        reply@ == (ReplyView { status: reply.status as int, headers: reply.headers@ }),
        remote@.size == remote.size,
        remote@.supports_range == remote.supports_range,
        remote.etag matches Some(tag) ==> remote@.etag == Some(tag@),
        remote.etag is None ==> remote@.etag is None,
        LocalFile::Absent@ == LocalFileView::Absent,
        (LocalFile::Unrecorded { len })@ == (LocalFileView::Unrecorded { len: len as int }),
        (LocalFile::Recorded { meta, len })@ == (LocalFileView::Recorded {
            meta: meta@,
            len: len as int,
        }),
        DownloadEvent::Begin@ == DownloadEventView::Begin,
        DownloadEvent::HeadReply(reply)@ == DownloadEventView::HeadReply(reply@),
        DownloadEvent::ProbeReply(reply)@ == DownloadEventView::ProbeReply(reply@),
        (DownloadEvent::Inspected { remote, local })@ == (DownloadEventView::Inspected {
            remote: remote@,
            local: local@,
        }),
        (DownloadAction::SendHead { referer: text })@ == (DownloadActionView::SendHead {
            referer: text@,
        }),
        (DownloadAction::SendProbe { referer: text, range })@ == (DownloadActionView::SendProbe {
            referer: text@,
            range: range@,
        }),
        DownloadAction::Inspect(remote)@ == DownloadActionView::Inspect(remote@),
        DownloadAction::Fail(error)@ == DownloadActionView::Fail(error),
        DownloadAction::Perform(decision)@ == DownloadActionView::Perform(decision),
{
}

} // verus!

//! The client side of a connection, as a state machine.
//!
//! Each operation has a function that starts it: it returns the first state
//! together with the first action. From then on [`advance`] takes the
//! outcome of the action asked for last and returns the next state with the
//! next action, until the state is [`ClientState::Finished`] or
//! [`ClientState::Failed`].

use crate::chunk::{optimal_chunk_size, optimal_chunk_size_spec};
use crate::io::{Action, ActionView, Event, EventView, Progress, bytes_written};
use crate::io::{lemma_written_push, progress_after, progress_complete, progress_counts};
use crate::io::{lemma_sent_push, packets_sent, progress_start};
use crate::packet::{File, FileView, Packet, PacketView, files_view};
use crate::path::{file_name, path_file_name, text_view};
use chrono::{DateTime, Utc};
use vstd::prelude::*;
use vstd::string::StringExecFns;

verus! {

/// The local file operation that failed.
#[derive(Debug, Clone, Copy, PartialEq, Eq, Structural)]
pub enum FileStep {
    Metadata,
    Create,
    SetMode,
    Write,
    Open,
    Read,
}

/// Why an operation failed.
#[derive(Debug, Clone, PartialEq, Eq)]
pub enum ClientError {
    /// The local file exists and may not be overwritten.
    AlreadyExists,
    /// The server could not be reached.
    Connect,
    /// A packet could not be written.
    Send,
    /// A packet could not be read.
    Receive,
    /// The server refused, with this message.
    Remote(String),
    /// The server sent a packet that has no place here; this is its name.
    Unexpected(String),
    /// A local file operation failed.
    Io(FileStep),
    /// The body that arrived did not have the announced size.
    SizeMismatch(Progress),
    /// No name was given for the other end of the transfer, and none could
    /// be made.
    NoName,
    /// The driver reported what does not answer the action asked for.
    Driver,
}

/// The mathematical value of a [`ClientError`].
pub enum ClientErrorView {
    AlreadyExists,
    Connect,
    Send,
    Receive,
    Remote(Seq<char>),
    Unexpected(Seq<char>),
    Io(FileStep),
    SizeMismatch(Progress),
    NoName,
    Driver,
}

impl View for ClientError {
    type V = ClientErrorView;

    open spec fn view(&self) -> ClientErrorView {
        match self {
            ClientError::AlreadyExists => ClientErrorView::AlreadyExists,
            ClientError::Connect => ClientErrorView::Connect,
            ClientError::Send => ClientErrorView::Send,
            ClientError::Receive => ClientErrorView::Receive,
            ClientError::Remote(m) => ClientErrorView::Remote(m@),
            ClientError::Unexpected(n) => ClientErrorView::Unexpected(n@),
            ClientError::Io(s) => ClientErrorView::Io(*s),
            ClientError::SizeMismatch(p) => ClientErrorView::SizeMismatch(*p),
            ClientError::NoName => ClientErrorView::NoName,
            ClientError::Driver => ClientErrorView::Driver,
        }
    }
}

/// What an operation that succeeded has to show.
#[derive(Debug, Clone, PartialEq, Eq)]
pub enum Reply {
    /// Nothing but its success.
    Done,
    /// The files that the server listed.
    Files(Vec<File>),
}

/// The mathematical value of a [`Reply`].
pub enum ReplyView {
    Done,
    Files(Seq<FileView>),
}

impl View for Reply {
    type V = ReplyView;

    open spec fn view(&self) -> ReplyView {
        match self {
            Reply::Done => ReplyView::Done,
            Reply::Files(files) => ReplyView::Files(files_view(files@)),
        }
    }
}

/// Where a download stands.
#[derive(Debug, Clone, PartialEq, Eq)]
pub enum DownloadState {
    /// The local file is being looked for, since it may not be overwritten.
    Probe { remote: String, local: String },
    /// The connection is being opened.
    Connect { remote: String, local: String },
    /// The request is being sent.
    Request { local: String },
    /// The header that announces size and mode is being read.
    Header { local: String },
    /// The local file is being created.
    Create { size: u64, mode: u32 },
    /// The local file's permission bits are being set.
    Mode { size: u64 },
    /// The next packet of the body is being read.
    Receive(Progress),
    /// A chunk is being written to the local file.
    Write(Progress),
}

/// The mathematical value of a [`DownloadState`].
pub enum DownloadStateView {
    Probe { remote: Seq<char>, local: Seq<char> },
    Connect { remote: Seq<char>, local: Seq<char> },
    Request { local: Seq<char> },
    Header { local: Seq<char> },
    Create { size: u64, mode: u32 },
    Mode { size: u64 },
    Receive(Progress),
    Write(Progress),
}

impl View for DownloadState {
    type V = DownloadStateView;

    open spec fn view(&self) -> DownloadStateView {
        match self {
            DownloadState::Probe { remote, local } => DownloadStateView::Probe {
                remote: remote@,
                local: local@,
            },
            DownloadState::Connect { remote, local } => DownloadStateView::Connect {
                remote: remote@,
                local: local@,
            },
            DownloadState::Request { local } => DownloadStateView::Request { local: local@ },
            DownloadState::Header { local } => DownloadStateView::Header { local: local@ },
            DownloadState::Create { size, mode } => DownloadStateView::Create {
                size: *size,
                mode: *mode,
            },
            DownloadState::Mode { size } => DownloadStateView::Mode { size: *size },
            DownloadState::Receive(p) => DownloadStateView::Receive(*p),
            DownloadState::Write(p) => DownloadStateView::Write(*p),
        }
    }
}

/// Where an upload stands.
#[derive(Debug, Clone, PartialEq, Eq)]
pub enum UploadState {
    /// The local file's metadata has been asked for.
    Stat { local: String, remote: String, force: bool },
    /// The connection is being opened.
    Connect { local: String, remote: String, size: u64, mode: u32, force: bool },
    /// The header that announces the upload is being sent.
    Request { local: String, size: u64 },
    /// The server's invitation to send the body is being read.
    Ready { local: String, size: u64 },
    /// The local file is being opened.
    Open { size: u64 },
    /// The next chunk is being read from the local file.
    Read { chunk: usize },
    /// A chunk is being sent.
    Chunk { chunk: usize },
    /// The end-of-stream marker is being sent.
    End,
    /// The server's verdict is being read.
    Verdict,
}

/// The mathematical value of an [`UploadState`].
pub enum UploadStateView {
    Stat { local: Seq<char>, remote: Seq<char>, force: bool },
    Connect { local: Seq<char>, remote: Seq<char>, size: u64, mode: u32, force: bool },
    Request { local: Seq<char>, size: u64 },
    Ready { local: Seq<char>, size: u64 },
    Open { size: u64 },
    Read { chunk: usize },
    Chunk { chunk: usize },
    End,
    Verdict,
}

impl View for UploadState {
    type V = UploadStateView;

    open spec fn view(&self) -> UploadStateView {
        match self {
            UploadState::Stat { local, remote, force } => UploadStateView::Stat {
                local: local@,
                remote: remote@,
                force: *force,
            },
            UploadState::Connect { local, remote, size, mode, force } => UploadStateView::Connect {
                local: local@,
                remote: remote@,
                size: *size,
                mode: *mode,
                force: *force,
            },
            UploadState::Request { local, size } => UploadStateView::Request {
                local: local@,
                size: *size,
            },
            UploadState::Ready { local, size } => UploadStateView::Ready {
                local: local@,
                size: *size,
            },
            UploadState::Open { size } => UploadStateView::Open { size: *size },
            UploadState::Read { chunk } => UploadStateView::Read { chunk: *chunk },
            UploadState::Chunk { chunk } => UploadStateView::Chunk { chunk: *chunk },
            UploadState::End => UploadStateView::End,
            UploadState::Verdict => UploadStateView::Verdict,
        }
    }
}

/// An operation that is one request and one response.
#[derive(Debug, Clone, Copy, PartialEq, Eq, Structural)]
pub enum Query {
    List,
    Remove,
    Ping,
}

/// Where a query stands.
#[derive(Debug, Clone, PartialEq, Eq)]
pub enum QueryState {
    /// The connection is being opened.
    Connect { query: Query, request: Packet },
    /// The request is being sent.
    Request { query: Query },
    /// The response is being read.
    Response { query: Query },
}

/// The mathematical value of a [`QueryState`].
pub enum QueryStateView {
    Connect { query: Query, request: PacketView },
    Request { query: Query },
    Response { query: Query },
}

impl View for QueryState {
    type V = QueryStateView;

    open spec fn view(&self) -> QueryStateView {
        match self {
            QueryState::Connect { query, request } => QueryStateView::Connect {
                query: *query,
                request: request@,
            },
            QueryState::Request { query } => QueryStateView::Request { query: *query },
            QueryState::Response { query } => QueryStateView::Response { query: *query },
        }
    }
}

/// Where an operation stands.
#[derive(Debug, Clone, PartialEq, Eq)]
pub enum ClientState {
    Download(DownloadState),
    Upload(UploadState),
    Query(QueryState),
    /// The operation has succeeded.
    Finished(Reply),
    /// The operation has failed.
    Failed(ClientError),
}

/// The mathematical value of a [`ClientState`].
pub enum ClientStateView {
    Download(DownloadStateView),
    Upload(UploadStateView),
    Query(QueryStateView),
    Finished(ReplyView),
    Failed(ClientErrorView),
}

impl View for ClientState {
    type V = ClientStateView;

    open spec fn view(&self) -> ClientStateView {
        match self {
            ClientState::Download(s) => ClientStateView::Download(s@),
            ClientState::Upload(s) => ClientStateView::Upload(s@),
            ClientState::Query(s) => ClientStateView::Query(s@),
            ClientState::Finished(r) => ClientStateView::Finished(r@),
            ClientState::Failed(e) => ClientStateView::Failed(e@),
        }
    }
}

/// A step's result: the next state and the action to perform.
pub type Step = (ClientState, Action);

/// The mathematical value of a [`Step`].
pub type StepView = (ClientStateView, ActionView);

/// The value of a step.
pub open spec fn step_view(step: Step) -> StepView {
    (step.0@, step.1@)
}

/// The step that ends the operation with `error`.
pub open spec fn fail(error: ClientErrorView) -> StepView {
    (ClientStateView::Failed(error), ActionView::Close)
}

/// The step that ends the operation with success.
pub open spec fn finish(reply: ReplyView) -> StepView {
    (ClientStateView::Finished(reply), ActionView::Close)
}

/// The error for a packet that is not what the operation waits for: the
/// server's message where it is an error packet, the packet's name
/// otherwise.
pub open spec fn rejection(packet: PacketView) -> ClientErrorView {
    match packet {
        PacketView::Error(message) => ClientErrorView::Remote(message),
        _ => ClientErrorView::Unexpected(packet.name()),
    }
}

fn fail_with(error: ClientError) -> (step: Step)
    ensures
        step_view(step) == fail(error@),
{
    (ClientState::Failed(error), Action::Close)
}

fn finish_with(reply: Reply) -> (step: Step)
    ensures
        step_view(step) == finish(reply@),
{
    (ClientState::Finished(reply), Action::Close)
}

fn reject(packet: Packet) -> (step: Step)
    ensures
        step_view(step) == fail(rejection(packet@)),
{
    match packet {
        Packet::Error(message) => fail_with(ClientError::Remote(message)),
        other => fail_with(ClientError::Unexpected(other.name().to_owned())),
    }
}

/// What [`advance_download`] returns.
pub open spec fn download_step(state: DownloadStateView, event: EventView) -> StepView {
    match (state, event) {
        (DownloadStateView::Probe { .. }, EventView::Exists(true)) => fail(
            ClientErrorView::AlreadyExists,
        ),
        (DownloadStateView::Probe { remote, local }, EventView::Exists(false)) => (
            ClientStateView::Download(DownloadStateView::Connect { remote, local }),
            ActionView::Connect,
        ),
        (DownloadStateView::Probe { remote, local }, EventView::Failed(_)) => (
            ClientStateView::Download(DownloadStateView::Connect { remote, local }),
            ActionView::Connect,
        ),
        (DownloadStateView::Connect { remote, local }, EventView::Done) => (
            ClientStateView::Download(DownloadStateView::Request { local }),
            ActionView::Send(PacketView::DownloadStart(remote, 0, 0)),
        ),
        (DownloadStateView::Connect { .. }, EventView::Failed(_)) => fail(ClientErrorView::Connect),
        (DownloadStateView::Request { local }, EventView::Sent) => (
            ClientStateView::Download(DownloadStateView::Header { local }),
            ActionView::Receive,
        ),
        (DownloadStateView::Request { .. }, EventView::SendFailed) => fail(ClientErrorView::Send),
        (
            DownloadStateView::Header { local },
            EventView::Received(PacketView::DownloadStart(_, size, mode)),
        ) => (
            ClientStateView::Download(DownloadStateView::Create { size, mode }),
            ActionView::Create(local),
        ),
        (DownloadStateView::Header { .. }, EventView::Received(packet)) => fail(rejection(packet)),
        (DownloadStateView::Header { .. }, EventView::ReceiveFailed) => fail(
            ClientErrorView::Receive,
        ),
        (DownloadStateView::Create { size, mode }, EventView::Done) => (
            ClientStateView::Download(DownloadStateView::Mode { size }),
            ActionView::SetMode(mode),
        ),
        (DownloadStateView::Create { .. }, EventView::Failed(_)) => fail(
            ClientErrorView::Io(FileStep::Create),
        ),
        (DownloadStateView::Mode { size }, EventView::Done) => (
            ClientStateView::Download(DownloadStateView::Receive(progress_start(size))),
            ActionView::Receive,
        ),
        (DownloadStateView::Mode { .. }, EventView::Failed(_)) => fail(
            ClientErrorView::Io(FileStep::SetMode),
        ),
        (
            DownloadStateView::Receive(progress),
            EventView::Received(PacketView::DownloadChunk(data)),
        ) => (
            ClientStateView::Download(
                DownloadStateView::Write(progress_after(progress, data.len())),
            ),
            ActionView::Write(data),
        ),
        (DownloadStateView::Receive(progress), EventView::Received(PacketView::DownloadEnd)) => {
            if progress_complete(progress) {
                finish(ReplyView::Done)
            } else {
                fail(ClientErrorView::SizeMismatch(progress))
            }
        },
        (DownloadStateView::Receive(_), EventView::Received(packet)) => fail(rejection(packet)),
        (DownloadStateView::Receive(_), EventView::ReceiveFailed) => fail(ClientErrorView::Receive),
        (DownloadStateView::Write(progress), EventView::Done) => (
            ClientStateView::Download(DownloadStateView::Receive(progress)),
            ActionView::Receive,
        ),
        (DownloadStateView::Write(_), EventView::Failed(_)) => fail(
            ClientErrorView::Io(FileStep::Write),
        ),
        _ => fail(ClientErrorView::Driver),
    }
}

/// One step of a download.
///
/// A local file that exists is an error unless the download was started
/// with force; whether it exists is asked before the connection is opened.
/// The request is sent, and the server's header announces size and mode.
/// The local file is created with that mode, every chunk that arrives is
/// written and counted, and at the end-of-stream marker the download
/// succeeds if the chunks held exactly the announced number of bytes. An
/// error packet ends the download with the server's message, any other
/// packet out of place with its name.
pub fn advance_download(state: DownloadState, event: Event) -> (step: Step)
    ensures
        step_view(step) == download_step(state@, event@),
{
    match (state, event) {
        (DownloadState::Probe { .. }, Event::Exists(true)) => fail_with(ClientError::AlreadyExists),
        (DownloadState::Probe { remote, local }, Event::Exists(false)) => (
            ClientState::Download(DownloadState::Connect { remote, local }),
            Action::Connect,
        ),
        (DownloadState::Probe { remote, local }, Event::Failed(_)) => (
            ClientState::Download(DownloadState::Connect { remote, local }),
            Action::Connect,
        ),
        (DownloadState::Connect { remote, local }, Event::Done) => (
            ClientState::Download(DownloadState::Request { local }),
            Action::Send(Packet::DownloadStart(remote, 0, 0)),
        ),
        (DownloadState::Connect { .. }, Event::Failed(_)) => fail_with(ClientError::Connect),
        (DownloadState::Request { local }, Event::Sent) => (
            ClientState::Download(DownloadState::Header { local }),
            Action::Receive,
        ),
        (DownloadState::Request { .. }, Event::SendFailed) => fail_with(ClientError::Send),
        (DownloadState::Header { local }, Event::Received(Packet::DownloadStart(_, size, mode))) => (
            ClientState::Download(DownloadState::Create { size, mode }),
            Action::Create(local),
        ),
        (DownloadState::Header { .. }, Event::Received(packet)) => reject(packet),
        (DownloadState::Header { .. }, Event::ReceiveFailed) => fail_with(ClientError::Receive),
        (DownloadState::Create { size, mode }, Event::Done) => (
            ClientState::Download(DownloadState::Mode { size }),
            Action::SetMode(mode),
        ),
        (DownloadState::Create { .. }, Event::Failed(_)) => fail_with(
            ClientError::Io(FileStep::Create),
        ),
        (DownloadState::Mode { size }, Event::Done) => (
            ClientState::Download(DownloadState::Receive(Progress::start(size))),
            Action::Receive,
        ),
        (DownloadState::Mode { .. }, Event::Failed(_)) => fail_with(
            ClientError::Io(FileStep::SetMode),
        ),
        (DownloadState::Receive(progress), Event::Received(Packet::DownloadChunk(data))) => (
            ClientState::Download(DownloadState::Write(progress.after(data.len()))),
            Action::Write(data),
        ),
        (DownloadState::Receive(progress), Event::Received(Packet::DownloadEnd)) => {
            if progress.complete() {
                finish_with(Reply::Done)
            } else {
                fail_with(ClientError::SizeMismatch(progress))
            }
        },
        (DownloadState::Receive(_), Event::Received(packet)) => reject(packet),
        (DownloadState::Receive(_), Event::ReceiveFailed) => fail_with(ClientError::Receive),
        (DownloadState::Write(progress), Event::Done) => (
            ClientState::Download(DownloadState::Receive(progress)),
            Action::Receive,
        ),
        (DownloadState::Write(_), Event::Failed(_)) => fail_with(ClientError::Io(FileStep::Write)),
        _ => fail_with(ClientError::Driver),
    }
}

/// What [`advance_upload`] returns.
pub open spec fn upload_step(state: UploadStateView, event: EventView) -> StepView {
    match (state, event) {
        (UploadStateView::Stat { local, remote, force }, EventView::Metadata(found)) => (
            ClientStateView::Upload(
                UploadStateView::Connect {
                    local,
                    remote,
                    size: found.size,
                    mode: found.mode,
                    force,
                },
            ),
            ActionView::Connect,
        ),
        (UploadStateView::Stat { .. }, EventView::Failed(_)) => fail(
            ClientErrorView::Io(FileStep::Metadata),
        ),
        (UploadStateView::Connect { local, remote, size, mode, force }, EventView::Done) => (
            ClientStateView::Upload(UploadStateView::Request { local, size }),
            ActionView::Send(PacketView::UploadStart(remote, size, mode, force)),
        ),
        (UploadStateView::Connect { .. }, EventView::Failed(_)) => fail(ClientErrorView::Connect),
        (UploadStateView::Request { local, size }, EventView::Sent) => (
            ClientStateView::Upload(UploadStateView::Ready { local, size }),
            ActionView::Receive,
        ),
        (UploadStateView::Request { .. }, EventView::SendFailed) => fail(ClientErrorView::Send),
        (UploadStateView::Ready { local, size }, EventView::Received(PacketView::Ack)) => (
            ClientStateView::Upload(UploadStateView::Open { size }),
            ActionView::Open(local),
        ),
        (UploadStateView::Ready { .. }, EventView::Received(packet)) => fail(rejection(packet)),
        (UploadStateView::Ready { .. }, EventView::ReceiveFailed) => fail(ClientErrorView::Receive),
        (UploadStateView::Open { size }, EventView::Done) => (
            ClientStateView::Upload(
                UploadStateView::Read { chunk: optimal_chunk_size_spec(size) as usize },
            ),
            ActionView::Read(optimal_chunk_size_spec(size) as usize),
        ),
        (UploadStateView::Open { .. }, EventView::Failed(_)) => fail(
            ClientErrorView::Io(FileStep::Open),
        ),
        (UploadStateView::Read { chunk }, EventView::Data(bytes)) => if bytes.len() == 0 {
            (ClientStateView::Upload(UploadStateView::End), ActionView::Send(PacketView::UploadEnd))
        } else {
            (
                ClientStateView::Upload(UploadStateView::Chunk { chunk }),
                ActionView::Send(PacketView::UploadChunk(bytes)),
            )
        },
        (UploadStateView::Read { .. }, EventView::Failed(_)) => fail(
            ClientErrorView::Io(FileStep::Read),
        ),
        (UploadStateView::Chunk { chunk }, EventView::Sent) => (
            ClientStateView::Upload(UploadStateView::Read { chunk }),
            ActionView::Read(chunk),
        ),
        (UploadStateView::Chunk { .. }, EventView::SendFailed) => fail(ClientErrorView::Send),
        (UploadStateView::End, EventView::Sent) => (
            ClientStateView::Upload(UploadStateView::Verdict),
            ActionView::Receive,
        ),
        (UploadStateView::End, EventView::SendFailed) => fail(ClientErrorView::Send),
        (UploadStateView::Verdict, EventView::Received(PacketView::Ack)) => finish(ReplyView::Done),
        (UploadStateView::Verdict, EventView::Received(packet)) => fail(rejection(packet)),
        (UploadStateView::Verdict, EventView::ReceiveFailed) => fail(ClientErrorView::Receive),
        _ => fail(ClientErrorView::Driver),
    }
}

/// One step of an upload.
///
/// The local file's size and mode are read and announced to the server.
/// Once the server has invited the body, the file is read in chunks of the
/// size that [`optimal_chunk_size`] gives for its length, chosen once;
/// every read that is not empty is sent as one chunk, and the empty read is
/// followed by the end-of-stream marker. The server's verdict decides: the
/// acknowledgement is success, an error packet fails with the server's
/// message, any other packet with its name.
pub fn advance_upload(state: UploadState, event: Event) -> (step: Step)
    ensures
        step_view(step) == upload_step(state@, event@),
{
    match (state, event) {
        (UploadState::Stat { local, remote, force }, Event::Metadata(found)) => (
            ClientState::Upload(
                UploadState::Connect { local, remote, size: found.size, mode: found.mode, force },
            ),
            Action::Connect,
        ),
        (UploadState::Stat { .. }, Event::Failed(_)) => fail_with(
            ClientError::Io(FileStep::Metadata),
        ),
        (UploadState::Connect { local, remote, size, mode, force }, Event::Done) => (
            ClientState::Upload(UploadState::Request { local, size }),
            Action::Send(Packet::UploadStart(remote, size, mode, force)),
        ),
        (UploadState::Connect { .. }, Event::Failed(_)) => fail_with(ClientError::Connect),
        (UploadState::Request { local, size }, Event::Sent) => (
            ClientState::Upload(UploadState::Ready { local, size }),
            Action::Receive,
        ),
        (UploadState::Request { .. }, Event::SendFailed) => fail_with(ClientError::Send),
        (UploadState::Ready { local, size }, Event::Received(Packet::Ack)) => (
            ClientState::Upload(UploadState::Open { size }),
            Action::Open(local),
        ),
        (UploadState::Ready { .. }, Event::Received(packet)) => reject(packet),
        (UploadState::Ready { .. }, Event::ReceiveFailed) => fail_with(ClientError::Receive),
        (UploadState::Open { size }, Event::Done) => {
            let chunk = optimal_chunk_size(size);
            (ClientState::Upload(UploadState::Read { chunk }), Action::Read(chunk))
        },
        (UploadState::Open { .. }, Event::Failed(_)) => fail_with(ClientError::Io(FileStep::Open)),
        (UploadState::Read { chunk }, Event::Data(bytes)) => {
            if bytes.len() == 0 {
                (ClientState::Upload(UploadState::End), Action::Send(Packet::UploadEnd))
            } else {
                (
                    ClientState::Upload(UploadState::Chunk { chunk }),
                    Action::Send(Packet::UploadChunk(bytes)),
                )
            }
        },
        (UploadState::Read { .. }, Event::Failed(_)) => fail_with(ClientError::Io(FileStep::Read)),
        (UploadState::Chunk { chunk }, Event::Sent) => (
            ClientState::Upload(UploadState::Read { chunk }),
            Action::Read(chunk),
        ),
        (UploadState::Chunk { .. }, Event::SendFailed) => fail_with(ClientError::Send),
        (UploadState::End, Event::Sent) => (
            ClientState::Upload(UploadState::Verdict),
            Action::Receive,
        ),
        (UploadState::End, Event::SendFailed) => fail_with(ClientError::Send),
        (UploadState::Verdict, Event::Received(Packet::Ack)) => finish_with(Reply::Done),
        (UploadState::Verdict, Event::Received(packet)) => reject(packet),
        (UploadState::Verdict, Event::ReceiveFailed) => fail_with(ClientError::Receive),
        _ => fail_with(ClientError::Driver),
    }
}

/// What [`advance_query`] returns.
pub open spec fn query_step(state: QueryStateView, event: EventView) -> StepView {
    match (state, event) {
        (QueryStateView::Connect { query, request }, EventView::Done) => (
            ClientStateView::Query(QueryStateView::Request { query }),
            ActionView::Send(request),
        ),
        (QueryStateView::Connect { .. }, EventView::Failed(_)) => fail(ClientErrorView::Connect),
        (QueryStateView::Request { query }, EventView::Sent) => (
            ClientStateView::Query(QueryStateView::Response { query }),
            ActionView::Receive,
        ),
        (QueryStateView::Request { .. }, EventView::SendFailed) => fail(ClientErrorView::Send),
        (
            QueryStateView::Response { query: Query::List },
            EventView::Received(PacketView::List(_, files)),
        ) => finish(ReplyView::Files(files)),
        (
            QueryStateView::Response { query: Query::Remove },
            EventView::Received(PacketView::Ack),
        ) => finish(ReplyView::Done),
        (QueryStateView::Response { query: Query::Ping }, EventView::Received(PacketView::Ack)) => {
            finish(ReplyView::Done)
        },
        (QueryStateView::Response { .. }, EventView::Received(packet)) => fail(rejection(packet)),
        (QueryStateView::Response { .. }, EventView::ReceiveFailed) => fail(
            ClientErrorView::Receive,
        ),
        _ => fail(ClientErrorView::Driver),
    }
}

/// One step of a listing, a removal or a ping.
///
/// The request is sent once the connection is open, and the response
/// decides: a listing succeeds with the files of a list packet, a removal
/// and a ping with the acknowledgement. An error packet fails with the
/// server's message, any other packet with its name.
pub fn advance_query(state: QueryState, event: Event) -> (step: Step)
    ensures
        step_view(step) == query_step(state@, event@),
{
    match (state, event) {
        (QueryState::Connect { query, request }, Event::Done) => (
            ClientState::Query(QueryState::Request { query }),
            Action::Send(request),
        ),
        (QueryState::Connect { .. }, Event::Failed(_)) => fail_with(ClientError::Connect),
        (QueryState::Request { query }, Event::Sent) => (
            ClientState::Query(QueryState::Response { query }),
            Action::Receive,
        ),
        (QueryState::Request { .. }, Event::SendFailed) => fail_with(ClientError::Send),
        (QueryState::Response { query: Query::List }, Event::Received(Packet::List(_, files))) => {
            finish_with(Reply::Files(files))
        },
        (QueryState::Response { query: Query::Remove }, Event::Received(Packet::Ack)) => {
            finish_with(Reply::Done)
        },
        (QueryState::Response { query: Query::Ping }, Event::Received(Packet::Ack)) => finish_with(
            Reply::Done,
        ),
        (QueryState::Response { .. }, Event::Received(packet)) => reject(packet),
        (QueryState::Response { .. }, Event::ReceiveFailed) => fail_with(ClientError::Receive),
        _ => fail_with(ClientError::Driver),
    }
}

/// What [`advance`] returns.
pub open spec fn client_step(state: ClientStateView, event: EventView) -> StepView {
    match state {
        ClientStateView::Download(download) => download_step(download, event),
        ClientStateView::Upload(upload) => upload_step(upload, event),
        ClientStateView::Query(query) => query_step(query, event),
        ClientStateView::Finished(reply) => (ClientStateView::Finished(reply), ActionView::Close),
        ClientStateView::Failed(error) => (ClientStateView::Failed(error), ActionView::Close),
    }
}

/// One step of an operation: that of the operation under way. An operation
/// that has ended stays as it is and asks for nothing but the close.
pub fn advance(state: ClientState, event: Event) -> (step: Step)
    ensures
        step_view(step) == client_step(state@, event@),
{
    match state {
        ClientState::Download(download) => advance_download(download, event),
        ClientState::Upload(upload) => advance_upload(upload, event),
        ClientState::Query(query) => advance_query(query, event),
        ClientState::Finished(reply) => (ClientState::Finished(reply), Action::Close),
        ClientState::Failed(error) => (ClientState::Failed(error), Action::Close),
    }
}

/// The moment `seconds` after the start of 1970 in UTC, as `chrono` writes
/// it with year, month, day, `T`, hour, minute and second, joined by
/// hyphens; nothing where `chrono` has no date for it.
pub uninterp spec fn utc_stamp(seconds: i64) -> Option<Seq<char>>;

/// `chrono::DateTime::from_timestamp` and `format`: the moment `seconds`
/// after the start of 1970 in UTC, written as `%Y-%m-%dT%H-%M-%S`, or
/// `None` where the moment is out of `chrono`'s range.
#[verifier::external_body]
fn stamp_of(seconds: i64) -> (stamp: Option<String>)
    ensures
        text_view(stamp) == utc_stamp(seconds),
{
    DateTime::<Utc>::from_timestamp(seconds, 0).map(|t| t.format("%Y-%m-%dT%H-%M-%S").to_string())
}

/// The name for a file whose path gives none: `stamp`, followed by
/// `-output`.
pub open spec fn stamped_name(stamp: Seq<char>) -> Seq<char> {
    stamp + "-output"@
}

/// The name for a file whose path gives none: `stamp`, followed by
/// `-output`.
pub fn name_from_stamp(stamp: String) -> (name: String)
    ensures
        name@ == stamped_name(stamp@),
{
    let mut name = stamp;
    name.append("-output");
    name
}

/// The name for a transfer of a path whose final component is `last`: that
/// component, or, where there is none, the name made of `stamp`.
pub open spec fn chosen_name(last: Option<Seq<char>>, stamp: Option<Seq<char>>) -> Option<
    Seq<char>,
> {
    match last {
        Some(name) => Some(name),
        None => match stamp {
            Some(text) => Some(stamped_name(text)),
            None => None,
        },
    }
}

/// The name for a transfer of a path whose final component is `last`: that
/// component, or, where there is none, the name made of `stamp`.
pub fn choose_name(last: Option<String>, stamp: Option<String>) -> (name: Option<String>)
    ensures
        text_view(name) == chosen_name(text_view(last), text_view(stamp)),
{
    match last {
        Some(name) => Some(name),
        None => match stamp {
            Some(text) => Some(name_from_stamp(text)),
            None => None,
        },
    }
}

/// What [`default_name`] returns.
pub open spec fn default_name_spec(path: Seq<char>, now: i64) -> Option<Seq<char>> {
    chosen_name(path_file_name(path), utc_stamp(now))
}

/// The name under which a transfer of `path` arrives at the other end when
/// none is given: the final component of `path`, or, where it has none, the
/// moment `now`, in seconds since the start of 1970 in UTC, followed by
/// `-output`. There is no name where the path gives none and the moment
/// cannot be written.
pub fn default_name(path: &str, now: i64) -> (name: Option<String>)
    ensures
        text_view(name) == default_name_spec(path@, now),
{
    choose_name(file_name(path), stamp_of(now))
}

/// The first step of a download of `remote` to `local`.
pub open spec fn download_start(remote: Seq<char>, local: Seq<char>, force: bool) -> StepView {
    if force {
        (ClientStateView::Download(DownloadStateView::Connect { remote, local }), ActionView::Connect)
    } else {
        (
            ClientStateView::Download(DownloadStateView::Probe { remote, local }),
            ActionView::Exists(local),
        )
    }
}

/// Starts a download of `remote` to the local file `local`. Unless `force`
/// is set, the local file is looked for first.
pub fn download_to(remote: String, local: String, force: bool) -> (step: Step)
    ensures
        step_view(step) == download_start(remote@, local@, force),
{
    if force {
        (ClientState::Download(DownloadState::Connect { remote, local }), Action::Connect)
    } else {
        let target = local.clone();
        (ClientState::Download(DownloadState::Probe { remote, local }), Action::Exists(target))
    }
}

/// What [`download`] returns.
pub open spec fn download_spec(
    remote: Seq<char>,
    local: Option<Seq<char>>,
    force: bool,
    now: i64,
) -> StepView {
    match local {
        Some(given) => download_start(remote, given, force),
        None => match default_name_spec(remote, now) {
            Some(name) => download_start(remote, name, force),
            None => fail(ClientErrorView::NoName),
        },
    }
}

/// Starts a download of `remote_path`, to `local_path` where one is given
/// and to the [`default_name`] of `remote_path` at the moment `now`
/// otherwise. Without either, the download fails at once.
pub fn download(remote_path: String, local_path: Option<String>, force: bool, now: i64) -> (step:
    Step)
    ensures
        step_view(step) == download_spec(remote_path@, text_view(local_path), force, now),
{
    let local = match local_path {
        Some(local) => Some(local),
        None => default_name(remote_path.as_str(), now),
    };
    match local {
        Some(local) => download_to(remote_path, local, force),
        None => fail_with(ClientError::NoName),
    }
}

/// The first step of an upload of `local` to `remote`.
pub open spec fn upload_start(local: Seq<char>, remote: Seq<char>, force: bool) -> StepView {
    (
        ClientStateView::Upload(UploadStateView::Stat { local, remote, force }),
        ActionView::Stat(local),
    )
}

/// Starts an upload of the local file `local` to `remote`.
pub fn upload_as(local: String, remote: String, force: bool) -> (step: Step)
    ensures
        step_view(step) == upload_start(local@, remote@, force),
{
    let source = local.clone();
    (ClientState::Upload(UploadState::Stat { local, remote, force }), Action::Stat(source))
}

/// What [`upload`] returns.
pub open spec fn upload_spec(
    local: Seq<char>,
    remote: Option<Seq<char>>,
    force: bool,
    now: i64,
) -> StepView {
    match remote {
        Some(given) => upload_start(local, given, force),
        None => match default_name_spec(local, now) {
            Some(name) => upload_start(local, name, force),
            None => fail(ClientErrorView::NoName),
        },
    }
}

/// Starts an upload of `local_path`, to `remote_path` where one is given
/// and to the [`default_name`] of `local_path` at the moment `now`
/// otherwise. Without either, the upload fails at once.
pub fn upload(local_path: String, remote_path: Option<String>, force: bool, now: i64) -> (step: Step)
    ensures
        step_view(step) == upload_spec(local_path@, text_view(remote_path), force, now),
{
    let remote = match remote_path {
        Some(remote) => Some(remote),
        None => default_name(local_path.as_str(), now),
    };
    match remote {
        Some(remote) => upload_as(local_path, remote, force),
        None => fail_with(ClientError::NoName),
    }
}

/// The first step of a query that sends `request`.
pub open spec fn query_start(query: Query, request: PacketView) -> StepView {
    (ClientStateView::Query(QueryStateView::Connect { query, request }), ActionView::Connect)
}

/// Starts a listing of `path`, or of `./` where none is given.
pub fn list(path: Option<String>) -> (step: Step)
    ensures
        step_view(step) == query_start(
            Query::List,
            PacketView::List(
                match path {
                    Some(given) => given@,
                    None => "./"@,
                },
                Seq::empty(),
            ),
        ),
{
    let path = match path {
        Some(given) => given,
        None => "./".to_owned(),
    };
    let request = Packet::List(path, Vec::new());
    assert(files_view(Seq::<File>::empty()) =~= Seq::<FileView>::empty());
    (ClientState::Query(QueryState::Connect { query: Query::List, request }), Action::Connect)
}

/// Starts a removal of `path`.
pub fn remove(path: String, force: bool, recursive: bool) -> (step: Step)
    ensures
        step_view(step) == query_start(Query::Remove, PacketView::Remove(path@, force, recursive)),
{
    let request = Packet::Remove(path, force, recursive);
    (ClientState::Query(QueryState::Connect { query: Query::Remove, request }), Action::Connect)
}

/// Starts a ping.
pub fn ping() -> (step: Step)
    ensures
        step_view(step) == query_start(Query::Ping, PacketView::Ping),
{
    (
        ClientState::Query(QueryState::Connect { query: Query::Ping, request: Packet::Ping }),
        Action::Connect,
    )
}

/// The state that an operation reaches from `state` when its driver reports
/// `events` one after another, with the actions it asks for on the way.
pub open spec fn run(state: ClientStateView, events: Seq<EventView>) -> (
    ClientStateView,
    Seq<ActionView>,
)
    decreases events.len(),
{
    if events.len() == 0 {
        (state, Seq::empty())
    } else {
        let (before, actions) = run(state, events.drop_last());
        let (next, action) = client_step(before, events.last());
        (next, actions.push(action))
    }
}

/// What holds of a download once `written` bytes have been handed to the
/// local file, where `size` is what the header announced, if it has been
/// read.
pub open spec fn download_accounted(
    size: Option<u64>,
    state: ClientStateView,
    written: nat,
) -> bool {
    match state {
        ClientStateView::Download(DownloadStateView::Probe { .. }) => size is None && written == 0,
        ClientStateView::Download(DownloadStateView::Connect { .. }) => size is None && written
            == 0,
        ClientStateView::Download(DownloadStateView::Request { .. }) => size is None && written
            == 0,
        ClientStateView::Download(DownloadStateView::Header { .. }) => size is None && written == 0,
        ClientStateView::Download(DownloadStateView::Create { size: announced, .. }) => size
            == Some(announced) && written == 0,
        ClientStateView::Download(DownloadStateView::Mode { size: announced }) => size == Some(
            announced,
        ) && written == 0,
        ClientStateView::Download(DownloadStateView::Receive(progress)) => size == Some(
            progress.size,
        ) && progress_counts(progress.size, progress, written),
        ClientStateView::Download(DownloadStateView::Write(progress)) => size == Some(
            progress.size,
        ) && progress_counts(progress.size, progress, written),
        ClientStateView::Finished(_) => size matches Some(announced) && written == announced,
        ClientStateView::Failed(_) => true,
        _ => false,
    }
}

/// The size that the header of the download announces, if the download
/// that starts in `start` has read it among `events`.
pub open spec fn announced(start: ClientStateView, events: Seq<EventView>) -> Option<u64>
    decreases events.len(),
{
    if events.len() == 0 {
        None
    } else {
        match (run(start, events.drop_last()).0, events.last()) {
            (
                ClientStateView::Download(DownloadStateView::Header { .. }),
                EventView::Received(PacketView::DownloadStart(_, size, _)),
            ) => Some(size),
            _ => announced(start, events.drop_last()),
        }
    }
}

/// The bytes of a download are accounted for at every moment.
pub proof fn lemma_download_accounted(
    remote: Seq<char>,
    local: Seq<char>,
    force: bool,
    events: Seq<EventView>,
)
    ensures
        download_accounted(
            announced(download_start(remote, local, force).0, events),
            run(download_start(remote, local, force).0, events).0,
            bytes_written(run(download_start(remote, local, force).0, events).1),
        ),
    decreases events.len(),
{
    let start = download_start(remote, local, force).0;
    if events.len() > 0 {
        let (before, actions) = run(start, events.drop_last());
        let (next, action) = client_step(before, events.last());
        lemma_written_push(actions, action);
        lemma_download_accounted(remote, local, force, events.drop_last());
    }
}

/// Download size invariant: a download that has succeeded has written to
/// the local file exactly as many bytes as the server's header announced.
pub proof fn lemma_download_success_writes_size(
    remote: Seq<char>,
    local: Seq<char>,
    force: bool,
    events: Seq<EventView>,
)
    requires
        run(download_start(remote, local, force).0, events).0 is Finished,
    ensures
        announced(download_start(remote, local, force).0, events) is Some,
        bytes_written(run(download_start(remote, local, force).0, events).1) == announced(
            download_start(remote, local, force).0,
            events,
        )->0,
{
    lemma_download_accounted(remote, local, force, events);
}

/// Whether `sent` is the header of an upload followed by chunks, none of
/// them empty.
pub open spec fn is_upload_start(sent: Seq<PacketView>) -> bool {
    &&& sent.len() >= 1
    &&& sent[0] is UploadStart
    &&& forall|i: int|
        1 <= i < sent.len() ==> (#[trigger] sent[i] matches PacketView::UploadChunk(data)
            && data.len() > 0)
}

/// Whether `sent` is a whole upload: the header, chunks, none of them
/// empty, and the end-of-stream marker.
pub open spec fn is_whole_upload(sent: Seq<PacketView>) -> bool {
    &&& sent.len() >= 2
    &&& is_upload_start(sent.drop_last())
    &&& sent.last() == PacketView::UploadEnd
}

/// What holds of the packets `sent` by an upload.
pub open spec fn upload_shaped(state: ClientStateView, sent: Seq<PacketView>) -> bool {
    match state {
        ClientStateView::Upload(UploadStateView::Stat { .. }) => sent.len() == 0,
        ClientStateView::Upload(UploadStateView::Connect { .. }) => sent.len() == 0,
        ClientStateView::Upload(UploadStateView::End) => is_whole_upload(sent),
        ClientStateView::Upload(UploadStateView::Verdict) => is_whole_upload(sent),
        ClientStateView::Upload(_) => is_upload_start(sent),
        ClientStateView::Finished(_) => is_whole_upload(sent),
        ClientStateView::Failed(_) => true,
        _ => false,
    }
}

/// The packets of an upload have their shape at every moment.
pub proof fn lemma_upload_shaped(
    local: Seq<char>,
    remote: Seq<char>,
    force: bool,
    events: Seq<EventView>,
)
    ensures
        upload_shaped(
            run(upload_start(local, remote, force).0, events).0,
            packets_sent(run(upload_start(local, remote, force).0, events).1),
        ),
    decreases events.len(),
{
    let start = upload_start(local, remote, force).0;
    if events.len() > 0 {
        let (before, actions) = run(start, events.drop_last());
        let (next, action) = client_step(before, events.last());
        let sent = packets_sent(actions);
        lemma_sent_push(actions, action);
        lemma_upload_shaped(local, remote, force, events.drop_last());
        match action {
            ActionView::Send(packet) => {
                assert(sent.push(packet).drop_last() =~= sent);
            },
            _ => {},
        }
    }
}

/// An upload that has succeeded was sent as the header that announces it,
/// chunks none of which is empty, and exactly one end-of-stream marker.
pub proof fn lemma_upload_success_is_whole_upload(
    local: Seq<char>,
    remote: Seq<char>,
    force: bool,
    events: Seq<EventView>,
)
    requires
        run(upload_start(local, remote, force).0, events).0 is Finished,
    ensures
        is_whole_upload(packets_sent(run(upload_start(local, remote, force).0, events).1)),
{
    lemma_upload_shaped(local, remote, force, events);
}

} // verus!

//! The server side of a connection, as a state machine.
//!
//! A connection carries one operation. The machine starts in
//! [`ServerState::AwaitRequest`], where its driver has been asked to read the
//! request; every step takes the outcome of the action asked for last and
//! returns the next state together with the next action. No state outlives
//! the connection.

use crate::io::{Action, ActionView, Event, EventView, Failure, FileKind, Outcome, Progress};
use crate::io::{Walked, WalkedView, bytes_written, progress_after, progress_complete};
use crate::io::{lemma_written_push, packets_sent, progress_counts, progress_start, walk_view};
use crate::packet::{File, FileView, Packet, PacketView, files_view};
use crate::path::{parent, path_parent, path_stripped, safe_join, safe_join_spec, strip_prefix};
use crate::path::text_view;
use vstd::prelude::*;
use vstd::string::StringExecFns;

verus! {

/// The most bytes that one chunk of a download carries.
pub const DOWNLOAD_CHUNK: usize = 65536;

/// Where a download stands.
#[derive(Debug, Clone, PartialEq, Eq)]
pub enum DownloadState {
    /// The request has been read and not yet looked at.
    Requested,
    /// The file's metadata has been asked for.
    Stat { path: String, full: String },
    /// The header that announces size and mode is being sent.
    Announce { full: String },
    /// The file is being opened.
    Open,
    /// The next chunk is being read from the file.
    Read,
    /// A chunk is being sent.
    Chunk,
    /// The end-of-stream marker is being sent.
    End,
}

/// The mathematical value of a [`DownloadState`].
pub enum DownloadStateView {
    Requested,
    Stat { path: Seq<char>, full: Seq<char> },
    Announce { full: Seq<char> },
    Open,
    Read,
    Chunk,
    End,
}

impl View for DownloadState {
    type V = DownloadStateView;

    open spec fn view(&self) -> DownloadStateView {
        match self {
            DownloadState::Requested => DownloadStateView::Requested,
            DownloadState::Stat { path, full } => DownloadStateView::Stat {
                path: path@,
                full: full@,
            },
            DownloadState::Announce { full } => DownloadStateView::Announce { full: full@ },
            DownloadState::Open => DownloadStateView::Open,
            DownloadState::Read => DownloadStateView::Read,
            DownloadState::Chunk => DownloadStateView::Chunk,
            DownloadState::End => DownloadStateView::End,
        }
    }
}

/// What an upload was announced with, and where its file goes.
#[derive(Debug, Clone, PartialEq, Eq)]
pub struct Upload {
    /// The resolved path of the target.
    pub full: String,
    /// The announced length of the body.
    pub size: u64,
    /// The permission bits to give the file.
    pub mode: u32,
    /// Whether an existing file may be overwritten.
    pub force: bool,
}

/// The mathematical value of an [`Upload`].
pub struct UploadView {
    pub full: Seq<char>,
    pub size: u64,
    pub mode: u32,
    pub force: bool,
}

impl View for Upload {
    type V = UploadView;

    open spec fn view(&self) -> UploadView {
        UploadView { full: self.full@, size: self.size, mode: self.mode, force: self.force }
    }
}

/// Where an upload stands.
#[derive(Debug, Clone, PartialEq, Eq)]
pub enum UploadState {
    /// The request has been read and not yet looked at.
    Requested,
    /// The acknowledgement that invites the body is being sent.
    Ready(Upload),
    /// The target's parent directories are being created.
    Dirs(Upload),
    /// The target is being looked for, since it may not be overwritten.
    Probe(Upload),
    /// The target is being created.
    Create(Upload),
    /// The target's permission bits are being set.
    Mode(Upload),
    /// The next packet of the body is being read.
    Receive(Progress),
    /// A chunk is being written to the target.
    Write(Progress),
}

/// The mathematical value of an [`UploadState`].
pub enum UploadStateView {
    Requested,
    Ready(UploadView),
    Dirs(UploadView),
    Probe(UploadView),
    Create(UploadView),
    Mode(UploadView),
    Receive(Progress),
    Write(Progress),
}

impl View for UploadState {
    type V = UploadStateView;

    open spec fn view(&self) -> UploadStateView {
        match self {
            UploadState::Requested => UploadStateView::Requested,
            UploadState::Ready(u) => UploadStateView::Ready(u@),
            UploadState::Dirs(u) => UploadStateView::Dirs(u@),
            UploadState::Probe(u) => UploadStateView::Probe(u@),
            UploadState::Create(u) => UploadStateView::Create(u@),
            UploadState::Mode(u) => UploadStateView::Mode(u@),
            UploadState::Receive(p) => UploadStateView::Receive(*p),
            UploadState::Write(p) => UploadStateView::Write(*p),
        }
    }
}

/// Where a removal stands.
#[derive(Debug, Clone, PartialEq, Eq)]
pub enum RemoveState {
    /// The request has been read and not yet looked at.
    Requested,
    /// The target is being looked for.
    Check { full: String, force: bool, recursive: bool },
    /// The target's metadata has been asked for.
    Stat { full: String, recursive: bool },
    /// A file is being removed.
    File,
    /// A directory is being removed with all it holds.
    Tree,
    /// A directory is being removed on its own.
    Dir,
}

/// The mathematical value of a [`RemoveState`].
pub enum RemoveStateView {
    Requested,
    Check { full: Seq<char>, force: bool, recursive: bool },
    Stat { full: Seq<char>, recursive: bool },
    File,
    Tree,
    Dir,
}

impl View for RemoveState {
    type V = RemoveStateView;

    open spec fn view(&self) -> RemoveStateView {
        match self {
            RemoveState::Requested => RemoveStateView::Requested,
            RemoveState::Check { full, force, recursive } => RemoveStateView::Check {
                full: full@,
                force: *force,
                recursive: *recursive,
            },
            RemoveState::Stat { full, recursive } => RemoveStateView::Stat {
                full: full@,
                recursive: *recursive,
            },
            RemoveState::File => RemoveStateView::File,
            RemoveState::Tree => RemoveStateView::Tree,
            RemoveState::Dir => RemoveStateView::Dir,
        }
    }
}

/// Where a listing stands.
#[derive(Debug, Clone, PartialEq, Eq)]
pub enum ListState {
    /// The request has been read and not yet looked at.
    Requested,
    /// The tree below the requested path is being walked.
    Walk { path: String },
    /// The listing is being sent.
    Send,
}

/// The mathematical value of a [`ListState`].
pub enum ListStateView {
    Requested,
    Walk { path: Seq<char> },
    Send,
}

impl View for ListState {
    type V = ListStateView;

    open spec fn view(&self) -> ListStateView {
        match self {
            ListState::Requested => ListStateView::Requested,
            ListState::Walk { path } => ListStateView::Walk { path: path@ },
            ListState::Send => ListStateView::Send,
        }
    }
}

/// Where a connection stands.
#[derive(Debug, Clone, PartialEq, Eq)]
pub enum ServerState {
    /// The request is being read.
    AwaitRequest,
    Download(DownloadState),
    Upload(UploadState),
    Remove(RemoveState),
    List(ListState),
    /// The terminal packet is being sent.
    Replying(Outcome),
    /// The connection is shut down, or being shut down.
    Closed(Outcome),
}

/// The mathematical value of a [`ServerState`].
pub enum ServerStateView {
    AwaitRequest,
    Download(DownloadStateView),
    Upload(UploadStateView),
    Remove(RemoveStateView),
    List(ListStateView),
    Replying(Outcome),
    Closed(Outcome),
}

impl View for ServerState {
    type V = ServerStateView;

    open spec fn view(&self) -> ServerStateView {
        match self {
            ServerState::AwaitRequest => ServerStateView::AwaitRequest,
            ServerState::Download(s) => ServerStateView::Download(s@),
            ServerState::Upload(s) => ServerStateView::Upload(s@),
            ServerState::Remove(s) => ServerStateView::Remove(s@),
            ServerState::List(s) => ServerStateView::List(s@),
            ServerState::Replying(o) => ServerStateView::Replying(*o),
            ServerState::Closed(o) => ServerStateView::Closed(*o),
        }
    }
}

/// A step's result: the next state and the action to perform.
pub type Step = (ServerState, Action);

/// The mathematical value of a [`Step`].
pub type StepView = (ServerStateView, ActionView);

/// The value of a step.
pub open spec fn step_view(step: Step) -> StepView {
    (step.0@, step.1@)
}

/// The step that sends `packet` as the connection's terminal packet.
pub open spec fn reply(outcome: Outcome, packet: PacketView) -> StepView {
    (ServerStateView::Replying(outcome), ActionView::Send(packet))
}

/// The step that ends the operation with an error packet for the peer.
pub open spec fn refuse(message: Seq<char>) -> StepView {
    reply(Outcome::Failure, PacketView::Error(message))
}

/// The step that ends the operation with the acknowledgement.
pub open spec fn accept() -> StepView {
    reply(Outcome::Success, PacketView::Ack)
}

/// The step that gives the connection up without a word to the peer.
pub open spec fn abandon() -> StepView {
    (ServerStateView::Closed(Outcome::Failure), ActionView::Close)
}

/// The step that ends the operation with an error packet for the peer.
fn send_error(message: &str) -> (step: Step)
    ensures
        step_view(step) == refuse(message@),
{
    (ServerState::Replying(Outcome::Failure), Action::Send(Packet::Error(message.to_owned())))
}

/// The step that ends the operation with the acknowledgement.
fn send_ok() -> (step: Step)
    ensures
        step_view(step) == accept(),
{
    (ServerState::Replying(Outcome::Success), Action::Send(Packet::Ack))
}

/// The step that gives the connection up without a word to the peer.
fn abandon_step() -> (step: Step)
    ensures
        step_view(step) == abandon(),
{
    (ServerState::Closed(Outcome::Failure), Action::Close)
}

/// The first step of a download of `path`, which resolves to `resolved`.
pub open spec fn download_request(path: Seq<char>, resolved: Option<Seq<char>>) -> StepView {
    match resolved {
        Some(full) => (
            ServerStateView::Download(DownloadStateView::Stat { path, full }),
            ActionView::Stat(full),
        ),
        None => refuse("Invalid file path"@),
    }
}

/// The first step of a download of `path`, which resolves to `resolved`: a
/// path that does not resolve is refused, and the metadata of one that does
/// is asked for.
pub fn begin_download(path: String, resolved: Option<String>) -> (step: Step)
    ensures
        step_view(step) == download_request(path@, text_view(resolved)),
{
    match resolved {
        Some(full) => {
            let target = full.clone();
            (ServerState::Download(DownloadState::Stat { path, full }), Action::Stat(target))
        },
        None => send_error("Invalid file path"),
    }
}

/// What [`handle_download`] returns.
pub open spec fn download_step(
    root: Seq<char>,
    state: DownloadStateView,
    event: EventView,
) -> StepView {
    match (state, event) {
        (
            DownloadStateView::Requested,
            EventView::Received(PacketView::DownloadStart(path, _, _)),
        ) => download_request(path, safe_join_spec(root, path)),
        (DownloadStateView::Stat { path, full }, EventView::Metadata(found)) => (
            ServerStateView::Download(DownloadStateView::Announce { full }),
            ActionView::Send(PacketView::DownloadStart(path, found.size, found.mode)),
        ),
        (DownloadStateView::Stat { .. }, EventView::Failed(_)) => refuse(
            "Failed to get file metadata"@,
        ),
        (DownloadStateView::Announce { full }, EventView::Sent) => (
            ServerStateView::Download(DownloadStateView::Open),
            ActionView::Open(full),
        ),
        (DownloadStateView::Open, EventView::Done) => (
            ServerStateView::Download(DownloadStateView::Read),
            ActionView::Read(DOWNLOAD_CHUNK),
        ),
        (DownloadStateView::Open, EventView::Failed(_)) => refuse("Failed to open file"@),
        (DownloadStateView::Read, EventView::Data(bytes)) => if bytes.len() == 0 {
            (
                ServerStateView::Download(DownloadStateView::End),
                ActionView::Send(PacketView::DownloadEnd),
            )
        } else {
            (
                ServerStateView::Download(DownloadStateView::Chunk),
                ActionView::Send(PacketView::DownloadChunk(bytes)),
            )
        },
        (DownloadStateView::Read, EventView::Failed(_)) => refuse("Failed to read file"@),
        (DownloadStateView::Chunk, EventView::Sent) => (
            ServerStateView::Download(DownloadStateView::Read),
            ActionView::Read(DOWNLOAD_CHUNK),
        ),
        (DownloadStateView::End, EventView::Sent) => accept(),
        _ => abandon(),
    }
}

/// One step of a download.
///
/// The requested path is resolved beneath `root`; a path that cannot be
/// resolved is refused. The file's size and mode are announced, the file is
/// read in chunks of at most [`DOWNLOAD_CHUNK`] bytes, each read that is not
/// empty is sent as one chunk, and the empty read is followed by the
/// end-of-stream marker and the acknowledgement. A file-system failure is
/// reported to the peer; a failure to send, or an event that does not answer
/// the action asked for, ends the connection.
pub fn handle_download(root: &str, state: DownloadState, event: Event) -> (step: Step)
    ensures
        step_view(step) == download_step(root@, state@, event@),
{
    match (state, event) {
        (DownloadState::Requested, Event::Received(Packet::DownloadStart(path, _, _))) => {
            let resolved = safe_join(root, path.as_str());
            begin_download(path, resolved)
        },
        (DownloadState::Stat { path, full }, Event::Metadata(found)) => (
            ServerState::Download(DownloadState::Announce { full }),
            Action::Send(Packet::DownloadStart(path, found.size, found.mode)),
        ),
        (DownloadState::Stat { .. }, Event::Failed(_)) => send_error(
            "Failed to get file metadata",
        ),
        (DownloadState::Announce { full }, Event::Sent) => (
            ServerState::Download(DownloadState::Open),
            Action::Open(full),
        ),
        (DownloadState::Open, Event::Done) => (
            ServerState::Download(DownloadState::Read),
            Action::Read(DOWNLOAD_CHUNK),
        ),
        (DownloadState::Open, Event::Failed(_)) => send_error("Failed to open file"),
        (DownloadState::Read, Event::Data(bytes)) => {
            if bytes.len() == 0 {
                (ServerState::Download(DownloadState::End), Action::Send(Packet::DownloadEnd))
            } else {
                (
                    ServerState::Download(DownloadState::Chunk),
                    Action::Send(Packet::DownloadChunk(bytes)),
                )
            }
        },
        (DownloadState::Read, Event::Failed(_)) => send_error("Failed to read file"),
        (DownloadState::Chunk, Event::Sent) => (
            ServerState::Download(DownloadState::Read),
            Action::Read(DOWNLOAD_CHUNK),
        ),
        (DownloadState::End, Event::Sent) => send_ok(),
        _ => abandon_step(),
    }
}

/// The step that follows once the target's directory is there: the target
/// is looked for unless it may be overwritten, and created otherwise.
pub open spec fn upload_guard(upload: UploadView) -> StepView {
    if upload.force {
        (ServerStateView::Upload(UploadStateView::Create(upload)), ActionView::Create(upload.full))
    } else {
        (ServerStateView::Upload(UploadStateView::Probe(upload)), ActionView::Exists(upload.full))
    }
}

/// The step that follows the invitation, for a target whose parent
/// directory is `parent`: the directory is created where there is one.
pub open spec fn upload_prepare(upload: UploadView, parent: Option<Seq<char>>) -> StepView {
    match parent {
        Some(dir) => (
            ServerStateView::Upload(UploadStateView::Dirs(upload)),
            ActionView::CreateDirs(dir),
        ),
        None => upload_guard(upload),
    }
}

/// The first step of an upload announced with `size`, `mode` and `force`,
/// whose path resolves to `resolved`.
pub open spec fn upload_request(
    size: u64,
    mode: u32,
    force: bool,
    resolved: Option<Seq<char>>,
) -> StepView {
    match resolved {
        Some(full) => (
            ServerStateView::Upload(UploadStateView::Ready(UploadView { full, size, mode, force })),
            ActionView::Send(PacketView::Ack),
        ),
        None => refuse("Invalid file path"@),
    }
}

/// What [`handle_upload`] returns.
pub open spec fn upload_step(root: Seq<char>, state: UploadStateView, event: EventView) -> StepView {
    match (state, event) {
        (
            UploadStateView::Requested,
            EventView::Received(PacketView::UploadStart(path, size, mode, force)),
        ) => upload_request(size, mode, force, safe_join_spec(root, path)),
        (UploadStateView::Ready(upload), EventView::Sent) => upload_prepare(
            upload,
            path_parent(upload.full),
        ),
        (UploadStateView::Dirs(upload), EventView::Done) => upload_guard(upload),
        (UploadStateView::Dirs(_), EventView::Failed(_)) => refuse("Failed to create directories"@),
        (UploadStateView::Probe(_), EventView::Exists(true)) => refuse("File already exists"@),
        (UploadStateView::Probe(upload), EventView::Exists(false)) => (
            ServerStateView::Upload(UploadStateView::Create(upload)),
            ActionView::Create(upload.full),
        ),
        (UploadStateView::Probe(upload), EventView::Failed(_)) => (
            ServerStateView::Upload(UploadStateView::Create(upload)),
            ActionView::Create(upload.full),
        ),
        (UploadStateView::Create(upload), EventView::Done) => (
            ServerStateView::Upload(UploadStateView::Mode(upload)),
            ActionView::SetMode(upload.mode),
        ),
        (UploadStateView::Create(_), EventView::Failed(_)) => refuse("Failed to create file"@),
        (UploadStateView::Mode(upload), EventView::Done) => (
            ServerStateView::Upload(UploadStateView::Receive(progress_start(upload.size))),
            ActionView::Receive,
        ),
        (UploadStateView::Mode(_), EventView::Failed(_)) => refuse(
            "Failed to set file permissions"@,
        ),
        (UploadStateView::Receive(progress), EventView::Received(PacketView::UploadChunk(data))) => (
            ServerStateView::Upload(UploadStateView::Write(progress_after(progress, data.len()))),
            ActionView::Write(data),
        ),
        (UploadStateView::Receive(progress), EventView::Received(PacketView::UploadEnd)) => {
            if progress_complete(progress) {
                accept()
            } else {
                refuse("File size mismatch"@)
            }
        },
        (UploadStateView::Receive(_), EventView::Received(_)) => refuse(
            "Unexpected packet during upload"@,
        ),
        (UploadStateView::Receive(_), EventView::ReceiveFailed) => refuse(
            "Failed to read upload packet"@,
        ),
        (UploadStateView::Write(progress), EventView::Done) => (
            ServerStateView::Upload(UploadStateView::Receive(progress)),
            ActionView::Receive,
        ),
        (UploadStateView::Write(_), EventView::Failed(_)) => refuse("Failed to write file chunk"@),
        _ => abandon(),
    }
}

/// The step that follows once the target's directory is there: the target
/// is looked for unless it may be overwritten, and created otherwise.
pub fn guard_upload(upload: Upload) -> (step: Step)
    ensures
        step_view(step) == upload_guard(upload@),
{
    let target = upload.full.clone();
    if upload.force {
        (ServerState::Upload(UploadState::Create(upload)), Action::Create(target))
    } else {
        (ServerState::Upload(UploadState::Probe(upload)), Action::Exists(target))
    }
}

/// The step that follows the invitation, for a target whose parent
/// directory is `parent`: the directory is created where there is one, and
/// the target is gone on to otherwise.
pub fn prepare_upload(upload: Upload, parent: Option<String>) -> (step: Step)
    ensures
        step_view(step) == upload_prepare(upload@, text_view(parent)),
{
    match parent {
        Some(dir) => (ServerState::Upload(UploadState::Dirs(upload)), Action::CreateDirs(dir)),
        None => guard_upload(upload),
    }
}

/// The first step of an upload announced with `size`, `mode` and `force`,
/// whose path resolves to `resolved`: a path that does not resolve is
/// refused, and the body of one that does is invited.
pub fn begin_upload(size: u64, mode: u32, force: bool, resolved: Option<String>) -> (step: Step)
    ensures
        step_view(step) == upload_request(size, mode, force, text_view(resolved)),
{
    match resolved {
        Some(full) => (
            ServerState::Upload(UploadState::Ready(Upload { full, size, mode, force })),
            Action::Send(Packet::Ack),
        ),
        None => send_error("Invalid file path"),
    }
}

/// One step of an upload.
///
/// The requested path is resolved beneath `root`; a path that cannot be
/// resolved is refused. The peer is invited to send the body, the target's
/// parent directories are created, an existing target is refused unless the
/// request forces it, and the target is created with the announced mode.
/// Every chunk that arrives is written and counted. At the end-of-stream
/// marker the upload is acknowledged if the chunks held exactly the
/// announced number of bytes, and refused as a size mismatch otherwise. Any
/// other packet in the body, a packet that cannot be read and a file-system
/// failure are reported to the peer; a failure to send the invitation, or an
/// event that does not answer the action asked for, ends the connection.
pub fn handle_upload(root: &str, state: UploadState, event: Event) -> (step: Step)
    ensures
        step_view(step) == upload_step(root@, state@, event@),
{
    match (state, event) {
        (UploadState::Requested, Event::Received(Packet::UploadStart(path, size, mode, force))) => {
            begin_upload(size, mode, force, safe_join(root, path.as_str()))
        },
        (UploadState::Ready(upload), Event::Sent) => {
            let dir = parent(upload.full.as_str());
            prepare_upload(upload, dir)
        },
        (UploadState::Dirs(upload), Event::Done) => guard_upload(upload),
        (UploadState::Dirs(_), Event::Failed(_)) => send_error("Failed to create directories"),
        (UploadState::Probe(_), Event::Exists(true)) => send_error("File already exists"),
        (UploadState::Probe(upload), Event::Exists(false)) => {
            let target = upload.full.clone();
            (ServerState::Upload(UploadState::Create(upload)), Action::Create(target))
        },
        (UploadState::Probe(upload), Event::Failed(_)) => {
            let target = upload.full.clone();
            (ServerState::Upload(UploadState::Create(upload)), Action::Create(target))
        },
        (UploadState::Create(upload), Event::Done) => {
            let mode = upload.mode;
            (ServerState::Upload(UploadState::Mode(upload)), Action::SetMode(mode))
        },
        (UploadState::Create(_), Event::Failed(_)) => send_error("Failed to create file"),
        (UploadState::Mode(upload), Event::Done) => (
            ServerState::Upload(UploadState::Receive(Progress::start(upload.size))),
            Action::Receive,
        ),
        (UploadState::Mode(_), Event::Failed(_)) => send_error("Failed to set file permissions"),
        (UploadState::Receive(progress), Event::Received(Packet::UploadChunk(data))) => (
            ServerState::Upload(UploadState::Write(progress.after(data.len()))),
            Action::Write(data),
        ),
        (UploadState::Receive(progress), Event::Received(Packet::UploadEnd)) => {
            if progress.complete() {
                send_ok()
            } else {
                send_error("File size mismatch")
            }
        },
        (UploadState::Receive(_), Event::Received(_)) => send_error(
            "Unexpected packet during upload",
        ),
        (UploadState::Receive(_), Event::ReceiveFailed) => send_error(
            "Failed to read upload packet",
        ),
        (UploadState::Write(progress), Event::Done) => (
            ServerState::Upload(UploadState::Receive(progress)),
            Action::Receive,
        ),
        (UploadState::Write(_), Event::Failed(_)) => send_error("Failed to write file chunk"),
        _ => abandon_step(),
    }
}

/// The first step of a removal with `force` and `recursive`, whose path
/// resolves to `resolved`.
pub open spec fn remove_request(force: bool, recursive: bool, resolved: Option<Seq<char>>) -> StepView {
    match resolved {
        Some(full) => (
            ServerStateView::Remove(RemoveStateView::Check { full, force, recursive }),
            ActionView::Exists(full),
        ),
        None => refuse("Invalid path"@),
    }
}

/// The first step of a removal with `force` and `recursive`, whose path
/// resolves to `resolved`: a path that does not resolve is refused, and one
/// that does is looked for.
pub fn begin_remove(force: bool, recursive: bool, resolved: Option<String>) -> (step: Step)
    ensures
        step_view(step) == remove_request(force, recursive, text_view(resolved)),
{
    match resolved {
        Some(full) => {
            let target = full.clone();
            (ServerState::Remove(RemoveState::Check { full, force, recursive }), Action::Exists(target))
        },
        None => send_error("Invalid path"),
    }
}

/// What [`handle_remove`] returns.
pub open spec fn remove_step(root: Seq<char>, state: RemoveStateView, event: EventView) -> StepView {
    match (state, event) {
        (
            RemoveStateView::Requested,
            EventView::Received(PacketView::Remove(path, force, recursive)),
        ) => remove_request(force, recursive, safe_join_spec(root, path)),
        (RemoveStateView::Check { force, .. }, EventView::Exists(false)) => if force {
            accept()
        } else {
            refuse("Path does not exist"@)
        },
        (RemoveStateView::Check { full, recursive, .. }, EventView::Exists(true)) => (
            ServerStateView::Remove(RemoveStateView::Stat { full, recursive }),
            ActionView::Stat(full),
        ),
        (RemoveStateView::Check { .. }, EventView::Failed(_)) => refuse(
            "Failed to check path existence"@,
        ),
        (RemoveStateView::Stat { full, recursive }, EventView::Metadata(found)) => match found.kind {
            FileKind::File => (
                ServerStateView::Remove(RemoveStateView::File),
                ActionView::RemoveFile(full),
            ),
            FileKind::Dir => if recursive {
                (ServerStateView::Remove(RemoveStateView::Tree), ActionView::RemoveTree(full))
            } else {
                (ServerStateView::Remove(RemoveStateView::Dir), ActionView::RemoveDir(full))
            },
            FileKind::Other => accept(),
        },
        (RemoveStateView::Stat { .. }, EventView::Failed(_)) => refuse(
            "Failed to get path metadata"@,
        ),
        (RemoveStateView::File, EventView::Done) => accept(),
        (RemoveStateView::File, EventView::Failed(_)) => refuse("Failed to delete file"@),
        (RemoveStateView::Tree, EventView::Done) => accept(),
        (RemoveStateView::Tree, EventView::Failed(_)) => refuse(
            "Failed to delete directory recursively"@,
        ),
        (RemoveStateView::Dir, EventView::Done) => accept(),
        (RemoveStateView::Dir, EventView::Failed(Failure::NotEmpty)) => refuse(
            "Directory not empty (use recursive flag)"@,
        ),
        (RemoveStateView::Dir, EventView::Failed(Failure::Other)) => refuse(
            "Failed to delete directory"@,
        ),
        _ => abandon(),
    }
}

/// One step of a removal.
///
/// The requested path is resolved beneath `root`; a path that cannot be
/// resolved is refused. A target that does not exist is acknowledged if the
/// request forces it and refused otherwise. A file is removed; a directory
/// is removed with all it holds if the request is recursive, and on its own
/// otherwise, which fails with a message of its own where the directory is
/// not empty. Every file-system failure is reported to the peer; an event
/// that does not answer the action asked for ends the connection.
pub fn handle_remove(root: &str, state: RemoveState, event: Event) -> (step: Step)
    ensures
        step_view(step) == remove_step(root@, state@, event@),
{
    match (state, event) {
        (RemoveState::Requested, Event::Received(Packet::Remove(path, force, recursive))) => {
            begin_remove(force, recursive, safe_join(root, path.as_str()))
        },
        (RemoveState::Check { force, .. }, Event::Exists(false)) => {
            if force {
                send_ok()
            } else {
                send_error("Path does not exist")
            }
        },
        (RemoveState::Check { full, recursive, .. }, Event::Exists(true)) => {
            let target = full.clone();
            (ServerState::Remove(RemoveState::Stat { full, recursive }), Action::Stat(target))
        },
        (RemoveState::Check { .. }, Event::Failed(_)) => send_error(
            "Failed to check path existence",
        ),
        (RemoveState::Stat { full, recursive }, Event::Metadata(found)) => match found.kind {
            FileKind::File => (ServerState::Remove(RemoveState::File), Action::RemoveFile(full)),
            FileKind::Dir => {
                if recursive {
                    (ServerState::Remove(RemoveState::Tree), Action::RemoveTree(full))
                } else {
                    (ServerState::Remove(RemoveState::Dir), Action::RemoveDir(full))
                }
            },
            FileKind::Other => send_ok(),
        },
        (RemoveState::Stat { .. }, Event::Failed(_)) => send_error("Failed to get path metadata"),
        (RemoveState::File, Event::Done) => send_ok(),
        (RemoveState::File, Event::Failed(_)) => send_error("Failed to delete file"),
        (RemoveState::Tree, Event::Done) => send_ok(),
        (RemoveState::Tree, Event::Failed(_)) => send_error(
            "Failed to delete directory recursively",
        ),
        (RemoveState::Dir, Event::Done) => send_ok(),
        (RemoveState::Dir, Event::Failed(Failure::NotEmpty)) => send_error(
            "Directory not empty (use recursive flag)",
        ),
        (RemoveState::Dir, Event::Failed(Failure::Other)) => send_error(
            "Failed to delete directory",
        ),
        _ => abandon_step(),
    }
}

/// The listing's entry for one walked entry: none for a directory, for an
/// entry whose metadata could not be read, and for one that does not lie
/// beneath `root`; otherwise the entry's path relative to `root`, with its
/// size.
pub open spec fn listed_entry(root: Seq<char>, entry: WalkedView) -> Option<FileView> {
    listed_as(entry, path_stripped(entry.path, root))
}

/// The listing's entry for a walked entry whose path relative to the root
/// is `relative`.
pub open spec fn listed_as(entry: WalkedView, relative: Option<Seq<char>>) -> Option<FileView> {
    if entry.is_dir {
        None
    } else {
        match (entry.size, relative) {
            (Some(size), Some(path)) => Some(FileView { path, size }),
            _ => None,
        }
    }
}

/// The value of an optional file.
pub open spec fn file_view(file: Option<File>) -> Option<FileView> {
    match file {
        Some(f) => Some(f@),
        None => None,
    }
}

/// The listing's entry for a walked entry whose path relative to the root
/// is `relative`: none for a directory, for an entry whose size is not
/// known, and for one that has no such path.
pub fn list_entry(entry: &Walked, relative: Option<String>) -> (file: Option<File>)
    ensures
        file_view(file) == listed_as(entry@, text_view(relative)),
{
    if entry.is_dir {
        None
    } else {
        match (entry.size, relative) {
            (Some(size), Some(path)) => Some(File { path, size }),
            _ => None,
        }
    }
}

/// The listing for walked entries: the entries that [`listed_entry`] gives,
/// in the order of the walk.
pub open spec fn listed(root: Seq<char>, entries: Seq<WalkedView>) -> Seq<FileView>
    decreases entries.len(),
{
    if entries.len() == 0 {
        Seq::empty()
    } else {
        let before = listed(root, entries.drop_last());
        match listed_entry(root, entries.last()) {
            Some(file) => before.push(file),
            None => before,
        }
    }
}

/// The files to list for the entries that a walk produced: every entry that
/// is no directory and whose size is known, by its path relative to `root`.
pub fn list_files(root: &str, entries: &Vec<Walked>) -> (files: Vec<File>)
    ensures
        files_view(files@) == listed(root@, walk_view(entries@)),
{
    let mut files: Vec<File> = Vec::new();
    let mut i: usize = 0;
    assert(walk_view(entries@).take(0) =~= Seq::<WalkedView>::empty());
    assert(files_view(files@) =~= Seq::<FileView>::empty());
    while i < entries.len()
        invariant
            i <= entries.len(),
            files_view(files@) == listed(root@, walk_view(entries@).take(i as int)),
        decreases entries.len() - i,
    {
        let ghost before = files_view(files@);
        let ghost seen = walk_view(entries@).take(i + 1);
        assert(seen.drop_last() =~= walk_view(entries@).take(i as int));
        assert(seen.last() == entries@[i as int]@);
        let entry = &entries[i];
        if !entry.is_dir {
            let relative = strip_prefix(entry.path.as_str(), root);
            if let Some(file) = list_entry(entry, relative) {
                files.push(file);
                assert(files_view(files@) =~= before.push(file@));
            }
        }
        i += 1;
    }
    assert(walk_view(entries@).take(i as int) =~= walk_view(entries@));
    files
}

/// The first step of a listing of `path`, which resolves to `resolved`.
pub open spec fn list_request(path: Seq<char>, resolved: Option<Seq<char>>) -> StepView {
    match resolved {
        Some(full) => (ServerStateView::List(ListStateView::Walk { path }), ActionView::Walk(full)),
        None => refuse("Invalid path"@),
    }
}

/// The first step of a listing of `path`, which resolves to `resolved`: a
/// path that does not resolve is refused, and the tree below one that does
/// is walked.
pub fn begin_list(path: String, resolved: Option<String>) -> (step: Step)
    ensures
        step_view(step) == list_request(path@, text_view(resolved)),
{
    match resolved {
        Some(full) => (ServerState::List(ListState::Walk { path }), Action::Walk(full)),
        None => send_error("Invalid path"),
    }
}

/// What [`handle_list`] returns.
pub open spec fn list_step(root: Seq<char>, state: ListStateView, event: EventView) -> StepView {
    match (state, event) {
        (ListStateView::Requested, EventView::Received(PacketView::List(path, _))) => {
            list_request(path, safe_join_spec(root, path))
        },
        (ListStateView::Walk { path }, EventView::Walked(entries)) => (
            ServerStateView::List(ListStateView::Send),
            ActionView::Send(PacketView::List(path, listed(root, entries))),
        ),
        (ListStateView::Send, EventView::Sent) => accept(),
        _ => abandon(),
    }
}

/// One step of a listing.
///
/// The requested path is resolved beneath `root`; a path that cannot be
/// resolved is refused. The tree below it is walked, and the peer is sent
/// the requested path with the files that [`list_files`] finds among the
/// walked entries, followed by the acknowledgement. A failure to send, or
/// an event that does not answer the action asked for, ends the
/// connection.
pub fn handle_list(root: &str, state: ListState, event: Event) -> (step: Step)
    ensures
        step_view(step) == list_step(root@, state@, event@),
{
    match (state, event) {
        (ListState::Requested, Event::Received(Packet::List(path, _))) => {
            let resolved = safe_join(root, path.as_str());
            begin_list(path, resolved)
        },
        (ListState::Walk { path }, Event::Walked(entries)) => {
            let files = list_files(root, &entries);
            (ServerState::List(ListState::Send), Action::Send(Packet::List(path, files)))
        },
        (ListState::Send, Event::Sent) => send_ok(),
        _ => abandon_step(),
    }
}

/// The message that refuses a packet which is no request.
pub open spec fn unsupported(packet: PacketView) -> Seq<char> {
    "Unsupported packet `"@ + packet.name() + "`"@
}

/// What [`handle_connection`] returns.
pub open spec fn connection_step(
    root: Seq<char>,
    state: ServerStateView,
    event: EventView,
) -> StepView {
    match state {
        ServerStateView::AwaitRequest => match event {
            EventView::Received(packet) => match packet {
                PacketView::DownloadStart(_, _, _) => download_step(
                    root,
                    DownloadStateView::Requested,
                    event,
                ),
                PacketView::UploadStart(_, _, _, _) => upload_step(
                    root,
                    UploadStateView::Requested,
                    event,
                ),
                PacketView::List(_, _) => list_step(root, ListStateView::Requested, event),
                PacketView::Remove(_, _, _) => remove_step(
                    root,
                    RemoveStateView::Requested,
                    event,
                ),
                PacketView::Ping => accept(),
                _ => refuse(unsupported(packet)),
            },
            EventView::ReceiveFailed => refuse("Failed to read packet"@),
            _ => abandon(),
        },
        ServerStateView::Download(download) => download_step(root, download, event),
        ServerStateView::Upload(upload) => upload_step(root, upload, event),
        ServerStateView::Remove(remove) => remove_step(root, remove, event),
        ServerStateView::List(list) => list_step(root, list, event),
        ServerStateView::Replying(outcome) => (ServerStateView::Closed(outcome), ActionView::Close),
        ServerStateView::Closed(outcome) => (ServerStateView::Closed(outcome), ActionView::Close),
    }
}

/// One step of a connection.
///
/// While the request is awaited, a request is handed to the handler of its
/// operation, a ping is acknowledged, any other packet is refused by name,
/// and a packet that cannot be read is reported to the peer. Afterwards the
/// step is the handler's. Once the terminal packet has been asked for, the
/// next event, whatever it is, asks for the connection to be shut down, and
/// the machine stays there.
pub fn handle_connection(root: &str, state: ServerState, event: Event) -> (step: Step)
    ensures
        step_view(step) == connection_step(root@, state@, event@),
{
    match state {
        ServerState::AwaitRequest => match event {
            Event::Received(packet) => match packet {
                Packet::DownloadStart(_, _, _) => handle_download(
                    root,
                    DownloadState::Requested,
                    Event::Received(packet),
                ),
                Packet::UploadStart(_, _, _, _) => handle_upload(
                    root,
                    UploadState::Requested,
                    Event::Received(packet),
                ),
                Packet::List(_, _) => handle_list(
                    root,
                    ListState::Requested,
                    Event::Received(packet),
                ),
                Packet::Remove(_, _, _) => handle_remove(
                    root,
                    RemoveState::Requested,
                    Event::Received(packet),
                ),
                Packet::Ping => send_ok(),
                _ => {
                    let mut message = "Unsupported packet `".to_owned();
                    message.append(packet.name());
                    message.append("`");
                    (ServerState::Replying(Outcome::Failure), Action::Send(Packet::Error(message)))
                },
            },
            Event::ReceiveFailed => send_error("Failed to read packet"),
            _ => abandon_step(),
        },
        ServerState::Download(download) => handle_download(root, download, event),
        ServerState::Upload(upload) => handle_upload(root, upload, event),
        ServerState::Remove(remove) => handle_remove(root, remove, event),
        ServerState::List(list) => handle_list(root, list, event),
        ServerState::Replying(outcome) => (ServerState::Closed(outcome), Action::Close),
        ServerState::Closed(outcome) => (ServerState::Closed(outcome), Action::Close),
    }
}

/// The state that a connection reaches from `state` when its driver reports
/// `events` one after another, with the actions it asks for on the way.
pub open spec fn run(root: Seq<char>, state: ServerStateView, events: Seq<EventView>) -> (
    ServerStateView,
    Seq<ActionView>,
)
    decreases events.len(),
{
    if events.len() == 0 {
        (state, Seq::empty())
    } else {
        let (before, actions) = run(root, state, events.drop_last());
        let (next, action) = connection_step(root, before, events.last());
        (next, actions.push(action))
    }
}

/// The number of bytes that arrive in the upload chunks among `events`.
pub open spec fn bytes_arrived(events: Seq<EventView>) -> nat
    decreases events.len(),
{
    if events.len() == 0 {
        0
    } else {
        let last: nat = match events.last() {
            EventView::Received(PacketView::UploadChunk(data)) => data.len(),
            _ => 0,
        };
        bytes_arrived(events.drop_last()) + last
    }
}

/// What holds of a connection that serves an upload of `size` bytes, once
/// `written` bytes have been handed to the file.
pub open spec fn upload_accounted(size: u64, state: ServerStateView, written: nat) -> bool {
    match state {
        ServerStateView::Upload(UploadStateView::Ready(upload)) => upload.size == size && written
            == 0,
        ServerStateView::Upload(UploadStateView::Dirs(upload)) => upload.size == size && written
            == 0,
        ServerStateView::Upload(UploadStateView::Probe(upload)) => upload.size == size && written
            == 0,
        ServerStateView::Upload(UploadStateView::Create(upload)) => upload.size == size && written
            == 0,
        ServerStateView::Upload(UploadStateView::Mode(upload)) => upload.size == size && written
            == 0,
        ServerStateView::Upload(UploadStateView::Receive(progress)) => progress_counts(
            size,
            progress,
            written,
        ),
        ServerStateView::Upload(UploadStateView::Write(progress)) => progress_counts(
            size,
            progress,
            written,
        ),
        ServerStateView::Replying(Outcome::Success) => written == size,
        ServerStateView::Closed(Outcome::Success) => written == size,
        ServerStateView::Replying(Outcome::Failure) => true,
        ServerStateView::Closed(Outcome::Failure) => true,
        _ => false,
    }
}

/// The bytes of an upload are accounted for at every moment of its
/// connection.
pub proof fn lemma_upload_accounted(
    root: Seq<char>,
    path: Seq<char>,
    size: u64,
    mode: u32,
    force: bool,
    events: Seq<EventView>,
)
    requires
        events.len() > 0,
        events[0] == EventView::Received(PacketView::UploadStart(path, size, mode, force)),
    ensures
        upload_accounted(
            size,
            run(root, ServerStateView::AwaitRequest, events).0,
            bytes_written(run(root, ServerStateView::AwaitRequest, events).1),
        ),
    decreases events.len(),
{
    let (before, actions) = run(root, ServerStateView::AwaitRequest, events.drop_last());
    let (next, action) = connection_step(root, before, events.last());
    lemma_written_push(actions, action);
    if events.len() == 1 {
        assert(events.drop_last().len() == 0);
        assert(events.last() == events[0]);
    } else {
        assert(events.drop_last()[0] == events[0]);
        lemma_upload_accounted(root, path, size, mode, force, events.drop_last());
    }
}

/// Upload size invariant: a connection that has served an upload and ended
/// it with success has written exactly the announced number of bytes.
pub proof fn lemma_upload_success_writes_size(
    root: Seq<char>,
    path: Seq<char>,
    size: u64,
    mode: u32,
    force: bool,
    events: Seq<EventView>,
)
    requires
        events.len() > 0,
        events[0] == EventView::Received(PacketView::UploadStart(path, size, mode, force)),
        run(root, ServerStateView::AwaitRequest, events).0 == ServerStateView::Closed(
            Outcome::Success,
        ),
    ensures
        bytes_written(run(root, ServerStateView::AwaitRequest, events).1) == size,
{
    lemma_upload_accounted(root, path, size, mode, force, events);
}

/// Upload size invariant: when the end-of-stream marker arrives, the upload
/// is acknowledged if exactly the announced number of bytes has been
/// written, and refused as a size mismatch otherwise.
pub proof fn lemma_upload_end_checks_size(
    root: Seq<char>,
    path: Seq<char>,
    size: u64,
    mode: u32,
    force: bool,
    events: Seq<EventView>,
)
    requires
        events.len() > 0,
        events[0] == EventView::Received(PacketView::UploadStart(path, size, mode, force)),
        run(root, ServerStateView::AwaitRequest, events).0 is Upload,
        run(root, ServerStateView::AwaitRequest, events).0->Upload_0 is Receive,
    ensures
        connection_step(
            root,
            run(root, ServerStateView::AwaitRequest, events).0,
            EventView::Received(PacketView::UploadEnd),
        ) == if bytes_written(run(root, ServerStateView::AwaitRequest, events).1) == size {
            accept()
        } else {
            refuse("File size mismatch"@)
        },
{
    lemma_upload_accounted(root, path, size, mode, force, events);
}

/// A connection writes to a file only what arrived in upload chunks: at no
/// moment has it written more bytes than the chunks read so far hold.
pub proof fn lemma_writes_only_what_arrived(root: Seq<char>, events: Seq<EventView>)
    ensures
        bytes_written(run(root, ServerStateView::AwaitRequest, events).1) <= bytes_arrived(events),
    decreases events.len(),
{
    if events.len() > 0 {
        let (before, actions) = run(root, ServerStateView::AwaitRequest, events.drop_last());
        let (next, action) = connection_step(root, before, events.last());
        lemma_written_push(actions, action);
        lemma_writes_only_what_arrived(root, events.drop_last());
    }
}

/// Upload size invariant: as long as the chunks that arrive hold no more
/// than `size` bytes, no more than `size` bytes are written.
pub proof fn lemma_upload_writes_at_most_size(root: Seq<char>, size: u64, events: Seq<EventView>)
    requires
        bytes_arrived(events) <= size,
    ensures
        bytes_written(run(root, ServerStateView::AwaitRequest, events).1) <= size,
{
    lemma_writes_only_what_arrived(root, events);
}

/// Removing a path that does not exist succeeds when forced: the
/// connection asks whether the target exists, acknowledges, and closes. It
/// asks for nothing that would change the file system, so the same request
/// meets the same answer again.
pub proof fn lemma_forced_remove_of_missing_path(
    root: Seq<char>,
    path: Seq<char>,
    recursive: bool,
    sent: EventView,
)
    requires
        safe_join_spec(root, path) is Some,
    ensures
        run(
            root,
            ServerStateView::AwaitRequest,
            seq![
                EventView::Received(PacketView::Remove(path, true, recursive)),
                EventView::Exists(false),
                sent,
            ],
        ) == (
            ServerStateView::Closed(Outcome::Success),
            seq![
                ActionView::Exists(safe_join_spec(root, path)->0),
                ActionView::Send(PacketView::Ack),
                ActionView::Close,
            ],
        ),
{
    let full = safe_join_spec(root, path)->0;
    let request = EventView::Received(PacketView::Remove(path, true, recursive));
    let e3 = seq![request, EventView::Exists(false), sent];
    let e2 = seq![request, EventView::Exists(false)];
    let e1 = seq![request];
    assert(e3.drop_last() =~= e2);
    assert(e2.drop_last() =~= e1);
    assert(e1.drop_last() =~= Seq::<EventView>::empty());
    let start = ServerStateView::AwaitRequest;
    assert(run(root, start, e1.drop_last()) == (start, Seq::<ActionView>::empty()));
    assert(run(root, start, e1).1 =~= seq![ActionView::Exists(full)]);
    assert(run(root, start, e2).1 =~= seq![
        ActionView::Exists(full),
        ActionView::Send(PacketView::Ack),
    ]);
    assert(run(root, start, e3).1 =~= seq![
        ActionView::Exists(full),
        ActionView::Send(PacketView::Ack),
        ActionView::Close,
    ]);
}

/// Every file of a listing is a walked entry that is no directory, by its
/// path relative to `root` and with its size.
pub proof fn lemma_listed_from_walk(root: Seq<char>, entries: Seq<WalkedView>, i: int)
    requires
        0 <= i < listed(root, entries).len(),
    ensures
        exists|k: int|
            0 <= k < entries.len() && listed_entry(root, #[trigger] entries[k]) == Some(
                listed(root, entries)[i],
            ),
    decreases entries.len(),
{
    if entries.len() > 0 {
        let before = listed(root, entries.drop_last());
        if i < before.len() {
            lemma_listed_from_walk(root, entries.drop_last(), i);
            let k = choose|k: int|
                0 <= k < entries.drop_last().len() && listed_entry(
                    root,
                    #[trigger] entries.drop_last()[k],
                ) == Some(before[i]);
            assert(entries[k] == entries.drop_last()[k]);
        } else {
            assert(listed_entry(root, entries[entries.len() - 1]) == Some(
                listed(root, entries)[i],
            ));
        }
    }
}

/// The actions that `run` gives are as many as the events.
pub proof fn lemma_run_len(root: Seq<char>, state: ServerStateView, events: Seq<EventView>)
    ensures
        run(root, state, events).1.len() == events.len(),
    decreases events.len(),
{
    if events.len() > 0 {
        lemma_run_len(root, state, events.drop_last());
    }
}

/// A connection that has closed stays closed: whatever is reported to it,
/// it asks for nothing but the close.
pub proof fn lemma_closed_stays(root: Seq<char>, outcome: Outcome, events: Seq<EventView>)
    ensures
        run(root, ServerStateView::Closed(outcome), events).0 == ServerStateView::Closed(outcome),
        forall|i: int|
            0 <= i < events.len() ==> run(root, ServerStateView::Closed(outcome), events).1[i]
                == ActionView::Close,
    decreases events.len(),
{
    if events.len() > 0 {
        lemma_closed_stays(root, outcome, events.drop_last());
        lemma_run_len(root, ServerStateView::Closed(outcome), events.drop_last());
    }
}

/// The terminal packet is the last that a connection sends: once it has
/// been asked for, the connection closes at the next event, with the
/// outcome it had, and asks for nothing but the close.
pub proof fn lemma_terminal_packet_is_last(root: Seq<char>, outcome: Outcome, events: Seq<EventView>)
    requires
        events.len() > 0,
    ensures
        run(root, ServerStateView::Replying(outcome), events).0 == ServerStateView::Closed(
            outcome,
        ),
        forall|i: int|
            0 <= i < events.len() ==> run(root, ServerStateView::Replying(outcome), events).1[i]
                == ActionView::Close,
    decreases events.len(),
{
    let start = ServerStateView::Replying(outcome);
    if events.len() == 1 {
        assert(events.drop_last().len() == 0);
    } else {
        lemma_terminal_packet_is_last(root, outcome, events.drop_last());
        lemma_run_len(root, start, events.drop_last());
    }
}

/// Whether `sent` is the header of a download followed by chunks, none of
/// them empty.
pub open spec fn is_stream_start(sent: Seq<PacketView>) -> bool {
    &&& sent.len() >= 1
    &&& sent[0] is DownloadStart
    &&& forall|i: int|
        1 <= i < sent.len() ==> (#[trigger] sent[i] matches PacketView::DownloadChunk(data)
            && data.len() > 0)
}

/// Whether `sent` is a whole download: the header, chunks, none of them
/// empty, the end-of-stream marker, and the acknowledgement.
pub open spec fn is_whole_stream(sent: Seq<PacketView>) -> bool {
    &&& sent.len() >= 3
    &&& is_stream_start(sent.take(sent.len() - 2))
    &&& sent[sent.len() - 2] == PacketView::DownloadEnd
    &&& sent[sent.len() - 1] == PacketView::Ack
}

/// What holds of the packets `sent` on a connection that serves a download.
pub open spec fn download_shaped(state: ServerStateView, sent: Seq<PacketView>) -> bool {
    match state {
        ServerStateView::Download(DownloadStateView::Requested) => false,
        ServerStateView::Download(DownloadStateView::Stat { .. }) => sent.len() == 0,
        ServerStateView::Download(DownloadStateView::End) => sent.len() >= 2 && is_stream_start(
            sent.drop_last(),
        ) && sent.last() == PacketView::DownloadEnd,
        ServerStateView::Download(_) => is_stream_start(sent),
        ServerStateView::Replying(Outcome::Success) => is_whole_stream(sent),
        ServerStateView::Closed(Outcome::Success) => is_whole_stream(sent),
        ServerStateView::Replying(Outcome::Failure) => true,
        ServerStateView::Closed(Outcome::Failure) => true,
        _ => false,
    }
}

/// The packets of a download have their shape at every moment of its
/// connection.
pub proof fn lemma_download_shaped(
    root: Seq<char>,
    path: Seq<char>,
    size: u64,
    mode: u32,
    events: Seq<EventView>,
)
    requires
        events.len() > 0,
        events[0] == EventView::Received(PacketView::DownloadStart(path, size, mode)),
    ensures
        download_shaped(
            run(root, ServerStateView::AwaitRequest, events).0,
            packets_sent(run(root, ServerStateView::AwaitRequest, events).1),
        ),
    decreases events.len(),
{
    let (before, actions) = run(root, ServerStateView::AwaitRequest, events.drop_last());
    let (next, action) = connection_step(root, before, events.last());
    let sent = packets_sent(actions);
    assert(actions.push(action).drop_last() =~= actions);
    if events.len() == 1 {
        assert(events.drop_last().len() == 0);
        assert(events.last() == events[0]);
    } else {
        assert(events.drop_last()[0] == events[0]);
        lemma_download_shaped(root, path, size, mode, events.drop_last());
        match action {
            ActionView::Send(packet) => {
                let after = sent.push(packet);
                assert(after.drop_last() =~= sent);
                if before == ServerStateView::Download(DownloadStateView::End) {
                    assert(after.take(after.len() - 2) =~= sent.drop_last());
                }
            },
            _ => {},
        }
    }
}

/// A download that the server has served with success was sent as the
/// header that announces it, chunks none of which is empty, exactly one
/// end-of-stream marker, and the acknowledgement.
pub proof fn lemma_download_success_is_whole_stream(
    root: Seq<char>,
    path: Seq<char>,
    size: u64,
    mode: u32,
    events: Seq<EventView>,
)
    requires
        events.len() > 0,
        events[0] == EventView::Received(PacketView::DownloadStart(path, size, mode)),
        run(root, ServerStateView::AwaitRequest, events).0 == ServerStateView::Closed(
            Outcome::Success,
        ),
    ensures
        is_whole_stream(packets_sent(run(root, ServerStateView::AwaitRequest, events).1)),
{
    lemma_download_shaped(root, path, size, mode, events);
}

} // verus!

//! What a connection's state machine asks of the code that drives it, and
//! what that code reports back.
//!
//! The machines of [`crate::server`] and [`crate::client`] perform no I/O.
//! Each step returns one [`Action`]; the driver performs it on the socket or
//! the file system and hands the outcome back as an [`Event`].

use crate::packet::{Packet, PacketView};
use vstd::prelude::*;

verus! {

/// What a path on disk turned out to be.
#[derive(Debug, Clone, Copy, PartialEq, Eq, Structural)]
pub enum FileKind {
    File,
    Dir,
    Other,
}

/// What the file system tells about a path.
#[derive(Debug, Clone, Copy, PartialEq, Eq, Structural)]
pub struct Metadata {
    pub kind: FileKind,
    /// Length in bytes.
    pub size: u64,
    /// Unix permission bits, 0 where there are none.
    pub mode: u32,
}

/// Why a file-system action failed, as far as the machines tell causes apart.
#[derive(Debug, Clone, Copy, PartialEq, Eq, Structural)]
pub enum Failure {
    /// A directory still had entries.
    NotEmpty,
    /// Anything else.
    Other,
}

/// One entry met while walking a directory tree.
#[derive(Debug, Clone, PartialEq, Eq)]
pub struct Walked {
    /// The entry's path as the walk produced it.
    pub path: String,
    pub is_dir: bool,
    /// The entry's length, where its metadata could be read.
    pub size: Option<u64>,
}

/// The mathematical value of a [`Walked`].
pub struct WalkedView {
    pub path: Seq<char>,
    pub is_dir: bool,
    pub size: Option<u64>,
}

impl View for Walked {
    type V = WalkedView;

    open spec fn view(&self) -> WalkedView {
        WalkedView { path: self.path@, is_dir: self.is_dir, size: self.size }
    }
}

/// The values of a sequence of walked entries, in order.
pub open spec fn walk_view(entries: Seq<Walked>) -> Seq<WalkedView> {
    Seq::new(entries.len(), |i: int| entries[i]@)
}

/// The outcome of the action that a machine asked for last.
#[derive(Debug, Clone, PartialEq, Eq)]
pub enum Event {
    /// A packet arrived.
    Received(Packet),
    /// No packet could be read: the stream ended or the frame was malformed.
    ReceiveFailed,
    /// The packet was written.
    Sent,
    /// The packet could not be written.
    SendFailed,
    /// Whether the path exists.
    Exists(bool),
    /// The metadata of the path.
    Metadata(Metadata),
    /// The bytes read from the open file; none at its end.
    Data(Vec<u8>),
    /// The entries of the tree, directories before their contents.
    Walked(Vec<Walked>),
    /// The action succeeded and has nothing to report.
    Done,
    /// The action failed.
    Failed(Failure),
}

/// The mathematical value of an [`Event`].
pub enum EventView {
    Received(PacketView),
    ReceiveFailed,
    Sent,
    SendFailed,
    Exists(bool),
    Metadata(Metadata),
    Data(Seq<u8>),
    Walked(Seq<WalkedView>),
    Done,
    Failed(Failure),
}

impl View for Event {
    type V = EventView;

    open spec fn view(&self) -> EventView {
        match self {
            Event::Received(p) => EventView::Received(p@),
            Event::ReceiveFailed => EventView::ReceiveFailed,
            Event::Sent => EventView::Sent,
            Event::SendFailed => EventView::SendFailed,
            Event::Exists(b) => EventView::Exists(*b),
            Event::Metadata(m) => EventView::Metadata(*m),
            Event::Data(d) => EventView::Data(d@),
            Event::Walked(w) => EventView::Walked(walk_view(w@)),
            Event::Done => EventView::Done,
            Event::Failed(f) => EventView::Failed(*f),
        }
    }
}

/// What a machine asks its driver to do next.
#[derive(Debug, Clone, PartialEq, Eq)]
pub enum Action {
    /// Open the connection to the server.
    Connect,
    /// Read one packet from the peer.
    Receive,
    /// Write this packet to the peer.
    Send(Packet),
    /// Tell whether the path exists.
    Exists(String),
    /// Read the metadata of the path.
    Stat(String),
    /// Create the directory and all its parents.
    CreateDirs(String),
    /// Create the file, or truncate it, and keep it open for writing.
    Create(String),
    /// Set the permission bits of the file that is open for writing.
    SetMode(u32),
    /// Append the bytes to the file that is open for writing.
    Write(Vec<u8>),
    /// Open the file for reading.
    Open(String),
    /// Read at most this many bytes from the file that is open for reading.
    Read(usize),
    /// Remove the file.
    RemoveFile(String),
    /// Remove the directory, which must be empty.
    RemoveDir(String),
    /// Remove the directory and all it holds.
    RemoveTree(String),
    /// Walk the tree below the path, depth first.
    Walk(String),
    /// Shut the connection down: the machine has finished.
    Close,
}

/// The mathematical value of an [`Action`].
pub enum ActionView {
    Connect,
    Receive,
    Send(PacketView),
    Exists(Seq<char>),
    Stat(Seq<char>),
    CreateDirs(Seq<char>),
    Create(Seq<char>),
    SetMode(u32),
    Write(Seq<u8>),
    Open(Seq<char>),
    Read(usize),
    RemoveFile(Seq<char>),
    RemoveDir(Seq<char>),
    RemoveTree(Seq<char>),
    Walk(Seq<char>),
    Close,
}

impl View for Action {
    type V = ActionView;

    open spec fn view(&self) -> ActionView {
        match self {
            Action::Connect => ActionView::Connect,
            Action::Receive => ActionView::Receive,
            Action::Send(p) => ActionView::Send(p@),
            Action::Exists(p) => ActionView::Exists(p@),
            Action::Stat(p) => ActionView::Stat(p@),
            Action::CreateDirs(p) => ActionView::CreateDirs(p@),
            Action::Create(p) => ActionView::Create(p@),
            Action::SetMode(m) => ActionView::SetMode(*m),
            Action::Write(d) => ActionView::Write(d@),
            Action::Open(p) => ActionView::Open(p@),
            Action::Read(n) => ActionView::Read(*n),
            Action::RemoveFile(p) => ActionView::RemoveFile(p@),
            Action::RemoveDir(p) => ActionView::RemoveDir(p@),
            Action::RemoveTree(p) => ActionView::RemoveTree(p@),
            Action::Walk(p) => ActionView::Walk(p@),
            Action::Close => ActionView::Close,
        }
    }
}

/// How an operation ended.
#[derive(Debug, Clone, Copy, PartialEq, Eq, Structural)]
pub enum Outcome {
    Success,
    Failure,
}

/// The number of bytes that `actions` append to the file open for writing.
pub open spec fn bytes_written(actions: Seq<ActionView>) -> nat
    decreases actions.len(),
{
    if actions.len() == 0 {
        0
    } else {
        let last: nat = match actions.last() {
            ActionView::Write(data) => data.len(),
            _ => 0,
        };
        bytes_written(actions.drop_last()) + last
    }
}

/// How much of a transfer's body has arrived.
///
/// `received` counts the bytes of the chunks so far as long as they do not
/// pass `size`; once they do, `exceeded` is set and `received` stays.
#[derive(Debug, Clone, Copy, PartialEq, Eq, Structural)]
pub struct Progress {
    pub size: u64,
    pub received: u64,
    pub exceeded: bool,
}

/// The progress of a transfer of `size` bytes of which nothing has arrived.
pub open spec fn progress_start(size: u64) -> Progress {
    Progress { size, received: 0, exceeded: false }
}

/// The progress after a chunk of `len` bytes has arrived.
pub open spec fn progress_after(progress: Progress, len: nat) -> Progress {
    if progress.exceeded || len > progress.size - progress.received {
        Progress { size: progress.size, received: progress.received, exceeded: true }
    } else {
        Progress {
            size: progress.size,
            received: (progress.received + len) as u64,
            exceeded: false,
        }
    }
}

/// Whether the chunks that arrived hold exactly the announced number of
/// bytes.
pub open spec fn progress_complete(progress: Progress) -> bool {
    !progress.exceeded && progress.received == progress.size
}

impl Progress {
    /// The progress of a transfer of `size` bytes of which nothing has
    /// arrived.
    pub fn start(size: u64) -> (progress: Progress)
        ensures
            progress == progress_start(size),
    {
        Progress { size, received: 0, exceeded: false }
    }

    /// The progress after a chunk of `len` bytes has arrived.
    pub fn after(self, len: usize) -> (progress: Progress)
        ensures
            progress == progress_after(self, len as nat),
    {
        if self.exceeded || self.received > self.size || len as u64 > self.size - self.received {
            Progress { size: self.size, received: self.received, exceeded: true }
        } else {
            Progress { size: self.size, received: self.received + len as u64, exceeded: false }
        }
    }

    /// Whether the chunks that arrived hold exactly the announced number of
    /// bytes.
    pub fn complete(self) -> (complete: bool)
        ensures
            complete == progress_complete(self),
    {
        !self.exceeded && self.received == self.size
    }
}

/// Whether `progress` stands for `written` bytes of a transfer of `size`
/// bytes: it counts them exactly, or records that they are more than `size`.
pub open spec fn progress_counts(size: u64, progress: Progress, written: nat) -> bool {
    &&& progress.size == size
    &&& if progress.exceeded {
        written > size
    } else {
        written == progress.received && progress.received <= size
    }
}

/// One more action adds the bytes it writes.
pub proof fn lemma_written_push(actions: Seq<ActionView>, action: ActionView)
    ensures
        bytes_written(actions.push(action)) == bytes_written(actions) + match action {
            ActionView::Write(data) => data.len(),
            _ => 0,
        },
{
    assert(actions.push(action).drop_last() =~= actions);
}

/// The packets that `actions` send, in order.
pub open spec fn packets_sent(actions: Seq<ActionView>) -> Seq<PacketView>
    decreases actions.len(),
{
    if actions.len() == 0 {
        Seq::empty()
    } else {
        match actions.last() {
            ActionView::Send(packet) => packets_sent(actions.drop_last()).push(packet),
            _ => packets_sent(actions.drop_last()),
        }
    }
}

/// One more action adds the packet it sends.
pub proof fn lemma_sent_push(actions: Seq<ActionView>, action: ActionView)
    ensures
        packets_sent(actions.push(action)) == match action {
            ActionView::Send(packet) => packets_sent(actions).push(packet),
            _ => packets_sent(actions),
        },
{
    assert(actions.push(action).drop_last() =~= actions);
}

} // verus!

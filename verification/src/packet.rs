//! The messages exchanged between client and server.

use vstd::prelude::*;

verus! {

/// One file of a listing: its path relative to the storage root and its size.
#[derive(Debug, Clone, PartialEq, Eq)]
pub struct File {
    pub path: String,
    pub size: u64,
}

/// The mathematical value of a [`File`].
pub struct FileView {
    pub path: Seq<char>,
    pub size: u64,
}

impl View for File {
    type V = FileView;

    open spec fn view(&self) -> FileView {
        FileView { path: self.path@, size: self.size }
    }
}

/// A protocol message. The order of the variants is the order of their
/// discriminators on the wire.
#[derive(Debug, Clone, PartialEq, Eq)]
pub enum Packet {
    Ack,
    Error(String),
    DownloadStart(String, u64, u32),
    DownloadChunk(Vec<u8>),
    DownloadEnd,
    UploadStart(String, u64, u32, bool),
    UploadChunk(Vec<u8>),
    UploadEnd,
    List(String, Vec<File>),
    Remove(String, bool, bool),
    Ping,
}

/// The mathematical value of a [`Packet`].
pub enum PacketView {
    Ack,
    Error(Seq<char>),
    DownloadStart(Seq<char>, u64, u32),
    DownloadChunk(Seq<u8>),
    DownloadEnd,
    UploadStart(Seq<char>, u64, u32, bool),
    UploadChunk(Seq<u8>),
    UploadEnd,
    List(Seq<char>, Seq<FileView>),
    Remove(Seq<char>, bool, bool),
    Ping,
}

/// The values of a sequence of files, in order.
pub open spec fn files_view(files: Seq<File>) -> Seq<FileView> {
    Seq::new(files.len(), |i: int| files[i]@)
}

impl View for Packet {
    type V = PacketView;

    open spec fn view(&self) -> PacketView {
        match self {
            Packet::Ack => PacketView::Ack,
            Packet::Error(m) => PacketView::Error(m@),
            Packet::DownloadStart(p, s, m) => PacketView::DownloadStart(p@, *s, *m),
            Packet::DownloadChunk(d) => PacketView::DownloadChunk(d@),
            Packet::DownloadEnd => PacketView::DownloadEnd,
            Packet::UploadStart(p, s, m, f) => PacketView::UploadStart(p@, *s, *m, *f),
            Packet::UploadChunk(d) => PacketView::UploadChunk(d@),
            Packet::UploadEnd => PacketView::UploadEnd,
            Packet::List(p, e) => PacketView::List(p@, files_view(e@)),
            Packet::Remove(p, f, r) => PacketView::Remove(p@, *f, *r),
            Packet::Ping => PacketView::Ping,
        }
    }
}

impl PacketView {
    /// The variant's name.
    pub open spec fn name(self) -> Seq<char> {
        match self {
            PacketView::Ack => "Ok"@,
            PacketView::Error(_) => "Error"@,
            PacketView::DownloadStart(_, _, _) => "DownloadStart"@,
            PacketView::DownloadChunk(_) => "DownloadChunk"@,
            PacketView::DownloadEnd => "DownloadEnd"@,
            PacketView::UploadStart(_, _, _, _) => "UploadStart"@,
            PacketView::UploadChunk(_) => "UploadChunk"@,
            PacketView::UploadEnd => "UploadEnd"@,
            PacketView::List(_, _) => "List"@,
            PacketView::Remove(_, _, _) => "Remove"@,
            PacketView::Ping => "Ping"@,
        }
    }

    /// The variant's discriminator on the wire.
    pub open spec fn tag(self) -> u32 {
        match self {
            PacketView::Ack => 0,
            PacketView::Error(_) => 1,
            PacketView::DownloadStart(_, _, _) => 2,
            PacketView::DownloadChunk(_) => 3,
            PacketView::DownloadEnd => 4,
            PacketView::UploadStart(_, _, _, _) => 5,
            PacketView::UploadChunk(_) => 6,
            PacketView::UploadEnd => 7,
            PacketView::List(_, _) => 8,
            PacketView::Remove(_, _, _) => 9,
            PacketView::Ping => 10,
        }
    }
}

impl Packet {
    /// The variant's name, as it is shown in messages.
    pub fn name(&self) -> (s: &'static str)
        ensures
            s@ == self@.name(),
    {
        match self {
            Packet::Ack => "Ok",
            Packet::Error(_) => "Error",
            Packet::DownloadStart(_, _, _) => "DownloadStart",
            Packet::DownloadChunk(_) => "DownloadChunk",
            Packet::DownloadEnd => "DownloadEnd",
            Packet::UploadStart(_, _, _, _) => "UploadStart",
            Packet::UploadChunk(_) => "UploadChunk",
            Packet::UploadEnd => "UploadEnd",
            Packet::List(_, _) => "List",
            Packet::Remove(_, _, _) => "Remove",
            Packet::Ping => "Ping",
        }
    }
}

} // verus!

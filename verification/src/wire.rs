//! The encoding of packets as bytes, and the framing of encoded packets on
//! a byte stream.
//!
//! A packet is encoded as its discriminator, a 32-bit integer, followed by
//! its fields in declared order. Integers are fixed-width and little-endian,
//! a boolean is one byte, 0 or 1, and strings, byte vectors and lists carry
//! their length in front, as a 64-bit integer. A frame is the length of an
//! encoded packet, as a 32-bit big-endian integer, followed by the encoded
//! packet.

use crate::packet::{File, FileView, Packet, PacketView, files_view};
use vstd::prelude::*;
use vstd::slice::{slice_subrange, slice_to_vec};
use vstd::utf8::{decode_utf8, encode_utf8, valid_utf8};

verus! {

/// Why a packet could not be read or written.
#[derive(Debug, Clone, Copy, PartialEq, Eq, Structural)]
pub enum FramingError {
    /// The bytes end before the frame does.
    ShortRead,
    /// The encoded packet is longer than a frame's length prefix can say.
    Oversize,
    /// The payload is no encoded packet.
    Malformed,
    /// The connection has been shut down.
    Closed,
}

/// The four bytes of `value`, least significant first.
pub open spec fn u32_le(value: u32) -> Seq<u8> {
    seq![
        (value % 256) as u8,
        (value / 256 % 256) as u8,
        (value / 65536 % 256) as u8,
        (value / 16777216) as u8,
    ]
}

/// The four bytes of `value`, most significant first.
pub open spec fn u32_be(value: u32) -> Seq<u8> {
    seq![
        (value / 16777216) as u8,
        (value / 65536 % 256) as u8,
        (value / 256 % 256) as u8,
        (value % 256) as u8,
    ]
}

/// The eight bytes of `value`, least significant first.
pub open spec fn u64_le(value: u64) -> Seq<u8> {
    u32_le((value % 4294967296) as u32) + u32_le((value / 4294967296) as u32)
}

/// The integer whose four bytes, least significant first, are at `at` in
/// `bytes`.
pub open spec fn u32_le_at(bytes: Seq<u8>, at: int) -> u32 {
    (bytes[at] + 256 * bytes[at + 1] + 65536 * bytes[at + 2] + 16777216 * bytes[at + 3]) as u32
}

/// The integer whose four bytes, most significant first, are at `at` in
/// `bytes`.
pub open spec fn u32_be_at(bytes: Seq<u8>, at: int) -> u32 {
    (16777216 * bytes[at] + 65536 * bytes[at + 1] + 256 * bytes[at + 2] + bytes[at + 3]) as u32
}

/// The integer whose eight bytes, least significant first, are at `at` in
/// `bytes`.
pub open spec fn u64_le_at(bytes: Seq<u8>, at: int) -> u64 {
    (u32_le_at(bytes, at) + 4294967296 * u32_le_at(bytes, at + 4)) as u64
}

/// Whether `part` stands in `bytes` from `at` on.
pub open spec fn holds_at(bytes: Seq<u8>, at: int, part: Seq<u8>) -> bool {
    &&& 0 <= at
    &&& at + part.len() <= bytes.len()
    &&& bytes.subrange(at, at + part.len()) == part
}

/// Reading back the bytes of a 32-bit integer gives the integer.
pub proof fn lemma_u32_le_round_trip(bytes: Seq<u8>, at: int, value: u32)
    requires
        holds_at(bytes, at, u32_le(value)),
    ensures
        u32_le_at(bytes, at) == value,
{
    let part = bytes.subrange(at, at + 4);
    assert(part[0] == bytes[at] && part[1] == bytes[at + 1] && part[2] == bytes[at + 2] && part[3]
        == bytes[at + 3]);
}

/// Reading back the big-endian bytes of a 32-bit integer gives the integer.
pub proof fn lemma_u32_be_round_trip(bytes: Seq<u8>, at: int, value: u32)
    requires
        holds_at(bytes, at, u32_be(value)),
    ensures
        u32_be_at(bytes, at) == value,
{
    let part = bytes.subrange(at, at + 4);
    assert(part[0] == bytes[at] && part[1] == bytes[at + 1] && part[2] == bytes[at + 2] && part[3]
        == bytes[at + 3]);
}

/// Reading back the bytes of a 64-bit integer gives the integer.
pub proof fn lemma_u64_le_round_trip(bytes: Seq<u8>, at: int, value: u64)
    requires
        holds_at(bytes, at, u64_le(value)),
    ensures
        u64_le_at(bytes, at) == value,
{
    let low = (value % 4294967296) as u32;
    let high = (value / 4294967296) as u32;
    let part = bytes.subrange(at, at + 8);
    assert(part == u32_le(low) + u32_le(high));
    assert(bytes.subrange(at, at + 4) =~= part.subrange(0, 4));
    assert(bytes.subrange(at + 4, at + 8) =~= part.subrange(4, 8));
    assert(part.subrange(0, 4) =~= u32_le(low));
    assert(part.subrange(4, 8) =~= u32_le(high));
    lemma_u32_le_round_trip(bytes, at, low);
    lemma_u32_le_round_trip(bytes, at + 4, high);
}

/// Appends the four bytes of `value`, least significant first.
fn put_u32(out: &mut Vec<u8>, value: u32)
    ensures
        final(out)@ == old(out)@ + u32_le(value),
{
    out.push((value % 256) as u8);
    out.push((value / 256 % 256) as u8);
    out.push((value / 65536 % 256) as u8);
    out.push((value / 16777216) as u8);
    assert(out@ =~= old(out)@ + u32_le(value));
}

/// Appends the eight bytes of `value`, least significant first.
fn put_u64(out: &mut Vec<u8>, value: u64)
    ensures
        final(out)@ == old(out)@ + u64_le(value),
{
    put_u32(out, (value % 4294967296) as u32);
    put_u32(out, (value / 4294967296) as u32);
    assert(out@ =~= old(out)@ + u64_le(value));
}

/// Reads the 32-bit integer at `at`.
fn get_u32(bytes: &[u8], at: usize) -> (value: u32)
    requires
        at + 4 <= bytes.len(),
    ensures
        value == u32_le_at(bytes@, at as int),
{
    let b0 = bytes[at] as u32;
    let b1 = bytes[at + 1] as u32;
    let b2 = bytes[at + 2] as u32;
    let b3 = bytes[at + 3] as u32;
    b0 + 256 * b1 + 65536 * b2 + 16777216 * b3
}

/// Reads the 64-bit integer at `at`.
fn get_u64(bytes: &[u8], at: usize) -> (value: u64)
    requires
        at + 8 <= bytes.len(),
    ensures
        value == u64_le_at(bytes@, at as int),
{
    let low = get_u32(bytes, at) as u64;
    let high = get_u32(bytes, at + 4) as u64;
    low + 4294967296 * high
}

/// Whether a length can be written as a 64-bit integer.
pub open spec fn fits(len: nat) -> bool {
    len <= u64::MAX
}

/// Whether the length of a string's UTF-8 bytes can be written as a 64-bit
/// integer.
pub open spec fn text_fits(text: Seq<char>) -> bool {
    fits(encode_utf8(text).len())
}

/// Whether the length of a list of file entries, and of each path in it,
/// can be written as a 64-bit integer.
pub open spec fn files_fit(files: Seq<FileView>) -> bool {
    &&& fits(files.len())
    &&& forall|i: int| 0 <= i < files.len() ==> text_fits((#[trigger] files[i]).path)
}

/// Whether every length in `packet` can be written as a 64-bit integer, as
/// it can for every packet in memory.
pub open spec fn encodable(packet: PacketView) -> bool {
    match packet {
        PacketView::Ack => true,
        PacketView::Error(message) => text_fits(message),
        PacketView::DownloadStart(path, _, _) => text_fits(path),
        PacketView::DownloadChunk(data) => fits(data.len()),
        PacketView::DownloadEnd => true,
        PacketView::UploadStart(path, _, _, _) => text_fits(path),
        PacketView::UploadChunk(data) => fits(data.len()),
        PacketView::UploadEnd => true,
        PacketView::List(path, files) => text_fits(path) && files_fit(files),
        PacketView::Remove(path, _, _) => text_fits(path),
        PacketView::Ping => true,
    }
}

/// The encoding of a boolean.
pub open spec fn encode_flag(flag: bool) -> Seq<u8> {
    seq![if flag { 1u8 } else { 0u8 }]
}

/// The encoding of a byte vector: its length, then its bytes.
pub open spec fn encode_bytes(data: Seq<u8>) -> Seq<u8> {
    u64_le(data.len() as u64) + data
}

/// The encoding of a string: that of its UTF-8 bytes.
pub open spec fn encode_text(text: Seq<char>) -> Seq<u8> {
    encode_bytes(encode_utf8(text))
}

/// The encoding of a file entry: its path, then its size.
pub open spec fn encode_file(file: FileView) -> Seq<u8> {
    encode_text(file.path) + u64_le(file.size)
}

/// The encodings of `files`, one after another.
pub open spec fn encode_each_file(files: Seq<FileView>) -> Seq<u8>
    decreases files.len(),
{
    if files.len() == 0 {
        Seq::empty()
    } else {
        encode_each_file(files.drop_last()) + encode_file(files.last())
    }
}

/// The encoding of a list of file entries: its length, then its entries.
pub open spec fn encode_files(files: Seq<FileView>) -> Seq<u8> {
    u64_le(files.len() as u64) + encode_each_file(files)
}

/// The encoding of a packet's fields.
pub open spec fn encode_fields(packet: PacketView) -> Seq<u8> {
    match packet {
        PacketView::Ack => Seq::empty(),
        PacketView::Error(message) => encode_text(message),
        PacketView::DownloadStart(path, size, mode) => encode_text(path) + u64_le(size) + u32_le(
            mode,
        ),
        PacketView::DownloadChunk(data) => encode_bytes(data),
        PacketView::DownloadEnd => Seq::empty(),
        PacketView::UploadStart(path, size, mode, force) => encode_text(path) + u64_le(size)
            + u32_le(mode) + encode_flag(force),
        PacketView::UploadChunk(data) => encode_bytes(data),
        PacketView::UploadEnd => Seq::empty(),
        PacketView::List(path, files) => encode_text(path) + encode_files(files),
        PacketView::Remove(path, force, recursive) => encode_text(path) + encode_flag(force)
            + encode_flag(recursive),
        PacketView::Ping => Seq::empty(),
    }
}

/// The encoding of a packet: its discriminator, then its fields.
pub open spec fn encode(packet: PacketView) -> Seq<u8> {
    u32_le(packet.tag()) + encode_fields(packet)
}

fn put_flag(out: &mut Vec<u8>, flag: bool)
    ensures
        final(out)@ == old(out)@ + encode_flag(flag),
{
    out.push(if flag { 1u8 } else { 0u8 });
    assert(out@ =~= old(out)@ + encode_flag(flag));
}

fn put_bytes(out: &mut Vec<u8>, data: &[u8])
    ensures
        final(out)@ == old(out)@ + encode_bytes(data@),
        fits(data@.len()),
{
    put_u64(out, data.len() as u64);
    out.extend_from_slice(data);
    assert(out@ =~= old(out)@ + encode_bytes(data@));
}

fn put_text(out: &mut Vec<u8>, text: &str)
    ensures
        final(out)@ == old(out)@ + encode_text(text@),
        text_fits(text@),
{
    put_bytes(out, text.as_bytes());
}

fn put_file(out: &mut Vec<u8>, file: &File)
    ensures
        final(out)@ == old(out)@ + encode_file(file@),
        text_fits(file@.path),
{
    put_text(out, file.path.as_str());
    put_u64(out, file.size);
    assert(out@ =~= old(out)@ + encode_file(file@));
}

fn put_files(out: &mut Vec<u8>, files: &Vec<File>)
    ensures
        final(out)@ == old(out)@ + encode_files(files_view(files@)),
        files_fit(files_view(files@)),
{
    put_u64(out, files.len() as u64);
    let ghost start = out@;
    let ghost all = files_view(files@);
    let mut i: usize = 0;
    assert(all.take(0) =~= Seq::<FileView>::empty());
    while i < files.len()
        invariant
            i <= files.len(),
            all == files_view(files@),
            out@ == start + encode_each_file(all.take(i as int)),
            forall|k: int| 0 <= k < i ==> text_fits((#[trigger] all[k]).path),
        decreases files.len() - i,
    {
        put_file(out, &files[i]);
        assert(all.take(i + 1).drop_last() =~= all.take(i as int));
        assert(all.take(i + 1).last() == files@[i as int]@);
        assert(out@ =~= start + encode_each_file(all.take(i + 1)));
        i += 1;
    }
    assert(all.take(i as int) =~= all);
    assert(out@ =~= old(out)@ + encode_files(all));
}

/// The discriminator of `packet`.
fn tag_of(packet: &Packet) -> (tag: u32)
    ensures
        tag == packet@.tag(),
{
    match packet {
        Packet::Ack => 0,
        Packet::Error(_) => 1,
        Packet::DownloadStart(_, _, _) => 2,
        Packet::DownloadChunk(_) => 3,
        Packet::DownloadEnd => 4,
        Packet::UploadStart(_, _, _, _) => 5,
        Packet::UploadChunk(_) => 6,
        Packet::UploadEnd => 7,
        Packet::List(_, _) => 8,
        Packet::Remove(_, _, _) => 9,
        Packet::Ping => 10,
    }
}

/// Encodes `packet`.
pub fn encode_packet(packet: &Packet) -> (bytes: Vec<u8>)
    ensures
        bytes@ == encode(packet@),
        encodable(packet@),
{
    let mut out: Vec<u8> = Vec::new();
    put_u32(&mut out, tag_of(packet));
    match packet {
        Packet::Ack => {},
        Packet::Error(message) => {
            put_text(&mut out, message.as_str());
        },
        Packet::DownloadStart(path, size, mode) => {
            put_text(&mut out, path.as_str());
            put_u64(&mut out, *size);
            put_u32(&mut out, *mode);
        },
        Packet::DownloadChunk(data) => {
            put_bytes(&mut out, data.as_slice());
        },
        Packet::DownloadEnd => {},
        Packet::UploadStart(path, size, mode, force) => {
            put_text(&mut out, path.as_str());
            put_u64(&mut out, *size);
            put_u32(&mut out, *mode);
            put_flag(&mut out, *force);
        },
        Packet::UploadChunk(data) => {
            put_bytes(&mut out, data.as_slice());
        },
        Packet::UploadEnd => {},
        Packet::List(path, files) => {
            put_text(&mut out, path.as_str());
            put_files(&mut out, files);
        },
        Packet::Remove(path, force, recursive) => {
            put_text(&mut out, path.as_str());
            put_flag(&mut out, *force);
            put_flag(&mut out, *recursive);
        },
        Packet::Ping => {},
    }
    assert(out@ =~= encode(packet@));
    out
}

/// The 32-bit integer read at `at`, with the position after it.
pub open spec fn parse_u32(bytes: Seq<u8>, at: int) -> Option<(u32, int)> {
    if 0 <= at && at + 4 <= bytes.len() {
        Some((u32_le_at(bytes, at), at + 4))
    } else {
        None
    }
}

/// The 64-bit integer read at `at`, with the position after it.
pub open spec fn parse_u64(bytes: Seq<u8>, at: int) -> Option<(u64, int)> {
    if 0 <= at && at + 8 <= bytes.len() {
        Some((u64_le_at(bytes, at), at + 8))
    } else {
        None
    }
}

/// The boolean read at `at`, with the position after it. A byte other than
/// 0 and 1 is no boolean.
pub open spec fn parse_flag(bytes: Seq<u8>, at: int) -> Option<(bool, int)> {
    if 0 <= at < bytes.len() && bytes[at] <= 1 {
        Some((bytes[at] == 1, at + 1))
    } else {
        None
    }
}

/// The byte vector read at `at`, with the position after it.
pub open spec fn parse_bytes(bytes: Seq<u8>, at: int) -> Option<(Seq<u8>, int)> {
    match parse_u64(bytes, at) {
        Some((len, start)) => if start + len <= bytes.len() {
            Some((bytes.subrange(start, start + len), start + len))
        } else {
            None
        },
        None => None,
    }
}

/// The string read at `at`, with the position after it. Bytes that are not
/// UTF-8 are no string.
pub open spec fn parse_text(bytes: Seq<u8>, at: int) -> Option<(Seq<char>, int)> {
    match parse_bytes(bytes, at) {
        Some((data, end)) => if valid_utf8(data) {
            Some((decode_utf8(data), end))
        } else {
            None
        },
        None => None,
    }
}

/// The file entry read at `at`, with the position after it.
pub open spec fn parse_file(bytes: Seq<u8>, at: int) -> Option<(FileView, int)> {
    match parse_text(bytes, at) {
        Some((path, next)) => match parse_u64(bytes, next) {
            Some((size, end)) => Some((FileView { path, size }, end)),
            None => None,
        },
        None => None,
    }
}

/// The `count` file entries read from `at` on, with the position after
/// them.
pub open spec fn parse_each_file(bytes: Seq<u8>, at: int, count: nat) -> Option<
    (Seq<FileView>, int),
>
    decreases count,
{
    if count == 0 {
        Some((Seq::empty(), at))
    } else {
        match parse_file(bytes, at) {
            Some((file, next)) => match parse_each_file(bytes, next, (count - 1) as nat) {
                Some((rest, end)) => Some((seq![file] + rest, end)),
                None => None,
            },
            None => None,
        }
    }
}

/// The list of file entries read at `at`, with the position after it.
pub open spec fn parse_files(bytes: Seq<u8>, at: int) -> Option<(Seq<FileView>, int)> {
    match parse_u64(bytes, at) {
        Some((count, start)) => parse_each_file(bytes, start, count as nat),
        None => None,
    }
}

/// The fields of the packet with discriminator `tag`, read at `at`, with the
/// position after them.
pub open spec fn parse_fields(bytes: Seq<u8>, at: int, tag: u32) -> Option<(PacketView, int)> {
    if tag == 0 {
        Some((PacketView::Ack, at))
    } else if tag == 1 {
        match parse_text(bytes, at) {
            Some((message, end)) => Some((PacketView::Error(message), end)),
            None => None,
        }
    } else if tag == 2 {
        match parse_text(bytes, at) {
            Some((path, a)) => match parse_u64(bytes, a) {
                Some((size, b)) => match parse_u32(bytes, b) {
                    Some((mode, end)) => Some((PacketView::DownloadStart(path, size, mode), end)),
                    None => None,
                },
                None => None,
            },
            None => None,
        }
    } else if tag == 3 {
        match parse_bytes(bytes, at) {
            Some((data, end)) => Some((PacketView::DownloadChunk(data), end)),
            None => None,
        }
    } else if tag == 4 {
        Some((PacketView::DownloadEnd, at))
    } else if tag == 5 {
        match parse_text(bytes, at) {
            Some((path, a)) => match parse_u64(bytes, a) {
                Some((size, b)) => match parse_u32(bytes, b) {
                    Some((mode, c)) => match parse_flag(bytes, c) {
                        Some((force, end)) => Some(
                            (PacketView::UploadStart(path, size, mode, force), end),
                        ),
                        None => None,
                    },
                    None => None,
                },
                None => None,
            },
            None => None,
        }
    } else if tag == 6 {
        match parse_bytes(bytes, at) {
            Some((data, end)) => Some((PacketView::UploadChunk(data), end)),
            None => None,
        }
    } else if tag == 7 {
        Some((PacketView::UploadEnd, at))
    } else if tag == 8 {
        match parse_text(bytes, at) {
            Some((path, a)) => match parse_files(bytes, a) {
                Some((files, end)) => Some((PacketView::List(path, files), end)),
                None => None,
            },
            None => None,
        }
    } else if tag == 9 {
        match parse_text(bytes, at) {
            Some((path, a)) => match parse_flag(bytes, a) {
                Some((force, b)) => match parse_flag(bytes, b) {
                    Some((recursive, end)) => Some(
                        (PacketView::Remove(path, force, recursive), end),
                    ),
                    None => None,
                },
                None => None,
            },
            None => None,
        }
    } else if tag == 10 {
        Some((PacketView::Ping, at))
    } else {
        None
    }
}

/// The packet that `bytes` begin with, and the number of bytes it takes.
/// There is none where the bytes end too early, the discriminator is
/// unknown, a boolean is neither 0 nor 1, or a string is not UTF-8.
pub open spec fn parse(bytes: Seq<u8>) -> Option<(PacketView, int)> {
    match parse_u32(bytes, 0) {
        Some((tag, at)) => parse_fields(bytes, at, tag),
        None => None,
    }
}

/// The packet that `bytes` begin with.
pub open spec fn decode(bytes: Seq<u8>) -> Option<PacketView> {
    match parse(bytes) {
        Some((packet, _)) => Some(packet),
        None => None,
    }
}

/// `String::from_utf8`: the string that `bytes` spell, if they are valid
/// UTF-8, and nothing otherwise.
#[verifier::external_body]
fn text_from_utf8(bytes: Vec<u8>) -> (text: Option<String>)
    ensures
        text is Some <==> valid_utf8(bytes@),
        text matches Some(s) ==> s@ == decode_utf8(bytes@),
{
    String::from_utf8(bytes).ok()
}

fn take_u32(bytes: &[u8], at: usize) -> (found: Option<(u32, usize)>)
    requires
        at <= bytes.len(),
    ensures
        match parse_u32(bytes@, at as int) {
            Some((value, next)) => found == Some((value, next as usize)) && next <= bytes.len(),
            None => found is None,
        },
{
    if bytes.len() - at < 4 {
        None
    } else {
        Some((get_u32(bytes, at), at + 4))
    }
}

fn take_u64(bytes: &[u8], at: usize) -> (found: Option<(u64, usize)>)
    requires
        at <= bytes.len(),
    ensures
        match parse_u64(bytes@, at as int) {
            Some((value, next)) => found == Some((value, next as usize)) && next <= bytes.len(),
            None => found is None,
        },
{
    if bytes.len() - at < 8 {
        None
    } else {
        Some((get_u64(bytes, at), at + 8))
    }
}

fn take_flag(bytes: &[u8], at: usize) -> (found: Option<(bool, usize)>)
    requires
        at <= bytes.len(),
    ensures
        match parse_flag(bytes@, at as int) {
            Some((value, next)) => found == Some((value, next as usize)) && next <= bytes.len(),
            None => found is None,
        },
{
    if at < bytes.len() && bytes[at] <= 1 {
        Some((bytes[at] == 1, at + 1))
    } else {
        None
    }
}

fn take_bytes(bytes: &[u8], at: usize) -> (found: Option<(Vec<u8>, usize)>)
    requires
        at <= bytes.len(),
    ensures
        match parse_bytes(bytes@, at as int) {
            Some((value, next)) => found matches Some((data, end)) && data@ == value && end == next
                && next <= bytes.len(),
            None => found is None,
        },
{
    match take_u64(bytes, at) {
        Some((len, start)) => {
            if len <= (bytes.len() - start) as u64 {
                let end = start + len as usize;
                Some((slice_to_vec(slice_subrange(bytes, start, end)), end))
            } else {
                None
            }
        },
        None => None,
    }
}

fn take_text(bytes: &[u8], at: usize) -> (found: Option<(String, usize)>)
    requires
        at <= bytes.len(),
    ensures
        match parse_text(bytes@, at as int) {
            Some((value, next)) => found matches Some((text, end)) && text@ == value && end == next
                && next <= bytes.len(),
            None => found is None,
        },
{
    match take_bytes(bytes, at) {
        Some((data, end)) => match text_from_utf8(data) {
            Some(text) => Some((text, end)),
            None => None,
        },
        None => None,
    }
}

fn take_file(bytes: &[u8], at: usize) -> (found: Option<(File, usize)>)
    requires
        at <= bytes.len(),
    ensures
        match parse_file(bytes@, at as int) {
            Some((value, next)) => found matches Some((file, end)) && file@ == value && end == next
                && next <= bytes.len(),
            None => found is None,
        },
{
    match take_text(bytes, at) {
        Some((path, next)) => match take_u64(bytes, next) {
            Some((size, end)) => Some((File { path, size }, end)),
            None => None,
        },
        None => None,
    }
}

fn take_files(bytes: &[u8], at: usize) -> (found: Option<(Vec<File>, usize)>)
    requires
        at <= bytes.len(),
    ensures
        match parse_files(bytes@, at as int) {
            Some((value, next)) => found matches Some((files, end)) && files_view(files@) == value
                && end == next && next <= bytes.len(),
            None => found is None,
        },
{
    let (count, start) = match take_u64(bytes, at) {
        Some(found) => found,
        None => {
            return None;
        },
    };
    let mut files: Vec<File> = Vec::new();
    let mut position = start;
    let mut i: u64 = 0;
    let ghost whole = parse_each_file(bytes@, start as int, count as nat);
    proof {
        assert(files_view(files@) =~= Seq::<FileView>::empty());
        match parse_each_file(bytes@, start as int, count as nat) {
            Some((rest, end)) => {
                assert(files_view(files@) + rest =~= rest);
            },
            None => {},
        }
    }
    while i < count
        invariant
            i <= count,
            position <= bytes.len(),
            whole == parse_files(bytes@, at as int),
            whole == match parse_each_file(bytes@, position as int, (count - i) as nat) {
                Some((rest, end)) => Some((files_view(files@) + rest, end)),
                None => None,
            },
        decreases count - i,
    {
        let ghost before = files_view(files@);
        match take_file(bytes, position) {
            Some((file, next)) => {
                proof {
                    match parse_each_file(bytes@, next as int, (count - i - 1) as nat) {
                        Some((rest, end)) => {
                            assert(before + (seq![file@] + rest) =~= before.push(file@) + rest);
                        },
                        None => {},
                    }
                }
                files.push(file);
                assert(files_view(files@) =~= before.push(file@));
                position = next;
            },
            None => {
                assert(parse_each_file(bytes@, position as int, (count - i) as nat) is None);
                return None;
            },
        }
        i += 1;
    }
    assert(files_view(files@) + Seq::<FileView>::empty() =~= files_view(files@));
    Some((files, position))
}

fn take_fields(bytes: &[u8], at: usize, tag: u32) -> (found: Option<(Packet, usize)>)
    requires
        at <= bytes.len(),
    ensures
        match parse_fields(bytes@, at as int, tag) {
            Some((value, next)) => found matches Some((packet, end)) && packet@ == value && end
                == next && next <= bytes.len(),
            None => found is None,
        },
{
    if tag == 0 {
        Some((Packet::Ack, at))
    } else if tag == 1 {
        let (message, end) = take_text(bytes, at)?;
        Some((Packet::Error(message), end))
    } else if tag == 2 {
        let (path, a) = take_text(bytes, at)?;
        let (size, b) = take_u64(bytes, a)?;
        let (mode, end) = take_u32(bytes, b)?;
        Some((Packet::DownloadStart(path, size, mode), end))
    } else if tag == 3 {
        let (data, end) = take_bytes(bytes, at)?;
        Some((Packet::DownloadChunk(data), end))
    } else if tag == 4 {
        Some((Packet::DownloadEnd, at))
    } else if tag == 5 {
        let (path, a) = take_text(bytes, at)?;
        let (size, b) = take_u64(bytes, a)?;
        let (mode, c) = take_u32(bytes, b)?;
        let (force, end) = take_flag(bytes, c)?;
        Some((Packet::UploadStart(path, size, mode, force), end))
    } else if tag == 6 {
        let (data, end) = take_bytes(bytes, at)?;
        Some((Packet::UploadChunk(data), end))
    } else if tag == 7 {
        Some((Packet::UploadEnd, at))
    } else if tag == 8 {
        let (path, a) = take_text(bytes, at)?;
        let (files, end) = take_files(bytes, a)?;
        Some((Packet::List(path, files), end))
    } else if tag == 9 {
        let (path, a) = take_text(bytes, at)?;
        let (force, b) = take_flag(bytes, a)?;
        let (recursive, end) = take_flag(bytes, b)?;
        Some((Packet::Remove(path, force, recursive), end))
    } else if tag == 10 {
        Some((Packet::Ping, at))
    } else {
        None
    }
}

/// Decodes the packet that `bytes` begin with. Bytes after the packet are
/// ignored.
pub fn decode_packet(bytes: &[u8]) -> (decoded: Result<Packet, FramingError>)
    ensures
        match decode(bytes@) {
            Some(packet) => decoded matches Ok(found) && found@ == packet,
            None => decoded == Err::<Packet, FramingError>(FramingError::Malformed),
        },
{
    match take_u32(bytes, 0) {
        Some((tag, at)) => match take_fields(bytes, at, tag) {
            Some((packet, _)) => Ok(packet),
            None => Err(FramingError::Malformed),
        },
        None => Err(FramingError::Malformed),
    }
}

/// A part that holds two parts in a row holds each of them in its place.
proof fn lemma_holds_split(bytes: Seq<u8>, at: int, first: Seq<u8>, second: Seq<u8>)
    requires
        holds_at(bytes, at, first + second),
    ensures
        holds_at(bytes, at, first),
        holds_at(bytes, at + first.len(), second),
{
    let whole = bytes.subrange(at, at + (first + second).len());
    assert(bytes.subrange(at, at + first.len()) =~= whole.subrange(0, first.len() as int));
    assert(bytes.subrange(at + first.len(), at + first.len() + second.len()) =~= whole.subrange(
        first.len() as int,
        whole.len() as int,
    ));
    assert((first + second).subrange(0, first.len() as int) =~= first);
    assert((first + second).subrange(first.len() as int, (first + second).len() as int)
        =~= second);
}

proof fn lemma_parse_u32(bytes: Seq<u8>, at: int, value: u32)
    requires
        holds_at(bytes, at, u32_le(value)),
    ensures
        parse_u32(bytes, at) == Some((value, at + 4)),
{
    lemma_u32_le_round_trip(bytes, at, value);
}

proof fn lemma_parse_u64(bytes: Seq<u8>, at: int, value: u64)
    requires
        holds_at(bytes, at, u64_le(value)),
    ensures
        parse_u64(bytes, at) == Some((value, at + 8)),
{
    lemma_u64_le_round_trip(bytes, at, value);
}

proof fn lemma_parse_flag(bytes: Seq<u8>, at: int, flag: bool)
    requires
        holds_at(bytes, at, encode_flag(flag)),
    ensures
        parse_flag(bytes, at) == Some((flag, at + 1)),
{
    assert(bytes.subrange(at, at + 1)[0] == bytes[at]);
}

proof fn lemma_parse_bytes(bytes: Seq<u8>, at: int, data: Seq<u8>)
    requires
        holds_at(bytes, at, encode_bytes(data)),
        fits(data.len()),
    ensures
        parse_bytes(bytes, at) == Some((data, at + encode_bytes(data).len())),
{
    lemma_holds_split(bytes, at, u64_le(data.len() as u64), data);
    lemma_parse_u64(bytes, at, data.len() as u64);
}

proof fn lemma_parse_text(bytes: Seq<u8>, at: int, text: Seq<char>)
    requires
        holds_at(bytes, at, encode_text(text)),
        text_fits(text),
    ensures
        parse_text(bytes, at) == Some((text, at + encode_text(text).len())),
{
    broadcast use {vstd::utf8::encode_utf8_decode_utf8, vstd::utf8::encode_utf8_valid_utf8};

    lemma_parse_bytes(bytes, at, encode_utf8(text));
}

proof fn lemma_parse_file(bytes: Seq<u8>, at: int, file: FileView)
    requires
        holds_at(bytes, at, encode_file(file)),
        text_fits(file.path),
    ensures
        parse_file(bytes, at) == Some((file, at + encode_file(file).len())),
{
    lemma_holds_split(bytes, at, encode_text(file.path), u64_le(file.size));
    lemma_parse_text(bytes, at, file.path);
    lemma_parse_u64(bytes, at + encode_text(file.path).len(), file.size);
}

/// The encodings of a list of files begin with that of the first file.
proof fn lemma_encode_each_file_front(files: Seq<FileView>)
    requires
        files.len() > 0,
    ensures
        encode_each_file(files) == encode_file(files[0]) + encode_each_file(files.drop_first()),
    decreases files.len(),
{
    if files.len() == 1 {
        assert(files.drop_last() =~= Seq::<FileView>::empty());
        assert(files.drop_first() =~= Seq::<FileView>::empty());
        assert(encode_each_file(files) =~= encode_file(files[0]) + encode_each_file(
            files.drop_first(),
        ));
    } else {
        lemma_encode_each_file_front(files.drop_last());
        assert(files.drop_last().drop_first() =~= files.drop_first().drop_last());
        assert(files.drop_last()[0] == files[0]);
        assert(files.drop_first().last() == files.last());
        assert(encode_each_file(files) =~= encode_file(files[0]) + encode_each_file(
            files.drop_first(),
        ));
    }
}

proof fn lemma_parse_each_file(bytes: Seq<u8>, at: int, files: Seq<FileView>)
    requires
        holds_at(bytes, at, encode_each_file(files)),
        forall|i: int| 0 <= i < files.len() ==> text_fits((#[trigger] files[i]).path),
    ensures
        parse_each_file(bytes, at, files.len()) == Some(
            (files, at + encode_each_file(files).len()),
        ),
    decreases files.len(),
{
    if files.len() > 0 {
        let rest = files.drop_first();
        lemma_encode_each_file_front(files);
        lemma_holds_split(bytes, at, encode_file(files[0]), encode_each_file(rest));
        lemma_parse_file(bytes, at, files[0]);
        assert forall|i: int| 0 <= i < rest.len() implies text_fits((#[trigger] rest[i]).path) by {
            assert(rest[i] == files[i + 1]);
        }
        lemma_parse_each_file(bytes, at + encode_file(files[0]).len(), rest);
        assert(seq![files[0]] + rest =~= files);
    }
}

proof fn lemma_parse_files(bytes: Seq<u8>, at: int, files: Seq<FileView>)
    requires
        holds_at(bytes, at, encode_files(files)),
        files_fit(files),
    ensures
        parse_files(bytes, at) == Some((files, at + encode_files(files).len())),
{
    lemma_holds_split(bytes, at, u64_le(files.len() as u64), encode_each_file(files));
    lemma_parse_u64(bytes, at, files.len() as u64);
    lemma_parse_each_file(bytes, at + 8, files);
}

proof fn lemma_parse_download_start(bytes: Seq<u8>, at: int, path: Seq<char>, size: u64, mode: u32)
    requires
        holds_at(bytes, at, encode_text(path) + u64_le(size) + u32_le(mode)),
        text_fits(path),
    ensures
        parse_fields(bytes, at, 2) == Some(
            (
                PacketView::DownloadStart(path, size, mode),
                at + (encode_text(path) + u64_le(size) + u32_le(mode)).len(),
            ),
        ),
{
    let a = at + encode_text(path).len();
    lemma_holds_split(bytes, at, encode_text(path) + u64_le(size), u32_le(mode));
    lemma_holds_split(bytes, at, encode_text(path), u64_le(size));
    lemma_parse_text(bytes, at, path);
    lemma_parse_u64(bytes, a, size);
    lemma_parse_u32(bytes, a + 8, mode);
}

proof fn lemma_parse_upload_start(
    bytes: Seq<u8>,
    at: int,
    path: Seq<char>,
    size: u64,
    mode: u32,
    force: bool,
)
    requires
        holds_at(bytes, at, encode_text(path) + u64_le(size) + u32_le(mode) + encode_flag(force)),
        text_fits(path),
    ensures
        parse_fields(bytes, at, 5) == Some(
            (
                PacketView::UploadStart(path, size, mode, force),
                at + (encode_text(path) + u64_le(size) + u32_le(mode) + encode_flag(force)).len(),
            ),
        ),
{
    let a = at + encode_text(path).len();
    lemma_holds_split(
        bytes,
        at,
        encode_text(path) + u64_le(size) + u32_le(mode),
        encode_flag(force),
    );
    lemma_holds_split(bytes, at, encode_text(path) + u64_le(size), u32_le(mode));
    lemma_holds_split(bytes, at, encode_text(path), u64_le(size));
    lemma_parse_text(bytes, at, path);
    lemma_parse_u64(bytes, a, size);
    lemma_parse_u32(bytes, a + 8, mode);
    lemma_parse_flag(bytes, a + 12, force);
}

proof fn lemma_parse_list(bytes: Seq<u8>, at: int, path: Seq<char>, files: Seq<FileView>)
    requires
        holds_at(bytes, at, encode_text(path) + encode_files(files)),
        text_fits(path),
        files_fit(files),
    ensures
        parse_fields(bytes, at, 8) == Some(
            (PacketView::List(path, files), at + (encode_text(path) + encode_files(files)).len()),
        ),
{
    lemma_holds_split(bytes, at, encode_text(path), encode_files(files));
    lemma_parse_text(bytes, at, path);
    lemma_parse_files(bytes, at + encode_text(path).len(), files);
}

proof fn lemma_parse_remove(bytes: Seq<u8>, at: int, path: Seq<char>, force: bool, recursive: bool)
    requires
        holds_at(bytes, at, encode_text(path) + encode_flag(force) + encode_flag(recursive)),
        text_fits(path),
    ensures
        parse_fields(bytes, at, 9) == Some(
            (
                PacketView::Remove(path, force, recursive),
                at + (encode_text(path) + encode_flag(force) + encode_flag(recursive)).len(),
            ),
        ),
{
    let a = at + encode_text(path).len();
    lemma_holds_split(bytes, at, encode_text(path) + encode_flag(force), encode_flag(recursive));
    lemma_holds_split(bytes, at, encode_text(path), encode_flag(force));
    lemma_parse_text(bytes, at, path);
    lemma_parse_flag(bytes, a, force);
    lemma_parse_flag(bytes, a + 1, recursive);
}

proof fn lemma_parse_fields(bytes: Seq<u8>, at: int, packet: PacketView)
    requires
        holds_at(bytes, at, encode_fields(packet)),
        encodable(packet),
    ensures
        parse_fields(bytes, at, packet.tag()) == Some(
            (packet, at + encode_fields(packet).len()),
        ),
{
    match packet {
        PacketView::Ack => {},
        PacketView::Error(message) => {
            lemma_parse_text(bytes, at, message);
        },
        PacketView::DownloadStart(path, size, mode) => {
            lemma_parse_download_start(bytes, at, path, size, mode);
        },
        PacketView::DownloadChunk(data) => {
            lemma_parse_bytes(bytes, at, data);
        },
        PacketView::DownloadEnd => {},
        PacketView::UploadStart(path, size, mode, force) => {
            lemma_parse_upload_start(bytes, at, path, size, mode, force);
        },
        PacketView::UploadChunk(data) => {
            lemma_parse_bytes(bytes, at, data);
        },
        PacketView::UploadEnd => {},
        PacketView::List(path, files) => {
            lemma_parse_list(bytes, at, path, files);
        },
        PacketView::Remove(path, force, recursive) => {
            lemma_parse_remove(bytes, at, path, force, recursive);
        },
        PacketView::Ping => {},
    }
}

/// Bytes that begin with the encoding of a packet parse as that packet, and
/// the parse takes exactly the encoding.
pub proof fn lemma_parse_encode(packet: PacketView, rest: Seq<u8>)
    requires
        encodable(packet),
    ensures
        parse(encode(packet) + rest) == Some((packet, encode(packet).len() as int)),
{
    let bytes = encode(packet) + rest;
    assert(bytes.subrange(0, encode(packet).len() as int) =~= encode(packet));
    lemma_holds_split(bytes, 0, u32_le(packet.tag()), encode_fields(packet));
    lemma_parse_u32(bytes, 0, packet.tag());
    lemma_parse_fields(bytes, 4, packet);
}

/// Decoding the encoding of a packet gives the packet back.
pub proof fn lemma_decode_encode(packet: PacketView)
    requires
        encodable(packet),
    ensures
        decode(encode(packet)) == Some(packet),
{
    lemma_parse_encode(packet, Seq::empty());
    assert(encode(packet) + Seq::<u8>::empty() =~= encode(packet));
}

/// The value that was read.
pub open spec fn value_of<T>(found: Option<(T, int)>) -> T {
    match found {
        Some((value, _)) => value,
        None => arbitrary(),
    }
}

/// The position after the value that was read.
pub open spec fn end_of<T>(found: Option<(T, int)>) -> int {
    match found {
        Some((_, end)) => end,
        None => arbitrary(),
    }
}

/// Writing back the 32-bit integer read at `at` gives the bytes it was read
/// from.
proof fn lemma_u32_le_written_back(bytes: Seq<u8>, at: int)
    requires
        0 <= at,
        at + 4 <= bytes.len(),
    ensures
        holds_at(bytes, at, u32_le(u32_le_at(bytes, at))),
{
    let (b0, b1, b2, b3) = (
        bytes[at] as int,
        bytes[at + 1] as int,
        bytes[at + 2] as int,
        bytes[at + 3] as int,
    );
    let v = b0 + 256 * b1 + 65536 * b2 + 16777216 * b3;
    assert(v % 256 == b0 && v / 256 % 256 == b1 && v / 65536 % 256 == b2 && v / 16777216 == b3);
    assert(bytes.subrange(at, at + 4) =~= u32_le(u32_le_at(bytes, at)));
}

/// Two parts in a row are held as one.
proof fn lemma_holds_joined(bytes: Seq<u8>, at: int, first: Seq<u8>, second: Seq<u8>)
    requires
        holds_at(bytes, at, first),
        holds_at(bytes, at + first.len(), second),
    ensures
        holds_at(bytes, at, first + second),
{
    assert(bytes.subrange(at, at + (first + second).len()) =~= bytes.subrange(
        at,
        at + first.len(),
    ) + bytes.subrange(at + first.len(), at + first.len() + second.len()));
}

/// A 64-bit integer made of two halves has them as its halves.
proof fn lemma_halves(low: u32, high: u32)
    ensures
        (low + 4294967296 * high) % 4294967296 == low,
        (low + 4294967296 * high) / 4294967296 == high,
        low + 4294967296 * high <= u64::MAX,
{
}

/// Writing back the 64-bit integer read at `at` gives the bytes it was read
/// from.
proof fn lemma_u64_le_written_back(bytes: Seq<u8>, at: int)
    requires
        0 <= at,
        at + 8 <= bytes.len(),
    ensures
        holds_at(bytes, at, u64_le(u64_le_at(bytes, at))),
{
    let low = u32_le_at(bytes, at);
    let high = u32_le_at(bytes, at + 4);
    lemma_u32_le_written_back(bytes, at);
    lemma_u32_le_written_back(bytes, at + 4);
    lemma_halves(low, high);
    lemma_holds_joined(bytes, at, u32_le(low), u32_le(high));
}

proof fn lemma_flag_parsed(bytes: Seq<u8>, at: int)
    requires
        parse_flag(bytes, at) is Some,
    ensures
        holds_at(bytes, at, encode_flag(value_of(parse_flag(bytes, at)))),
        end_of(parse_flag(bytes, at)) == at + 1,
{
    assert(bytes.subrange(at, at + 1) =~= encode_flag(bytes[at] == 1));
}

proof fn lemma_bytes_parsed(bytes: Seq<u8>, at: int)
    requires
        parse_bytes(bytes, at) is Some,
    ensures
        holds_at(bytes, at, encode_bytes(value_of(parse_bytes(bytes, at)))),
        end_of(parse_bytes(bytes, at)) == at + encode_bytes(value_of(parse_bytes(bytes, at))).len(),
        fits(value_of(parse_bytes(bytes, at)).len()),
{
    let len = u64_le_at(bytes, at);
    let data = bytes.subrange(at + 8, at + 8 + len);
    lemma_u64_le_written_back(bytes, at);
    assert(holds_at(bytes, at + 8, data));
    lemma_holds_joined(bytes, at, u64_le(len), data);
}

proof fn lemma_text_parsed(bytes: Seq<u8>, at: int)
    requires
        parse_text(bytes, at) is Some,
    ensures
        holds_at(bytes, at, encode_text(value_of(parse_text(bytes, at)))),
        end_of(parse_text(bytes, at)) == at + encode_text(value_of(parse_text(bytes, at))).len(),
        text_fits(value_of(parse_text(bytes, at))),
{
    broadcast use vstd::utf8::decode_utf8_encode_utf8;

    lemma_bytes_parsed(bytes, at);
    let data = value_of(parse_bytes(bytes, at));
    assert(encode_utf8(decode_utf8(data)) == data);
}

proof fn lemma_file_parsed(bytes: Seq<u8>, at: int)
    requires
        parse_file(bytes, at) is Some,
    ensures
        holds_at(bytes, at, encode_file(value_of(parse_file(bytes, at)))),
        end_of(parse_file(bytes, at)) == at + encode_file(value_of(parse_file(bytes, at))).len(),
        text_fits(value_of(parse_file(bytes, at)).path),
{
    lemma_text_parsed(bytes, at);
    let (path, next) = parse_text(bytes, at)->0;
    lemma_u64_le_written_back(bytes, next);
    lemma_holds_joined(bytes, at, encode_text(path), u64_le(u64_le_at(bytes, next)));
}

proof fn lemma_each_file_parsed(bytes: Seq<u8>, at: int, count: nat)
    requires
        parse_each_file(bytes, at, count) is Some,
        0 <= at <= bytes.len(),
    ensures
        holds_at(bytes, at, encode_each_file(value_of(parse_each_file(bytes, at, count)))),
        end_of(parse_each_file(bytes, at, count)) == at + encode_each_file(
            value_of(parse_each_file(bytes, at, count)),
        ).len(),
        value_of(parse_each_file(bytes, at, count)).len() == count,
        forall|i: int|
            0 <= i < count ==> text_fits((#[trigger] value_of(parse_each_file(bytes, at, count))[i]).path),
    decreases count,
{
    if count == 0 {
        assert(bytes.subrange(at, at) =~= Seq::<u8>::empty());
    } else {
        lemma_file_parsed(bytes, at);
        let (file, next) = parse_file(bytes, at)->0;
        lemma_each_file_parsed(bytes, next, (count - 1) as nat);
        let (rest, end) = parse_each_file(bytes, next, (count - 1) as nat)->0;
        let files = seq![file] + rest;
        assert(files[0] == file);
        assert(files.drop_first() =~= rest);
        lemma_encode_each_file_front(files);
        lemma_holds_joined(bytes, at, encode_file(file), encode_each_file(rest));
        assert forall|i: int| 0 <= i < count implies text_fits((#[trigger] files[i]).path) by {
            if i > 0 {
                assert(files[i] == rest[i - 1]);
            }
        }
    }
}

proof fn lemma_files_parsed(bytes: Seq<u8>, at: int)
    requires
        parse_files(bytes, at) is Some,
    ensures
        holds_at(bytes, at, encode_files(value_of(parse_files(bytes, at)))),
        end_of(parse_files(bytes, at)) == at + encode_files(value_of(parse_files(bytes, at))).len(),
        files_fit(value_of(parse_files(bytes, at))),
{
    let count = u64_le_at(bytes, at);
    lemma_u64_le_written_back(bytes, at);
    lemma_each_file_parsed(bytes, at + 8, count as nat);
    let files = value_of(parse_each_file(bytes, at + 8, count as nat));
    lemma_holds_joined(bytes, at, u64_le(count), encode_each_file(files));
}

proof fn lemma_download_start_parsed(bytes: Seq<u8>, at: int)
    requires
        parse_fields(bytes, at, 2) is Some,
    ensures
        holds_at(bytes, at, encode_fields(value_of(parse_fields(bytes, at, 2)))),
        end_of(parse_fields(bytes, at, 2)) == at + encode_fields(value_of(parse_fields(bytes, at, 2))).len(),
        encodable(value_of(parse_fields(bytes, at, 2))),
        value_of(parse_fields(bytes, at, 2)).tag() == 2,
{
    lemma_text_parsed(bytes, at);
    let (path, a) = parse_text(bytes, at)->0;
    lemma_u64_le_written_back(bytes, a);
    lemma_u32_le_written_back(bytes, a + 8);
    let size = u64_le_at(bytes, a);
    let mode = u32_le_at(bytes, a + 8);
    lemma_holds_joined(bytes, at, encode_text(path), u64_le(size));
    lemma_holds_joined(bytes, at, encode_text(path) + u64_le(size), u32_le(mode));
}

proof fn lemma_upload_start_parsed(bytes: Seq<u8>, at: int)
    requires
        parse_fields(bytes, at, 5) is Some,
    ensures
        holds_at(bytes, at, encode_fields(value_of(parse_fields(bytes, at, 5)))),
        end_of(parse_fields(bytes, at, 5)) == at + encode_fields(value_of(parse_fields(bytes, at, 5))).len(),
        encodable(value_of(parse_fields(bytes, at, 5))),
        value_of(parse_fields(bytes, at, 5)).tag() == 5,
{
    lemma_text_parsed(bytes, at);
    let (path, a) = parse_text(bytes, at)->0;
    lemma_u64_le_written_back(bytes, a);
    lemma_u32_le_written_back(bytes, a + 8);
    lemma_flag_parsed(bytes, a + 12);
    let size = u64_le_at(bytes, a);
    let mode = u32_le_at(bytes, a + 8);
    let force = value_of(parse_flag(bytes, a + 12));
    lemma_holds_joined(bytes, at, encode_text(path), u64_le(size));
    lemma_holds_joined(bytes, at, encode_text(path) + u64_le(size), u32_le(mode));
    lemma_holds_joined(
        bytes,
        at,
        encode_text(path) + u64_le(size) + u32_le(mode),
        encode_flag(force),
    );
}

proof fn lemma_list_parsed(bytes: Seq<u8>, at: int)
    requires
        parse_fields(bytes, at, 8) is Some,
    ensures
        holds_at(bytes, at, encode_fields(value_of(parse_fields(bytes, at, 8)))),
        end_of(parse_fields(bytes, at, 8)) == at + encode_fields(value_of(parse_fields(bytes, at, 8))).len(),
        encodable(value_of(parse_fields(bytes, at, 8))),
        value_of(parse_fields(bytes, at, 8)).tag() == 8,
{
    lemma_text_parsed(bytes, at);
    let (path, a) = parse_text(bytes, at)->0;
    lemma_files_parsed(bytes, a);
    let files = value_of(parse_files(bytes, a));
    lemma_holds_joined(bytes, at, encode_text(path), encode_files(files));
}

proof fn lemma_remove_parsed(bytes: Seq<u8>, at: int)
    requires
        parse_fields(bytes, at, 9) is Some,
    ensures
        holds_at(bytes, at, encode_fields(value_of(parse_fields(bytes, at, 9)))),
        end_of(parse_fields(bytes, at, 9)) == at + encode_fields(value_of(parse_fields(bytes, at, 9))).len(),
        encodable(value_of(parse_fields(bytes, at, 9))),
        value_of(parse_fields(bytes, at, 9)).tag() == 9,
{
    lemma_text_parsed(bytes, at);
    let (path, a) = parse_text(bytes, at)->0;
    lemma_flag_parsed(bytes, a);
    lemma_flag_parsed(bytes, a + 1);
    let force = value_of(parse_flag(bytes, a));
    let recursive = value_of(parse_flag(bytes, a + 1));
    lemma_holds_joined(bytes, at, encode_text(path), encode_flag(force));
    lemma_holds_joined(bytes, at, encode_text(path) + encode_flag(force), encode_flag(recursive));
}

proof fn lemma_fields_parsed(bytes: Seq<u8>, at: int, tag: u32)
    requires
        parse_fields(bytes, at, tag) is Some,
        0 <= at <= bytes.len(),
    ensures
        holds_at(bytes, at, encode_fields(value_of(parse_fields(bytes, at, tag)))),
        end_of(parse_fields(bytes, at, tag)) == at + encode_fields(
            value_of(parse_fields(bytes, at, tag)),
        ).len(),
        encodable(value_of(parse_fields(bytes, at, tag))),
        value_of(parse_fields(bytes, at, tag)).tag() == tag,
{
    if tag == 0 || tag == 4 || tag == 7 || tag == 10 {
        assert(bytes.subrange(at, at) =~= Seq::<u8>::empty());
    } else if tag == 1 {
        lemma_text_parsed(bytes, at);
    } else if tag == 2 {
        lemma_download_start_parsed(bytes, at);
    } else if tag == 3 || tag == 6 {
        lemma_bytes_parsed(bytes, at);
    } else if tag == 5 {
        lemma_upload_start_parsed(bytes, at);
    } else if tag == 8 {
        lemma_list_parsed(bytes, at);
    } else if tag == 9 {
        lemma_remove_parsed(bytes, at);
    }
}

/// Bytes that parse as a packet begin with the encoding of that packet, and
/// the parse takes exactly the encoding.
pub proof fn lemma_parse_is_encoding(bytes: Seq<u8>)
    requires
        parse(bytes) is Some,
    ensures
        encodable(value_of(parse(bytes))),
        end_of(parse(bytes)) == encode(value_of(parse(bytes))).len(),
        encode(value_of(parse(bytes))).is_prefix_of(bytes),
{
    let tag = u32_le_at(bytes, 0);
    lemma_u32_le_written_back(bytes, 0);
    lemma_fields_parsed(bytes, 4, tag);
    let packet = value_of(parse(bytes));
    lemma_holds_joined(bytes, 0, u32_le(tag), encode_fields(packet));
    assert(bytes.subrange(0, encode(packet).len() as int) == encode(packet));
}

/// Bytes decode to a packet exactly if they begin with its encoding.
pub proof fn lemma_decode_iff_encoding(bytes: Seq<u8>, packet: PacketView)
    ensures
        decode(bytes) == Some(packet) <==> encodable(packet) && encode(packet).is_prefix_of(bytes),
{
    if decode(bytes) == Some(packet) {
        lemma_parse_is_encoding(bytes);
    }
    if encodable(packet) && encode(packet).is_prefix_of(bytes) {
        let rest = bytes.subrange(encode(packet).len() as int, bytes.len() as int);
        assert(bytes =~= encode(packet) + rest);
        lemma_parse_encode(packet, rest);
    }
}

/// The longest encoded packet that a frame can carry.
pub const MAX_PAYLOAD: u64 = 4294967295;

/// The frame of a packet: the length of its encoding, as four bytes, most
/// significant first, followed by the encoding.
pub open spec fn frame(packet: PacketView) -> Seq<u8> {
    u32_be(encode(packet).len() as u32) + encode(packet)
}

/// Whether `packet` can be framed: it can be encoded, and the length of its
/// encoding can be written as a 32-bit integer.
pub open spec fn framable(packet: PacketView) -> bool {
    encodable(packet) && encode(packet).len() <= MAX_PAYLOAD
}

/// The length that the four bytes of a frame's prefix announce, or
/// `ShortRead` where there are fewer than four.
pub open spec fn parse_length(prefix: Seq<u8>) -> Result<int, FramingError> {
    if prefix.len() < 4 {
        Err(FramingError::ShortRead)
    } else {
        Ok(u32_be_at(prefix, 0) as int)
    }
}

/// The packet of the frame that `bytes` begin with, and the number of bytes
/// that the frame takes: `ShortRead` where the bytes end before the frame
/// does, `Malformed` where its payload is no encoded packet.
pub open spec fn parse_frame(bytes: Seq<u8>) -> Result<(PacketView, int), FramingError> {
    match parse_length(bytes) {
        Err(error) => Err(error),
        Ok(len) => if bytes.len() < 4 + len {
            Err(FramingError::ShortRead)
        } else {
            match decode(bytes.subrange(4, 4 + len)) {
                Some(packet) => Ok((packet, 4 + len)),
                None => Err(FramingError::Malformed),
            }
        },
    }
}

/// Frames `packet`. A packet whose encoding is longer than a frame's prefix
/// can say is refused as `Oversize`.
pub fn encode_frame(packet: &Packet) -> (framed: Result<Vec<u8>, FramingError>)
    ensures
        framable(packet@) ==> (framed matches Ok(bytes) && bytes@ == frame(packet@)),
        !framable(packet@) ==> framed == Err::<Vec<u8>, FramingError>(FramingError::Oversize),
{
    let payload = encode_packet(packet);
    if payload.len() as u64 > MAX_PAYLOAD {
        return Err(FramingError::Oversize);
    }
    let len = payload.len() as u32;
    let mut out: Vec<u8> = Vec::new();
    out.push((len / 16777216) as u8);
    out.push((len / 65536 % 256) as u8);
    out.push((len / 256 % 256) as u8);
    out.push((len % 256) as u8);
    out.extend_from_slice(payload.as_slice());
    assert(out@ =~= u32_be(len) + payload@);
    Ok(out)
}

/// Reads the length of the payload from a frame's prefix.
pub fn frame_length(prefix: &[u8]) -> (length: Result<usize, FramingError>)
    ensures
        match parse_length(prefix@) {
            Ok(len) => length == Ok::<usize, FramingError>(len as usize) && len <= usize::MAX,
            Err(error) => length == Err::<usize, FramingError>(error),
        },
{
    if prefix.len() < 4 {
        return Err(FramingError::ShortRead);
    }
    let b0 = prefix[0] as u32;
    let b1 = prefix[1] as u32;
    let b2 = prefix[2] as u32;
    let b3 = prefix[3] as u32;
    let len: u32 = 16777216 * b0 + 65536 * b1 + 256 * b2 + b3;
    Ok(len as usize)
}

/// Decodes the frame that `bytes` begin with, and tells how many bytes it
/// takes.
pub fn decode_frame(bytes: &[u8]) -> (decoded: Result<(Packet, usize), FramingError>)
    ensures
        match parse_frame(bytes@) {
            Ok((packet, taken)) => decoded matches Ok((found, end)) && found@ == packet && end
                == taken,
            Err(error) => decoded == Err::<(Packet, usize), FramingError>(error),
        },
{
    let len = match frame_length(bytes) {
        Ok(len) => len,
        Err(error) => {
            return Err(error);
        },
    };
    if bytes.len() - 4 < len {
        return Err(FramingError::ShortRead);
    }
    match decode_packet(slice_subrange(bytes, 4, 4 + len)) {
        Ok(packet) => Ok((packet, 4 + len)),
        Err(error) => Err(error),
    }
}

/// Framing round trip: bytes that begin with the frame of a packet decode
/// to that packet, and the frame is all that is taken.
pub proof fn lemma_frame_round_trip(packet: PacketView, rest: Seq<u8>)
    requires
        framable(packet),
    ensures
        parse_frame(frame(packet) + rest) == Ok::<(PacketView, int), FramingError>(
            (packet, frame(packet).len() as int),
        ),
{
    let payload = encode(packet);
    let len = payload.len() as u32;
    let bytes = frame(packet) + rest;
    assert(bytes.subrange(0, 4) =~= u32_be(len));
    lemma_u32_be_round_trip(bytes, 0, len);
    assert(bytes.subrange(4, 4 + len) =~= payload);
    lemma_decode_encode(packet);
}

} // verus!

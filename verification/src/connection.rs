//! One end of a byte stream, as the frames that pass over it.
//!
//! A [`Connection`] holds the bytes that have arrived from the peer and not
//! yet been read as packets, and the bytes of the packets written and not
//! yet handed to the peer. Moving bytes between it and a socket is left to
//! its owner.

use crate::packet::{Packet, PacketView};
use crate::wire::{FramingError, decode_frame, encode_frame, framable, frame, parse_frame};
use vstd::prelude::*;

verus! {

/// One end of a connection.
#[derive(Debug)]
pub struct Connection {
    inbound: Vec<u8>,
    outbound: Vec<u8>,
    open: bool,
}

/// The mathematical value of a [`Connection`].
pub struct ConnectionView {
    /// The bytes that have arrived and not yet been read as packets.
    pub inbound: Seq<u8>,
    /// The bytes written and not yet handed to the peer.
    pub outbound: Seq<u8>,
    /// Whether the connection has not been shut down.
    pub open: bool,
}

impl View for Connection {
    type V = ConnectionView;

    closed spec fn view(&self) -> ConnectionView {
        ConnectionView { inbound: self.inbound@, outbound: self.outbound@, open: self.open }
    }
}

/// What reading a packet does to a connection, and what it returns. A whole
/// frame at the front of the bytes that have arrived is taken from them and
/// its packet returned; where there is none, or the connection is shut
/// down, nothing changes.
pub open spec fn read_spec(before: ConnectionView) -> (
    ConnectionView,
    Result<PacketView, FramingError>,
) {
    if !before.open {
        (before, Err(FramingError::Closed))
    } else {
        match parse_frame(before.inbound) {
            Ok((packet, taken)) => (
                ConnectionView {
                    inbound: before.inbound.subrange(taken, before.inbound.len() as int),
                    outbound: before.outbound,
                    open: true,
                },
                Ok(packet),
            ),
            Err(error) => (before, Err(error)),
        }
    }
}

/// What writing a packet does to a connection, and what it returns. The
/// packet's frame is appended to the bytes written; a packet that cannot be
/// framed, and a connection that is shut down, change nothing.
pub open spec fn write_spec(before: ConnectionView, packet: PacketView) -> (
    ConnectionView,
    Result<(), FramingError>,
) {
    if !before.open {
        (before, Err(FramingError::Closed))
    } else if !framable(packet) {
        (before, Err(FramingError::Oversize))
    } else {
        (
            ConnectionView {
                inbound: before.inbound,
                outbound: before.outbound + frame(packet),
                open: true,
            },
            Ok(()),
        )
    }
}

/// The value of what reading a packet returns.
pub open spec fn read_view(read: Result<Packet, FramingError>) -> Result<
    PacketView,
    FramingError,
> {
    match read {
        Ok(packet) => Ok(packet@),
        Err(error) => Err(error),
    }
}

impl Connection {
    /// An open connection over which nothing has passed.
    pub fn new() -> (connection: Connection)
        ensures
            connection@ == (ConnectionView {
                inbound: Seq::empty(),
                outbound: Seq::empty(),
                open: true,
            }),
    {
        Connection { inbound: Vec::new(), outbound: Vec::new(), open: true }
    }

    /// Whether the connection has not been shut down.
    pub fn is_open(&self) -> (open: bool)
        ensures
            open == self@.open,
    {
        self.open
    }

    /// Takes in bytes that arrived from the peer.
    pub fn receive(&mut self, bytes: &[u8])
        ensures
            final(self)@ == (ConnectionView {
                inbound: old(self)@.inbound + bytes@,
                outbound: old(self)@.outbound,
                open: old(self)@.open,
            }),
    {
        self.inbound.extend_from_slice(bytes);
        assert(self.inbound@ =~= old(self).inbound@ + bytes@);
    }

    /// Hands out the bytes written since the last call, for the peer.
    pub fn transmit(&mut self) -> (bytes: Vec<u8>)
        ensures
            bytes@ == old(self)@.outbound,
            final(self)@ == (ConnectionView {
                inbound: old(self)@.inbound,
                outbound: Seq::empty(),
                open: old(self)@.open,
            }),
    {
        let rest = self.outbound.split_off(0);
        assert(self.outbound@ =~= Seq::<u8>::empty());
        assert(rest@ =~= old(self).outbound@);
        rest
    }

    /// Reads the next packet from the bytes that have arrived.
    ///
    /// Fails with `ShortRead` while the next frame has not arrived in full,
    /// with `Malformed` where its payload is no packet, and with `Closed`
    /// after a shutdown; the connection is then left as it was.
    pub fn read_packet(&mut self) -> (read: Result<Packet, FramingError>)
        ensures
            (final(self)@, read_view(read)) == read_spec(old(self)@),
    {
        if !self.open {
            return Err(FramingError::Closed);
        }
        match decode_frame(self.inbound.as_slice()) {
            Ok((packet, taken)) => {
                let rest = self.inbound.split_off(taken);
                self.inbound = rest;
                Ok(packet)
            },
            Err(error) => Err(error),
        }
    }

    /// Writes `packet` as one frame.
    ///
    /// Fails with `Oversize` where the packet's encoding is longer than a
    /// frame can carry, and with `Closed` after a shutdown; the connection
    /// is then left as it was.
    pub fn write_packet(&mut self, packet: &Packet) -> (written: Result<(), FramingError>)
        ensures
            (final(self)@, written) == write_spec(old(self)@, packet@),
    {
        if !self.open {
            return Err(FramingError::Closed);
        }
        match encode_frame(packet) {
            Ok(mut framed) => {
                self.outbound.append(&mut framed);
                Ok(())
            },
            Err(error) => Err(error),
        }
    }

    /// Shuts the connection down. What has been written can still be handed
    /// out; nothing more is read or written.
    pub fn shutdown(&mut self)
        ensures
            final(self)@ == (ConnectionView {
                inbound: old(self)@.inbound,
                outbound: old(self)@.outbound,
                open: false,
            }),
    {
        self.open = false;
    }
}

/// Framing round trip between two ends: when one end writes a packet and
/// the bytes it hands out arrive at another end that has read all that
/// arrived before, that end reads the same packet, and nothing is left over.
pub proof fn lemma_written_is_read(sender: ConnectionView, receiver: ConnectionView, packet: PacketView)
    requires
        sender.open,
        receiver.open,
        framable(packet),
        sender.outbound.len() == 0,
        receiver.inbound.len() == 0,
    ensures
        ({
            let sent = write_spec(sender, packet).0.outbound;
            let arrived = ConnectionView {
                inbound: receiver.inbound + sent,
                outbound: receiver.outbound,
                open: true,
            };
            read_spec(arrived) == (receiver, Ok::<PacketView, FramingError>(packet))
        }),
{
    let sent = write_spec(sender, packet).0.outbound;
    assert(sent =~= frame(packet));
    assert(receiver.inbound + sent =~= frame(packet) + Seq::<u8>::empty());
    crate::wire::lemma_frame_round_trip(packet, Seq::empty());
    let inbound = receiver.inbound + sent;
    assert(inbound.subrange(frame(packet).len() as int, inbound.len() as int)
        =~= receiver.inbound);
}

} // verus!

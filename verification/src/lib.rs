//! A small file-transfer protocol, free of I/O.
//!
//! A client opens one connection per operation: download, upload, list,
//! remove or ping. It sends one request, the two sides exchange the packets
//! that the operation calls for, and the connection is closed. The server
//! resolves every path it is given beneath its storage root.
//!
//! - [`packet`] holds the messages, [`wire`] their encoding as bytes and
//!   the framing of encoded packets, [`connection`] one end of a byte
//!   stream as the frames that pass over it.
//! - [`path`] resolves untrusted relative paths beneath a base directory.
//! - [`server`], [`listener`] and [`client`] are the state machines of a
//!   server connection, of the accept loop and of the client's operations.
//!   They ask for actions and are told their outcomes, as [`io`] describes.
//! - [`chunk`] chooses the chunk size of an upload, [`listing`] lays out the
//!   table of a listing, [`settings`] and [`list`] find the server that an
//!   operation goes to.

pub mod chunk;
pub mod client;
pub mod connection;
pub mod io;
pub mod list;
pub mod listener;
pub mod listing;
pub mod packet;
pub mod path;
pub mod server;
pub mod settings;
pub mod wire;

//! Core of a userspace point-to-point tunnel interface.
//!
//! The crate owns the peer registry with its three lookup paths (public key,
//! session index, longest-prefix IP match), the session state machine that
//! turns an "add peer" control event into a handshake initiation, the framing
//! and classification of transport datagrams, and the local control protocol
//! (`SET` / `GET`). The I/O that surrounds these decisions — sockets, the
//! virtual device, the reactor — lives outside the crate and hands plain
//! values in and out.

pub mod bytes;
pub mod ip;
pub mod words;
pub mod peer;
pub mod state;
pub mod control;
pub mod channel;
pub mod message;
pub mod iface;

//! Verified core of a line-oriented TCP-to-serial bridge.
//!
//! The crate models the bidirectional multiplexing engine of a terminal
//! server: many TCP clients share one serial device.  Lines sent by clients
//! are fanned in onto the single serial write path, and lines read from the
//! device are fanned out to every connected client.
//!
//! - [`line`] defines the unit of transfer: a delimiter-free byte sequence.
//! - [`codec`] frames and unframes lines on a raw byte stream.
//! - [`hub`] is the multiplexing engine: the inbound queue, the broadcast
//!   of device lines, and the per-session state machine, with proofs that
//!   per-client order is preserved and every broadcast reaches each live
//!   session exactly once.
//!
//! All I/O (sockets, the serial device, task scheduling) lives outside this
//! crate; callers feed events in and carry the resulting actions out.

pub mod codec;
pub mod hub;
pub mod line;

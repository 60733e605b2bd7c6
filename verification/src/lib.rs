//! Core of a real-time chat relay: the connection registry, the broadcast
//! engine that fans envelopes out to every participant, the wire codec for
//! the JSON frame format, and the per-connection session state machine.
//!
//! The surrounding process (transport upgrade, socket reads and writes) is
//! expected to hold one exclusive lock around a `ChatRoom` plus its outbound
//! sinks, call these operations under that lock, and perform the returned
//! `Delivery` list in order.

pub mod codec;
pub mod messages;
pub mod room;
pub mod session;
pub mod text;

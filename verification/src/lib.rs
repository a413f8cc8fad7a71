//! A user-space TCP endpoint: the connection state machine, wrap-aware
//! sequence-space bookkeeping, IPv4/TCP header codec, and per-connection
//! demultiplexing, for a passive (server-side) endpoint speaking over a
//! point-to-point tunnel interface.

pub mod codec;
pub mod conn;
pub mod seqnum;
pub mod table;

//! A bounded, broadcast-capable multi-producer / multi-consumer channel.
//!
//! All items accepted by a channel are retained in a sliding window until
//! every registered cursor has read them; independent cursors each see every
//! item, while cursors shared between several handles split the stream.

pub mod mpmc;
pub mod nodes;

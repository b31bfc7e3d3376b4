//! Multiplexed request/response framing: headers, the multi-frame cursor and the
//! per-connection reader.

pub mod buffer;
pub mod channel;
pub mod header;
pub mod multiframe;
pub mod outcome;
pub mod reader;
pub mod laws;

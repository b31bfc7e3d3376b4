//! Core of a Byzantine fault-tolerant consensus engine and of the multiplexed
//! request/response framing that carries its messages.
//!
//! The crate has three parts, leaves first:
//!
//! * [`validator_matrix`]: the registry of validator weights per era and its
//!   finality-threshold arithmetic;
//! * [`framing`]: the parser and state machine for the multiplexed byte stream;
//! * [`consensus`]: the per-era protocol state machine.
//!
//! [`sink`] and [`test_stream`] hold the small state machines of the
//! length-prefixing frame sink and of the stream used to exercise it.

pub mod consensus;
pub mod framing;
pub mod sink;
pub mod test_stream;
pub mod validator_matrix;

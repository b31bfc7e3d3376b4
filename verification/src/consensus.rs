//! The consensus protocol of one era: rounds of proposals, echoes and votes over a
//! weighted validator set, and the finalization of a chain of blocks.

pub mod types;
pub mod weights;
pub mod bitfield;
pub mod context;
pub mod wire;
pub mod round;
pub mod leader;
pub mod state;
pub mod wellformed;
pub mod updates;
pub mod chain;
pub mod protocol;
pub mod random;
pub mod sync;
pub mod incoming;
pub mod engine;
pub mod validity;
pub mod participation;
pub mod setup;
pub mod laws;

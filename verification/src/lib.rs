//! A deterministic fixed-formation shooter whose sessions can be replayed
//! from a compact trace of the player's moves.
//!
//! The crate holds the simulation engine, the trace codec and the replay
//! check that compares a claimed record with the one a replay produces.

pub mod codec;
pub mod engine;
pub mod hexdigit;
pub mod model;
pub mod position;
pub mod public_input;
pub mod replay;
pub mod replay_laws;
pub mod sequences;
pub mod session_laws;

//! Client-side networking core of a deterministic lockstep session: the frame
//! codec, the per-frame command codec, the channel between the game and the
//! network worker, and the worker's session state machine.

pub mod base;
pub mod chan;
pub mod codec;
pub mod command;
pub mod fields;
pub mod message;
pub mod wire;
pub mod worker;

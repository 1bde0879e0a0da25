//! Core of a background audio-capture daemon: a rolling in-memory history of
//! the most recent samples, sample conversion and chunking for a wakeword
//! detector, and the command-driven state machine that coordinates recording,
//! persistence and shutdown.  Device, transport and file I/O live outside
//! this crate and only exchange plain values with it.

pub mod chunk;
pub mod pcm;
pub mod ring;
pub mod save;
pub mod session;
pub mod stamp;
pub mod state;

//! Frames: a two-byte length, then a payload that starts with an opcode.

pub mod buffer;
pub mod codec;
pub mod laws;
pub mod layout;

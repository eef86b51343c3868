//! The verified core of a tile-based game server and of the bots that load-test it.

pub mod actors;
pub mod clock;
pub mod constants;
pub mod doubles;
pub mod entities;
pub mod game;
pub mod loadtest;
pub mod messages;
mod sharing;
pub mod text;
pub mod wire;

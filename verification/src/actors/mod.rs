//! The parts of the server that run on their own and hand each other messages.

pub mod creature_behavior;
pub mod message_router;
pub mod session;
pub mod world;

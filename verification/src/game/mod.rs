//! The rules of the game.

pub mod conditions;
pub mod config;
pub mod creature_abilities;
pub mod ctx;
pub mod events;
pub mod fields;
pub mod item_action;
pub mod movement;
pub mod spells;
pub mod support;
pub mod systems;
pub mod tick;

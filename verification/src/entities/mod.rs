//! What the game world is made of.

pub mod agent;
pub mod arena;
pub mod chat;
pub mod combat;
pub mod condition_list;
pub mod conditions;
pub mod creature;
pub mod effects;
pub mod healing;
pub mod inventory;
pub mod item;
pub mod items;
pub mod map;
pub mod player;
pub mod position;
pub mod skills;
pub mod spells;
pub mod stacking;
pub mod support;
pub mod tables;
pub mod targeting;
pub mod tile_lists;
pub mod tile_set;
pub mod vocation;
pub mod world_delta;
pub mod world_map;

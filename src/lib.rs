//! A procedurally generated dungeon grid and the per-turn visibility
//! computation over it (recursive shadowcasting).

pub mod fov;
pub mod constants;
pub mod position;
pub mod element;
mod dice;
pub mod map;
pub mod ai;
pub mod messages;
pub mod state;
pub mod input;
pub mod render;

//! Verified core of a Screeps colony bot: id allocation, the task store,
//! room and spawn actors, planning and the spawn decisions of each tick.
pub mod actor;
pub mod common;
pub mod entity;
pub mod game;
pub mod game_loop;
pub mod memory;
pub mod planner;
pub mod task;

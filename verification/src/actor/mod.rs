pub mod actor_core;
pub mod creep_harvester;
pub mod creep_upgrader;
pub mod room_actor;
pub mod spawn_actor;

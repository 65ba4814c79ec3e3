//! The bot's memory as it is kept between ticks.
use crate::actor::room_actor::{RoomMemories, RoomMemory};
use crate::actor::spawn_actor::{SpawnMemories, SpawnMemory};
use crate::common::id_manager::fresh_ids;
use crate::task::task_core::{Task, TaskMemory};
use vstd::prelude::*;

verus! {

/// What the bot remembers of its rooms, spawns and tasks.
pub struct Memory {
    pub rooms: RoomMemories,
    pub spawns: SpawnMemories,
    pub tasks: TaskMemory,
}

impl Default for Memory {
    fn default() -> (m: Self)
        ensures
            m.rooms.values@ == Seq::<(String, RoomMemory)>::empty(),
            m.spawns.values@ == Seq::<(String, SpawnMemory)>::empty(),
            m.spawns.id_manager@ == fresh_ids(),
            m.tasks.values@ == Seq::<(String, Task)>::empty(),
            m.tasks.id_manager@ == fresh_ids(),
    {
        Memory { rooms: RoomMemories::default(), spawns: SpawnMemories::default(), tasks: TaskMemory::default() }
    }
}

} // verus!

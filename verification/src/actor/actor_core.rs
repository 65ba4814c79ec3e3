//! All actors of the bot: the room actors and the spawn actors.
use crate::actor::room_actor::{room_actors_for, room_entries_of, room_names_valid, RoomActors, RoomId};
use crate::actor::spawn_actor::{
    run_explains, spawn_actors_for, spawn_entries_of, spawn_keys_valid, spawn_names_valid,
    SpawnActors, SpawnObservation, SpawnOrder,
};
use crate::memory::Memory;
use crate::task::task_core::Tasks;
use vstd::prelude::*;

verus! {

/// Why the actors could not finish their turn.
#[derive(Clone, Copy, Debug, PartialEq, Eq, Structural)]
pub enum ActorError {
    /// A task could not be reached.
    Task(crate::task::task_core::TaskError),
    /// A spawn's room is not among the known rooms.
    RoomNotFound,
    /// A spawn was asked to spawn while it was still spawning.
    SpawnBusy,
}

/// The room actors and the spawn actors.
pub struct Actors {
    pub room_actors: RoomActors,
    pub spawn_actors: SpawnActors,
}

impl Actors {
    /// Builds the actors of the rooms and spawns that the game reports, with
    /// what memory holds of them. Every room and spawn key in memory, and
    /// every spawn name, must be well-formed.
    pub fn build_actors(memory: &Memory, rooms: &Vec<(RoomId, u32)>, spawns: &Vec<SpawnObservation>) -> (actors: Actors)
        requires
            room_names_valid(memory.rooms.values@),
            spawn_keys_valid(memory.spawns.values@),
            spawn_names_valid(spawns@),
        ensures
            actors.room_actors@ == room_actors_for(rooms@),
            actors.spawn_actors@.ids == memory.spawns.id_manager@,
            actors.spawn_actors@.actors == spawn_actors_for(memory.spawns.values@, spawns@),
    {
        let room_actors = RoomActors::build_actors(&memory.rooms, rooms);
        let spawn_actors = SpawnActors::build_actors(&memory.spawns, spawns);
        Actors { room_actors, spawn_actors }
    }

    /// The actors' turn this tick (see `SpawnActors::run`).
    pub fn run(&mut self, tasks: &mut Tasks) -> (result: Result<Vec<SpawnOrder>, ActorError>)
        ensures
            final(self).room_actors@ == old(self).room_actors@,
            final(self).spawn_actors@.ids == old(self).spawn_actors@.ids,
            final(tasks)@.ids == old(tasks)@.ids,
            exists|order: Seq<usize>, task_order: Seq<usize>| #[trigger] run_explains(
                old(self).spawn_actors@.actors,
                old(self).room_actors@,
                old(tasks)@.tasks,
                order,
                task_order,
                final(self).spawn_actors@.actors,
                final(tasks)@.tasks,
                result,
            ),
    {
        SpawnActors::run(self, tasks)
    }

    /// Writes the memory of the rooms and the spawns; the task memory is left
    /// as it is.
    pub fn store_memory(&self, memory: &mut Memory)
        ensures
            room_entries_of(final(memory).rooms.values@, self.room_actors@),
            final(memory).spawns.id_manager@ == self.spawn_actors@.ids,
            spawn_entries_of(final(memory).spawns.values@, self.spawn_actors@.actors),
            final(memory).tasks.values@ == old(memory).tasks.values@,
            final(memory).tasks.id_manager@ == old(memory).tasks.id_manager@,
    {
        self.room_actors.store_memory(&mut memory.rooms);
        self.spawn_actors.store_memory(&mut memory.spawns);
    }
}

} // verus!

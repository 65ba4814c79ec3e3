//! One tick of the bot: planning, the actors' turn, and what is remembered.
use crate::actor::actor_core::{ActorError, Actors};
use crate::actor::room_actor::{
    lemma_room_names_stored_valid, room_actors_for, room_names_ok, room_entries_of, room_names_valid, RoomActor, RoomId,
};
use crate::actor::spawn_actor::{
    lemma_run_keeps_agreement, lemma_spawn_store_then_build, observed_spawns, run_explains, spawn_actors_for,
    spawn_entries_of, spawn_keys_ok, spawn_keys_valid, spawn_names_ok, spawn_names_valid, spawns_agree_with_tasks, SpawnActorsView, SpawnId,
    SpawnObservation, SpawnOrder,
};
use crate::common::id_manager::{alloc_fits, lemma_alloc_fits_below_max, live_keys};
use crate::game::game_time;
use crate::memory::Memory;
use crate::planner::planner_core::{lemma_plan_keeps_agreement, plan_at, plan_outcome, PlanError};
use crate::task::task_core::{
    entries_to_tasks, lemma_store_then_load, task_keys_ok, stored_form, task_keys_valid, tasks_consistent, Tasks, TasksView,
};
use vstd::prelude::*;

verus! {

/// Why a tick failed.
#[derive(Clone, Copy, Debug, PartialEq, Eq, Structural)]
pub enum LoopError {
    Plan(PlanError),
    Actor(ActorError),
}

/// Why the bot could not start from its memory and the game's reports.
#[derive(Clone, Copy, Debug, PartialEq, Eq, Structural)]
pub enum BootstrapError {
    /// A task memory key does not denote a task id.
    InvalidTaskKey,
    /// A room memory entry is not under a readable room name.
    InvalidRoomName,
    /// A spawn memory key does not denote a spawn id.
    InvalidSpawnKey,
    /// A reported spawn is not named by a spawn key.
    InvalidSpawnName,
}

/// Everything the bot keeps from one tick to the next.
pub struct Context {
    pub actors: Actors,
    pub memory: Memory,
    pub tasks: Tasks,
}

/// The result of the actors' turn, as the result of a tick.
pub open spec fn lift_actor_result(r: Result<Vec<SpawnOrder>, ActorError>) -> Result<Vec<SpawnOrder>, LoopError> {
    match r {
        Ok(orders) => Ok(orders),
        Err(e) => Err(LoopError::Actor(e)),
    }
}

/// Whether memory holds what the actors and the tasks of `ctx` hold.
pub open spec fn memory_written(ctx: Context) -> bool {
    &&& room_entries_of(ctx.memory.rooms.values@, ctx.actors.room_actors@)
    &&& ctx.memory.spawns.id_manager@ == ctx.actors.spawn_actors@.ids
    &&& spawn_entries_of(ctx.memory.spawns.values@, ctx.actors.spawn_actors@.actors)
    &&& ctx.memory.tasks.id_manager@ == ctx.tasks@.ids
    &&& stored_form(ctx.memory.tasks.values@, ctx.tasks@.tasks)
}

/// Whether the actors' turn, from the given spawns, rooms, tasks and memory,
/// ends in `after` with `result`: the turn goes as `SpawnActors::run` says,
/// and memory is written when it succeeded and left as it was when it failed.
pub open spec fn turn_explains(
    spawns: SpawnActorsView,
    rooms: Map<u16, RoomActor>,
    tasks: TasksView,
    memory: Memory,
    after: Context,
    result: Result<Vec<SpawnOrder>, LoopError>,
) -> bool {
    &&& after.actors.room_actors@ == rooms
    &&& after.actors.spawn_actors@.ids == spawns.ids
    &&& after.tasks@.ids == tasks.ids
    &&& exists|ran: Result<Vec<SpawnOrder>, ActorError>, order: Seq<usize>, task_order: Seq<usize>| {
        &&& #[trigger] run_explains(
            spawns.actors,
            rooms,
            tasks.tasks,
            order,
            task_order,
            after.actors.spawn_actors@.actors,
            after.tasks@.tasks,
            ran,
        )
        &&& result == lift_actor_result(ran)
        &&& ran is Err ==> after.memory == memory
        &&& ran is Ok ==> memory_written(after)
    }
}

/// Whether one tick at `now` takes `before` to `after` with `result`:
/// planning goes as `plan_at` says; when it fails, the tick ends there with
/// the actors and memory unchanged; else the actors take their turn.
pub open spec fn step_explains(before: Context, now: u32, after: Context, result: Result<Vec<SpawnOrder>, LoopError>) -> bool {
    exists|mid: TasksView, planned: Result<(), PlanError>| {
        &&& #[trigger] plan_outcome(before.actors.room_actors@, before.tasks@, now, mid, planned)
        &&& match planned {
            Err(e) => {
                &&& result == Err::<Vec<SpawnOrder>, LoopError>(LoopError::Plan(e))
                &&& after.tasks@ == mid
                &&& after.actors.room_actors@ == before.actors.room_actors@
                &&& after.actors.spawn_actors@ == before.actors.spawn_actors@
                &&& after.memory == before.memory
            },
            Ok(_) => turn_explains(
                before.actors.spawn_actors@,
                before.actors.room_actors@,
                mid,
                before.memory,
                after,
                result,
            ),
        }
    }
}

/// Whether the tasks of `ctx` are consistent with their id manager, and its
/// spawns agree with its tasks on who runs what.
pub open spec fn context_agrees(ctx: Context) -> bool {
    &&& tasks_consistent(ctx.tasks@)
    &&& spawns_agree_with_tasks(ctx.actors.spawn_actors@.actors, ctx.tasks@.tasks)
}

/// A tick keeps the context in agreement: the task store stays consistent
/// with its ids, and spawns and tasks keep agreeing on who runs what, however
/// the tick ends.
pub proof fn lemma_step_keeps_agreement(
    before: Context,
    now: u32,
    after: Context,
    result: Result<Vec<SpawnOrder>, LoopError>,
)
    requires
        context_agrees(before),
        alloc_fits(before.tasks@.ids, now),
        step_explains(before, now, after, result),
    ensures
        context_agrees(after),
{
    let spawns = before.actors.spawn_actors@.actors;
    let (mid, planned) = choose|mid: TasksView, planned: Result<(), PlanError>| {
        &&& #[trigger] plan_outcome(before.actors.room_actors@, before.tasks@, now, mid, planned)
        &&& match planned {
            Err(e) => {
                &&& result == Err::<Vec<SpawnOrder>, LoopError>(LoopError::Plan(e))
                &&& after.tasks@ == mid
                &&& after.actors.room_actors@ == before.actors.room_actors@
                &&& after.actors.spawn_actors@ == before.actors.spawn_actors@
                &&& after.memory == before.memory
            },
            Ok(_) => turn_explains(
                before.actors.spawn_actors@,
                before.actors.room_actors@,
                mid,
                before.memory,
                after,
                result,
            ),
        }
    };
    lemma_plan_keeps_agreement(spawns, before.actors.room_actors@, before.tasks@, now, mid, planned);
    // The actors' turn keeps it too.
    if planned is Ok {
        let (ran, order, task_order) = choose|ran: Result<Vec<SpawnOrder>, ActorError>, order: Seq<usize>, task_order: Seq<usize>| {
            &&& #[trigger] run_explains(
                spawns,
                before.actors.room_actors@,
                mid.tasks,
                order,
                task_order,
                after.actors.spawn_actors@.actors,
                after.tasks@.tasks,
                ran,
            )
            &&& result == lift_actor_result(ran)
            &&& ran is Err ==> after.memory == before.memory
            &&& ran is Ok ==> memory_written(after)
        };
        lemma_run_keeps_agreement(
            spawns,
            before.actors.room_actors@,
            mid.tasks,
            order,
            task_order,
            after.actors.spawn_actors@.actors,
            after.tasks@.tasks,
            ran,
        );
        assert forall|k: usize| #[trigger] after.tasks@.tasks.contains_key(k) implies live_keys(after.tasks@.ids).contains(k) by {
            assert(mid.tasks.contains_key(k));
        }
    }
}

/// What a tick writes to memory is read back by the next bootstrap: the
/// keys are well-formed, the tasks and their ids come back as they were, and,
/// given reports of the same spawns, so do the spawn actors and their ids.
pub proof fn lemma_memory_reads_back(ctx: Context, spawns: Seq<SpawnObservation>)
    requires
        memory_written(ctx),
        forall|p: usize| #[trigger] ctx.actors.spawn_actors@.actors.contains_key(p) ==> ctx.actors.spawn_actors@.actors[p].id == SpawnId(p),
        observed_spawns(spawns).dom() == ctx.actors.spawn_actors@.actors.dom(),
        forall|p: usize| #[trigger] ctx.actors.spawn_actors@.actors.contains_key(p) ==> {
            &&& observed_spawns(spawns)[p].room_id == ctx.actors.spawn_actors@.actors[p].room_id
            &&& observed_spawns(spawns)[p].spawning == ctx.actors.spawn_actors@.actors[p].spawning
        },
    ensures
        task_keys_valid(ctx.memory.tasks.values@),
        room_names_valid(ctx.memory.rooms.values@),
        spawn_keys_valid(ctx.memory.spawns.values@),
        ctx.memory.tasks.id_manager@ == ctx.tasks@.ids,
        entries_to_tasks(ctx.memory.tasks.values@) == ctx.tasks@.tasks,
        ctx.memory.spawns.id_manager@ == ctx.actors.spawn_actors@.ids,
        spawn_actors_for(ctx.memory.spawns.values@, spawns) == ctx.actors.spawn_actors@.actors,
{
    lemma_store_then_load(ctx.memory.tasks.values@, ctx.tasks@.tasks);
    lemma_room_names_stored_valid(ctx.memory.rooms.values@, ctx.actors.room_actors@);
    lemma_spawn_store_then_build(ctx.memory.spawns.values@, ctx.actors.spawn_actors@.actors, spawns);
}

impl Context {
    /// Starts the bot from its memory and from the rooms and spawns that the
    /// game reports. Every key in memory and every spawn name must be
    /// well-formed.
    pub fn bootstrap(memory: Memory, rooms: &Vec<(RoomId, u32)>, spawns: &Vec<SpawnObservation>) -> (ctx: Context)
        requires
            task_keys_valid(memory.tasks.values@),
            room_names_valid(memory.rooms.values@),
            spawn_keys_valid(memory.spawns.values@),
            spawn_names_valid(spawns@),
        ensures
            ctx.tasks@.ids == memory.tasks.id_manager@,
            ctx.tasks@.tasks == entries_to_tasks(memory.tasks.values@),
            ctx.actors.room_actors@ == room_actors_for(rooms@),
            ctx.actors.spawn_actors@.ids == memory.spawns.id_manager@,
            ctx.actors.spawn_actors@.actors == spawn_actors_for(memory.spawns.values@, spawns@),
            ctx.memory == memory,
    {
        let tasks = Tasks::from_memory(&memory.tasks);
        let actors = Actors::build_actors(&memory, rooms, spawns);
        Context { actors, memory, tasks }
    }

    /// Starts the bot as `bootstrap` does, after checking the keys and names
    /// that it needs well-formed, in this order: task keys, room names, spawn
    /// keys, spawn names. The first check that fails gives the error.
    pub fn try_bootstrap(memory: Memory, rooms: &Vec<(RoomId, u32)>, spawns: &Vec<SpawnObservation>) -> (result: Result<Context, BootstrapError>)
        ensures
            match result {
                Ok(ctx) => {
                    &&& task_keys_valid(memory.tasks.values@)
                    &&& room_names_valid(memory.rooms.values@)
                    &&& spawn_keys_valid(memory.spawns.values@)
                    &&& spawn_names_valid(spawns@)
                    &&& ctx.tasks@.ids == memory.tasks.id_manager@
                    &&& ctx.tasks@.tasks == entries_to_tasks(memory.tasks.values@)
                    &&& ctx.actors.room_actors@ == room_actors_for(rooms@)
                    &&& ctx.actors.spawn_actors@.ids == memory.spawns.id_manager@
                    &&& ctx.actors.spawn_actors@.actors == spawn_actors_for(memory.spawns.values@, spawns@)
                    &&& ctx.memory == memory
                },
                Err(e) => match e {
                    BootstrapError::InvalidTaskKey => !task_keys_valid(memory.tasks.values@),
                    BootstrapError::InvalidRoomName => task_keys_valid(memory.tasks.values@)
                        && !room_names_valid(memory.rooms.values@),
                    BootstrapError::InvalidSpawnKey => task_keys_valid(memory.tasks.values@)
                        && room_names_valid(memory.rooms.values@) && !spawn_keys_valid(memory.spawns.values@),
                    BootstrapError::InvalidSpawnName => task_keys_valid(memory.tasks.values@)
                        && room_names_valid(memory.rooms.values@) && spawn_keys_valid(memory.spawns.values@)
                        && !spawn_names_valid(spawns@),
                },
            },
    {
        if !task_keys_ok(&memory.tasks.values) {
            return Err(BootstrapError::InvalidTaskKey);
        }
        if !room_names_ok(&memory.rooms.values) {
            return Err(BootstrapError::InvalidRoomName);
        }
        if !spawn_keys_ok(&memory.spawns.values) {
            return Err(BootstrapError::InvalidSpawnKey);
        }
        if !spawn_names_ok(spawns) {
            return Err(BootstrapError::InvalidSpawnName);
        }
        Ok(Context::bootstrap(memory, rooms, spawns))
    }

    /// One tick at game tick `now`: plans, lets the actors take their turn,
    /// and writes the actors and tasks to memory. Returns the workers to
    /// spawn. When a step fails, the tick stops there and memory is left as
    /// it was.
    pub fn step_at(&mut self, now: u32) -> (result: Result<Vec<SpawnOrder>, LoopError>)
        requires
            alloc_fits(old(self).tasks@.ids, now),
        ensures
            step_explains(*old(self), now, *final(self), result),
    {
        let planned = plan_at(&self.actors, &mut self.tasks, now);
        let ghost mid = self.tasks@;
        match planned {
            Err(e) => {
                assert(plan_outcome(old(self).actors.room_actors@, old(self).tasks@, now, mid, planned));
                assert(self.memory == old(self).memory);
                return Err(LoopError::Plan(e));
            },
            Ok(()) => {},
        }
        let result = self.take_turn();
        assert(plan_outcome(old(self).actors.room_actors@, old(self).tasks@, now, mid, planned));
        assert(turn_explains(old(self).actors.spawn_actors@, old(self).actors.room_actors@, mid, old(self).memory, *self, result));
        result
    }

    /// One tick at the current game tick (see `step_at`). The counter of
    /// fresh task ids must be below `usize::MAX`.
    pub fn step(&mut self) -> (result: Result<Vec<SpawnOrder>, LoopError>)
        requires
            old(self).tasks@.ids.next < usize::MAX,
        ensures
            exists|now: u32| #[trigger] step_explains(*old(self), now, *final(self), result),
    {
        let now = game_time();
        proof {
            lemma_alloc_fits_below_max(self.tasks@.ids, now);
        }
        let result = self.step_at(now);
        assert(step_explains(*old(self), now, *self, result));
        result
    }

    /// The actors' turn, then the memory write when it succeeded.
    fn take_turn(&mut self) -> (result: Result<Vec<SpawnOrder>, LoopError>)
        ensures
            turn_explains(
                old(self).actors.spawn_actors@,
                old(self).actors.room_actors@,
                old(self).tasks@,
                old(self).memory,
                *final(self),
                result,
            ),
    {
        let ran = self.actors.run(&mut self.tasks);
        let ghost spawns_after = self.actors.spawn_actors@.actors;
        let ghost tasks_after = self.tasks@.tasks;
        assert(exists|order: Seq<usize>, task_order: Seq<usize>| #[trigger] run_explains(
            old(self).actors.spawn_actors@.actors,
            old(self).actors.room_actors@,
            old(self).tasks@.tasks,
            order,
            task_order,
            spawns_after,
            tasks_after,
            ran,
        ));
        if ran.is_ok() {
            self.actors.store_memory(&mut self.memory);
            self.tasks.store_memory(&mut self.memory.tasks);
        }
        let ghost ran_ghost = ran;
        let result = match ran {
            Ok(orders) => Ok(orders),
            Err(e) => Err(LoopError::Actor(e)),
        };
        assert(result == lift_actor_result(ran_ghost));
        assert(spawns_after == self.actors.spawn_actors@.actors && tasks_after == self.tasks@.tasks);
        assert(exists|order: Seq<usize>, task_order: Seq<usize>| #[trigger] run_explains(
            old(self).actors.spawn_actors@.actors,
            old(self).actors.room_actors@,
            old(self).tasks@.tasks,
            order,
            task_order,
            self.actors.spawn_actors@.actors,
            self.tasks@.tasks,
            ran_ghost,
        ));
        result
    }
}

} // verus!

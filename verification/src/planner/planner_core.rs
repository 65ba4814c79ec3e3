//! Planning: keeping the task list stocked with what the colony needs.
use crate::actor::actor_core::Actors;
use crate::actor::room_actor::{RoomActor, RoomId};
use crate::actor::spawn_actor::{spawns_agree_with_tasks, CreepClass, CreepSpawnTask, SpawnActor, SpawnId};
use crate::common::id_manager::{alloc_fits, alloc_spec, lemma_alloc_fits_below_max};
use crate::game::game_time;
use crate::common::enum_downcast::EnumDowncast;
use crate::task::task_core::{lemma_add_task_never_overwrites, tasks_consistent, Task, TaskError, TaskId, Tasks, TasksView};
use vstd::prelude::*;

verus! {

/// Why planning failed.
#[derive(Clone, Copy, Debug, PartialEq, Eq, Structural)]
pub enum PlanError {
    /// There is no room to plan for.
    NoRoom,
    /// A task could not be added.
    Task(TaskError),
}

/// Whether the store holds a creep-spawning task.
pub open spec fn has_creep_spawn_task(tasks: Map<usize, Task>) -> bool {
    exists|k: usize| #[trigger] tasks.contains_key(k) && tasks[k] is CreepSpawn
}

/// Whether planning at tick `now` with the given rooms takes the tasks from
/// `before` to `after` with `result` (see `plan_at`).
pub open spec fn plan_outcome(
    rooms: Map<u16, RoomActor>,
    before: TasksView,
    now: u32,
    after: TasksView,
    result: Result<(), PlanError>,
) -> bool {
    &&& has_creep_spawn_task(before.tasks) ==> result is Ok && after == before
    &&& !has_creep_spawn_task(before.tasks) && rooms.dom() == Set::<u16>::empty() ==> result
        == Err::<(), PlanError>(PlanError::NoRoom) && after == before
    &&& !has_creep_spawn_task(before.tasks) && rooms.dom() != Set::<u16>::empty() ==> {
        let (ids, key) = alloc_spec(before.ids, now);
        &&& result is Ok
        &&& after.ids == ids
        &&& exists|room: u16| #[trigger] rooms.contains_key(room) && after.tasks == before.tasks.insert(
            key,
            Task::CreepSpawn(CreepSpawnTask { id: TaskId(key), room_id: RoomId(room), creep_class: CreepClass::Worker, spawn: None }),
        )
    }
}

/// Plans at tick `now`: when no creep-spawning task is pending, asks for a
/// worker in one of the known rooms (the first in the rooms' own order, which
/// is not known); fails when no room is known.
pub fn plan_at(actors: &Actors, tasks: &mut Tasks, now: u32) -> (result: Result<(), PlanError>)
    requires
        alloc_fits(old(tasks)@.ids, now),
    ensures
        plan_outcome(actors.room_actors@, old(tasks)@, now, final(tasks)@, result),
{
    let pending = tasks.iter::<CreepSpawnTask>();
    if pending.len() > 0 {
        proof {
            let ids = choose|ids: Seq<usize>| {
                &&& ids.len() == pending@.len()
                &&& ids.no_duplicates()
                &&& forall|i: int| 0 <= i < ids.len() ==> tasks@.tasks.contains_key(#[trigger] ids[i])
                    && CreepSpawnTask::downcast_spec(tasks@.tasks[ids[i]]) == Some(*pending@[i])
                &&& forall|k: usize| #[trigger] tasks@.tasks.contains_key(k) && CreepSpawnTask::downcast_spec(tasks@.tasks[k]) is Some
                    ==> ids.contains(k)
            };
            assert(tasks@.tasks.contains_key(ids[0]));
        }
        return Ok(());
    }
    let rooms = actors.room_actors.iter();
    if rooms.len() == 0 {
        proof {
            assert(actors.room_actors@.dom() =~= Set::<u16>::empty()) by {
                assert forall|p: u16| !actors.room_actors@.contains_key(p) by {
                    if actors.room_actors@.contains_key(p) {
                        let i = choose|i: int| 0 <= i < rooms@.len() && rooms@[i].0.0 == p;
                    }
                }
            }
            assert(!has_creep_spawn_task(tasks@.tasks)) by {
                if has_creep_spawn_task(tasks@.tasks) {
                    let k = choose|k: usize| #[trigger] tasks@.tasks.contains_key(k) && tasks@.tasks[k] is CreepSpawn;
                    assert(CreepSpawnTask::downcast_spec(tasks@.tasks[k]) is Some);
                }
            }
        }
        return Err(PlanError::NoRoom);
    }
    let default_room_id = rooms[0].0;
    proof {
        assert(actors.room_actors@.contains_key(default_room_id.0));
        assert(actors.room_actors@.dom() != Set::<u16>::empty()) by {
            assert(actors.room_actors@.dom().contains(default_room_id.0));
        }
        assert(!has_creep_spawn_task(tasks@.tasks)) by {
            if has_creep_spawn_task(tasks@.tasks) {
                let k = choose|k: usize| #[trigger] tasks@.tasks.contains_key(k) && tasks@.tasks[k] is CreepSpawn;
                assert(CreepSpawnTask::downcast_spec(tasks@.tasks[k]) is Some);
            }
        }
    }
    let make = |id: TaskId| -> (task: Task)
        ensures
            task == Task::CreepSpawn(CreepSpawnTask { id, room_id: default_room_id, creep_class: CreepClass::Worker, spawn: None }),
        { CreepSpawnTask::new_task(id, default_room_id, CreepClass::Worker) };
    match tasks.add_task_at(now, make) {
        Ok(_) => Ok(()),
        Err(e) => Err(PlanError::Task(e)),
    }
}

/// Plans at the current game tick (see `plan_at`).
pub fn plan(actors: &mut Actors, tasks: &mut Tasks) -> (result: Result<(), PlanError>)
    requires
        old(tasks)@.ids.next < usize::MAX,
    ensures
        final(actors).room_actors@ == old(actors).room_actors@,
        final(actors).spawn_actors@ == old(actors).spawn_actors@,
        exists|now: u32| #[trigger] plan_outcome(old(actors).room_actors@, old(tasks)@, now, final(tasks)@, result),
{
    let now = game_time();
    proof {
        lemma_alloc_fits_below_max(tasks@.ids, now);
    }
    let result = plan_at(actors, tasks, now);
    assert(plan_outcome(actors.room_actors@, old(tasks)@, now, tasks@, result));
    result
}

/// Planning keeps the task store consistent with its ids and the spawns in
/// agreement with the tasks: a new request gets an id not in use, and no
/// spawn has taken it.
pub proof fn lemma_plan_keeps_agreement(
    spawns: Map<usize, SpawnActor>,
    rooms: Map<u16, RoomActor>,
    before: TasksView,
    now: u32,
    after: TasksView,
    result: Result<(), PlanError>,
)
    requires
        tasks_consistent(before),
        spawns_agree_with_tasks(spawns, before.tasks),
        alloc_fits(before.ids, now),
        plan_outcome(rooms, before, now, after, result),
    ensures
        tasks_consistent(after),
        spawns_agree_with_tasks(spawns, after.tasks),
{
    if !has_creep_spawn_task(before.tasks) && rooms.dom() != Set::<u16>::empty() {
        let (ids, key) = alloc_spec(before.ids, now);
        let room = choose|room: u16| #[trigger] rooms.contains_key(room) && after.tasks == before.tasks.insert(
            key,
            Task::CreepSpawn(CreepSpawnTask { id: TaskId(key), room_id: RoomId(room), creep_class: CreepClass::Worker, spawn: None }),
        );
        let task = Task::CreepSpawn(CreepSpawnTask { id: TaskId(key), room_id: RoomId(room), creep_class: CreepClass::Worker, spawn: None });
        lemma_add_task_never_overwrites(before, now, task);
        assert(after == TasksView { ids, tasks: before.tasks.insert(key, task) });
        assert forall|s: usize| #[trigger] spawns.contains_key(s) && spawns[s].memory.spawn_task is Some implies {
            let k = spawns[s].memory.spawn_task.unwrap().0;
            &&& after.tasks.contains_key(k)
            &&& after.tasks[k] is CreepSpawn
            &&& after.tasks[k]->CreepSpawn_0.spawn == Some(SpawnId(s))
        } by {
            assert(before.tasks.contains_key(spawns[s].memory.spawn_task.unwrap().0));
        }
        assert forall|k: usize| #[trigger] after.tasks.contains_key(k) && after.tasks[k] is CreepSpawn
            && after.tasks[k]->CreepSpawn_0.spawn is Some implies {
            let s = after.tasks[k]->CreepSpawn_0.spawn.unwrap().0;
            &&& spawns.contains_key(s)
            &&& spawns[s].memory.spawn_task == Some(TaskId(k))
        } by {
            assert(k != key);
            assert(before.tasks.contains_key(k));
        }
    }
}

/// Planning again changes nothing: after a successful plan a creep-spawning
/// task is pending, so the next plan succeeds and leaves the tasks as they
/// are.
pub proof fn lemma_plan_idempotent(
    rooms: Map<u16, RoomActor>,
    before: TasksView,
    now: u32,
    mid: TasksView,
    later: u32,
    after: TasksView,
    again: Result<(), PlanError>,
)
    requires
        plan_outcome(rooms, before, now, mid, Ok(())),
        plan_outcome(rooms, mid, later, after, again),
    ensures
        has_creep_spawn_task(mid.tasks),
        again is Ok,
        after == mid,
{
    if !has_creep_spawn_task(before.tasks) {
        let (ids, key) = alloc_spec(before.ids, now);
        assert(mid.tasks.contains_key(key) && mid.tasks[key] is CreepSpawn);
    }
}

} // verus!

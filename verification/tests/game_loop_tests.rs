use screeps_ai::actor::actor_core::ActorError;
use screeps_ai::actor::room_actor::{RoomId, RoomMemory};
use screeps_ai::actor::spawn_actor::{CreepSpawnTask, SpawnId, SpawnMemory, SpawnObservation};
use screeps_ai::game_loop::{BootstrapError, Context, LoopError};
use screeps_ai::memory::Memory;
use screeps_ai::planner::planner_core::PlanError;
use screeps_ai::task::task_core::{NoTask, Task, TaskId};

const E1N3: RoomId = RoomId(33148);

fn spawn(name: &str, spawning: bool) -> SpawnObservation {
    SpawnObservation { name: name.to_string(), room_id: E1N3, spawning }
}

#[test]
fn first_tick_spawns_a_worker_and_remembers() {
    let mut ctx = Context::bootstrap(Memory::default(), &vec![(E1N3, 300)], &vec![spawn("S001", false)]);
    let orders = ctx.step_at(0).unwrap();
    assert_eq!(orders.len(), 1);
    assert_eq!(orders[0].spawn, SpawnId(1));
    assert_eq!(ctx.memory.rooms.values, vec![("E1N3".to_string(), RoomMemory {})]);
    assert_eq!(ctx.memory.spawns.values, vec![("S001".to_string(), SpawnMemory { spawn_task: Some(TaskId(0)) })]);
    assert_eq!(ctx.memory.tasks.values.len(), 1);
    assert_eq!(ctx.memory.tasks.values[0].0, "T0000");
    assert_eq!(ctx.memory.tasks.id_manager.next_id, 1);
    // Spawn and task agree on who runs what.
    let task: &CreepSpawnTask = ctx.tasks.get(TaskId(0)).unwrap();
    assert_eq!(task.spawn, Some(SpawnId(1)));
}

#[test]
fn request_lives_until_the_spawn_is_done() {
    let mut ctx = Context::bootstrap(Memory::default(), &vec![(E1N3, 300)], &vec![spawn("S001", false)]);
    ctx.step_at(0).unwrap();
    // Next tick, rebuilt from memory: the spawn is busy with the worker.
    let mut ctx = Context::bootstrap(ctx.memory, &vec![(E1N3, 0)], &vec![spawn("S001", true)]);
    assert_eq!(ctx.step_at(1).unwrap().len(), 0);
    let pending: Vec<&CreepSpawnTask> = ctx.tasks.iter();
    assert_eq!(pending.len(), 1);
    // The worker is out: the request is done and leaves the store.
    let mut ctx = Context::bootstrap(ctx.memory, &vec![(E1N3, 0)], &vec![spawn("S001", false)]);
    assert_eq!(ctx.step_at(2).unwrap().len(), 0);
    let pending: Vec<&CreepSpawnTask> = ctx.tasks.iter();
    assert_eq!(pending.len(), 0);
    assert_eq!(ctx.memory.spawns.values, vec![("S001".to_string(), SpawnMemory { spawn_task: None })]);
    // Then a new worker is asked for, under a new id.
    let mut ctx = Context::bootstrap(ctx.memory, &vec![(E1N3, 300)], &vec![spawn("S001", false)]);
    assert_eq!(ctx.step_at(3).unwrap().len(), 1);
    assert_eq!(ctx.memory.spawns.values, vec![("S001".to_string(), SpawnMemory { spawn_task: Some(TaskId(1)) })]);
}

#[test]
fn memory_carries_over_a_restart() {
    let mut ctx = Context::bootstrap(Memory::default(), &vec![(E1N3, 300)], &vec![spawn("S001", false)]);
    ctx.step_at(0).unwrap();
    let memory = ctx.memory;
    let restarted = Context::bootstrap(memory, &vec![(E1N3, 300)], &vec![spawn("S001", true)]);
    let task: &CreepSpawnTask = restarted.tasks.get(TaskId(0)).unwrap();
    assert_eq!(task.spawn, Some(SpawnId(1)));
}

#[test]
fn tick_without_rooms_fails_in_planning() {
    let mut ctx = Context::bootstrap(Memory::default(), &vec![], &vec![]);
    assert_eq!(ctx.step_at(0).err(), Some(LoopError::Plan(PlanError::NoRoom)));
    assert!(ctx.memory.tasks.values.is_empty());
}

#[test]
fn tick_with_busy_spawn_fails_in_actors_turn() {
    let mut ctx = Context::bootstrap(Memory::default(), &vec![(E1N3, 300)], &vec![spawn("S001", true)]);
    assert_eq!(ctx.step_at(0).err(), Some(LoopError::Actor(ActorError::SpawnBusy)));
    // Memory is left as it was.
    assert!(ctx.memory.tasks.values.is_empty());
    assert!(ctx.memory.spawns.values.is_empty());
}

#[test]
fn try_bootstrap_checks_keys_in_order() {
    let mut memory = Memory::default();
    memory.tasks.values.push(("X1".to_string(), Task::NoTask(NoTask {})));
    memory.rooms.values.push(("nowhere".to_string(), RoomMemory {}));
    assert_eq!(Context::try_bootstrap(memory, &vec![], &vec![]).err(), Some(BootstrapError::InvalidTaskKey));

    let mut memory = Memory::default();
    memory.rooms.values.push(("nowhere".to_string(), RoomMemory {}));
    assert_eq!(Context::try_bootstrap(memory, &vec![], &vec![]).err(), Some(BootstrapError::InvalidRoomName));

    let mut memory = Memory::default();
    memory.rooms.values.push(("W-2147483648N0".to_string(), RoomMemory {}));
    assert_eq!(Context::try_bootstrap(memory, &vec![], &vec![]).err(), Some(BootstrapError::InvalidRoomName));

    let mut memory = Memory::default();
    memory.spawns.values.push(("Spawn1".to_string(), SpawnMemory { spawn_task: None }));
    assert_eq!(Context::try_bootstrap(memory, &vec![], &vec![]).err(), Some(BootstrapError::InvalidSpawnKey));

    assert_eq!(
        Context::try_bootstrap(Memory::default(), &vec![], &vec![spawn("Spawn1", false)]).err(),
        Some(BootstrapError::InvalidSpawnName)
    );
}

#[test]
fn try_bootstrap_accepts_what_a_tick_wrote() {
    let mut ctx = Context::bootstrap(Memory::default(), &vec![(E1N3, 300)], &vec![spawn("S001", false)]);
    ctx.step_at(0).unwrap();
    let mut memory = ctx.memory;
    memory.rooms.values.push(("E-5N3".to_string(), RoomMemory {}));
    let restarted = Context::try_bootstrap(memory, &vec![(E1N3, 300)], &vec![spawn("S001", true)]).ok().unwrap();
    let task: &CreepSpawnTask = restarted.tasks.get(TaskId(0)).unwrap();
    assert_eq!(task.spawn, Some(SpawnId(1)));
}

#[test]
fn default_memory_is_empty_with_fresh_ids() {
    let memory = Memory::default();
    assert!(memory.rooms.values.is_empty());
    assert!(memory.spawns.values.is_empty());
    assert!(memory.tasks.values.is_empty());
    assert_eq!(memory.spawns.id_manager.next_id, 0);
    assert!(memory.spawns.id_manager.free_keys.is_empty());
    assert!(memory.spawns.id_manager.pending_keys.is_empty());
    assert_eq!(memory.tasks.id_manager.next_id, 0);
}

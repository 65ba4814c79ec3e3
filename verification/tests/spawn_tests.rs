use screeps_ai::actor::actor_core::{ActorError, Actors};
use screeps_ai::actor::room_actor::{RoomActor, RoomId, RoomMemory};
use screeps_ai::actor::spawn_actor::{
    body_cost_of, spawn_keys_ok, spawn_names_ok, worker_body, CreepClass, CreepSpawnTask, SpawnActor, SpawnActors, SpawnError, SpawnId,
    SpawnMemories, SpawnMemory, SpawnObservation,
};
use screeps_ai::game::BodyPart;
use screeps_ai::memory::Memory;
use screeps_ai::task::task_core::{NoTask, Task, TaskError, TaskId, TaskMemory, Tasks};

const E1N3: RoomId = RoomId(33148);
const W0N0: RoomId = RoomId(32639);

fn observed(name: &str, room_id: RoomId, spawning: bool) -> SpawnObservation {
    SpawnObservation { name: name.to_string(), room_id, spawning }
}

fn room(energy: u32) -> RoomActor {
    RoomActor { memory: RoomMemory {}, energy }
}

fn idle_spawn(id: usize, room_id: RoomId) -> SpawnActor {
    SpawnActor { id: SpawnId(id), memory: SpawnMemory { spawn_task: None }, room_id, spawning: false }
}

fn open_task(id: usize, room_id: RoomId) -> CreepSpawnTask {
    CreepSpawnTask { id: TaskId(id), room_id, creep_class: CreepClass::Worker, spawn: None }
}

fn tasks_with(list: Vec<Task>) -> Tasks {
    let mut tasks = Tasks::from_memory(&TaskMemory::default());
    for t in list {
        tasks.add_task_at(0, move |_| t).unwrap();
    }
    tasks
}

#[test]
fn worker_body_costs_250() {
    let body = worker_body();
    assert_eq!(body, vec![BodyPart::Carry, BodyPart::Work, BodyPart::Move, BodyPart::Move]);
    assert_eq!(body_cost_of(&body), 250);
    assert_eq!(body_cost_of(&vec![]), 0);
    assert_eq!(body_cost_of(&vec![BodyPart::Claim, BodyPart::Heal, BodyPart::Tough]), 860);
    assert_eq!(body_cost_of(&vec![BodyPart::Attack, BodyPart::RangedAttack]), 230);
}

#[test]
fn run_spawn_task_takes_up_a_task_with_enough_energy() {
    let mut spawn = idle_spawn(1, E1N3);
    let mut task = open_task(0, E1N3);
    assert_eq!(spawn.run_spawn_task(&mut task, &room(250)), Ok(true));
    assert_eq!(task.spawn, Some(SpawnId(1)));
    assert_eq!(spawn.memory.spawn_task, Some(TaskId(0)));
}

#[test]
fn run_spawn_task_declines_without_energy() {
    let mut spawn = idle_spawn(1, E1N3);
    let mut task = open_task(0, E1N3);
    assert_eq!(spawn.run_spawn_task(&mut task, &room(249)), Ok(false));
    assert_eq!(task.spawn, None);
    assert_eq!(spawn.memory.spawn_task, None);
}

#[test]
fn run_spawn_task_declines_other_rooms_and_taken_tasks() {
    let mut spawn = idle_spawn(1, E1N3);
    let mut task = open_task(0, W0N0);
    assert_eq!(spawn.run_spawn_task(&mut task, &room(1000)), Ok(false));
    let mut taken = CreepSpawnTask { spawn: Some(SpawnId(2)), ..open_task(0, E1N3) };
    assert_eq!(spawn.run_spawn_task(&mut taken, &room(1000)), Ok(false));
    let mut busy_with_task = SpawnActor { memory: SpawnMemory { spawn_task: Some(TaskId(9)) }, ..idle_spawn(1, E1N3) };
    let mut task = open_task(0, E1N3);
    assert_eq!(busy_with_task.run_spawn_task(&mut task, &room(1000)), Ok(false));
}

#[test]
fn run_spawn_task_fails_while_spawning() {
    let mut spawn = SpawnActor { spawning: true, ..idle_spawn(1, E1N3) };
    let mut task = open_task(0, E1N3);
    assert_eq!(spawn.run_spawn_task(&mut task, &room(1000)), Err(SpawnError::SpawnBusy));
    assert_eq!(task.spawn, None);
}

#[test]
fn clean_up_removes_finished_task() {
    let mut tasks = tasks_with(vec![CreepSpawnTask::new_task(TaskId(0), E1N3, CreepClass::Worker)]);
    let mut spawn = SpawnActor { memory: SpawnMemory { spawn_task: Some(TaskId(0)) }, ..idle_spawn(1, E1N3) };
    assert_eq!(spawn.clean_up(&mut tasks), Ok(()));
    assert_eq!(spawn.memory.spawn_task, None);
    assert_eq!(tasks.get::<CreepSpawnTask>(TaskId(0)).err(), Some(TaskError::InvalidTaskId));
}

#[test]
fn clean_up_waits_while_spawning() {
    let mut tasks = tasks_with(vec![CreepSpawnTask::new_task(TaskId(0), E1N3, CreepClass::Worker)]);
    let mut spawn = SpawnActor { memory: SpawnMemory { spawn_task: Some(TaskId(0)) }, spawning: true, ..idle_spawn(1, E1N3) };
    assert_eq!(spawn.clean_up(&mut tasks), Ok(()));
    assert_eq!(spawn.memory.spawn_task, Some(TaskId(0)));
    assert!(tasks.get::<CreepSpawnTask>(TaskId(0)).is_ok());
}

#[test]
fn clean_up_reports_missing_or_wrong_task() {
    let mut tasks = tasks_with(vec![Task::NoTask(NoTask {})]);
    let mut spawn = SpawnActor { memory: SpawnMemory { spawn_task: Some(TaskId(0)) }, ..idle_spawn(1, E1N3) };
    assert_eq!(spawn.clean_up(&mut tasks), Err(TaskError::TaskTypeMismatch));
    assert_eq!(spawn.memory.spawn_task, Some(TaskId(0)));
    let mut lost = SpawnActor { memory: SpawnMemory { spawn_task: Some(TaskId(5)) }, ..idle_spawn(1, E1N3) };
    assert_eq!(lost.clean_up(&mut tasks), Err(TaskError::InvalidTaskId));
}

#[test]
fn build_actors_restores_spawn_memory() {
    let mut memories = SpawnMemories::default();
    memories.values.push(("S001".to_string(), SpawnMemory { spawn_task: Some(TaskId(3)) }));
    memories.values.push(("S002".to_string(), SpawnMemory { spawn_task: Some(TaskId(4)) }));
    let actors = SpawnActors::build_actors(&memories, &vec![observed("S001", E1N3, true), observed("S003", W0N0, false)]);
    let mut spawns: Vec<SpawnActor> = actors.iter().into_iter().copied().collect();
    spawns.sort_by_key(|s| s.id.0);
    assert_eq!(
        spawns,
        vec![
            SpawnActor { id: SpawnId(1), memory: SpawnMemory { spawn_task: Some(TaskId(3)) }, room_id: E1N3, spawning: true },
            SpawnActor { id: SpawnId(3), memory: SpawnMemory { spawn_task: None }, room_id: W0N0, spawning: false },
        ]
    );
}

#[test]
fn spawn_store_then_build() {
    let mut memories = SpawnMemories::default();
    memories.values.push(("S001".to_string(), SpawnMemory { spawn_task: Some(TaskId(3)) }));
    let reports = vec![observed("S001", E1N3, false), observed("S002", E1N3, false)];
    let actors = SpawnActors::build_actors(&memories, &reports);
    let mut stored = SpawnMemories::default();
    actors.store_memory(&mut stored);
    let mut keys: Vec<String> = stored.values.iter().map(|e| e.0.clone()).collect();
    keys.sort();
    assert_eq!(keys, vec!["S001".to_string(), "S002".to_string()]);
    let rebuilt = SpawnActors::build_actors(&stored, &reports);
    let mut a: Vec<SpawnActor> = actors.iter().into_iter().copied().collect();
    let mut b: Vec<SpawnActor> = rebuilt.iter().into_iter().copied().collect();
    a.sort_by_key(|s| s.id.0);
    b.sort_by_key(|s| s.id.0);
    assert_eq!(a, b);
}

#[test]
fn actors_run_orders_a_worker() {
    let memory = Memory::default();
    let mut actors = Actors::build_actors(&memory, &vec![(E1N3, 300)], &vec![observed("S001", E1N3, false)]);
    let mut tasks = tasks_with(vec![CreepSpawnTask::new_task(TaskId(0), E1N3, CreepClass::Worker)]);
    let orders = actors.run(&mut tasks).unwrap();
    assert_eq!(orders.len(), 1);
    assert_eq!(orders[0].spawn, SpawnId(1));
    assert_eq!(orders[0].body, worker_body());
    assert_eq!(orders[0].name, "t1");
    let task: &CreepSpawnTask = tasks.get(TaskId(0)).unwrap();
    assert_eq!(task.spawn, Some(SpawnId(1)));
    // The spawn remembers the task.
    let mut stored = Memory::default();
    actors.store_memory(&mut stored);
    assert_eq!(stored.spawns.values, vec![("S001".to_string(), SpawnMemory { spawn_task: Some(TaskId(0)) })]);
    assert_eq!(stored.rooms.values, vec![("E1N3".to_string(), RoomMemory {})]);
}

#[test]
fn actors_run_without_energy_orders_nothing() {
    let memory = Memory::default();
    let mut actors = Actors::build_actors(&memory, &vec![(E1N3, 100)], &vec![observed("S001", E1N3, false)]);
    let mut tasks = tasks_with(vec![CreepSpawnTask::new_task(TaskId(0), E1N3, CreepClass::Worker)]);
    assert_eq!(actors.run(&mut tasks).unwrap().len(), 0);
    let task: &CreepSpawnTask = tasks.get(TaskId(0)).unwrap();
    assert_eq!(task.spawn, None);
}

#[test]
fn actors_run_fails_for_unknown_room() {
    let memory = Memory::default();
    let mut actors = Actors::build_actors(&memory, &vec![(E1N3, 300)], &vec![observed("S001", W0N0, false)]);
    let mut tasks = tasks_with(vec![]);
    assert_eq!(actors.run(&mut tasks).err(), Some(ActorError::RoomNotFound));
}

#[test]
fn actors_run_fails_for_busy_spawn() {
    let memory = Memory::default();
    let mut actors = Actors::build_actors(&memory, &vec![(E1N3, 300)], &vec![observed("S001", E1N3, true)]);
    let mut tasks = tasks_with(vec![CreepSpawnTask::new_task(TaskId(0), E1N3, CreepClass::Worker)]);
    assert_eq!(actors.run(&mut tasks).err(), Some(ActorError::SpawnBusy));
}

#[test]
fn actors_run_reports_broken_task_reference() {
    let mut memory = Memory::default();
    memory.spawns.values.push(("S001".to_string(), SpawnMemory { spawn_task: Some(TaskId(8)) }));
    let mut actors = Actors::build_actors(&memory, &vec![(E1N3, 300)], &vec![observed("S001", E1N3, false)]);
    let mut tasks = tasks_with(vec![]);
    assert_eq!(actors.run(&mut tasks).err(), Some(ActorError::Task(TaskError::InvalidTaskId)));
}

#[test]
fn finished_spawn_cleans_up_on_next_run() {
    let mut memory = Memory::default();
    memory.spawns.values.push(("S001".to_string(), SpawnMemory { spawn_task: Some(TaskId(0)) }));
    let mut tasks = tasks_with(vec![Task::CreepSpawn(CreepSpawnTask { spawn: Some(SpawnId(1)), ..open_task(0, E1N3) })]);
    // Still spawning: nothing changes.
    let mut busy = Actors::build_actors(&memory, &vec![(E1N3, 0)], &vec![observed("S001", E1N3, true)]);
    assert_eq!(busy.run(&mut tasks).unwrap().len(), 0);
    assert!(tasks.get::<CreepSpawnTask>(TaskId(0)).is_ok());
    // Done spawning: the task leaves the store.
    let mut done = Actors::build_actors(&memory, &vec![(E1N3, 0)], &vec![observed("S001", E1N3, false)]);
    assert_eq!(done.run(&mut tasks).unwrap().len(), 0);
    assert_eq!(tasks.get::<CreepSpawnTask>(TaskId(0)).err(), Some(TaskError::InvalidTaskId));
    let mut stored = Memory::default();
    done.store_memory(&mut stored);
    assert_eq!(stored.spawns.values, vec![("S001".to_string(), SpawnMemory { spawn_task: None })]);
}

#[test]
fn spawn_keys_and_names_are_checked() {
    assert!(spawn_keys_ok(&vec![("S001".to_string(), SpawnMemory { spawn_task: None })]));
    assert!(!spawn_keys_ok(&vec![("Spawn1".to_string(), SpawnMemory { spawn_task: None })]));
    assert!(spawn_names_ok(&vec![observed("S002", E1N3, false)]));
    assert!(!spawn_names_ok(&vec![observed("S002", E1N3, false), observed("Spawn", E1N3, false)]));
}

#[test]
fn long_bodies_are_costed() {
    let body = vec![BodyPart::Move; 2000];
    assert_eq!(body_cost_of(&body), 100_000);
}

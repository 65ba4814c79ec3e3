use screeps_ai::actor::room_actor::RoomId;
use screeps_ai::actor::spawn_actor::{CreepClass, CreepSpawnTask, SpawnId};
use screeps_ai::common::enum_downcast::{EnumDispatcher, EnumDowncast};
use screeps_ai::task::task_core::{task_keys_ok, NoTask, Task, TaskError, TaskId, TaskMemory, Tasks};

const ROOM: RoomId = RoomId(33148);

fn spawn_task(id: TaskId) -> Task {
    CreepSpawnTask::new_task(id, ROOM, CreepClass::Worker)
}

fn empty_tasks() -> Tasks {
    Tasks::from_memory(&TaskMemory::default())
}

#[test]
fn new_task_is_not_taken() {
    let task = CreepSpawnTask::new_task(TaskId(3), ROOM, CreepClass::Worker);
    assert_eq!(
        task,
        Task::CreepSpawn(CreepSpawnTask { id: TaskId(3), room_id: ROOM, creep_class: CreepClass::Worker, spawn: None })
    );
}

#[test]
fn add_task_hands_out_ids_in_order() {
    let mut tasks = empty_tasks();
    assert_eq!(tasks.add_task_at(0, spawn_task), Ok(TaskId(0)));
    assert_eq!(tasks.add_task_at(0, spawn_task), Ok(TaskId(1)));
    let first: &CreepSpawnTask = tasks.get(TaskId(0)).unwrap();
    assert_eq!(first.id, TaskId(0));
    let second: &CreepSpawnTask = tasks.get(TaskId(1)).unwrap();
    assert_eq!(second.id, TaskId(1));
}

#[test]
fn get_reports_missing_and_mismatched_tasks() {
    let mut tasks = empty_tasks();
    tasks.add_task_at(0, spawn_task).unwrap();
    tasks.add_task_at(0, |_| Task::NoTask(NoTask {})).unwrap();
    assert_eq!(tasks.get::<CreepSpawnTask>(TaskId(7)).err(), Some(TaskError::InvalidTaskId));
    assert_eq!(tasks.get::<NoTask>(TaskId(0)).err(), Some(TaskError::TaskTypeMismatch));
    assert_eq!(tasks.get::<CreepSpawnTask>(TaskId(1)).err(), Some(TaskError::TaskTypeMismatch));
    assert_eq!(tasks.get::<NoTask>(TaskId(1)), Ok(&NoTask {}));
}

#[test]
fn task_get_mut_writes_through() {
    let mut tasks = empty_tasks();
    tasks.add_task_at(0, spawn_task).unwrap();
    {
        let task: &mut CreepSpawnTask = tasks.get_mut(TaskId(0)).unwrap();
        task.spawn = Some(SpawnId(1));
    }
    let task: &CreepSpawnTask = tasks.get(TaskId(0)).unwrap();
    assert_eq!(task.spawn, Some(SpawnId(1)));
    assert_eq!(tasks.get_mut::<NoTask>(TaskId(0)).err(), Some(TaskError::TaskTypeMismatch));
    assert_eq!(tasks.get_mut::<NoTask>(TaskId(5)).err(), Some(TaskError::InvalidTaskId));
}

#[test]
fn remove_task_takes_it_out() {
    let mut tasks = empty_tasks();
    tasks.add_task_at(0, spawn_task).unwrap();
    assert_eq!(tasks.remove_task(TaskId(0)), Ok(spawn_task(TaskId(0))));
    assert_eq!(tasks.remove_task(TaskId(0)), Err(TaskError::InvalidTaskId));
    assert_eq!(tasks.get::<CreepSpawnTask>(TaskId(0)).err(), Some(TaskError::InvalidTaskId));
    // The id was not freed: the next task gets a new one.
    assert_eq!(tasks.add_task_at(1000, spawn_task), Ok(TaskId(1)));
}

#[test]
fn iter_lists_tasks_of_one_kind() {
    let mut tasks = empty_tasks();
    tasks.add_task_at(0, spawn_task).unwrap();
    tasks.add_task_at(0, |_| Task::NoTask(NoTask {})).unwrap();
    tasks.add_task_at(0, spawn_task).unwrap();
    let spawning: Vec<&CreepSpawnTask> = tasks.iter();
    assert_eq!(spawning.len(), 2);
    let mut ids: Vec<usize> = spawning.iter().map(|t| t.id.0).collect();
    ids.sort();
    assert_eq!(ids, vec![0, 2]);
    let idle: Vec<&NoTask> = tasks.iter();
    assert_eq!(idle.len(), 1);
}

#[test]
fn store_memory_writes_keys() {
    let mut tasks = empty_tasks();
    tasks.add_task_at(0, spawn_task).unwrap();
    let mut memory = TaskMemory::default();
    tasks.store_memory(&mut memory);
    assert_eq!(memory.values.len(), 1);
    assert_eq!(memory.values[0].0, "T0000");
    assert_eq!(memory.values[0].1, spawn_task(TaskId(0)));
    assert_eq!(memory.id_manager.next_id, 1);
}

#[test]
fn store_then_load_gives_same_tasks() {
    let mut tasks = empty_tasks();
    for _ in 0..12 {
        tasks.add_task_at(0, spawn_task).unwrap();
    }
    tasks.remove_task(TaskId(4)).unwrap();
    let mut memory = TaskMemory::default();
    tasks.store_memory(&mut memory);
    let mut keys: Vec<String> = memory.values.iter().map(|e| e.0.clone()).collect();
    keys.sort();
    assert_eq!(keys.len(), 11);
    assert_eq!(keys[0], "T0000");
    assert_eq!(keys[10], "T0011");
    let loaded = Tasks::from_memory(&memory);
    for i in 0..12usize {
        let a = tasks.get::<CreepSpawnTask>(TaskId(i)).ok().copied();
        let b = loaded.get::<CreepSpawnTask>(TaskId(i)).ok().copied();
        assert_eq!(a, b);
    }
    assert_eq!(loaded.get::<CreepSpawnTask>(TaskId(4)).err(), Some(TaskError::InvalidTaskId));
}

#[test]
fn from_memory_later_entry_wins() {
    let mut memory = TaskMemory::default();
    memory.values.push(("T0001".to_string(), Task::NoTask(NoTask {})));
    memory.values.push(("T+1".to_string(), spawn_task(TaskId(1))));
    let tasks = Tasks::from_memory(&memory);
    assert!(tasks.get::<CreepSpawnTask>(TaskId(1)).is_ok());
    assert_eq!(tasks.get::<NoTask>(TaskId(1)).err(), Some(TaskError::TaskTypeMismatch));
}

#[test]
fn downcasts_pick_the_variant() {
    let mut task = spawn_task(TaskId(2));
    let inner = CreepSpawnTask { id: TaskId(2), room_id: ROOM, creep_class: CreepClass::Worker, spawn: None };
    assert_eq!(task.downcast_ref::<CreepSpawnTask>(), Some(&inner));
    assert_eq!(task.downcast_ref::<NoTask>(), None);
    if let Some(t) = task.downcast_mut::<CreepSpawnTask>() {
        t.spawn = Some(SpawnId(4));
    }
    assert_eq!(task.downcast::<CreepSpawnTask>().map(|t| t.spawn), Some(Some(SpawnId(4))));
    assert_eq!(Task::NoTask(NoTask {}).downcast::<NoTask>(), Some(NoTask {}));
    assert_eq!(<NoTask as EnumDowncast<Task>>::enum_downcast(spawn_task(TaskId(0))), None);
}

#[test]
fn task_keys_are_checked() {
    assert!(task_keys_ok(&vec![("T0001".to_string(), Task::NoTask(NoTask {}))]));
    assert!(!task_keys_ok(&vec![("T0001".to_string(), Task::NoTask(NoTask {})), ("S1".to_string(), Task::NoTask(NoTask {}))]));
}

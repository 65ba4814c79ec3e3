use screeps_ai::actor::actor_core::Actors;
use screeps_ai::actor::room_actor::RoomId;
use screeps_ai::actor::spawn_actor::{CreepClass, CreepSpawnTask, SpawnObservation};
use screeps_ai::memory::Memory;
use screeps_ai::planner::planner_core::{plan_at, PlanError};
use screeps_ai::task::task_core::{TaskId, TaskMemory, Tasks};

const E1N3: RoomId = RoomId(33148);

fn actors_in(rooms: Vec<(RoomId, u32)>) -> Actors {
    let spawns: Vec<SpawnObservation> = Vec::new();
    Actors::build_actors(&Memory::default(), &rooms, &spawns)
}

#[test]
fn plan_asks_for_a_worker() {
    let actors = actors_in(vec![(E1N3, 0)]);
    let mut tasks = Tasks::from_memory(&TaskMemory::default());
    assert_eq!(plan_at(&actors, &mut tasks, 0), Ok(()));
    let planned: Vec<&CreepSpawnTask> = tasks.iter();
    assert_eq!(
        planned,
        vec![&CreepSpawnTask { id: TaskId(0), room_id: E1N3, creep_class: CreepClass::Worker, spawn: None }]
    );
}

#[test]
fn plan_keeps_a_pending_request() {
    let actors = actors_in(vec![(E1N3, 0)]);
    let mut tasks = Tasks::from_memory(&TaskMemory::default());
    plan_at(&actors, &mut tasks, 0).unwrap();
    assert_eq!(plan_at(&actors, &mut tasks, 1), Ok(()));
    let planned: Vec<&CreepSpawnTask> = tasks.iter();
    assert_eq!(planned.len(), 1);
}

#[test]
fn plan_without_rooms_fails() {
    let actors = actors_in(vec![]);
    let mut tasks = Tasks::from_memory(&TaskMemory::default());
    assert_eq!(plan_at(&actors, &mut tasks, 0), Err(PlanError::NoRoom));
    let planned: Vec<&CreepSpawnTask> = tasks.iter();
    assert!(planned.is_empty());
}

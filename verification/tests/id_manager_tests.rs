use screeps_ai::common::id_manager::{IdManager, FREE_COOLDOWN_TIME};
use screeps_ai::task::task_core::TaskId;

#[test]
fn new_manager_is_empty() {
    let m: IdManager<TaskId> = IdManager::new();
    assert_eq!(m.next_id, 0);
    assert!(m.free_keys.is_empty());
    assert!(m.pending_keys.is_empty());
    let d: IdManager<TaskId> = IdManager::default();
    assert_eq!(d.next_id, 0);
}

#[test]
fn fresh_ids_count_up() {
    let mut m: IdManager<TaskId> = IdManager::new();
    assert_eq!(m.alloc_id_at(0), TaskId(0));
    assert_eq!(m.alloc_id_at(0), TaskId(1));
    assert_eq!(m.alloc_id_at(5), TaskId(2));
    assert_eq!(m.next_id, 3);
}

#[test]
fn freed_id_waits_for_cooldown() {
    let mut m: IdManager<TaskId> = IdManager::new();
    for _ in 0..3 {
        m.alloc_id_at(0);
    }
    m.free_id_at(TaskId(1), 10);
    assert_eq!(m.pending_keys.len(), 1);
    assert_eq!(m.pending_keys[0].key, 1);
    assert_eq!(m.pending_keys[0].free_time, 10);
    // Still cooling down: a fresh id.
    assert_eq!(m.alloc_id_at(10 + FREE_COOLDOWN_TIME - 1), TaskId(3));
    // Cooled down: the freed id comes back.
    assert_eq!(m.alloc_id_at(10 + FREE_COOLDOWN_TIME), TaskId(1));
    assert!(m.pending_keys.is_empty());
}

#[test]
fn smallest_free_key_first() {
    let mut m: IdManager<TaskId> = IdManager::new();
    for _ in 0..4 {
        m.alloc_id_at(0);
    }
    m.free_id_at(TaskId(2), 0);
    m.free_id_at(TaskId(0), 0);
    assert_eq!(m.alloc_id_at(1000), TaskId(0));
    assert_eq!(m.alloc_id_at(1000), TaskId(2));
    assert_eq!(m.alloc_id_at(1000), TaskId(4));
}

#[test]
fn counter_shrinks_over_free_top_keys() {
    let mut m: IdManager<TaskId> = IdManager::new();
    for _ in 0..3 {
        m.alloc_id_at(0);
    }
    m.free_id_at(TaskId(2), 0);
    m.free_id_at(TaskId(1), 0);
    // Both released: the counter drops back to 1, and 1 is handed out fresh.
    assert_eq!(m.alloc_id_at(FREE_COOLDOWN_TIME), TaskId(1));
    assert_eq!(m.next_id, 2);
    assert!(m.free_keys.is_empty());
}

#[test]
fn duplicate_copies_state() {
    let mut m: IdManager<TaskId> = IdManager::new();
    m.alloc_id_at(0);
    m.free_id_at(TaskId(0), 3);
    let d = m.duplicate();
    assert_eq!(d.next_id, m.next_id);
    assert_eq!(d.pending_keys, m.pending_keys);
    assert_eq!(d.free_keys, m.free_keys);
}

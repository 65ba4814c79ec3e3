use screeps_ai::actor::room_actor::{room_names_ok, RoomActor, RoomActors, RoomId, RoomMemories, RoomMemory};

const E1N3: RoomId = RoomId(33148);

#[test]
fn room_names_are_displayed_as_the_game_does() {
    assert_eq!(E1N3.name(), "E1N3");
    assert_eq!(RoomId(32639).name(), "W0N0");
    assert_eq!(RoomId(32896).name(), "E0S0");
    assert_eq!(RoomId::from_packed(33148), E1N3);
    assert_eq!(E1N3.packed(), 33148);
}

#[test]
fn room_names_parse_back() {
    assert_eq!(RoomId::parse_name("E1N3"), Some(E1N3));
    assert_eq!(RoomId::parse_name("W0N0"), Some(RoomId(32639)));
    assert_eq!(RoomId::parse_name("not a room"), None);
    assert_eq!(RoomId::parse_name(""), None);
    for p in [E1N3, RoomId(32639), RoomId(32896), RoomId(0x7f81)] {
        assert_eq!(RoomId::parse_name(&p.name()), Some(p));
    }
}

#[test]
fn build_actors_keeps_reported_rooms() {
    let actors = RoomActors::build_actors(&RoomMemories::default(), &vec![(E1N3, 300), (RoomId(32639), 50)]);
    assert_eq!(actors.get(&E1N3), Some(&RoomActor { memory: RoomMemory {}, energy: 300 }));
    assert_eq!(actors.get(&RoomId(32639)).map(|a| a.energy_available()), Some(50));
    assert_eq!(actors.get(&RoomId(1)), None);
    assert_eq!(actors.iter().len(), 2);
}

#[test]
fn later_report_of_a_room_wins() {
    let actors = RoomActors::build_actors(&RoomMemories::default(), &vec![(E1N3, 100), (E1N3, 200)]);
    assert_eq!(actors.iter().len(), 1);
    assert_eq!(actors.get(&E1N3).map(|a| a.energy), Some(200));
}

#[test]
fn room_get_mut_writes_through() {
    let mut actors = RoomActors::build_actors(&RoomMemories::default(), &vec![(E1N3, 100)]);
    if let Some(a) = actors.get_mut(&E1N3) {
        a.energy = 7;
    }
    assert_eq!(actors.get(&E1N3).map(|a| a.energy), Some(7));
    assert!(actors.get_mut(&RoomId(5)).is_none());
}

#[test]
fn store_memory_writes_room_names() {
    let actors = RoomActors::build_actors(&RoomMemories::default(), &vec![(E1N3, 100)]);
    let mut memories = RoomMemories::default();
    actors.store_memory(&mut memories);
    assert_eq!(memories.values, vec![("E1N3".to_string(), RoomMemory {})]);
    let rebuilt = RoomActors::build_actors(&memories, &vec![(E1N3, 100)]);
    assert_eq!(rebuilt.get(&E1N3), actors.get(&E1N3));
}

#[test]
fn name_overflow_is_detected() {
    assert!(RoomId::name_overflows("W-2147483648N0"));
    assert!(RoomId::name_overflows("w-02147483648s5"));
    assert!(RoomId::name_overflows("E0N-2147483648"));
    assert!(!RoomId::name_overflows("E-2147483648N0"));
    assert!(!RoomId::name_overflows("E0S-2147483648"));
    assert!(!RoomId::name_overflows("W-2147483648N"));
    assert!(!RoomId::name_overflows("W-2147483649N0"));
    assert!(!RoomId::name_overflows("E1N3"));
    assert!(!RoomId::name_overflows("sim"));
    assert!(!RoomId::name_overflows(""));
    assert_eq!(RoomId::parse_name("E-5N3"), RoomId::parse_name("W4N3"));
}

#[test]
fn room_names_are_checked() {
    assert!(room_names_ok(&vec![("E1N3".to_string(), RoomMemory {})]));
    assert!(!room_names_ok(&vec![("E1N3".to_string(), RoomMemory {}), ("E1".to_string(), RoomMemory {})]));
    assert!(!room_names_ok(&vec![("W-2147483648N0".to_string(), RoomMemory {})]));
    assert!(room_names_ok(&vec![]));
}

#[test]
fn room_name_grammar() {
    assert_eq!(RoomId::parse_name("e1n3"), Some(E1N3));
    assert_eq!(RoomId::parse_name("E+1N3"), Some(E1N3));
    assert_eq!(RoomId::parse_name("E001N003"), Some(E1N3));
    assert_eq!(RoomId::parse_name("E128N0"), None);
    assert_eq!(RoomId::parse_name("W127N127"), Some(RoomId(0)));
    assert_eq!(RoomId::parse_name("E1N"), None);
    assert_eq!(RoomId::parse_name("X1N3"), None);
    assert_eq!(RoomId::parse_name("E1X3"), None);
}

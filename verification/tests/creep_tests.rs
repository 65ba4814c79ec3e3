use screeps_ai::entity::is_simulator_room;
use screeps_ai::actor::creep_harvester::{follow_up, harvest_target, FollowUp, HarvestTarget, WorkReply};
use screeps_ai::actor::creep_upgrader::{upgrader_action, UpgraderAction, UpgraderView};

#[test]
fn harvester_rests_while_spawning() {
    assert_eq!(harvest_target(true, 50), None);
    assert_eq!(harvest_target(true, 0), None);
}

#[test]
fn harvester_fills_up_then_delivers() {
    assert_eq!(harvest_target(false, 50), Some(HarvestTarget::Source));
    assert_eq!(harvest_target(false, 1), Some(HarvestTarget::Source));
    assert_eq!(harvest_target(false, 0), Some(HarvestTarget::Spawn));
    assert_eq!(harvest_target(false, -3), Some(HarvestTarget::Spawn));
}

#[test]
fn harvester_follow_up() {
    assert_eq!(follow_up(WorkReply::Done), FollowUp::Finished);
    assert_eq!(follow_up(WorkReply::NotInRange), FollowUp::MoveCloser);
    assert_eq!(follow_up(WorkReply::Refused), FollowUp::Fail);
}

fn view() -> UpgraderView {
    UpgraderView {
        spawning: false,
        carried: 0,
        free_capacity: 50,
        near_spawn: true,
        spawn_energy: 300,
        near_controller: false,
    }
}

#[test]
fn upgrader_rests_while_spawning() {
    assert_eq!(upgrader_action(&UpgraderView { spawning: true, ..view() }), UpgraderAction::Rest);
}

#[test]
fn empty_upgrader_loads_at_spawn() {
    assert_eq!(upgrader_action(&UpgraderView { near_spawn: false, ..view() }), UpgraderAction::MoveToSpawn);
    assert_eq!(upgrader_action(&view()), UpgraderAction::Withdraw);
    assert_eq!(upgrader_action(&UpgraderView { spawn_energy: 50, ..view() }), UpgraderAction::Withdraw);
    assert_eq!(upgrader_action(&UpgraderView { spawn_energy: 49, ..view() }), UpgraderAction::Rest);
}

#[test]
fn upgrader_compares_spawn_energy_as_signed() {
    // 3_000_000_000 wraps to a negative 32-bit number, which never fills the creep.
    assert_eq!(upgrader_action(&UpgraderView { spawn_energy: 3_000_000_000, ..view() }), UpgraderAction::Rest);
}

#[test]
fn loaded_upgrader_works_the_controller() {
    let loaded = UpgraderView { carried: 50, ..view() };
    assert_eq!(upgrader_action(&loaded), UpgraderAction::MoveToController);
    assert_eq!(upgrader_action(&UpgraderView { near_controller: true, ..loaded }), UpgraderAction::Upgrade);
}

#[test]
fn simulator_is_told_by_room_name() {
    assert!(is_simulator_room(Some("sim")));
    assert!(!is_simulator_room(Some("E1N3")));
    assert!(!is_simulator_room(Some("sim2")));
    assert!(!is_simulator_room(Some("si")));
    assert!(!is_simulator_room(Some("")));
    assert!(!is_simulator_room(None));
}

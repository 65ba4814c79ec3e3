//! What an upgrading creep does next: load energy at its spawn, then spend
//! it on the room controller.
use vstd::prelude::*;

verus! {

/// An upgrader's action this tick.
#[derive(Clone, Copy, Debug, PartialEq, Eq, Structural)]
pub enum UpgraderAction {
    /// Do nothing this tick.
    Rest,
    /// Move towards the spawn to load energy.
    MoveToSpawn,
    /// Take energy from the spawn.
    Withdraw,
    /// Move towards the room controller.
    MoveToController,
    /// Spend energy on the room controller.
    Upgrade,
}

/// What the creep and its surroundings look like this tick.
#[derive(Clone, Copy, Debug, PartialEq, Eq, Structural)]
pub struct UpgraderView {
    /// The creep is still being spawned.
    pub spawning: bool,
    /// Energy the creep carries.
    pub carried: u32,
    /// Energy the creep could still take on.
    pub free_capacity: i32,
    /// The creep stands next to its spawn.
    pub near_spawn: bool,
    /// Energy stored in the spawn.
    pub spawn_energy: u32,
    /// The creep stands next to the room controller.
    pub near_controller: bool,
}

/// The upgrader's action: an empty creep goes to its spawn and loads only
/// when the spawn can fill it up; a loaded creep goes to the controller and
/// upgrades it. (The spawn's energy is compared as the game's 32-bit signed
/// number.)
pub open spec fn upgrader_action_spec(v: UpgraderView) -> UpgraderAction {
    if v.spawning {
        UpgraderAction::Rest
    } else if v.carried == 0 {
        if !v.near_spawn {
            UpgraderAction::MoveToSpawn
        } else if v.free_capacity > (v.spawn_energy as i32) {
            UpgraderAction::Rest
        } else {
            UpgraderAction::Withdraw
        }
    } else if !v.near_controller {
        UpgraderAction::MoveToController
    } else {
        UpgraderAction::Upgrade
    }
}

/// Chooses the upgrader's action this tick.
pub fn upgrader_action(v: &UpgraderView) -> (action: UpgraderAction)
    ensures
        action == upgrader_action_spec(*v),
{
    if v.spawning {
        return UpgraderAction::Rest;
    }
    if v.carried == 0 {
        if !v.near_spawn {
            return UpgraderAction::MoveToSpawn;
        }
        if v.free_capacity > v.spawn_energy as i32 {
            return UpgraderAction::Rest;
        }
        UpgraderAction::Withdraw
    } else {
        if !v.near_controller {
            return UpgraderAction::MoveToController;
        }
        UpgraderAction::Upgrade
    }
}

/// An upgrader rests while it is being spawned. Once spawned, a creep that
/// carries energy never loads: it goes to the controller and upgrades it
/// there. An empty creep never goes to the controller: it goes to its spawn
/// and takes energy only when the spawn holds at least as much as the creep
/// can take on (compared as the game's 32-bit signed numbers).
pub proof fn lemma_upgrader_loads_only_when_empty(v: UpgraderView)
    ensures
        v.spawning ==> upgrader_action_spec(v) == UpgraderAction::Rest,
        !v.spawning && v.carried > 0 && v.near_controller ==> upgrader_action_spec(v) == UpgraderAction::Upgrade,
        !v.spawning && v.carried > 0 && !v.near_controller ==> upgrader_action_spec(v) == UpgraderAction::MoveToController,
        !v.spawning && v.carried == 0 && !v.near_spawn ==> upgrader_action_spec(v) == UpgraderAction::MoveToSpawn,
        !v.spawning && v.carried == 0 && v.near_spawn ==> (upgrader_action_spec(v) == UpgraderAction::Withdraw
            <==> v.free_capacity <= (v.spawn_energy as i32)),
        !v.spawning && v.carried == 0 && v.near_spawn ==> (upgrader_action_spec(v) == UpgraderAction::Rest
            <==> v.free_capacity > (v.spawn_energy as i32)),
{
}

} // verus!

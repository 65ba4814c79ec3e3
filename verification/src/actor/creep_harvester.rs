//! What a harvesting creep does next: fill up at its source, then carry the
//! energy to its spawn.
use vstd::prelude::*;

verus! {

/// Where a harvester works this tick.
#[derive(Clone, Copy, Debug, PartialEq, Eq, Structural)]
pub enum HarvestTarget {
    /// Harvest energy from the creep's source.
    Source,
    /// Hand the carried energy over to the creep's spawn.
    Spawn,
}

/// How the game answered a harvest or a transfer.
#[derive(Clone, Copy, Debug, PartialEq, Eq, Structural)]
pub enum WorkReply {
    /// The action was accepted.
    Done,
    /// The target is too far away.
    NotInRange,
    /// The action was refused for another reason.
    Refused,
}

/// What follows a harvest or a transfer.
#[derive(Clone, Copy, Debug, PartialEq, Eq, Structural)]
pub enum FollowUp {
    /// Nothing more this tick.
    Finished,
    /// Move towards the target.
    MoveCloser,
    /// The creep's turn fails.
    Fail,
}

/// The target of a harvester this tick: none while it is still being
/// spawned, its source while it has room for energy, else its spawn.
pub open spec fn harvest_target_spec(spawning: bool, free_energy: i32) -> Option<HarvestTarget> {
    if spawning {
        None
    } else if free_energy > 0 {
        Some(HarvestTarget::Source)
    } else {
        Some(HarvestTarget::Spawn)
    }
}

/// Chooses a harvester's target from whether it is still being spawned and
/// how much more energy it can carry.
pub fn harvest_target(spawning: bool, free_energy: i32) -> (target: Option<HarvestTarget>)
    ensures
        target == harvest_target_spec(spawning, free_energy),
{
    if spawning {
        None
    } else if free_energy > 0 {
        Some(HarvestTarget::Source)
    } else {
        Some(HarvestTarget::Spawn)
    }
}

/// What follows the game's answer to a harvest or a transfer: a target out
/// of range is approached, any other refusal fails the turn.
pub fn follow_up(reply: WorkReply) -> (next: FollowUp)
    ensures
        reply == WorkReply::Done ==> next == FollowUp::Finished,
        reply == WorkReply::NotInRange ==> next == FollowUp::MoveCloser,
        reply == WorkReply::Refused ==> next == FollowUp::Fail,
{
    match reply {
        WorkReply::Done => FollowUp::Finished,
        WorkReply::NotInRange => FollowUp::MoveCloser,
        WorkReply::Refused => FollowUp::Fail,
    }
}

/// A harvester rests exactly while it is being spawned; otherwise it works at
/// its source exactly while it has room for more energy, and delivers to its
/// spawn once it is full.
pub proof fn lemma_harvester_fills_up_then_delivers(spawning: bool, free_energy: i32)
    ensures
        harvest_target_spec(spawning, free_energy) is None <==> spawning,
        !spawning ==> (harvest_target_spec(spawning, free_energy) == Some(HarvestTarget::Source) <==> free_energy > 0),
        !spawning ==> (harvest_target_spec(spawning, free_energy) == Some(HarvestTarget::Spawn) <==> free_energy <= 0),
{
}

} // verus!

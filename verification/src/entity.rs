//! Telling the simulator apart from a real shard.
use vstd::prelude::*;

verus! {

/// Whether the game runs in the simulator, judged by the name of the first
/// visible room (`None` when there is no room, or its name could not be
/// read): the simulator's only room is named `sim`.
pub fn is_simulator_room(first_room_name: Option<&str>) -> (sim: bool)
    ensures
        sim == (match first_room_name {
            Some(name) => name@ == "sim"@,
            None => false,
        }),
{
    match first_room_name {
        None => false,
        Some(name) => {
            proof {
                reveal_strlit("sim");
            }
            if name.unicode_len() != 3 {
                return false;
            }
            let sim = name.get_char(0) == 's' && name.get_char(1) == 'i' && name.get_char(2) == 'm';
            proof {
                if sim {
                    assert(name@ =~= "sim"@);
                }
            }
            sim
        },
    }
}

} // verus!

//! Rooms: their memory, kept under room names, and their actors.
use crate::common::id_key::{all_digits, digits_value, keys_distinct, parse_digits};
use crate::common::map_util::{map_get_mut, map_keys_copied};
use crate::game::{
    lemma_displayed_name_never_overflows, lemma_room_of_displayed_name, parse_room_name, room_name_string,
    is_i32_min_text, is_room_separator, parses_as_i32, room_name_text, room_of_name, room_text_overflows,
};
use std::collections::HashMap;
use vstd::prelude::*;

verus! {

broadcast use vstd::std_specs::hash::group_hash_axioms;

/// A room, by its packed room name.
#[derive(Clone, Copy, Debug, PartialEq, Eq, Structural, Hash, Default)]
pub struct RoomId(pub u16);

/// Whether `c` ends the first coordinate of a room name.
fn is_separator_char(c: char) -> (sep: bool)
    ensures
        sep == is_room_separator(c),
{
    c == 'N' || c == 'n' || c == 'S' || c == 's'
}

/// Whether the characters of `text` from `start` to `end` are what
/// `str::parse::<i32>` accepts, and whether they read as `i32::MIN`.
fn i32_text_at(text: &str, start: usize, end: usize) -> (r: (bool, bool))
    requires
        start <= end <= text@.len(),
    ensures
        r.0 == parses_as_i32(text@.subrange(start as int, end as int)),
        r.1 == is_i32_min_text(text@.subrange(start as int, end as int)),
{
    let ghost sub = text@.subrange(start as int, end as int);
    if start == end {
        return (false, false);
    }
    let c = text.get_char(start);
    assert(c == sub[0]);
    let negative = c == '-';
    let signed = c == '+' || negative;
    let body_start = if signed { start + 1 } else { start };
    let ghost body = text@.subrange(body_start as int, end as int);
    assert(body =~= if sub.len() > 0 && (sub[0] == '+' || sub[0] == '-') { sub.drop_first() } else { sub });
    if signed {
        assert(sub.drop_first() =~= body);
    }
    if body_start == end {
        return (false, false);
    }
    match parse_digits(text, body_start, end) {
        None => {
            proof {
                if all_digits(body) {
                    assert(digits_value(body) > usize::MAX);
                }
            }
            (false, false)
        },
        Some(v) => {
            let ok = if negative { v <= 0x8000_0000 } else { v <= 0x7fff_ffff };
            (ok, negative && v == 0x8000_0000)
        },
    }
}

impl RoomId {
    /// The room with this packed room name.
    pub fn from_packed(packed: u16) -> (id: RoomId)
        ensures
            id.0 == packed,
    {
        RoomId(packed)
    }

    /// The packed room name of this room.
    pub fn packed(&self) -> (packed: u16)
        ensures
            packed == self.0,
    {
        self.0
    }

    /// The name of this room, as the game displays it (`E1N3`).
    pub fn name(&self) -> (name: String)
        ensures
            name@ == room_name_text(self.0),
    {
        room_name_string(self.0)
    }

    /// Whether the game library's room-name parser overflows on `name` (a
    /// west or north coordinate written as `i32::MIN`); `parse_name` leaves
    /// such names out.
    pub fn name_overflows(name: &str) -> (overflows: bool)
        ensures
            overflows == room_text_overflows(name@),
    {
        let len = name.unicode_len();
        if len < 3 {
            return false;
        }
        let mut j: usize = 2;
        while j < len && !is_separator_char(name.get_char(j))
            invariant
                2 <= j <= len,
                len == name@.len(),
                forall|i: int| 2 <= i < j ==> !is_room_separator(#[trigger] name@[i]),
            decreases len - j,
        {
            j = j + 1;
        }
        if j == len {
            proof {
                if room_text_overflows(name@) {
                    let k = choose|k: int|
                        #![trigger name@[k]]
                        2 <= k < name@.len() && is_room_separator(name@[k]) && (forall|i: int|
                            2 <= i < k ==> !is_room_separator(#[trigger] name@[i])) && {
                            let x = name@.subrange(1, k);
                            let y = name@.subrange(k + 1, name@.len() as int);
                            let west = name@[0] == 'W' || name@[0] == 'w';
                            &&& west || name@[0] == 'E' || name@[0] == 'e'
                            &&& parses_as_i32(x)
                            &&& k + 1 < name@.len()
                            &&& parses_as_i32(y)
                            &&& (west && is_i32_min_text(x)) || ((name@[k] == 'N' || name@[k] == 'n') && is_i32_min_text(y))
                        };
                    assert(!is_room_separator(name@[k]));
                }
            }
            return false;
        }
        let first = name.get_char(0);
        let sep = name.get_char(j);
        let west = first == 'W' || first == 'w';
        let known = west || first == 'E' || first == 'e';
        let (x_ok, x_min) = i32_text_at(name, 1, j);
        let mut y_ok = false;
        let mut y_min = false;
        if j + 1 < len {
            let (a, b) = i32_text_at(name, j + 1, len);
            y_ok = a;
            y_min = b;
        }
        let overflows = known && x_ok && j + 1 < len && y_ok && ((west && x_min) || ((sep == 'N' || sep == 'n') && y_min));
        proof {
            if room_text_overflows(name@) {
                let k = choose|k: int|
                    #![trigger name@[k]]
                    2 <= k < name@.len() && is_room_separator(name@[k]) && (forall|i: int|
                        2 <= i < k ==> !is_room_separator(#[trigger] name@[i])) && {
                        let x = name@.subrange(1, k);
                        let y = name@.subrange(k + 1, name@.len() as int);
                        let west = name@[0] == 'W' || name@[0] == 'w';
                        &&& west || name@[0] == 'E' || name@[0] == 'e'
                        &&& parses_as_i32(x)
                        &&& k + 1 < name@.len()
                        &&& parses_as_i32(y)
                        &&& (west && is_i32_min_text(x)) || ((name@[k] == 'N' || name@[k] == 'n') && is_i32_min_text(y))
                    };
                if k < j {
                    assert(!is_room_separator(name@[k]));
                } else if k > j {
                    assert(!is_room_separator(name@[j as int]));
                }
                assert(k == j);
            }
            if overflows {
                assert(is_room_separator(name@[j as int]));
            }
        }
        overflows
    }

    /// The room that a name denotes, if it is a room name. (Names on which
    /// the game library's parser overflows are left out.)
    pub fn parse_name(name: &str) -> (id: Option<RoomId>)
        requires
            !room_text_overflows(name@),
        ensures
            id == (match room_of_name(name@) {
                Some(p) => Some(RoomId(p)),
                None => None,
            }),
    {
        match parse_room_name(name) {
            Some(p) => Some(RoomId(p)),
            None => None,
        }
    }
}

/// What is remembered of a room between ticks (nothing yet).
#[derive(Clone, Copy, Debug, PartialEq, Eq, Structural, Default)]
pub struct RoomMemory {}

/// The memory of all rooms, each under its room name. No name occurs twice
/// (`keys_distinct`): the entries stand for a map from name to memory.
pub struct RoomMemories {
    pub values: Vec<(String, RoomMemory)>,
}

impl Default for RoomMemories {
    fn default() -> (m: Self)
        ensures
            m.values@ == Seq::<(String, RoomMemory)>::empty(),
    {
        RoomMemories { values: Vec::new() }
    }
}

/// A room as the bot sees it this tick: its memory, and the energy it had
/// available when it was observed.
#[derive(Clone, Copy, Debug, PartialEq, Eq, Structural)]
pub struct RoomActor {
    pub memory: RoomMemory,
    pub energy: u32,
}

impl RoomActor {
    /// The energy that the room has available for spawning.
    pub fn energy_available(&self) -> (energy: u32)
        ensures
            energy == self.energy,
    {
        self.energy
    }
}

/// The rooms that the game reports, as a map from room to available energy;
/// a later report of the same room wins.
pub open spec fn observed_rooms(rooms: Seq<(RoomId, u32)>) -> Map<u16, u32>
    decreases rooms.len(),
{
    if rooms.len() == 0 {
        Map::empty()
    } else {
        observed_rooms(rooms.drop_last()).insert(rooms.last().0.0, rooms.last().1)
    }
}

/// The actors for the observed rooms: every room gets an actor holding its
/// energy (room memory carries nothing yet).
pub open spec fn room_actors_for(rooms: Seq<(RoomId, u32)>) -> Map<u16, RoomActor> {
    observed_rooms(rooms).map_values(|energy: u32| RoomActor { memory: RoomMemory {}, energy })
}

/// Whether every entry of room memory is under a room name (one that the
/// game library's parser reads without overflow).
pub open spec fn room_names_valid(entries: Seq<(String, RoomMemory)>) -> bool {
    forall|i: int| 0 <= i < entries.len() ==> (#[trigger] room_of_name(entries[i].0@)) is Some
        && !room_text_overflows(entries[i].0@)
}

/// Whether `entries` is how `actors` is written to memory: one entry per
/// actor, under the displayed name of its room, holding its memory.
pub open spec fn room_entries_of(entries: Seq<(String, RoomMemory)>, actors: Map<u16, RoomActor>) -> bool {
    &&& entries.len() == actors.dom().len()
    &&& forall|i: int| 0 <= i < entries.len() ==> {
        let id = room_of_name((#[trigger] entries[i]).0@);
        &&& id is Some
        &&& entries[i].0@ == room_name_text(id.unwrap())
        &&& actors.contains_key(id.unwrap())
        &&& entries[i].1 == actors[id.unwrap()].memory
    }
    &&& forall|i: int, j: int| 0 <= i < j < entries.len() ==> room_of_name((#[trigger] entries[i]).0@)
        != room_of_name((#[trigger] entries[j]).0@)
    &&& forall|p: u16| #[trigger] actors.contains_key(p) ==> exists|i: int|
        0 <= i < entries.len() && room_of_name(entries[i].0@) == Some(p)
}

/// The actors of all rooms.
pub struct RoomActors {
    actors: HashMap<u16, RoomActor>,
}

impl View for RoomActors {
    type V = Map<u16, RoomActor>;

    closed spec fn view(&self) -> Map<u16, RoomActor> {
        self.actors@
    }
}

impl RoomActors {
    /// Builds the actors of the rooms that the game reports this tick, each
    /// with its remembered memory where there is one. Every memory entry must
    /// be under a room name.
    pub fn build_actors(memories: &RoomMemories, rooms: &Vec<(RoomId, u32)>) -> (actors: RoomActors)
        requires
            room_names_valid(memories.values@),
        ensures
            actors@ == room_actors_for(rooms@),
    {
        let mut remaining: HashMap<u16, u32> = HashMap::new();
        let mut i: usize = 0;
        while i < rooms.len()
            invariant
                i <= rooms@.len(),
                remaining@ == observed_rooms(rooms@.take(i as int)),
            decreases rooms@.len() - i,
        {
            assert(rooms@.take(i + 1).drop_last() =~= rooms@.take(i as int));
            remaining.insert(rooms[i].0.0, rooms[i].1);
            i = i + 1;
        }
        assert(rooms@.take(rooms@.len() as int) =~= rooms@);
        let ghost observed = remaining@;
        let mut actors: HashMap<u16, RoomActor> = HashMap::new();
        let mut j: usize = 0;
        while j < memories.values.len()
            invariant
                j <= memories.values@.len(),
                room_names_valid(memories.values@),
                forall|k: u16| #[trigger] observed.contains_key(k) <==> (actors@.contains_key(k) || remaining@.contains_key(k)),
                forall|k: u16| #[trigger] actors@.contains_key(k) ==> !remaining@.contains_key(k)
                    && actors@[k] == (RoomActor { memory: RoomMemory {}, energy: observed[k] }),
                forall|k: u16| #[trigger] remaining@.contains_key(k) ==> remaining@[k] == observed[k],
            decreases memories.values@.len() - j,
        {
            let entry = &memories.values[j];
            assert(room_of_name(memories.values@[j as int].0@) is Some);
            match RoomId::parse_name(entry.0.as_str()) {
                Some(id) => {
                    match remaining.remove(&id.0) {
                        Some(energy) => {
                            actors.insert(id.0, RoomActor { memory: entry.1, energy });
                        },
                        None => {},
                    }
                },
                None => {
                    assert(false);
                },
            }
            j = j + 1;
        }
        let keys = map_keys_copied(&remaining);
        let mut k: usize = 0;
        while k < keys.len()
            invariant
                k <= keys@.len(),
                forall|a: int| 0 <= a < keys@.len() ==> remaining@.contains_key(#[trigger] keys@[a]),
                forall|q: u16| #[trigger] remaining@.contains_key(q) ==> exists|a: int| 0 <= a < keys@.len() && keys@[a] == q,
                forall|q: u16| #[trigger] observed.contains_key(q) <==> (actors@.contains_key(q) || remaining@.contains_key(q)),
                forall|q: u16| #[trigger] actors@.contains_key(q) ==> actors@[q] == (RoomActor { memory: RoomMemory {}, energy: observed[q] }),
                forall|q: u16| #[trigger] remaining@.contains_key(q) ==> remaining@[q] == observed[q],
                forall|a: int| 0 <= a < k ==> actors@.contains_key(#[trigger] keys@[a]),
            decreases keys@.len() - k,
        {
            let q: u16 = keys[k];
            match remaining.get(&q) {
                Some(energy) => {
                    actors.insert(q, RoomActor { memory: RoomMemory {}, energy: *energy });
                },
                None => {
                    assert(false);
                },
            }
            k = k + 1;
        }
        proof {
            assert forall|q: u16| actors@.contains_key(q) <==> observed.contains_key(q) by {
                if remaining@.contains_key(q) {
                    let a = choose|a: int| 0 <= a < keys@.len() && keys@[a] == q;
                }
            }
            assert(actors@ =~= room_actors_for(rooms@));
        }
        RoomActors { actors }
    }

    /// Writes the memory of every room actor, under its room name.
    pub fn store_memory(&self, memories: &mut RoomMemories)
        ensures
            room_entries_of(final(memories).values@, self@),
            keys_distinct(final(memories).values@),
    {
        let keys = map_keys_copied(&self.actors);
        let mut entries: Vec<(String, RoomMemory)> = Vec::new();
        let mut i: usize = 0;
        while i < keys.len()
            invariant
                i <= keys@.len(),
                keys@.len() == self.actors@.dom().len(),
                forall|a: int| 0 <= a < keys@.len() ==> self.actors@.contains_key(#[trigger] keys@[a]),
                forall|a: int, b: int| 0 <= a < keys@.len() && 0 <= b < keys@.len() && a != b ==> #[trigger] keys@[a] != #[trigger] keys@[b],
                entries@.len() == i,
                forall|a: int| 0 <= a < i ==> room_of_name((#[trigger] entries@[a]).0@) == Some(keys@[a])
                    && entries@[a].0@ == room_name_text(keys@[a])
                    && entries@[a].1 == self.actors@[keys@[a]].memory,
            decreases keys@.len() - i,
        {
            let q: u16 = keys[i];
            let memory = match self.actors.get(&q) {
                Some(actor) => actor.memory,
                None => {
                    assert(false);
                    RoomMemory {}
                },
            };
            let name = RoomId(q).name();
            proof {
                lemma_room_of_displayed_name(q);
            }
            entries.push((name, memory));
            i = i + 1;
        }
        proof {
            assert forall|a: int, b: int| 0 <= a < b < entries@.len() implies room_of_name((#[trigger] entries@[a]).0@)
                != room_of_name((#[trigger] entries@[b]).0@) by {
                assert(keys@[a] != keys@[b]);
            }
            assert forall|p: u16| #[trigger] self.actors@.contains_key(p) implies exists|a: int|
                0 <= a < entries@.len() && room_of_name(entries@[a].0@) == Some(p) by {
                let a = choose|a: int| 0 <= a < keys@.len() && keys@[a] == p;
                assert(room_of_name(entries@[a].0@) == Some(p));
            }
        }
        memories.values = entries;
        proof {
            lemma_room_entries_distinct(memories.values@, self@);
        }
    }

    /// The actor of a room, if the room is known.
    pub fn get(&self, room_id: &RoomId) -> (actor: Option<&RoomActor>)
        ensures
            match actor {
                Some(a) => self@.contains_key(room_id.0) && *a == self@[room_id.0],
                None => !self@.contains_key(room_id.0),
            },
    {
        self.actors.get(&room_id.0)
    }

    /// The actor of a room, mutably, if the room is known.
    pub fn get_mut(&mut self, room_id: &RoomId) -> (actor: Option<&mut RoomActor>)
        ensures
            match actor {
                Some(a) => {
                    &&& old(self)@.contains_key(room_id.0)
                    &&& *a == old(self)@[room_id.0]
                    &&& final(self)@ == old(self)@.insert(room_id.0, *final(a))
                },
                None => {
                    &&& !old(self)@.contains_key(room_id.0)
                    &&& final(self)@ == old(self)@
                },
            },
    {
        map_get_mut(&mut self.actors, &room_id.0)
    }

    /// Every room with its actor, each once, in the map's own order.
    pub fn iter(&self) -> (rooms: Vec<(RoomId, &RoomActor)>)
        ensures
            rooms@.len() == self@.dom().len(),
            forall|i: int| 0 <= i < rooms@.len() ==> self@.contains_key((#[trigger] rooms@[i]).0.0)
                && *rooms@[i].1 == self@[rooms@[i].0.0],
            forall|i: int, j: int| 0 <= i < j < rooms@.len() ==> (#[trigger] rooms@[i]).0 != (#[trigger] rooms@[j]).0,
            forall|p: u16| #[trigger] self@.contains_key(p) ==> exists|i: int| 0 <= i < rooms@.len() && rooms@[i].0.0 == p,
    {
        let keys = map_keys_copied(&self.actors);
        let mut rooms: Vec<(RoomId, &RoomActor)> = Vec::new();
        let mut i: usize = 0;
        while i < keys.len()
            invariant
                i <= keys@.len(),
                keys@.len() == self.actors@.dom().len(),
                forall|a: int| 0 <= a < keys@.len() ==> self.actors@.contains_key(#[trigger] keys@[a]),
                forall|a: int, b: int| 0 <= a < keys@.len() && 0 <= b < keys@.len() && a != b ==> #[trigger] keys@[a] != #[trigger] keys@[b],
                rooms@.len() == i,
                forall|a: int| 0 <= a < i ==> (#[trigger] rooms@[a]).0.0 == keys@[a] && *rooms@[a].1 == self.actors@[keys@[a]],
            decreases keys@.len() - i,
        {
            let q: u16 = keys[i];
            match self.actors.get(&q) {
                Some(actor) => {
                    rooms.push((RoomId(q), actor));
                },
                None => {
                    assert(false);
                },
            }
            i = i + 1;
        }
        proof {
            assert forall|a: int, b: int| 0 <= a < b < rooms@.len() implies (#[trigger] rooms@[a]).0 != (#[trigger] rooms@[b]).0 by {
                assert(keys@[a] != keys@[b]);
            }
            assert forall|p: u16| #[trigger] self@.contains_key(p) implies exists|i: int| 0 <= i < rooms@.len() && rooms@[i].0.0 == p by {
                let a = choose|a: int| 0 <= a < keys@.len() && keys@[a] == p;
                assert(rooms@[a].0.0 == p);
            }
        }
        rooms
    }
}

/// What the room actors write to memory reads back: every stored name is a
/// room name, and the names denote exactly the rooms of the actors, each
/// once.
pub proof fn lemma_room_names_stored_valid(entries: Seq<(String, RoomMemory)>, actors: Map<u16, RoomActor>)
    requires
        room_entries_of(entries, actors),
    ensures
        room_names_valid(entries),
        forall|i: int| 0 <= i < entries.len() ==> actors.contains_key((#[trigger] room_of_name(entries[i].0@)).unwrap()),
        forall|p: u16| #[trigger] actors.contains_key(p) ==> exists|i: int|
            0 <= i < entries.len() && room_of_name(entries[i].0@) == Some(p),
{
    assert forall|i: int| 0 <= i < entries.len() implies (#[trigger] room_of_name(entries[i].0@)) is Some
        && !room_text_overflows(entries[i].0@) by {
        assert(room_of_name(entries[i].0@) is Some);
        lemma_displayed_name_never_overflows(room_of_name(entries[i].0@).unwrap());
    }
    assert forall|i: int| 0 <= i < entries.len() implies actors.contains_key((#[trigger] room_of_name(entries[i].0@)).unwrap()) by {
        assert(room_of_name(entries[i].0@) is Some);
    }
}

/// Room memory as the room actors write it has no name twice.
pub proof fn lemma_room_entries_distinct(entries: Seq<(String, RoomMemory)>, actors: Map<u16, RoomActor>)
    requires
        room_entries_of(entries, actors),
    ensures
        keys_distinct(entries),
{
    assert forall|i: int, j: int| 0 <= i < j < entries.len() implies (#[trigger] entries[i]).0@ != (#[trigger] entries[j]).0@ by {
        assert(room_of_name(entries[i].0@) != room_of_name(entries[j].0@));
    }
}

/// Whether every entry of room memory is under a room name that can be read
/// back (see `room_names_valid`).
pub fn room_names_ok(entries: &Vec<(String, RoomMemory)>) -> (ok: bool)
    ensures
        ok == room_names_valid(entries@),
{
    let mut i: usize = 0;
    while i < entries.len()
        invariant
            i <= entries@.len(),
            forall|a: int| 0 <= a < i ==> (#[trigger] room_of_name(entries@[a].0@)) is Some
                && !room_text_overflows(entries@[a].0@),
        decreases entries@.len() - i,
    {
        let name = entries[i].0.as_str();
        if RoomId::name_overflows(name) {
            return false;
        }
        if RoomId::parse_name(name).is_none() {
            return false;
        }
        i = i + 1;
    }
    true
}

} // verus!

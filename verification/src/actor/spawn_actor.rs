//! Spawns: their memory, their actors, and the creep-spawning tasks they run.
use crate::actor::actor_core::{ActorError, Actors};
use crate::actor::room_actor::{RoomActor, RoomId};
use crate::common::enum_downcast::EnumDowncast;
use crate::common::id_key::{keys_distinct, format_key, key_id, key_text, lemma_id_key_roundtrip, parse_key};
use crate::common::id_manager::{fresh_ids, IdKey, IdManager, IdState, PendingKey};
use crate::common::map_util::map_keys_copied;
use crate::game::{body_part_cost, part_cost, BodyPart};
use crate::task::task_core::{Task, TaskError, TaskId, Tasks};
use std::collections::HashMap;
use vstd::prelude::*;

verus! {

broadcast use vstd::std_specs::hash::group_hash_axioms;

/// The id of a spawn.
#[derive(Clone, Copy, Debug, PartialEq, Eq, Structural, Hash)]
pub struct SpawnId(pub usize);

impl IdKey for SpawnId {
    open spec fn key_of(self) -> usize {
        self.0
    }

    fn from_key(key: usize) -> (id: Self) {
        SpawnId(key)
    }

    fn key(&self) -> (key: usize) {
        self.0
    }
}

impl SpawnId {
    /// The key of this spawn in memory and its name in the game: `S` and the
    /// number, padded to three digits.
    pub fn to_key(&self) -> (key: String)
        ensures
            key@ == key_text('S', 3, self.0 as nat),
    {
        format_key('S', 3, self.0)
    }

    /// The spawn that a key denotes, if it is one.
    pub fn parse_key(key: &str) -> (id: Option<SpawnId>)
        ensures
            id == (match key_id('S', key@) {
                Some(n) => Some(SpawnId(n)),
                None => None,
            }),
    {
        match parse_key('S', key) {
            Some(n) => Some(SpawnId(n)),
            None => None,
        }
    }
}

/// The kind of creep a spawn task asks for.
#[derive(Clone, Copy, Debug, PartialEq, Eq, Structural)]
pub enum CreepClass {
    Worker,
}

/// A request to spawn a creep of some class in a room; `spawn` is the spawn
/// that has taken it up, if any.
#[derive(Clone, Copy, Debug, PartialEq, Eq, Structural)]
pub struct CreepSpawnTask {
    pub id: TaskId,
    pub room_id: RoomId,
    pub creep_class: CreepClass,
    pub spawn: Option<SpawnId>,
}

impl CreepSpawnTask {
    /// A new, not yet taken, request for a creep of `creep_class` in a room.
    pub fn new_task(id: TaskId, room_id: RoomId, creep_class: CreepClass) -> (task: Task)
        ensures
            task == Task::CreepSpawn(CreepSpawnTask { id, room_id, creep_class, spawn: None }),
    {
        Task::CreepSpawn(CreepSpawnTask { id, room_id, creep_class, spawn: None })
    }
}

/// What is remembered of a spawn between ticks: the task it is running.
#[derive(Clone, Copy, Debug, PartialEq, Eq, Structural, Default)]
pub struct SpawnMemory {
    pub spawn_task: Option<TaskId>,
}

/// The memory of all spawns: the id manager, and each spawn's memory under
/// its key (`S001`). No key occurs twice (`keys_distinct`): the entries
/// stand for a map from key to memory.
pub struct SpawnMemories {
    pub id_manager: IdManager<SpawnId>,
    pub values: Vec<(String, SpawnMemory)>,
}

impl Default for SpawnMemories {
    fn default() -> (m: Self)
        ensures
            m.values@ == Seq::<(String, SpawnMemory)>::empty(),
            m.id_manager@ == fresh_ids(),
    {
        SpawnMemories { id_manager: IdManager::new(), values: Vec::new() }
    }
}

/// A spawn as the bot sees it: its id, memory and room, and whether it was
/// busy spawning when it was observed.
#[derive(Clone, Copy, Debug, PartialEq, Eq, Structural)]
pub struct SpawnActor {
    pub id: SpawnId,
    pub memory: SpawnMemory,
    pub room_id: RoomId,
    pub spawning: bool,
}

/// A spawn that the game reports: its name, its room, and whether it is busy.
#[derive(Debug)]
pub struct SpawnObservation {
    pub name: String,
    pub room_id: RoomId,
    pub spawning: bool,
}

/// Whether every entry of spawn memory is under a spawn key.
pub open spec fn spawn_keys_valid(entries: Seq<(String, SpawnMemory)>) -> bool {
    forall|i: int| 0 <= i < entries.len() ==> (#[trigger] key_id('S', entries[i].0@)) is Some
}

/// Whether every reported spawn is named by a spawn key.
pub open spec fn spawn_names_valid(spawns: Seq<SpawnObservation>) -> bool {
    forall|i: int| 0 <= i < spawns.len() ==> (#[trigger] key_id('S', spawns[i].name@)) is Some
}

/// The reported spawns by id; a later report of the same spawn wins.
pub open spec fn observed_spawns(spawns: Seq<SpawnObservation>) -> Map<usize, SpawnObservation>
    decreases spawns.len(),
{
    if spawns.len() == 0 {
        Map::empty()
    } else {
        observed_spawns(spawns.drop_last()).insert(key_id('S', spawns.last().name@).unwrap(), spawns.last())
    }
}

/// The memory of the first entry for spawn `id`, if there is one.
pub open spec fn first_memory(entries: Seq<(String, SpawnMemory)>, id: usize) -> Option<SpawnMemory>
    decreases entries.len(),
{
    if entries.len() == 0 {
        None
    } else {
        let earlier = first_memory(entries.drop_last(), id);
        if earlier is Some {
            earlier
        } else if key_id('S', entries.last().0@) == Some(id) {
            Some(entries.last().1)
        } else {
            None
        }
    }
}

/// The actors for the reported spawns: each with its remembered memory (the
/// first entry for it), or an empty memory.
pub open spec fn spawn_actors_for(entries: Seq<(String, SpawnMemory)>, spawns: Seq<SpawnObservation>) -> Map<usize, SpawnActor> {
    let observed = observed_spawns(spawns);
    Map::new(
        |k: usize| observed.contains_key(k),
        |k: usize| SpawnActor {
            id: SpawnId(k),
            memory: match first_memory(entries, k) {
                Some(m) => m,
                None => SpawnMemory { spawn_task: None },
            },
            room_id: observed[k].room_id,
            spawning: observed[k].spawning,
        },
    )
}

/// Whether `entries` is how `actors` is written to memory: one entry per
/// actor, under the three-digit key of its id, holding its memory.
pub open spec fn spawn_entries_of(entries: Seq<(String, SpawnMemory)>, actors: Map<usize, SpawnActor>) -> bool {
    &&& entries.len() == actors.dom().len()
    &&& forall|i: int| 0 <= i < entries.len() ==> {
        let id = key_id('S', (#[trigger] entries[i]).0@);
        &&& id is Some
        &&& entries[i].0@ == key_text('S', 3, id.unwrap() as nat)
        &&& actors.contains_key(id.unwrap())
        &&& entries[i].1 == actors[id.unwrap()].memory
    }
    &&& forall|i: int, j: int| 0 <= i < j < entries.len() ==> key_id('S', (#[trigger] entries[i]).0@)
        != key_id('S', (#[trigger] entries[j]).0@)
    &&& forall|p: usize| #[trigger] actors.contains_key(p) ==> exists|i: int|
        0 <= i < entries.len() && key_id('S', entries[i].0@) == Some(p)
}

/// The actors of all spawns, and the manager of spawn ids.
pub struct SpawnActors {
    id_manager: IdManager<SpawnId>,
    actors: HashMap<usize, SpawnActor>,
}

/// The abstract state of the spawn actors.
pub struct SpawnActorsView {
    pub ids: IdState,
    pub actors: Map<usize, SpawnActor>,
}

impl View for SpawnActors {
    type V = SpawnActorsView;

    closed spec fn view(&self) -> SpawnActorsView {
        SpawnActorsView { ids: self.id_manager@, actors: self.actors@ }
    }
}

impl SpawnActors {
    /// Builds the actors of the spawns that the game reports, each with its
    /// remembered memory where there is one. Every memory key and every
    /// spawn name must be a spawn key.
    pub fn build_actors(memories: &SpawnMemories, spawns: &Vec<SpawnObservation>) -> (actors: SpawnActors)
        requires
            spawn_keys_valid(memories.values@),
            spawn_names_valid(spawns@),
        ensures
            actors@.ids == memories.id_manager@,
            actors@.actors == spawn_actors_for(memories.values@, spawns@),
            forall|k: usize| #[trigger] actors@.actors.contains_key(k) ==> actors@.actors[k].id == SpawnId(k),
    {
        let mut remaining: HashMap<usize, (RoomId, bool)> = HashMap::new();
        let mut i: usize = 0;
        while i < spawns.len()
            invariant
                i <= spawns@.len(),
                spawn_names_valid(spawns@),
                remaining@.dom() == observed_spawns(spawns@.take(i as int)).dom(),
                forall|k: usize| #[trigger] remaining@.contains_key(k) ==> remaining@[k] == (
                    observed_spawns(spawns@.take(i as int))[k].room_id,
                    observed_spawns(spawns@.take(i as int))[k].spawning,
                ),
            decreases spawns@.len() - i,
        {
            assert(spawns@.take(i + 1).drop_last() =~= spawns@.take(i as int));
            assert(key_id('S', spawns@[i as int].name@) is Some);
            let observed = &spawns[i];
            match SpawnId::parse_key(observed.name.as_str()) {
                Some(id) => {
                    remaining.insert(id.0, (observed.room_id, observed.spawning));
                },
                None => {
                    assert(false);
                },
            }
            i = i + 1;
            assert(remaining@.dom() =~= observed_spawns(spawns@.take(i as int)).dom());
        }
        assert(spawns@.take(spawns@.len() as int) =~= spawns@);
        let ghost observed = observed_spawns(spawns@);
        let ghost entries = memories.values@;
        let mut actors: HashMap<usize, SpawnActor> = HashMap::new();
        let mut j: usize = 0;
        while j < memories.values.len()
            invariant
                j <= entries.len(),
                entries == memories.values@,
                spawn_keys_valid(entries),
                forall|k: usize| #[trigger] observed.contains_key(k) <==> (actors@.contains_key(k) || remaining@.contains_key(k)),
                forall|k: usize| #[trigger] actors@.contains_key(k) ==> !remaining@.contains_key(k)
                    && first_memory(entries.take(j as int), k) is Some
                    && actors@[k] == (SpawnActor {
                        id: SpawnId(k),
                        memory: first_memory(entries.take(j as int), k).unwrap(),
                        room_id: observed[k].room_id,
                        spawning: observed[k].spawning,
                    }),
                forall|k: usize| #[trigger] remaining@.contains_key(k) ==> remaining@[k] == (observed[k].room_id, observed[k].spawning)
                    && first_memory(entries.take(j as int), k) is None,
            decreases entries.len() - j,
        {
            let entry = &memories.values[j];
            assert(entries.take(j + 1).drop_last() =~= entries.take(j as int));
            assert(entries.take(j + 1).last() == entries[j as int]);
            assert(key_id('S', entries[j as int].0@) is Some);
            match SpawnId::parse_key(entry.0.as_str()) {
                Some(id) => {
                    match remaining.remove(&id.0) {
                        Some((room_id, spawning)) => {
                            actors.insert(id.0, SpawnActor { id, memory: entry.1, room_id, spawning });
                        },
                        None => {},
                    }
                },
                None => {
                    assert(false);
                },
            }
            j = j + 1;
        }
        assert(entries.take(entries.len() as int) =~= entries);
        let keys = map_keys_copied(&remaining);
        let mut k: usize = 0;
        while k < keys.len()
            invariant
                observed == observed_spawns(spawns@),
                k <= keys@.len(),
                forall|a: int| 0 <= a < keys@.len() ==> remaining@.contains_key(#[trigger] keys@[a]),
                forall|q: usize| #[trigger] remaining@.contains_key(q) ==> exists|a: int| 0 <= a < keys@.len() && keys@[a] == q,
                forall|q: usize| #[trigger] observed.contains_key(q) <==> (actors@.contains_key(q) || remaining@.contains_key(q)),
                forall|q: usize| #[trigger] actors@.contains_key(q) ==> actors@[q] == spawn_actors_for(entries, spawns@)[q],
                forall|q: usize| #[trigger] remaining@.contains_key(q) ==> remaining@[q] == (observed[q].room_id, observed[q].spawning)
                    && first_memory(entries, q) is None,
                forall|a: int| 0 <= a < k ==> actors@.contains_key(#[trigger] keys@[a]),
            decreases keys@.len() - k,
        {
            let q: usize = keys[k];
            match remaining.get(&q) {
                Some(found) => {
                    let (room_id, spawning) = *found;
                    assert(observed.contains_key(q));
                    assert(spawn_actors_for(entries, spawns@)[q] == (SpawnActor {
                        id: SpawnId(q),
                        memory: SpawnMemory { spawn_task: None },
                        room_id,
                        spawning,
                    }));
                    actors.insert(q, SpawnActor { id: SpawnId(q), memory: SpawnMemory { spawn_task: None }, room_id, spawning });
                },
                None => {
                    assert(false);
                },
            }
            k = k + 1;
        }
        proof {
            assert forall|q: usize| actors@.contains_key(q) <==> observed.contains_key(q) by {
                if remaining@.contains_key(q) {
                    let a = choose|a: int| 0 <= a < keys@.len() && keys@[a] == q;
                }
            }
            assert(actors@ =~= spawn_actors_for(entries, spawns@));
        }
        SpawnActors { id_manager: memories.id_manager.duplicate(), actors }
    }

    /// Writes the id manager and the memory of every spawn actor, under its key.
    pub fn store_memory(&self, memories: &mut SpawnMemories)
        ensures
            final(memories).id_manager@ == self@.ids,
            spawn_entries_of(final(memories).values@, self@.actors),
            keys_distinct(final(memories).values@),
    {
        let keys = map_keys_copied(&self.actors);
        let mut entries: Vec<(String, SpawnMemory)> = Vec::new();
        let mut i: usize = 0;
        while i < keys.len()
            invariant
                i <= keys@.len(),
                keys@.len() == self.actors@.dom().len(),
                forall|a: int| 0 <= a < keys@.len() ==> self.actors@.contains_key(#[trigger] keys@[a]),
                forall|a: int, b: int| 0 <= a < keys@.len() && 0 <= b < keys@.len() && a != b ==> #[trigger] keys@[a] != #[trigger] keys@[b],
                entries@.len() == i,
                forall|a: int| 0 <= a < i ==> key_id('S', (#[trigger] entries@[a]).0@) == Some(keys@[a])
                    && entries@[a].0@ == key_text('S', 3, keys@[a] as nat)
                    && entries@[a].1 == self.actors@[keys@[a]].memory,
            decreases keys@.len() - i,
        {
            let q: usize = keys[i];
            let memory = match self.actors.get(&q) {
                Some(actor) => actor.memory,
                None => {
                    assert(false);
                    SpawnMemory { spawn_task: None }
                },
            };
            let name = SpawnId(q).to_key();
            proof {
                lemma_id_key_roundtrip('S', 3, q);
            }
            entries.push((name, memory));
            i = i + 1;
        }
        proof {
            assert forall|a: int, b: int| 0 <= a < b < entries@.len() implies key_id('S', (#[trigger] entries@[a]).0@)
                != key_id('S', (#[trigger] entries@[b]).0@) by {
                assert(keys@[a] != keys@[b]);
            }
            assert forall|p: usize| #[trigger] self.actors@.contains_key(p) implies exists|a: int|
                0 <= a < entries@.len() && key_id('S', entries@[a].0@) == Some(p) by {
                let a = choose|a: int| 0 <= a < keys@.len() && keys@[a] == p;
                assert(key_id('S', entries@[a].0@) == Some(p));
            }
        }
        memories.values = entries;
        proof {
            lemma_spawn_entries_distinct(memories.values@, self@.actors);
        }
        memories.id_manager = self.id_manager.duplicate();
    }

    /// The spawn actors, each once, in the map's own order (which is not
    /// known).
    pub fn iter(&self) -> (spawns: Vec<&SpawnActor>)
        ensures
            exists|keys: Seq<usize>| {
                &&& keys.len() == spawns@.len()
                &&& keys.no_duplicates()
                &&& keys.to_set() == self@.actors.dom()
                &&& forall|i: int| 0 <= i < keys.len() ==> *spawns@[i] == self@.actors[#[trigger] keys[i]]
            },
    {
        let keys = map_keys_copied(&self.actors);
        let mut spawns: Vec<&SpawnActor> = Vec::new();
        let mut i: usize = 0;
        while i < keys.len()
            invariant
                i <= keys@.len(),
                forall|a: int| 0 <= a < keys@.len() ==> self.actors@.contains_key(#[trigger] keys@[a]),
                spawns@.len() == i,
                forall|a: int| 0 <= a < i ==> *spawns@[a] == self.actors@[#[trigger] keys@[a]],
            decreases keys@.len() - i,
        {
            match self.actors.get(&keys[i]) {
                Some(actor) => {
                    spawns.push(actor);
                },
                None => {
                    assert(false);
                },
            }
            i = i + 1;
        }
        proof {
            assert(keys@.no_duplicates());
            assert(keys@.to_set() =~= self@.actors.dom()) by {
                assert forall|p: usize| self@.actors.contains_key(p) implies keys@.to_set().contains(p) by {
                    let a = choose|a: int| 0 <= a < keys@.len() && keys@[a] == p;
                }
            }
        }
        spawns
    }
}

/// Why a spawn could not run a task.
#[derive(Clone, Copy, Debug, PartialEq, Eq, Structural)]
pub enum SpawnError {
    /// The spawn is still spawning another creep.
    SpawnBusy,
}

/// The body of a worker creep.
pub open spec fn worker_body_spec() -> Seq<BodyPart> {
    seq![BodyPart::Carry, BodyPart::Work, BodyPart::Move, BodyPart::Move]
}

/// The body of a worker creep: a carry, a work and two move parts.
pub fn worker_body() -> (body: Vec<BodyPart>)
    ensures
        body@ == worker_body_spec(),
{
    let body = vec![BodyPart::Carry, BodyPart::Work, BodyPart::Move, BodyPart::Move];
    assert(body@ =~= worker_body_spec());
    body
}

/// The energy that a body costs: the sum of the costs of its parts.
pub open spec fn body_cost(body: Seq<BodyPart>) -> int
    decreases body.len(),
{
    if body.len() == 0 {
        0
    } else {
        body_cost(body.drop_last()) + body_part_cost(body.last()) as int
    }
}

proof fn lemma_body_cost_prefix(body: Seq<BodyPart>, i: int, j: int)
    requires
        0 <= i <= j <= body.len(),
    ensures
        body_cost(body.take(i)) <= body_cost(body.take(j)),
    decreases j - i,
{
    if i < j {
        lemma_body_cost_prefix(body, i, j - 1);
        assert(body.take(j).drop_last() =~= body.take(j - 1));
    }
}

/// The energy that a body costs. The cost must fit in a `u32`.
pub fn body_cost_of(body: &Vec<BodyPart>) -> (cost: u32)
    requires
        body_cost(body@) <= u32::MAX,
    ensures
        cost == body_cost(body@),
{
    let mut cost: u32 = 0;
    let mut i: usize = 0;
    while i < body.len()
        invariant
            i <= body@.len(),
            body_cost(body@) <= u32::MAX,
            cost == body_cost(body@.take(i as int)),
        decreases body@.len() - i,
    {
        assert(body@.take(i + 1).drop_last() =~= body@.take(i as int));
        proof {
            lemma_body_cost_prefix(body@, i + 1, body@.len() as int);
            assert(body@.take(body@.len() as int) =~= body@);
        }
        cost = cost + part_cost(body[i]);
        i = i + 1;
    }
    assert(body@.take(i as int) =~= body@);
    cost
}

/// The effect of a spawn cleaning up after the task it ran: once the spawn is
/// no longer spawning, the task is done and leaves the store, and the spawn
/// forgets it. The task must be a creep-spawning task in the store.
pub open spec fn clean_up_spec(actor: SpawnActor, tasks: Map<usize, Task>) -> (SpawnActor, Map<usize, Task>, Result<(), TaskError>) {
    if actor.memory.spawn_task is Some && !actor.spawning {
        let key = actor.memory.spawn_task.unwrap().0;
        if !tasks.contains_key(key) {
            (actor, tasks, Err(TaskError::InvalidTaskId))
        } else if !(tasks[key] is CreepSpawn) {
            (actor, tasks, Err(TaskError::TaskTypeMismatch))
        } else {
            (SpawnActor { memory: SpawnMemory { spawn_task: None }, ..actor }, tasks.remove(key), Ok(()))
        }
    } else {
        (actor, tasks, Ok(()))
    }
}

/// The effect of a spawn considering a creep-spawning task, given the energy
/// of its room: the result says whether the spawn took the task up.
pub open spec fn assign_spec(actor: SpawnActor, task: CreepSpawnTask, energy: u32) -> (SpawnActor, CreepSpawnTask, Result<bool, SpawnError>) {
    if task.room_id != actor.room_id || task.spawn is Some || actor.memory.spawn_task is Some {
        (actor, task, Ok(false))
    } else if actor.spawning {
        (actor, task, Err(SpawnError::SpawnBusy))
    } else if energy < body_cost(worker_body_spec()) {
        (actor, task, Ok(false))
    } else {
        (
            SpawnActor { memory: SpawnMemory { spawn_task: Some(task.id) }, ..actor },
            CreepSpawnTask { spawn: Some(actor.id), ..task },
            Ok(true),
        )
    }
}

impl SpawnActor {
    /// Once the spawn has finished spawning, removes the task it ran from the
    /// store and forgets it.
    pub fn clean_up(&mut self, tasks: &mut Tasks) -> (result: Result<(), TaskError>)
        ensures
            final(tasks)@.ids == old(tasks)@.ids,
            (*final(self), final(tasks)@.tasks, result) == clean_up_spec(*old(self), old(tasks)@.tasks),
    {
        if let Some(spawn_task_id) = self.memory.spawn_task {
            if !self.spawning {
                let task = tasks.get_mut::<CreepSpawnTask>(spawn_task_id)?;
                task.spawn = None;
                self.memory.spawn_task = None;
                let removed = tasks.remove_task(spawn_task_id);
                assert(removed is Ok);
            }
        }
        Ok(())
    }

    /// Considers a creep-spawning task: a spawn that is free and in the task's
    /// room, whose room has the energy for a worker, takes the task up.
    /// Returns whether it did; the creep itself is then spawned by the caller.
    pub fn run_spawn_task(&mut self, task: &mut CreepSpawnTask, room: &RoomActor) -> (result: Result<bool, SpawnError>)
        ensures
            (*final(self), *final(task), result) == assign_spec(*old(self), *old(task), room.energy),
    {
        if task.room_id != self.room_id || task.spawn.is_some() || self.memory.spawn_task.is_some() {
            return Ok(false);
        }
        if self.spawning {
            return Err(SpawnError::SpawnBusy);
        }
        let body = worker_body();
        assert(body_cost(body@) == 250) by {
            reveal_with_fuel(body_cost, 5);
        }
        let cost = body_cost_of(&body);
        if room.energy_available() < cost {
            return Ok(false);
        }
        task.spawn = Some(self.id);
        self.memory.spawn_task = Some(task.id);
        Ok(true)
    }
}

/// A spawn's turn at the creep-spawning tasks, tried in the order `order`:
/// it stops at the first task it takes up, or at an error, in which case
/// nothing changes.
pub open spec fn assign_over(actor: SpawnActor, tasks: Map<usize, Task>, order: Seq<usize>, energy: u32) -> (SpawnActor, Map<usize, Task>, Result<bool, SpawnError>)
    decreases order.len(),
{
    if order.len() == 0 {
        (actor, tasks, Ok(false))
    } else {
        let k = order[0];
        if tasks.contains_key(k) && tasks[k] is CreepSpawn {
            let (a, t, r) = assign_spec(actor, tasks[k]->CreepSpawn_0, energy);
            match r {
                Err(e) => (actor, tasks, Err(e)),
                Ok(true) => (a, tasks.insert(k, Task::CreepSpawn(t)), Ok(true)),
                Ok(false) => assign_over(actor, tasks, order.drop_first(), energy),
            }
        } else {
            assign_over(actor, tasks, order.drop_first(), energy)
        }
    }
}

/// The state of the spawns and tasks after a pass, and how it ended.
pub struct CleanOutcome {
    pub spawns: Map<usize, SpawnActor>,
    pub tasks: Map<usize, Task>,
    pub result: Result<(), TaskError>,
}

/// Every spawn, in the order `order`, cleaning up after its task; the pass
/// stops at the first error.
pub open spec fn clean_up_all(spawns: Map<usize, SpawnActor>, tasks: Map<usize, Task>, order: Seq<usize>) -> CleanOutcome
    decreases order.len(),
{
    if order.len() == 0 {
        CleanOutcome { spawns, tasks, result: Ok(()) }
    } else {
        let before = clean_up_all(spawns, tasks, order.drop_last());
        if before.result is Err {
            before
        } else {
            let k = order.last();
            let (a, t, r) = clean_up_spec(before.spawns[k], before.tasks);
            CleanOutcome { spawns: before.spawns.insert(k, a), tasks: t, result: r }
        }
    }
}

/// The state of the spawns and tasks after the spawns took up tasks, the
/// spawns (by key) that took one up, in order, and how the pass ended.
pub struct RunOutcome {
    pub spawns: Map<usize, SpawnActor>,
    pub tasks: Map<usize, Task>,
    pub orders: Seq<usize>,
    pub result: Result<(), ActorError>,
}

/// Every spawn, in the order `order`, taking its turn at the creep-spawning
/// tasks (tried in the order `task_order`), with the energy of its room; the
/// pass stops at the first error.
pub open spec fn assign_all(
    spawns: Map<usize, SpawnActor>,
    rooms: Map<u16, RoomActor>,
    tasks: Map<usize, Task>,
    order: Seq<usize>,
    task_order: Seq<usize>,
) -> RunOutcome
    decreases order.len(),
{
    if order.len() == 0 {
        RunOutcome { spawns, tasks, orders: Seq::empty(), result: Ok(()) }
    } else {
        let before = assign_all(spawns, rooms, tasks, order.drop_last(), task_order);
        if before.result is Err {
            before
        } else {
            let k = order.last();
            let actor = before.spawns[k];
            if !rooms.contains_key(actor.room_id.0) {
                RunOutcome { result: Err(ActorError::RoomNotFound), ..before }
            } else {
                let (a, t, r) = assign_over(actor, before.tasks, task_order, rooms[actor.room_id.0].energy);
                match r {
                    Err(_) => RunOutcome { result: Err(ActorError::SpawnBusy), ..before },
                    Ok(taken) => RunOutcome {
                        spawns: before.spawns.insert(k, a),
                        tasks: t,
                        orders: if taken { before.orders.push(k) } else { before.orders },
                        result: Ok(()),
                    },
                }
            }
        }
    }
}

/// One tick of the spawns: first every spawn cleans up, then every spawn takes
/// its turn at the tasks.
pub open spec fn run_spec(
    spawns: Map<usize, SpawnActor>,
    rooms: Map<u16, RoomActor>,
    tasks: Map<usize, Task>,
    order: Seq<usize>,
    task_order: Seq<usize>,
) -> RunOutcome {
    let cleaned = clean_up_all(spawns, tasks, order);
    match cleaned.result {
        Err(e) => RunOutcome { spawns: cleaned.spawns, tasks: cleaned.tasks, orders: Seq::empty(), result: Err(ActorError::Task(e)) },
        Ok(_) => assign_all(cleaned.spawns, rooms, cleaned.tasks, order, task_order),
    }
}

/// The keys of the creep-spawning tasks.
pub open spec fn creep_spawn_keys(tasks: Map<usize, Task>) -> Set<usize> {
    Set::new(|k: usize| tasks.contains_key(k) && tasks[k] is CreepSpawn)
}

/// Whether `s` lists the elements of `set`, each once.
pub open spec fn is_listing(s: Seq<usize>, set: Set<usize>) -> bool {
    &&& s.no_duplicates()
    &&& s.to_set() == set
}

/// An order to spawn a creep: which spawn, the body, and the creep's name.
pub struct SpawnOrder {
    pub spawn: SpawnId,
    pub body: Vec<BodyPart>,
    pub name: String,
}

/// Whether the orders and the result of a run are those of an outcome.
pub open spec fn run_result_matches(result: Result<Vec<SpawnOrder>, ActorError>, outcome: RunOutcome) -> bool {
    match result {
        Ok(orders) => {
            &&& outcome.result is Ok
            &&& orders@.len() == outcome.orders.len()
            &&& forall|i: int| 0 <= i < orders@.len() ==> {
                &&& (#[trigger] orders@[i]).spawn.0 == outcome.orders[i]
                &&& orders@[i].body@ == worker_body_spec()
                &&& orders@[i].name@ == "t1"@
            }
        },
        Err(e) => outcome.result == Err::<(), ActorError>(e),
    }
}

/// Whether a run from the given spawns, rooms and tasks, visiting spawns in
/// `order` and tasks in `task_order`, ends with the given spawns and tasks
/// and result: the orders list each spawn once, the task order each
/// creep-spawning task left after cleaning up once.
pub open spec fn run_explains(
    spawns: Map<usize, SpawnActor>,
    rooms: Map<u16, RoomActor>,
    tasks: Map<usize, Task>,
    order: Seq<usize>,
    task_order: Seq<usize>,
    final_spawns: Map<usize, SpawnActor>,
    final_tasks: Map<usize, Task>,
    result: Result<Vec<SpawnOrder>, ActorError>,
) -> bool {
    let outcome = run_spec(spawns, rooms, tasks, order, task_order);
    let cleaned = clean_up_all(spawns, tasks, order);
    &&& is_listing(order, spawns.dom())
    &&& cleaned.result is Ok ==> is_listing(task_order, creep_spawn_keys(cleaned.tasks))
    &&& final_spawns == outcome.spawns
    &&& final_tasks == outcome.tasks
    &&& run_result_matches(result, outcome)
}

proof fn lemma_clean_up_all_sticks(spawns: Map<usize, SpawnActor>, tasks: Map<usize, Task>, order: Seq<usize>, i: int, j: int)
    requires
        0 <= i <= j <= order.len(),
        clean_up_all(spawns, tasks, order.take(i)).result is Err,
    ensures
        clean_up_all(spawns, tasks, order.take(j)) == clean_up_all(spawns, tasks, order.take(i)),
    decreases j - i,
{
    if i < j {
        lemma_clean_up_all_sticks(spawns, tasks, order, i, j - 1);
        assert(order.take(j).drop_last() =~= order.take(j - 1));
    }
}

proof fn lemma_assign_all_sticks(
    spawns: Map<usize, SpawnActor>,
    rooms: Map<u16, RoomActor>,
    tasks: Map<usize, Task>,
    order: Seq<usize>,
    task_order: Seq<usize>,
    i: int,
    j: int,
)
    requires
        0 <= i <= j <= order.len(),
        assign_all(spawns, rooms, tasks, order.take(i), task_order).result is Err,
    ensures
        assign_all(spawns, rooms, tasks, order.take(j), task_order) == assign_all(spawns, rooms, tasks, order.take(i), task_order),
    decreases j - i,
{
    if i < j {
        lemma_assign_all_sticks(spawns, rooms, tasks, order, task_order, i, j - 1);
        assert(order.take(j).drop_last() =~= order.take(j - 1));
    }
}

impl SpawnActor {
    /// The spawn's turn at the creep-spawning tasks, tried in the order of
    /// `task_ids`: stops at the first one it takes up.
    fn take_up_task(&mut self, tasks: &mut Tasks, task_ids: &Vec<TaskId>, room: &RoomActor) -> (result: Result<bool, SpawnError>)
        requires
            forall|a: int| 0 <= a < task_ids@.len() ==> old(tasks)@.tasks.contains_key((#[trigger] task_ids@[a]).0)
                && old(tasks)@.tasks[task_ids@[a].0] is CreepSpawn,
        ensures
            final(tasks)@.ids == old(tasks)@.ids,
            (*final(self), final(tasks)@.tasks, result) == assign_over(
                *old(self),
                old(tasks)@.tasks,
                task_ids@.map_values(|id: TaskId| id.0),
                room.energy,
            ),
    {
        let ghost order = task_ids@.map_values(|id: TaskId| id.0);
        let ghost actor0 = *self;
        let ghost tasks0 = tasks@.tasks;
        assert(order.skip(0) =~= order);
        let mut j: usize = 0;
        while j < task_ids.len()
            invariant
                j <= task_ids@.len(),
                order == task_ids@.map_values(|id: TaskId| id.0),
                *self == actor0,
                tasks@.tasks == tasks0,
                tasks@.ids == old(tasks)@.ids,
                tasks0 == old(tasks)@.tasks,
                actor0 == *old(self),
                forall|a: int| 0 <= a < task_ids@.len() ==> tasks0.contains_key((#[trigger] task_ids@[a]).0)
                    && tasks0[task_ids@[a].0] is CreepSpawn,
                assign_over(actor0, tasks0, order, room.energy) == assign_over(actor0, tasks0, order.skip(j as int), room.energy),
            decreases task_ids@.len() - j,
        {
            let id = task_ids[j];
            assert(order.skip(j as int)[0] == id.0);
            assert(order.skip(j as int).drop_first() =~= order.skip(j + 1));
            assert(tasks0.contains_key(task_ids@[j as int].0));
            match tasks.get_mut::<CreepSpawnTask>(id) {
                Ok(task) => {
                    let r = self.run_spawn_task(task, room);
                    match r {
                        Err(e) => {
                            return Err(e);
                        },
                        Ok(true) => {
                            return Ok(true);
                        },
                        Ok(false) => {},
                    }
                },
                Err(_) => {
                    assert(false);
                },
            }
            j = j + 1;
        }
        assert(order.skip(j as int) =~= Seq::<usize>::empty());
        Ok(false)
    }
}

proof fn lemma_clean_up_all_keeps_keys(spawns: Map<usize, SpawnActor>, tasks: Map<usize, Task>, order: Seq<usize>)
    requires
        forall|i: int| 0 <= i < order.len() ==> spawns.contains_key(#[trigger] order[i]),
    ensures
        clean_up_all(spawns, tasks, order).spawns.dom() == spawns.dom(),
    decreases order.len(),
{
    if order.len() > 0 {
        lemma_clean_up_all_keeps_keys(spawns, tasks, order.drop_last());
        assert(spawns.contains_key(order[order.len() - 1]));
        let before = clean_up_all(spawns, tasks, order.drop_last());
        assert(before.spawns.insert(order.last(), before.spawns[order.last()]).dom() =~= spawns.dom());
        let (a, t, r) = clean_up_spec(before.spawns[order.last()], before.tasks);
        assert(before.spawns.insert(order.last(), a).dom() =~= spawns.dom());
    }
}

proof fn lemma_assign_over_err_unchanged(actor: SpawnActor, tasks: Map<usize, Task>, order: Seq<usize>, energy: u32)
    ensures
        ({
            let (a, t, r) = assign_over(actor, tasks, order, energy);
            &&& r is Err ==> a == actor && t == tasks
            &&& r == Ok::<bool, SpawnError>(false) ==> a == actor && t == tasks
        }),
    decreases order.len(),
{
    if order.len() > 0 {
        lemma_assign_over_err_unchanged(actor, tasks, order.drop_first(), energy);
    }
}

proof fn lemma_assign_over_keeps_kinds(actor: SpawnActor, tasks: Map<usize, Task>, order: Seq<usize>, energy: u32)
    ensures
        ({
            let (a, t, r) = assign_over(actor, tasks, order, energy);
            &&& t.dom() == tasks.dom()
            &&& forall|k: usize| #[trigger] tasks.contains_key(k) && tasks[k] is CreepSpawn ==> t[k] is CreepSpawn
        }),
    decreases order.len(),
{
    if order.len() > 0 {
        lemma_assign_over_keeps_kinds(actor, tasks, order.drop_first(), energy);
        let k = order[0];
        if tasks.contains_key(k) && tasks[k] is CreepSpawn {
            let (a, t, r) = assign_spec(actor, tasks[k]->CreepSpawn_0, energy);
            assert(tasks.insert(k, Task::CreepSpawn(t)).dom() =~= tasks.dom());
        }
    }
}

impl SpawnActors {
    /// One tick of the spawns. First every spawn cleans up after the task it
    /// finished; then every spawn takes its turn at the creep-spawning tasks,
    /// with the energy of its room. Returns, in order, a worker to spawn for
    /// each spawn that took a task up; the caller spawns them. Spawns and
    /// tasks are visited in their maps' own orders, which are not known.
    pub fn run(actors: &mut Actors, tasks: &mut Tasks) -> (result: Result<Vec<SpawnOrder>, ActorError>)
        ensures
            final(actors).room_actors@ == old(actors).room_actors@,
            final(actors).spawn_actors@.ids == old(actors).spawn_actors@.ids,
            final(tasks)@.ids == old(tasks)@.ids,
            exists|order: Seq<usize>, task_order: Seq<usize>| #[trigger] run_explains(
                old(actors).spawn_actors@.actors,
                old(actors).room_actors@,
                old(tasks)@.tasks,
                order,
                task_order,
                final(actors).spawn_actors@.actors,
                final(tasks)@.tasks,
                result,
            ),
    {
        let ghost spawns0 = actors.spawn_actors.actors@;
        let ghost rooms0 = actors.room_actors@;
        let ghost tasks0 = tasks@.tasks;
        let keys = map_keys_copied(&actors.spawn_actors.actors);
        let ghost order = keys@;
        proof {
            lemma_clean_up_all_keeps_keys(spawns0, tasks0, order);
            assert(order.take(0) =~= Seq::<usize>::empty());
            assert(keys@.no_duplicates());
            assert(keys@.to_set() =~= spawns0.dom()) by {
                assert forall|p: usize| spawns0.contains_key(p) implies keys@.to_set().contains(p) by {
                    let a = choose|a: int| 0 <= a < keys@.len() && keys@[a] == p;
                }
            }
        }
        let mut i: usize = 0;
        while i < keys.len()
            invariant
                i <= keys@.len(),
                order == keys@,
                is_listing(order, spawns0.dom()),
                keys@.len() == spawns0.dom().len(),
                forall|a: int| 0 <= a < keys@.len() ==> spawns0.contains_key(#[trigger] keys@[a]),
                clean_up_all(spawns0, tasks0, order).spawns.dom() == spawns0.dom(),
                actors.room_actors@ == rooms0,
                actors.spawn_actors@.ids == old(actors).spawn_actors@.ids,
                tasks@.ids == old(tasks)@.ids,
                spawns0 == old(actors).spawn_actors@.actors,
                rooms0 == old(actors).room_actors@,
                tasks0 == old(tasks)@.tasks,
                actors.spawn_actors.actors@.dom() == spawns0.dom(),
                clean_up_all(spawns0, tasks0, order.take(i as int)) == (CleanOutcome {
                    spawns: actors.spawn_actors.actors@,
                    tasks: tasks@.tasks,
                    result: Ok(()),
                }),
            decreases keys@.len() - i,
        {
            let k: usize = keys[i];
            assert(order.take(i + 1).drop_last() =~= order.take(i as int));
            assert(order.take(i + 1).last() == k);
            let mut actor = match actors.spawn_actors.actors.get(&k) {
                Some(a) => *a,
                None => {
                    assert(false);
                    return Err(ActorError::RoomNotFound);
                },
            };
            let r = actor.clean_up(tasks);
            actors.spawn_actors.actors.insert(k, actor);
            assert(actors.spawn_actors.actors@.dom() =~= spawns0.dom());
            match r {
                Err(e) => {
                    proof {
                        lemma_clean_up_all_sticks(spawns0, tasks0, order, i + 1, order.len() as int);
                        assert(order.take(order.len() as int) =~= order);
                        assert(run_explains(spawns0, rooms0, tasks0, order, Seq::empty(), actors.spawn_actors.actors@, tasks@.tasks, Err(ActorError::Task(e))));
                        assert(run_explains(old(actors).spawn_actors@.actors, old(actors).room_actors@, old(tasks)@.tasks, order, Seq::empty(), actors.spawn_actors@.actors, tasks@.tasks, Err(ActorError::Task(e))));
                    }
                    return Err(ActorError::Task(e));
                },
                Ok(()) => {},
            }
            i = i + 1;
        }
        assert(order.take(order.len() as int) =~= order);
        let ghost spawns1 = actors.spawn_actors.actors@;
        let ghost tasks1 = tasks@.tasks;
        let task_ids = tasks.ids_of_kind::<CreepSpawnTask>();
        let ghost task_order = task_ids@.map_values(|id: TaskId| id.0);
        proof {
            assert(is_listing(task_order, creep_spawn_keys(tasks1))) by {
                assert forall|k: usize| creep_spawn_keys(tasks1).contains(k) implies task_order.to_set().contains(k) by {
                    let a = choose|a: int| 0 <= a < task_ids@.len() && task_ids@[a].0 == k;
                    assert(task_order[a] == k);
                }
                assert forall|k: usize| task_order.to_set().contains(k) implies creep_spawn_keys(tasks1).contains(k) by {
                    let a = choose|a: int| 0 <= a < task_order.len() && task_order[a] == k;
                    assert(task_ids@[a].0 == k);
                }
                assert(task_order.to_set() =~= creep_spawn_keys(tasks1));
            }
        }
        let mut orders: Vec<SpawnOrder> = Vec::new();
        let mut i: usize = 0;
        assert(order.take(0) =~= Seq::<usize>::empty());
        while i < keys.len()
            invariant
                i <= keys@.len(),
                order == keys@,
                is_listing(order, spawns0.dom()),
                is_listing(task_order, creep_spawn_keys(tasks1)),
                clean_up_all(spawns0, tasks0, order) == (CleanOutcome { spawns: spawns1, tasks: tasks1, result: Ok(()) }),
                spawns0 == old(actors).spawn_actors@.actors,
                rooms0 == old(actors).room_actors@,
                tasks0 == old(tasks)@.tasks,
                task_order == task_ids@.map_values(|id: TaskId| id.0),
                forall|a: int| 0 <= a < keys@.len() ==> spawns0.contains_key(#[trigger] keys@[a]),
                forall|a: int| 0 <= a < task_ids@.len() ==> tasks@.tasks.contains_key((#[trigger] task_ids@[a]).0)
                    && tasks@.tasks[task_ids@[a].0] is CreepSpawn,
                actors.room_actors@ == rooms0,
                actors.spawn_actors@.ids == old(actors).spawn_actors@.ids,
                tasks@.ids == old(tasks)@.ids,
                actors.spawn_actors.actors@.dom() == spawns0.dom(),
                ({
                    let out = assign_all(spawns1, rooms0, tasks1, order.take(i as int), task_order);
                    &&& out.result is Ok
                    &&& out.spawns == actors.spawn_actors.actors@
                    &&& out.tasks == tasks@.tasks
                    &&& orders@.len() == out.orders.len()
                    &&& forall|j: int| 0 <= j < orders@.len() ==> {
                        &&& (#[trigger] orders@[j]).spawn.0 == out.orders[j]
                        &&& orders@[j].body@ == worker_body_spec()
                        &&& orders@[j].name@ == "t1"@
                    }
                }),
            decreases keys@.len() - i,
        {
            let k: usize = keys[i];
            assert(order.take(i + 1).drop_last() =~= order.take(i as int));
            assert(order.take(i + 1).last() == k);
            let ghost before = assign_all(spawns1, rooms0, tasks1, order.take(i as int), task_order);
            assert(spawns0.contains_key(keys@[i as int]));
            assert(actors.spawn_actors.actors@.contains_key(k));
            let mut actor = match actors.spawn_actors.actors.get(&k) {
                Some(a) => *a,
                None => {
                    assert(false);
                    return Err(ActorError::RoomNotFound);
                },
            };
            let room = match actors.room_actors.get(&actor.room_id) {
                Some(r) => *r,
                None => {
                    proof {
                        assert(before.spawns[k] == actor);
                        assert(!rooms0.contains_key(actor.room_id.0));
                        assert(assign_all(spawns1, rooms0, tasks1, order.take(i + 1), task_order).result == Err::<(), ActorError>(ActorError::RoomNotFound));
                        lemma_assign_all_sticks(spawns1, rooms0, tasks1, order, task_order, i + 1, order.len() as int);
                        assert(order.take(order.len() as int) =~= order);
                        assert(run_explains(spawns0, rooms0, tasks0, order, task_order, actors.spawn_actors.actors@, tasks@.tasks, Err(ActorError::RoomNotFound)));
                        assert(run_explains(old(actors).spawn_actors@.actors, old(actors).room_actors@, old(tasks)@.tasks, order, task_order, actors.spawn_actors@.actors, tasks@.tasks, Err(ActorError::RoomNotFound)));
                    }
                    return Err(ActorError::RoomNotFound);
                },
            };
            let ghost tasks_before = tasks@.tasks;
            let r = actor.take_up_task(tasks, &task_ids, &room);
            proof {
                lemma_assign_over_keeps_kinds(before.spawns[k], tasks_before, task_order, room.energy);
                lemma_assign_over_err_unchanged(before.spawns[k], tasks_before, task_order, room.energy);
            }
            match r {
                Err(_) => {
                    proof {
                        assert(tasks@.tasks == before.tasks);
                        assert(assign_all(spawns1, rooms0, tasks1, order.take(i + 1), task_order).result == Err::<(), ActorError>(ActorError::SpawnBusy));
                        lemma_assign_all_sticks(spawns1, rooms0, tasks1, order, task_order, i + 1, order.len() as int);
                        assert(order.take(order.len() as int) =~= order);
                        assert(run_explains(spawns0, rooms0, tasks0, order, task_order, actors.spawn_actors.actors@, tasks@.tasks, Err(ActorError::SpawnBusy)));
                        assert(run_explains(old(actors).spawn_actors@.actors, old(actors).room_actors@, old(tasks)@.tasks, order, task_order, actors.spawn_actors@.actors, tasks@.tasks, Err(ActorError::SpawnBusy)));
                    }
                    return Err(ActorError::SpawnBusy);
                },
                Ok(taken) => {
                    actors.spawn_actors.actors.insert(k, actor);
                    assert(actors.spawn_actors.actors@.dom() =~= spawns0.dom());
                    if taken {
                        let ghost before_orders = orders@;
                        let name = String::from_str("t1");
                        orders.push(SpawnOrder { spawn: SpawnId(k), body: worker_body(), name });
                        assert forall|j: int| 0 <= j < orders@.len() implies {
                            &&& (#[trigger] orders@[j]).spawn.0 == assign_all(spawns1, rooms0, tasks1, order.take(i + 1), task_order).orders[j]
                            &&& orders@[j].body@ == worker_body_spec()
                            &&& orders@[j].name@ == "t1"@
                        } by {
                            if j < before_orders.len() {
                                assert(orders@[j] == before_orders[j]);
                            }
                        }
                    }
                },
            }
            i = i + 1;
        }
        proof {
            assert(order.take(order.len() as int) =~= order);
            assert(run_explains(spawns0, rooms0, tasks0, order, task_order, actors.spawn_actors.actors@, tasks@.tasks, Ok(orders)));
            assert(run_explains(old(actors).spawn_actors@.actors, old(actors).room_actors@, old(tasks)@.tasks, order, task_order, actors.spawn_actors@.actors, tasks@.tasks, Ok(orders)));
        }
        Ok(orders)
    }
}

proof fn lemma_first_memory_none(entries: Seq<(String, SpawnMemory)>, id: usize)
    requires
        forall|j: int| 0 <= j < entries.len() ==> key_id('S', (#[trigger] entries[j]).0@) != Some(id),
    ensures
        first_memory(entries, id) is None,
    decreases entries.len(),
{
    if entries.len() > 0 {
        assert forall|j: int| 0 <= j < entries.drop_last().len() implies key_id('S', (#[trigger] entries.drop_last()[j]).0@)
            != Some(id) by {
            assert(entries.drop_last()[j] == entries[j]);
        }
        lemma_first_memory_none(entries.drop_last(), id);
        assert(entries.last() == entries[entries.len() - 1]);
    }
}

proof fn lemma_first_memory_at(entries: Seq<(String, SpawnMemory)>, id: usize, i: int)
    requires
        0 <= i < entries.len(),
        key_id('S', entries[i].0@) == Some(id),
        forall|j: int| 0 <= j < i ==> key_id('S', (#[trigger] entries[j]).0@) != Some(id),
    ensures
        first_memory(entries, id) == Some(entries[i].1),
    decreases entries.len(),
{
    let rest = entries.drop_last();
    if i == entries.len() - 1 {
        assert forall|j: int| 0 <= j < rest.len() implies key_id('S', (#[trigger] rest[j]).0@) != Some(id) by {
            assert(rest[j] == entries[j]);
        }
        lemma_first_memory_none(rest, id);
    } else {
        assert forall|j: int| 0 <= j < i implies key_id('S', (#[trigger] rest[j]).0@) != Some(id) by {
            assert(rest[j] == entries[j]);
        }
        assert(rest[i] == entries[i]);
        lemma_first_memory_at(rest, id, i);
    }
}

/// What the spawn actors write to memory is read back as the same actors,
/// given reports of the same spawns: every stored key is a spawn key, and
/// building from the stored entries gives each spawn the memory it had.
pub proof fn lemma_spawn_store_then_build(
    entries: Seq<(String, SpawnMemory)>,
    actors: Map<usize, SpawnActor>,
    spawns: Seq<SpawnObservation>,
)
    requires
        spawn_entries_of(entries, actors),
        forall|p: usize| #[trigger] actors.contains_key(p) ==> actors[p].id == SpawnId(p),
        observed_spawns(spawns).dom() == actors.dom(),
        forall|p: usize| #[trigger] actors.contains_key(p) ==> {
            &&& observed_spawns(spawns)[p].room_id == actors[p].room_id
            &&& observed_spawns(spawns)[p].spawning == actors[p].spawning
        },
    ensures
        spawn_keys_valid(entries),
        spawn_actors_for(entries, spawns) == actors,
{
    let built = spawn_actors_for(entries, spawns);
    assert forall|p: usize| #[trigger] actors.contains_key(p) implies built[p] == actors[p] by {
        let i = choose|i: int| 0 <= i < entries.len() && key_id('S', entries[i].0@) == Some(p);
        assert forall|j: int| 0 <= j < i implies key_id('S', (#[trigger] entries[j]).0@) != Some(p) by {
            assert(key_id('S', entries[j].0@) != key_id('S', entries[i].0@));
        }
        lemma_first_memory_at(entries, p, i);
        assert(entries[i].1 == actors[p].memory);
    }
    assert(built.dom() =~= actors.dom());
    assert(built =~= actors);
}

/// Whether the spawns and the creep-spawning tasks agree on who runs what:
/// every spawn and task sits under the key of its own id, a spawn that
/// remembers a task is the spawn recorded in that task, in the same room, and
/// a task recorded as taken is remembered by its spawn. So a spawn runs at
/// most one task, and a task is run by at most one spawn.
pub open spec fn spawns_agree_with_tasks(spawns: Map<usize, SpawnActor>, tasks: Map<usize, Task>) -> bool {
    &&& forall|s: usize| #[trigger] spawns.contains_key(s) ==> spawns[s].id == SpawnId(s)
    &&& forall|k: usize| #[trigger] tasks.contains_key(k) && tasks[k] is CreepSpawn ==> tasks[k]->CreepSpawn_0.id == TaskId(k)
    &&& forall|s: usize| #[trigger] spawns.contains_key(s) && spawns[s].memory.spawn_task is Some ==> {
        let k = spawns[s].memory.spawn_task.unwrap().0;
        &&& tasks.contains_key(k)
        &&& tasks[k] is CreepSpawn
        &&& tasks[k]->CreepSpawn_0.spawn == Some(SpawnId(s))
        &&& tasks[k]->CreepSpawn_0.room_id == spawns[s].room_id
    }
    &&& forall|k: usize| #[trigger] tasks.contains_key(k) && tasks[k] is CreepSpawn && tasks[k]->CreepSpawn_0.spawn is Some ==> {
        let s = tasks[k]->CreepSpawn_0.spawn.unwrap().0;
        &&& spawns.contains_key(s)
        &&& spawns[s].memory.spawn_task == Some(TaskId(k))
    }
}

proof fn lemma_clean_up_keeps_agreement(spawns: Map<usize, SpawnActor>, tasks: Map<usize, Task>, s: usize)
    requires
        spawns_agree_with_tasks(spawns, tasks),
        spawns.contains_key(s),
    ensures
        ({
            let (a, t, r) = clean_up_spec(spawns[s], tasks);
            &&& r is Ok
            &&& t.dom().subset_of(tasks.dom())
            &&& spawns_agree_with_tasks(spawns.insert(s, a), t)
        }),
{
    let actor = spawns[s];
    let (a, t, r) = clean_up_spec(actor, tasks);
    if actor.memory.spawn_task is Some && !actor.spawning {
        let k = actor.memory.spawn_task.unwrap().0;
        let after = spawns.insert(s, a);
        assert forall|s2: usize| #[trigger] after.contains_key(s2) && after[s2].memory.spawn_task is Some implies {
            let k2 = after[s2].memory.spawn_task.unwrap().0;
            &&& t.contains_key(k2)
            &&& t[k2] is CreepSpawn
            &&& t[k2]->CreepSpawn_0.spawn == Some(SpawnId(s2))
        } by {
            assert(s2 != s);
            assert(spawns.contains_key(s2) && spawns[s2].memory.spawn_task is Some);
        }
        assert forall|k2: usize| #[trigger] t.contains_key(k2) && t[k2] is CreepSpawn && t[k2]->CreepSpawn_0.spawn is Some implies {
            let s2 = t[k2]->CreepSpawn_0.spawn.unwrap().0;
            &&& after.contains_key(s2)
            &&& after[s2].memory.spawn_task == Some(TaskId(k2))
        } by {
            assert(k2 != k);
            assert(tasks.contains_key(k2) && tasks[k2] is CreepSpawn && tasks[k2]->CreepSpawn_0.spawn is Some);
        }
    } else {
        assert(spawns.insert(s, a) =~= spawns);
    }
}

proof fn lemma_clean_up_all_keeps_agreement(spawns: Map<usize, SpawnActor>, tasks: Map<usize, Task>, order: Seq<usize>)
    requires
        spawns_agree_with_tasks(spawns, tasks),
        forall|i: int| 0 <= i < order.len() ==> spawns.contains_key(#[trigger] order[i]),
    ensures
        clean_up_all(spawns, tasks, order).result is Ok,
        clean_up_all(spawns, tasks, order).spawns.dom() == spawns.dom(),
        clean_up_all(spawns, tasks, order).tasks.dom().subset_of(tasks.dom()),
        spawns_agree_with_tasks(clean_up_all(spawns, tasks, order).spawns, clean_up_all(spawns, tasks, order).tasks),
    decreases order.len(),
{
    if order.len() > 0 {
        let rest = order.drop_last();
        assert forall|i: int| 0 <= i < rest.len() implies spawns.contains_key(#[trigger] rest[i]) by {
            assert(rest[i] == order[i]);
        }
        lemma_clean_up_all_keeps_agreement(spawns, tasks, rest);
        let before = clean_up_all(spawns, tasks, rest);
        let k = order.last();
        assert(spawns.contains_key(order[order.len() - 1]));
        lemma_clean_up_keeps_agreement(before.spawns, before.tasks, k);
        let (a, t, r) = clean_up_spec(before.spawns[k], before.tasks);
        assert(before.spawns.insert(k, a).dom() =~= spawns.dom());
    }
}

proof fn lemma_assign_over_keeps_agreement(
    spawns: Map<usize, SpawnActor>,
    tasks: Map<usize, Task>,
    s: usize,
    task_order: Seq<usize>,
    energy: u32,
)
    requires
        spawns_agree_with_tasks(spawns, tasks),
        spawns.contains_key(s),
    ensures
        ({
            let (a, t, r) = assign_over(spawns[s], tasks, task_order, energy);
            &&& t.dom() == tasks.dom()
            &&& spawns_agree_with_tasks(spawns.insert(s, a), t)
        }),
    decreases task_order.len(),
{
    let actor = spawns[s];
    if task_order.len() == 0 {
        assert(spawns.insert(s, actor) =~= spawns);
    } else {
        let k = task_order[0];
        if tasks.contains_key(k) && tasks[k] is CreepSpawn {
            let task = tasks[k]->CreepSpawn_0;
            let (a, t, r) = assign_spec(actor, task, energy);
            match r {
                Err(_) => {
                    assert(spawns.insert(s, actor) =~= spawns);
                },
                Ok(true) => {
                    let after = spawns.insert(s, a);
                    let tasks_after = tasks.insert(k, Task::CreepSpawn(t));
                    assert(a.memory.spawn_task == Some(TaskId(k)));
                    assert(t.spawn == Some(SpawnId(s)));
                    assert forall|s2: usize| #[trigger] after.contains_key(s2) && after[s2].memory.spawn_task is Some implies {
                        let k2 = after[s2].memory.spawn_task.unwrap().0;
                        &&& tasks_after.contains_key(k2)
                        &&& tasks_after[k2] is CreepSpawn
                        &&& tasks_after[k2]->CreepSpawn_0.spawn == Some(SpawnId(s2))
                    } by {
                        if s2 != s {
                            assert(spawns.contains_key(s2) && spawns[s2].memory.spawn_task is Some);
                            let k2 = spawns[s2].memory.spawn_task.unwrap().0;
                            if k2 == k {
                                assert(tasks[k]->CreepSpawn_0.spawn == Some(SpawnId(s2)));
                            }
                        }
                    }
                    assert forall|k2: usize| #[trigger] tasks_after.contains_key(k2) && tasks_after[k2] is CreepSpawn
                        && tasks_after[k2]->CreepSpawn_0.spawn is Some implies {
                        let s2 = tasks_after[k2]->CreepSpawn_0.spawn.unwrap().0;
                        &&& after.contains_key(s2)
                        &&& after[s2].memory.spawn_task == Some(TaskId(k2))
                    } by {
                        if k2 != k {
                            assert(tasks.contains_key(k2) && tasks[k2] is CreepSpawn && tasks[k2]->CreepSpawn_0.spawn is Some);
                            let s2 = tasks[k2]->CreepSpawn_0.spawn.unwrap().0;
                            if s2 == s {
                                assert(spawns[s].memory.spawn_task == Some(TaskId(k2)));
                            }
                        }
                    }
                    assert(spawns_agree_with_tasks(after, tasks_after));
                    assert(tasks_after.dom() =~= tasks.dom());
                },
                Ok(false) => {
                    lemma_assign_over_keeps_agreement(spawns, tasks, s, task_order.drop_first(), energy);
                },
            }
        } else {
            lemma_assign_over_keeps_agreement(spawns, tasks, s, task_order.drop_first(), energy);
        }
    }
}

proof fn lemma_assign_all_keeps_agreement(
    spawns: Map<usize, SpawnActor>,
    rooms: Map<u16, RoomActor>,
    tasks: Map<usize, Task>,
    order: Seq<usize>,
    task_order: Seq<usize>,
)
    requires
        spawns_agree_with_tasks(spawns, tasks),
        forall|i: int| 0 <= i < order.len() ==> spawns.contains_key(#[trigger] order[i]),
    ensures
        assign_all(spawns, rooms, tasks, order, task_order).spawns.dom() == spawns.dom(),
        assign_all(spawns, rooms, tasks, order, task_order).tasks.dom() == tasks.dom(),
        spawns_agree_with_tasks(
            assign_all(spawns, rooms, tasks, order, task_order).spawns,
            assign_all(spawns, rooms, tasks, order, task_order).tasks,
        ),
    decreases order.len(),
{
    if order.len() > 0 {
        let rest = order.drop_last();
        assert forall|i: int| 0 <= i < rest.len() implies spawns.contains_key(#[trigger] rest[i]) by {
            assert(rest[i] == order[i]);
        }
        lemma_assign_all_keeps_agreement(spawns, rooms, tasks, rest, task_order);
        let before = assign_all(spawns, rooms, tasks, rest, task_order);
        if before.result is Ok {
            let k = order.last();
            assert(spawns.contains_key(order[order.len() - 1]));
            let actor = before.spawns[k];
            if rooms.contains_key(actor.room_id.0) {
                lemma_assign_over_keeps_agreement(before.spawns, before.tasks, k, task_order, rooms[actor.room_id.0].energy);
                let (a, t, r) = assign_over(actor, before.tasks, task_order, rooms[actor.room_id.0].energy);
                assert(before.spawns.insert(k, a).dom() =~= spawns.dom());
            }
        }
    }
}

/// A run of the spawns keeps them in agreement with the tasks: whatever the
/// order of the visits and however the run ends, a spawn that remembers a
/// task is recorded in it, and a taken task is remembered by its spawn. A run
/// adds no task.
pub proof fn lemma_run_keeps_agreement(
    spawns: Map<usize, SpawnActor>,
    rooms: Map<u16, RoomActor>,
    tasks: Map<usize, Task>,
    order: Seq<usize>,
    task_order: Seq<usize>,
    final_spawns: Map<usize, SpawnActor>,
    final_tasks: Map<usize, Task>,
    result: Result<Vec<SpawnOrder>, ActorError>,
)
    requires
        spawns_agree_with_tasks(spawns, tasks),
        run_explains(spawns, rooms, tasks, order, task_order, final_spawns, final_tasks, result),
    ensures
        spawns_agree_with_tasks(final_spawns, final_tasks),
        final_tasks.dom().subset_of(tasks.dom()),
{
    assert forall|i: int| 0 <= i < order.len() implies spawns.contains_key(#[trigger] order[i]) by {
        assert(order.to_set().contains(order[i]));
    }
    lemma_clean_up_all_keeps_agreement(spawns, tasks, order);
    let cleaned = clean_up_all(spawns, tasks, order);
    assert forall|i: int| 0 <= i < order.len() implies cleaned.spawns.contains_key(#[trigger] order[i]) by {
        assert(spawns.contains_key(order[i]));
    }
    lemma_assign_all_keeps_agreement(cleaned.spawns, rooms, cleaned.tasks, order, task_order);
}

/// Spawn memory as the spawn actors write it has no key twice.
pub proof fn lemma_spawn_entries_distinct(entries: Seq<(String, SpawnMemory)>, actors: Map<usize, SpawnActor>)
    requires
        spawn_entries_of(entries, actors),
    ensures
        keys_distinct(entries),
{
    assert forall|i: int, j: int| 0 <= i < j < entries.len() implies (#[trigger] entries[i]).0@ != (#[trigger] entries[j]).0@ by {
        assert(key_id('S', entries[i].0@) != key_id('S', entries[j].0@));
    }
}

/// The key of a spawn id reads back as the same id: `S001` for 1.
pub proof fn lemma_spawn_key_roundtrip(id: SpawnId)
    ensures
        key_id('S', key_text('S', 3, id.0 as nat)) == Some(id.0),
{
    lemma_id_key_roundtrip('S', 3, id.0);
}

proof fn lemma_assign_over_keeps_room(actor: SpawnActor, tasks: Map<usize, Task>, task_order: Seq<usize>, energy: u32)
    ensures
        assign_over(actor, tasks, task_order, energy).0.room_id == actor.room_id,
    decreases task_order.len(),
{
    if task_order.len() > 0 {
        lemma_assign_over_keeps_room(actor, tasks, task_order.drop_first(), energy);
    }
}

proof fn lemma_clean_up_all_keeps_rooms(spawns: Map<usize, SpawnActor>, tasks: Map<usize, Task>, order: Seq<usize>)
    requires
        forall|i: int| 0 <= i < order.len() ==> spawns.contains_key(#[trigger] order[i]),
    ensures
        clean_up_all(spawns, tasks, order).spawns.dom() == spawns.dom(),
        forall|s: usize| #[trigger] spawns.contains_key(s) ==> clean_up_all(spawns, tasks, order).spawns[s].room_id
            == spawns[s].room_id,
    decreases order.len(),
{
    if order.len() > 0 {
        let rest = order.drop_last();
        assert forall|i: int| 0 <= i < rest.len() implies spawns.contains_key(#[trigger] rest[i]) by {
            assert(rest[i] == order[i]);
        }
        lemma_clean_up_all_keeps_rooms(spawns, tasks, rest);
        let before = clean_up_all(spawns, tasks, rest);
        assert(spawns.contains_key(order[order.len() - 1]));
        if before.result is Ok {
            let k = order.last();
            let (a, t, r) = clean_up_spec(before.spawns[k], before.tasks);
            assert(before.spawns.insert(k, a).dom() =~= spawns.dom());
        }
    }
}

proof fn lemma_assign_all_finds_rooms(
    spawns: Map<usize, SpawnActor>,
    rooms: Map<u16, RoomActor>,
    tasks: Map<usize, Task>,
    order: Seq<usize>,
    task_order: Seq<usize>,
)
    requires
        forall|i: int| 0 <= i < order.len() ==> spawns.contains_key(#[trigger] order[i]),
    ensures
        assign_all(spawns, rooms, tasks, order, task_order).spawns.dom() == spawns.dom(),
        forall|s: usize| #[trigger] spawns.contains_key(s) ==> assign_all(spawns, rooms, tasks, order, task_order).spawns[s].room_id
            == spawns[s].room_id,
        assign_all(spawns, rooms, tasks, order, task_order).result is Ok ==> forall|i: int|
            0 <= i < order.len() ==> rooms.contains_key(spawns[#[trigger] order[i]].room_id.0),
    decreases order.len(),
{
    if order.len() > 0 {
        let rest = order.drop_last();
        assert forall|i: int| 0 <= i < rest.len() implies spawns.contains_key(#[trigger] rest[i]) by {
            assert(rest[i] == order[i]);
        }
        lemma_assign_all_finds_rooms(spawns, rooms, tasks, rest, task_order);
        let before = assign_all(spawns, rooms, tasks, rest, task_order);
        let k = order.last();
        assert(spawns.contains_key(order[order.len() - 1]));
        if before.result is Ok {
            let actor = before.spawns[k];
            if rooms.contains_key(actor.room_id.0) {
                let energy = rooms[actor.room_id.0].energy;
                lemma_assign_over_keeps_room(actor, before.tasks, task_order, energy);
                let (a, t, r) = assign_over(actor, before.tasks, task_order, energy);
                assert(before.spawns.insert(k, a).dom() =~= spawns.dom());
                let out = assign_all(spawns, rooms, tasks, order, task_order);
                if out.result is Ok {
                    assert forall|i: int| 0 <= i < order.len() implies rooms.contains_key(spawns[#[trigger] order[i]].room_id.0) by {
                        if i < rest.len() {
                            assert(rest[i] == order[i]);
                        }
                    }
                }
            }
        }
    }
}

/// A run that succeeds found the room of every spawn: where a spawn's room is
/// not among the rooms, the run fails (with `RoomNotFound`, unless an earlier
/// error stopped it first).
pub proof fn lemma_run_ok_rooms_known(
    spawns: Map<usize, SpawnActor>,
    rooms: Map<u16, RoomActor>,
    tasks: Map<usize, Task>,
    order: Seq<usize>,
    task_order: Seq<usize>,
    final_spawns: Map<usize, SpawnActor>,
    final_tasks: Map<usize, Task>,
    result: Result<Vec<SpawnOrder>, ActorError>,
)
    requires
        run_explains(spawns, rooms, tasks, order, task_order, final_spawns, final_tasks, result),
        result is Ok,
    ensures
        forall|s: usize| #[trigger] spawns.contains_key(s) ==> rooms.contains_key(spawns[s].room_id.0),
{
    assert forall|i: int| 0 <= i < order.len() implies spawns.contains_key(#[trigger] order[i]) by {
        assert(order.to_set().contains(order[i]));
    }
    lemma_clean_up_all_keeps_rooms(spawns, tasks, order);
    let cleaned = clean_up_all(spawns, tasks, order);
    assert forall|i: int| 0 <= i < order.len() implies cleaned.spawns.contains_key(#[trigger] order[i]) by {
        assert(spawns.contains_key(order[i]));
    }
    lemma_assign_all_finds_rooms(cleaned.spawns, rooms, cleaned.tasks, order, task_order);
    assert forall|s: usize| #[trigger] spawns.contains_key(s) implies rooms.contains_key(spawns[s].room_id.0) by {
        assert(order.to_set().contains(s));
        let i = choose|i: int| 0 <= i < order.len() && order[i] == s;
        assert(cleaned.spawns.contains_key(order[i]));
    }
}

/// Whether every entry of spawn memory is under a spawn key.
pub fn spawn_keys_ok(entries: &Vec<(String, SpawnMemory)>) -> (ok: bool)
    ensures
        ok == spawn_keys_valid(entries@),
{
    let mut i: usize = 0;
    while i < entries.len()
        invariant
            i <= entries@.len(),
            forall|a: int| 0 <= a < i ==> (#[trigger] key_id('S', entries@[a].0@)) is Some,
        decreases entries@.len() - i,
    {
        if SpawnId::parse_key(entries[i].0.as_str()).is_none() {
            return false;
        }
        i = i + 1;
    }
    true
}

/// Whether every reported spawn is named by a spawn key.
pub fn spawn_names_ok(spawns: &Vec<SpawnObservation>) -> (ok: bool)
    ensures
        ok == spawn_names_valid(spawns@),
{
    let mut i: usize = 0;
    while i < spawns.len()
        invariant
            i <= spawns@.len(),
            forall|a: int| 0 <= a < i ==> (#[trigger] key_id('S', spawns@[a].name@)) is Some,
        decreases spawns@.len() - i,
    {
        if SpawnId::parse_key(spawns[i].name.as_str()).is_none() {
            return false;
        }
        i = i + 1;
    }
    true
}

/// A worker costs 250 energy.
pub proof fn lemma_worker_cost()
    ensures
        body_cost(worker_body_spec()) == 250,
{
    reveal_with_fuel(body_cost, 5);
}

/// Whether `task` is open (no spawn has it) and asks for a creep in the room
/// of `actor`, which runs no task.
pub open spec fn may_take_up(actor: SpawnActor, task: CreepSpawnTask) -> bool {
    &&& task.room_id == actor.room_id
    &&& task.spawn is None
    &&& actor.memory.spawn_task is None
}

/// A spawn takes a task up exactly when it may (an open task of its room, no
/// task of its own), it is not spawning, and its room has the 250 energy of a
/// worker; it then remembers the task and the task records the spawn. A
/// spawning spawn that may take the task up is busy, whatever the energy.
/// Otherwise it declines; declining or failing changes nothing.
pub proof fn lemma_spawn_takes_up_task(actor: SpawnActor, task: CreepSpawnTask, energy: u32)
    ensures
        ({
            let (a, t, r) = assign_spec(actor, task, energy);
            &&& may_take_up(actor, task) && actor.spawning ==> r == Err::<bool, SpawnError>(SpawnError::SpawnBusy)
            &&& r is Err ==> may_take_up(actor, task) && actor.spawning
            &&& r == Ok::<bool, SpawnError>(true) <==> (may_take_up(actor, task) && !actor.spawning && energy >= 250)
            &&& r == Ok::<bool, SpawnError>(true) ==> {
                &&& t == (CreepSpawnTask { spawn: Some(actor.id), ..task })
                &&& a == (SpawnActor { memory: SpawnMemory { spawn_task: Some(task.id) }, ..actor })
            }
            &&& r != Ok::<bool, SpawnError>(true) ==> a == actor && t == task
        }),
{
    lemma_worker_cost();
}

/// Whether `actor` is free to take a task up: it runs no task, is not
/// spawning, and its room is known and has the 250 energy of a worker.
pub open spec fn spawn_is_free(actor: SpawnActor, rooms: Map<u16, RoomActor>) -> bool {
    &&& actor.memory.spawn_task is None
    &&& !actor.spawning
    &&& rooms.contains_key(actor.room_id.0)
    &&& rooms[actor.room_id.0].energy >= 250
}

/// Whether the store holds under `k` a creep-spawning task for `room` that
/// no spawn has taken up.
pub open spec fn open_task_for(tasks: Map<usize, Task>, k: usize, room: RoomId) -> bool {
    &&& tasks.contains_key(k)
    &&& tasks[k] is CreepSpawn
    &&& tasks[k]->CreepSpawn_0.spawn is None
    &&& tasks[k]->CreepSpawn_0.room_id == room
}

proof fn lemma_assign_over_declines_only_without_open_task(
    actor: SpawnActor,
    tasks: Map<usize, Task>,
    task_order: Seq<usize>,
    energy: u32,
)
    requires
        actor.memory.spawn_task is None,
        !actor.spawning,
        energy >= 250,
        assign_over(actor, tasks, task_order, energy).2 == Ok::<bool, SpawnError>(false),
    ensures
        forall|i: int| 0 <= i < task_order.len() ==> !open_task_for(tasks, #[trigger] task_order[i], actor.room_id),
    decreases task_order.len(),
{
    lemma_worker_cost();
    if task_order.len() > 0 {
        let k = task_order[0];
        let rest = task_order.drop_first();
        if tasks.contains_key(k) && tasks[k] is CreepSpawn {
            lemma_spawn_takes_up_task(actor, tasks[k]->CreepSpawn_0, energy);
        }
        lemma_assign_over_declines_only_without_open_task(actor, tasks, rest, energy);
        assert forall|i: int| 0 <= i < task_order.len() implies !open_task_for(tasks, #[trigger] task_order[i], actor.room_id) by {
            if i > 0 {
                assert(task_order[i] == rest[i - 1]);
            }
        }
    }
}

proof fn lemma_assign_over_only_takes(actor: SpawnActor, tasks: Map<usize, Task>, task_order: Seq<usize>, energy: u32)
    ensures
        ({
            let (a, t, r) = assign_over(actor, tasks, task_order, energy);
            &&& forall|k: usize, room: RoomId| #[trigger] open_task_for(t, k, room) ==> open_task_for(tasks, k, room)
            &&& forall|k: usize| #[trigger] t.contains_key(k) && t[k] is CreepSpawn ==> tasks.contains_key(k) && tasks[k] is CreepSpawn
            &&& r == Ok::<bool, SpawnError>(true) ==> a.memory.spawn_task is Some
            &&& r != Ok::<bool, SpawnError>(true) ==> a == actor && t == tasks
        }),
    decreases task_order.len(),
{
    if task_order.len() > 0 {
        lemma_assign_over_only_takes(actor, tasks, task_order.drop_first(), energy);
        let k = task_order[0];
        if tasks.contains_key(k) && tasks[k] is CreepSpawn {
            lemma_spawn_takes_up_task(actor, tasks[k]->CreepSpawn_0, energy);
        }
    }
}

proof fn lemma_assign_all_leaves_no_free_spawn(
    spawns: Map<usize, SpawnActor>,
    rooms: Map<u16, RoomActor>,
    tasks: Map<usize, Task>,
    order: Seq<usize>,
    task_order: Seq<usize>,
    n: int,
)
    requires
        order.no_duplicates(),
        forall|i: int| 0 <= i < order.len() ==> spawns.contains_key(#[trigger] order[i]),
        forall|k: usize| #[trigger] tasks.contains_key(k) && tasks[k] is CreepSpawn ==> task_order.contains(k),
        0 <= n <= order.len(),
    ensures
        ({
            let out = assign_all(spawns, rooms, tasks, order.take(n), task_order);
            &&& forall|k: usize| #[trigger] out.tasks.contains_key(k) && out.tasks[k] is CreepSpawn
                ==> tasks.contains_key(k) && tasks[k] is CreepSpawn
            &&& forall|j: int| n <= j < order.len() ==> out.spawns[#[trigger] order[j]] == spawns[order[j]]
            &&& out.result is Ok ==> forall|i: int, k: usize|
                0 <= i < n && #[trigger] spawn_is_free(out.spawns[order[i]], rooms) ==> !#[trigger] open_task_for(
                    out.tasks,
                    k,
                    out.spawns[order[i]].room_id,
                )
        }),
    decreases n,
{
    if n > 0 {
        lemma_assign_all_leaves_no_free_spawn(spawns, rooms, tasks, order, task_order, n - 1);
        assert(order.take(n).drop_last() =~= order.take(n - 1));
        assert(order.take(n).last() == order[n - 1]);
        let prev = assign_all(spawns, rooms, tasks, order.take(n - 1), task_order);
        let out = assign_all(spawns, rooms, tasks, order.take(n), task_order);
        let s = order[n - 1];
        if prev.result is Ok {
            let actor = prev.spawns[s];
            assert(actor == spawns[s]);
            if rooms.contains_key(actor.room_id.0) {
                let energy = rooms[actor.room_id.0].energy;
                lemma_assign_over_only_takes(actor, prev.tasks, task_order, energy);
                let (a, t, r) = assign_over(actor, prev.tasks, task_order, energy);
                if r is Ok {
                    assert(out.spawns == prev.spawns.insert(s, a));
                    assert(out.tasks == t);
                    assert forall|j: int| n <= j < order.len() implies out.spawns[#[trigger] order[j]] == spawns[order[j]] by {
                        assert(order[j] != order[n - 1]);
                    }
                    assert forall|i: int, k: usize|
                        0 <= i < n && #[trigger] spawn_is_free(out.spawns[order[i]], rooms) implies !#[trigger] open_task_for(
                        out.tasks,
                        k,
                        out.spawns[order[i]].room_id,
                    ) by {
                        if i < n - 1 {
                            assert(order[i] != order[n - 1]);
                            assert(out.spawns[order[i]] == prev.spawns[order[i]]);
                            if open_task_for(t, k, prev.spawns[order[i]].room_id) {
                                assert(open_task_for(prev.tasks, k, prev.spawns[order[i]].room_id));
                            }
                        } else {
                            assert(out.spawns[order[i]] == a);
                            if r == Ok::<bool, SpawnError>(false) {
                                assert(a == actor && t == prev.tasks);
                                lemma_assign_over_declines_only_without_open_task(actor, prev.tasks, task_order, energy);
                                if open_task_for(t, k, a.room_id) {
                                    assert(tasks.contains_key(k) && tasks[k] is CreepSpawn);
                                    assert(task_order.contains(k));
                                    let m = choose|m: int| 0 <= m < task_order.len() && task_order[m] == k;
                                    assert(!open_task_for(prev.tasks, task_order[m], actor.room_id));
                                }
                            }
                        }
                    }
                }
            }
        }
    }
}

/// After a successful run no spawn is left free to take a task up (running
/// no task, not spawning, in a known room with the 250 energy of a worker)
/// while an open creep-spawning task for its room remains: every spawn gets
/// its turn, and a free spawn declines only when no such task is left.
pub proof fn lemma_run_leaves_no_free_spawn(
    spawns: Map<usize, SpawnActor>,
    rooms: Map<u16, RoomActor>,
    tasks: Map<usize, Task>,
    order: Seq<usize>,
    task_order: Seq<usize>,
    final_spawns: Map<usize, SpawnActor>,
    final_tasks: Map<usize, Task>,
    result: Result<Vec<SpawnOrder>, ActorError>,
)
    requires
        run_explains(spawns, rooms, tasks, order, task_order, final_spawns, final_tasks, result),
        result is Ok,
    ensures
        forall|s: usize, k: usize|
            #[trigger] final_spawns.contains_key(s) && spawn_is_free(final_spawns[s], rooms) ==> !#[trigger] open_task_for(
                final_tasks,
                k,
                final_spawns[s].room_id,
            ),
{
    assert forall|i: int| 0 <= i < order.len() implies spawns.contains_key(#[trigger] order[i]) by {
        assert(order.to_set().contains(order[i]));
    }
    lemma_clean_up_all_keeps_rooms(spawns, tasks, order);
    let cleaned = clean_up_all(spawns, tasks, order);
    assert(cleaned.result is Ok);
    assert forall|i: int| 0 <= i < order.len() implies cleaned.spawns.contains_key(#[trigger] order[i]) by {
        assert(spawns.contains_key(order[i]));
    }
    assert forall|k: usize| #[trigger] cleaned.tasks.contains_key(k) && cleaned.tasks[k] is CreepSpawn implies task_order.contains(k) by {
        assert(creep_spawn_keys(cleaned.tasks).contains(k));
        assert(task_order.to_set().contains(k));
    }
    lemma_assign_all_leaves_no_free_spawn(cleaned.spawns, rooms, cleaned.tasks, order, task_order, order.len() as int);
    assert(order.take(order.len() as int) =~= order);
    lemma_assign_all_finds_rooms(cleaned.spawns, rooms, cleaned.tasks, order, task_order);
    assert forall|s: usize, k: usize|
        #[trigger] final_spawns.contains_key(s) && spawn_is_free(final_spawns[s], rooms) implies !#[trigger] open_task_for(
        final_tasks,
        k,
        final_spawns[s].room_id,
    ) by {
        assert(spawns.contains_key(s));
        assert(order.to_set().contains(s));
        let i = choose|i: int| 0 <= i < order.len() && order[i] == s;
        assert(spawn_is_free(final_spawns[order[i]], rooms));
    }
}

} // verus!

//! Tasks: the units of work that actors pick up, kept under recyclable ids.
use crate::actor::spawn_actor::CreepSpawnTask;
use crate::common::enum_downcast::{EnumDispatcher, EnumDowncast};
use crate::common::id_key::{keys_distinct, decimal, format_decimal, format_key, key_id, key_text, parse_key};
use crate::common::id_key::lemma_id_key_roundtrip;
use crate::common::id_manager::{
    fresh_ids,
    alloc_fits, alloc_spec, lemma_alloc_hands_out_fresh_key, live_keys, well_formed, IdKey,
    IdManager, IdState, PendingKey,
};
use crate::common::map_util::{map_get_mut, map_keys};
use crate::game::game_time;
use std::collections::HashMap;
use vstd::prelude::*;

verus! {

/// The id of a task.
#[derive(Clone, Copy, Debug, PartialEq, Eq, Structural, Hash)]
pub struct TaskId(pub usize);

impl IdKey for TaskId {
    open spec fn key_of(self) -> usize {
        self.0
    }

    fn from_key(key: usize) -> (id: Self) {
        TaskId(key)
    }

    fn key(&self) -> (key: usize) {
        self.0
    }
}

impl TaskId {
    /// The id after this one.
    pub fn next(&self) -> (id: TaskId)
        requires
            self.0 < usize::MAX,
        ensures
            id.0 == self.0 + 1,
    {
        TaskId(self.0 + 1)
    }

    /// The key of this id in memory: `T` and the number, padded to four digits.
    pub fn to_key(&self) -> (key: String)
        ensures
            key@ == key_text('T', 4, self.0 as nat),
    {
        format_key('T', 4, self.0)
    }

    /// The id that a memory key denotes, if it is one.
    pub fn parse_key(key: &str) -> (id: Option<TaskId>)
        ensures
            id == (match key_id('T', key@) {
                Some(n) => Some(TaskId(n)),
                None => None,
            }),
    {
        match parse_key('T', key) {
            Some(n) => Some(TaskId(n)),
            None => None,
        }
    }

    /// The number of this id in decimal, as it is displayed.
    pub fn to_text(&self) -> (text: String)
        ensures
            text@ == decimal(self.0 as nat),
    {
        format_decimal(self.0)
    }
}

impl From<usize> for TaskId {
    fn from(value: usize) -> (id: TaskId)
        ensures
            id.0 == value,
    {
        TaskId(value)
    }
}

impl vstd::std_specs::convert::FromSpecImpl<usize> for TaskId {
    open spec fn obeys_from_spec() -> bool {
        true
    }

    open spec fn from_spec(v: usize) -> TaskId {
        TaskId(v)
    }
}

impl From<TaskId> for usize {
    fn from(value: TaskId) -> (n: usize)
        ensures
            n == value.0,
    {
        value.0
    }
}

impl vstd::std_specs::convert::FromSpecImpl<TaskId> for usize {
    open spec fn obeys_from_spec() -> bool {
        true
    }

    open spec fn from_spec(v: TaskId) -> usize {
        v.0
    }
}

/// The parsed form of a `{"id": ..}` record.
#[derive(Clone, Copy, Debug, PartialEq, Eq, Structural)]
pub struct TaskIdParse {
    pub id: usize,
}

impl From<TaskIdParse> for TaskId {
    fn from(value: TaskIdParse) -> (id: TaskId)
        ensures
            id.0 == value.id,
    {
        TaskId(value.id)
    }
}

impl vstd::std_specs::convert::FromSpecImpl<TaskIdParse> for TaskId {
    open spec fn obeys_from_spec() -> bool {
        true
    }

    open spec fn from_spec(v: TaskIdParse) -> TaskId {
        TaskId(v.id)
    }
}

/// A placeholder task that asks for nothing.
#[derive(Clone, Copy, Debug, PartialEq, Eq, Structural)]
pub struct NoTask {}

impl NoTask {
    /// How the placeholder task is displayed.
    pub fn to_text(&self) -> (text: String)
        ensures
            text@ == "NoTask"@,
    {
        proof {
            reveal_strlit("NoTask");
        }
        String::from_str("NoTask")
    }
}

/// A task, by kind.
#[derive(Clone, Copy, Debug, PartialEq, Eq, Structural)]
pub enum Task {
    NoTask(NoTask),
    CreepSpawn(CreepSpawnTask),
}

impl EnumDispatcher for Task {}

impl EnumDowncast<Task> for NoTask {
    open spec fn downcast_spec(from: Task) -> Option<NoTask> {
        match from {
            Task::NoTask(item) => Some(item),
            _ => None,
        }
    }

    open spec fn upcast_spec(item: NoTask) -> Task {
        Task::NoTask(item)
    }

    proof fn lemma_downcast_upcast(item: NoTask) {
    }

    proof fn lemma_upcast_downcast(from: Task) {
    }

    fn enum_downcast(from: Task) -> (item: Option<NoTask>) {
        match from {
            Task::NoTask(item) => Some(item),
            _ => None,
        }
    }

    fn enum_downcast_ref(from: &Task) -> (item: Option<&NoTask>) {
        match from {
            Task::NoTask(item) => Some(item),
            _ => None,
        }
    }

    fn enum_downcast_mut(from: &mut Task) -> (item: Option<&mut NoTask>) {
        match from {
            Task::NoTask(item) => Some(item),
            _ => None,
        }
    }
}

impl EnumDowncast<Task> for CreepSpawnTask {
    open spec fn downcast_spec(from: Task) -> Option<CreepSpawnTask> {
        match from {
            Task::CreepSpawn(item) => Some(item),
            _ => None,
        }
    }

    open spec fn upcast_spec(item: CreepSpawnTask) -> Task {
        Task::CreepSpawn(item)
    }

    proof fn lemma_downcast_upcast(item: CreepSpawnTask) {
    }

    proof fn lemma_upcast_downcast(from: Task) {
    }

    fn enum_downcast(from: Task) -> (item: Option<CreepSpawnTask>) {
        match from {
            Task::CreepSpawn(item) => Some(item),
            _ => None,
        }
    }

    fn enum_downcast_ref(from: &Task) -> (item: Option<&CreepSpawnTask>) {
        match from {
            Task::CreepSpawn(item) => Some(item),
            _ => None,
        }
    }

    fn enum_downcast_mut(from: &mut Task) -> (item: Option<&mut CreepSpawnTask>) {
        match from {
            Task::CreepSpawn(item) => Some(item),
            _ => None,
        }
    }
}

broadcast use vstd::std_specs::hash::group_hash_axioms;

/// Why a task could not be reached.
#[derive(Clone, Copy, Debug, PartialEq, Eq, Structural)]
pub enum TaskError {
    /// No task has this id.
    InvalidTaskId,
    /// The task under this id is of another kind.
    TaskTypeMismatch,
}

/// Tasks as they are kept in memory: the id manager, and each task under the
/// key of its id (`T0007`). No key occurs twice (`keys_distinct`): the
/// entries stand for a map from key to task.
pub struct TaskMemory {
    pub id_manager: IdManager<TaskId>,
    pub values: Vec<(String, Task)>,
}

impl Default for TaskMemory {
    fn default() -> (m: Self)
        ensures
            m.values@ == Seq::<(String, Task)>::empty(),
            m.id_manager@ == fresh_ids(),
    {
        TaskMemory { id_manager: IdManager::new(), values: Vec::new() }
    }
}

/// Whether every key of the entries denotes a task id.
pub open spec fn task_keys_valid(entries: Seq<(String, Task)>) -> bool {
    forall|i: int| 0 <= i < entries.len() ==> (#[trigger] key_id('T', entries[i].0@)) is Some
}

/// The tasks that memory entries denote, by id; a later entry for the same id
/// wins.
pub open spec fn entries_to_tasks(entries: Seq<(String, Task)>) -> Map<usize, Task>
    decreases entries.len(),
{
    if entries.len() == 0 {
        Map::empty()
    } else {
        let last = entries.last();
        entries_to_tasks(entries.drop_last()).insert(key_id('T', last.0@).unwrap(), last.1)
    }
}

/// Whether `entries` is how `tasks` is written to memory: each entry under the
/// four-digit key of a distinct id, together denoting exactly `tasks`.
pub open spec fn stored_form(entries: Seq<(String, Task)>, tasks: Map<usize, Task>) -> bool {
    &&& task_keys_valid(entries)
    &&& forall|i: int|
        0 <= i < entries.len() ==> (#[trigger] entries[i]).0@ == key_text(
            'T',
            4,
            key_id('T', entries[i].0@).unwrap() as nat,
        )
    &&& forall|i: int, j: int|
        0 <= i < j < entries.len() ==> key_id('T', (#[trigger] entries[i]).0@) != key_id(
            'T',
            (#[trigger] entries[j]).0@,
        )
    &&& entries.len() == tasks.dom().len()
    &&& entries_to_tasks(entries) == tasks
}

/// The tasks, under their ids.
pub struct Tasks {
    id_manager: IdManager<TaskId>,
    values: HashMap<usize, Task>,
}

/// The abstract state of the tasks: the id manager, and the tasks by id.
pub struct TasksView {
    pub ids: IdState,
    pub tasks: Map<usize, Task>,
}

impl View for Tasks {
    type V = TasksView;

    closed spec fn view(&self) -> TasksView {
        TasksView { ids: self.id_manager@, tasks: self.values@ }
    }
}

impl Tasks {
    /// The tasks that memory holds. Every key must denote a task id.
    pub fn from_memory(memory: &TaskMemory) -> (tasks: Tasks)
        requires
            task_keys_valid(memory.values@),
        ensures
            tasks@.ids == memory.id_manager@,
            tasks@.tasks == entries_to_tasks(memory.values@),
    {
        let mut values: HashMap<usize, Task> = HashMap::new();
        let mut i: usize = 0;
        while i < memory.values.len()
            invariant
                i <= memory.values@.len(),
                task_keys_valid(memory.values@),
                values@ == entries_to_tasks(memory.values@.take(i as int)),
            decreases memory.values@.len() - i,
        {
            let entry = &memory.values[i];
            assert(memory.values@.take(i + 1).drop_last() =~= memory.values@.take(i as int));
            assert(memory.values@.take(i + 1).last() == memory.values@[i as int]);
            assert(key_id('T', memory.values@[i as int].0@) is Some);
            match TaskId::parse_key(entry.0.as_str()) {
                Some(id) => {
                    values.insert(id.0, entry.1);
                },
                None => {
                    assert(false);
                },
            }
            i = i + 1;
        }
        assert(memory.values@.take(memory.values@.len() as int) =~= memory.values@);
        Tasks { id_manager: memory.id_manager.duplicate(), values }
    }

    /// Writes the tasks to memory, each under the key of its id.
    pub fn store_memory(&self, memory: &mut TaskMemory)
        ensures
            final(memory).id_manager@ == self@.ids,
            stored_form(final(memory).values@, self@.tasks),
            keys_distinct(final(memory).values@),
    {
        let keys = map_keys(&self.values);
        let mut entries: Vec<(String, Task)> = Vec::new();
        let mut i: usize = 0;
        while i < keys.len()
            invariant
                i <= keys@.len(),
                keys@.len() == self.values@.dom().len(),
                forall|j: int| 0 <= j < keys@.len() ==> self.values@.contains_key(*#[trigger] keys@[j]),
                forall|j: int, k: int| 0 <= j < keys@.len() && 0 <= k < keys@.len() && j != k ==> *#[trigger] keys@[j] != *#[trigger] keys@[k],
                entries@.len() == i,
                forall|j: int| 0 <= j < i ==> key_id('T', (#[trigger] entries@[j]).0@) == Some(*keys@[j]),
                forall|j: int| 0 <= j < i ==> (#[trigger] entries@[j]).0@ == key_text('T', 4, *keys@[j] as nat),
                entries_to_tasks(entries@) == self.values@.restrict(Set::new(|k: usize| exists|j: int| 0 <= j < i && *keys@[j] == k)),
            decreases keys@.len() - i,
        {
            let key: usize = *keys[i];
            let task = match self.values.get(&key) {
                Some(t) => *t,
                None => {
                    assert(false);
                    Task::NoTask(NoTask {})
                },
            };
            let text = TaskId(key).to_key();
            proof {
                lemma_id_key_roundtrip('T', 4, key);
            }
            let ghost before = entries@;
            entries.push((text, task));
            proof {
                assert(entries@.drop_last() =~= before);
                let s_old = Set::new(|k: usize| exists|j: int| 0 <= j < i && *keys@[j] == k);
                let s_new = Set::new(|k: usize| exists|j: int| 0 <= j < i + 1 && *keys@[j] == k);
                assert(s_new =~= s_old.insert(key)) by {
                    assert forall|k: usize| s_new.contains(k) implies s_old.insert(key).contains(k) by {
                        let j = choose|j: int| 0 <= j < i + 1 && *keys@[j] == k;
                        if j < i {
                            assert(s_old.contains(k));
                        }
                    }
                }
                assert(entries_to_tasks(entries@) =~= self.values@.restrict(s_new));
            }
            i = i + 1;
        }
        proof {
            let s_all = Set::new(|k: usize| exists|j: int| 0 <= j < i && *keys@[j] == k);
            assert(s_all =~= self.values@.dom()) by {
                assert forall|k: usize| self.values@.contains_key(k) implies s_all.contains(k) by {
                    let j = choose|j: int| 0 <= j < keys@.len() && *keys@[j] == k;
                }
            }
            assert(self.values@.restrict(s_all) =~= self.values@);
            assert forall|j: int, k: int| 0 <= j < k < entries@.len() implies key_id('T', (#[trigger] entries@[j]).0@) != key_id(
                'T',
                (#[trigger] entries@[k]).0@,
            ) by {
                assert(*keys@[j] != *keys@[k]);
            }
        }
        memory.values = entries;
        proof {
            lemma_stored_keys_distinct(memory.values@, self@.tasks);
        }
        memory.id_manager = self.id_manager.duplicate();
    }

    /// Allocates an id at tick `now` and stores the task that `f` makes for it.
    pub fn add_task_at(&mut self, now: u32, f: impl FnOnce(TaskId) -> Task) -> (result: Result<TaskId, TaskError>)
        requires
            alloc_fits(old(self)@.ids, now),
            forall|id: TaskId| f.requires((id,)),
        ensures
            ({
                let (ids, key) = alloc_spec(old(self)@.ids, now);
                &&& result == Ok::<TaskId, TaskError>(TaskId(key))
                &&& final(self)@.ids == ids
                &&& exists|task: Task| #[trigger] f.ensures((TaskId(key),), task)
                    && final(self)@.tasks == old(self)@.tasks.insert(key, task)
            }),
    {
        let id: TaskId = self.id_manager.alloc_id_at(now);
        let task = f(id);
        self.values.insert(id.0, task);
        Ok(id)
    }

    /// Allocates an id at the current game tick and stores the task that `f`
    /// makes for it.
    pub fn add_task(&mut self, f: impl FnOnce(TaskId) -> Task) -> (result: Result<TaskId, TaskError>)
        requires
            old(self)@.ids.next < usize::MAX,
            forall|id: TaskId| f.requires((id,)),
        ensures
            exists|now: u32| {
                let (ids, key) = #[trigger] alloc_spec(old(self)@.ids, now);
                &&& result == Ok::<TaskId, TaskError>(TaskId(key))
                &&& final(self)@.ids == ids
                &&& exists|task: Task| #[trigger] f.ensures((TaskId(key),), task)
                    && final(self)@.tasks == old(self)@.tasks.insert(key, task)
            },
    {
        let now = game_time();
        proof {
            crate::common::id_manager::lemma_alloc_fits_below_max(self@.ids, now);
        }
        self.add_task_at(now, f)
    }

    /// Takes the task with this id out of the store. Its id is not freed.
    pub fn remove_task(&mut self, id: TaskId) -> (result: Result<Task, TaskError>)
        ensures
            final(self)@.ids == old(self)@.ids,
            match result {
                Ok(task) => {
                    &&& old(self)@.tasks.contains_key(id.0)
                    &&& task == old(self)@.tasks[id.0]
                    &&& final(self)@.tasks == old(self)@.tasks.remove(id.0)
                },
                Err(e) => {
                    &&& e == TaskError::InvalidTaskId
                    &&& !old(self)@.tasks.contains_key(id.0)
                    &&& final(self)@.tasks == old(self)@.tasks
                },
            },
    {
        match self.values.remove(&id.0) {
            Some(task) => Ok(task),
            None => Err(TaskError::InvalidTaskId),
        }
    }

    /// The task with this id, as a `T`.
    pub fn get<T: EnumDowncast<Task>>(&self, id: TaskId) -> (result: Result<&T, TaskError>)
        ensures
            match result {
                Ok(item) => {
                    &&& self@.tasks.contains_key(id.0)
                    &&& T::downcast_spec(self@.tasks[id.0]) == Some(*item)
                },
                Err(e) => {
                    &&& e == TaskError::InvalidTaskId ==> !self@.tasks.contains_key(id.0)
                    &&& e == TaskError::TaskTypeMismatch ==> self@.tasks.contains_key(id.0)
                        && T::downcast_spec(self@.tasks[id.0]) is None
                },
            },
    {
        match self.values.get(&id.0) {
            None => Err(TaskError::InvalidTaskId),
            Some(task) => match task.downcast_ref::<T>() {
                Some(item) => Ok(item),
                None => Err(TaskError::TaskTypeMismatch),
            },
        }
    }

    /// The task with this id, as a mutable `T`: what is written through it
    /// ends up in the store.
    pub fn get_mut<T: EnumDowncast<Task>>(&mut self, id: TaskId) -> (result: Result<&mut T, TaskError>)
        ensures
            final(self)@.ids == old(self)@.ids,
            match result {
                Ok(item) => {
                    &&& old(self)@.tasks.contains_key(id.0)
                    &&& T::downcast_spec(old(self)@.tasks[id.0]) == Some(*item)
                    &&& final(self)@.tasks == old(self)@.tasks.insert(id.0, T::upcast_spec(*final(item)))
                },
                Err(e) => {
                    &&& final(self)@.tasks == old(self)@.tasks
                    &&& e == TaskError::InvalidTaskId ==> !old(self)@.tasks.contains_key(id.0)
                    &&& e == TaskError::TaskTypeMismatch ==> old(self)@.tasks.contains_key(id.0)
                        && T::downcast_spec(old(self)@.tasks[id.0]) is None
                },
            },
    {
        match map_get_mut(&mut self.values, &id.0) {
            None => Err(TaskError::InvalidTaskId),
            Some(task) => match task.downcast_mut::<T>() {
                Some(item) => Ok(item),
                None => Err(TaskError::TaskTypeMismatch),
            },
        }
    }

    /// The ids of the tasks of kind `T`, each once, in the store's own order.
    pub fn ids_of_kind<T: EnumDowncast<Task>>(&self) -> (ids: Vec<TaskId>)
        ensures
            ids@.map_values(|id: TaskId| id.0).no_duplicates(),
            forall|i: int| 0 <= i < ids@.len() ==> self@.tasks.contains_key((#[trigger] ids@[i]).0)
                && T::downcast_spec(self@.tasks[ids@[i].0]) is Some,
            forall|k: usize| #[trigger] self@.tasks.contains_key(k) && T::downcast_spec(self@.tasks[k]) is Some
                ==> exists|i: int| 0 <= i < ids@.len() && ids@[i].0 == k,
    {
        let keys = map_keys(&self.values);
        let mut ids: Vec<TaskId> = Vec::new();
        let mut i: usize = 0;
        while i < keys.len()
            invariant
                i <= keys@.len(),
                forall|j: int| 0 <= j < keys@.len() ==> self.values@.contains_key(*#[trigger] keys@[j]),
                forall|k: usize| #[trigger] self.values@.contains_key(k) ==> exists|j: int| 0 <= j < keys@.len() && *keys@[j] == k,
                forall|j: int, k: int| 0 <= j < keys@.len() && 0 <= k < keys@.len() && j != k ==> *#[trigger] keys@[j] != *#[trigger] keys@[k],
                forall|a: int| 0 <= a < ids@.len() ==> exists|j: int| 0 <= j < i && *keys@[j] == (#[trigger] ids@[a]).0,
                forall|a: int, b: int| 0 <= a < b < ids@.len() ==> (#[trigger] ids@[a]).0 != (#[trigger] ids@[b]).0,
                forall|a: int| 0 <= a < ids@.len() ==> self.values@.contains_key((#[trigger] ids@[a]).0)
                    && T::downcast_spec(self.values@[ids@[a].0]) is Some,
                forall|j: int| 0 <= j < i && T::downcast_spec(self.values@[*keys@[j]]) is Some
                    ==> exists|a: int| 0 <= a < ids@.len() && (#[trigger] ids@[a]).0 == *keys@[j],
            decreases keys@.len() - i,
        {
            let key: usize = *keys[i];
            match self.values.get(&key) {
                Some(task) => {
                    if task.downcast_ref::<T>().is_some() {
                        let ghost before = ids@;
                        ids.push(TaskId(key));
                        assert forall|a: int, b: int| 0 <= a < b < ids@.len() implies (#[trigger] ids@[a]).0 != (#[trigger] ids@[b]).0 by {
                            if b == ids@.len() - 1 {
                                let j = choose|j: int| 0 <= j < i && *keys@[j] == ids@[a].0;
                                assert(j != i);
                            }
                        }
                        assert forall|a: int| 0 <= a < ids@.len() implies exists|j: int| 0 <= j < i + 1 && *keys@[j] == (#[trigger] ids@[a]).0 by {
                            if a < before.len() {
                                assert(ids@[a] == before[a]);
                            } else {
                                assert(*keys@[i as int] == ids@[a].0);
                            }
                        }
                        assert forall|j: int| 0 <= j < i + 1 && T::downcast_spec(self.values@[*keys@[j]]) is Some
                            implies exists|a: int| 0 <= a < ids@.len() && (#[trigger] ids@[a]).0 == *keys@[j] by {
                            if j < i {
                                let a = choose|a: int| 0 <= a < before.len() && before[a].0 == *keys@[j];
                                assert(ids@[a] == before[a]);
                            } else {
                                assert(ids@[ids@.len() - 1].0 == *keys@[j]);
                            }
                        }
                    }
                },
                None => {
                    assert(false);
                },
            }
            i = i + 1;
        }
        assert(ids@.map_values(|id: TaskId| id.0).no_duplicates()) by {
            let s = ids@.map_values(|id: TaskId| id.0);
            assert forall|a: int, b: int| 0 <= a < s.len() && 0 <= b < s.len() && a != b implies s[a] != s[b] by {
                if a < b {
                    assert(ids@[a].0 != ids@[b].0);
                } else {
                    assert(ids@[b].0 != ids@[a].0);
                }
            }
        }
        assert forall|k: usize| #[trigger] self@.tasks.contains_key(k) && T::downcast_spec(self@.tasks[k]) is Some
            implies exists|a: int| 0 <= a < ids@.len() && ids@[a].0 == k by {
            let j = choose|j: int| 0 <= j < keys@.len() && *keys@[j] == k;
        }
        ids
    }

    /// The tasks of kind `T`, each once, in the store's own order (which is
    /// not known).
    pub fn iter<T: EnumDowncast<Task>>(&self) -> (items: Vec<&T>)
        ensures
            exists|ids: Seq<usize>| {
                &&& ids.len() == items@.len()
                &&& ids.no_duplicates()
                &&& forall|i: int| 0 <= i < ids.len() ==> self@.tasks.contains_key(#[trigger] ids[i])
                    && T::downcast_spec(self@.tasks[ids[i]]) == Some(*items@[i])
                &&& forall|k: usize| #[trigger] self@.tasks.contains_key(k) && T::downcast_spec(self@.tasks[k]) is Some
                    ==> ids.contains(k)
            },
    {
        let ids = self.ids_of_kind::<T>();
        let mut items: Vec<&T> = Vec::new();
        let mut i: usize = 0;
        while i < ids.len()
            invariant
                i <= ids@.len(),
                items@.len() == i,
                forall|a: int| 0 <= a < ids@.len() ==> self@.tasks.contains_key((#[trigger] ids@[a]).0)
                    && T::downcast_spec(self@.tasks[ids@[a].0]) is Some,
                forall|a: int| 0 <= a < i ==> T::downcast_spec(self@.tasks[(#[trigger] ids@[a]).0]) == Some(*items@[a]),
            decreases ids@.len() - i,
        {
            match self.get::<T>(ids[i]) {
                Ok(item) => {
                    items.push(item);
                },
                Err(_) => {
                    assert(false);
                },
            }
            i = i + 1;
        }
        let ghost keys = ids@.map_values(|id: TaskId| id.0);
        assert forall|k: usize| #[trigger] self@.tasks.contains_key(k) && T::downcast_spec(self@.tasks[k]) is Some
            implies keys.contains(k) by {
            let a = choose|a: int| 0 <= a < ids@.len() && ids@[a].0 == k;
            assert(keys[a] == k);
        }
        assert(forall|a: int| 0 <= a < keys.len() ==> self@.tasks.contains_key(#[trigger] keys[a])
            && T::downcast_spec(self@.tasks[keys[a]]) == Some(*items@[a]));
        items
    }
}

/// A consistent task store: its id manager is consistent, and every stored
/// task sits under an id that the manager has handed out and not freed.
pub open spec fn tasks_consistent(v: TasksView) -> bool {
    &&& well_formed(v.ids)
    &&& forall|k: usize| #[trigger] v.tasks.contains_key(k) ==> live_keys(v.ids).contains(k)
}

/// Adding a task to a consistent store never overwrites a stored task: the id
/// it gets is not in use, and the store stays consistent.
pub proof fn lemma_add_task_never_overwrites(v: TasksView, now: u32, task: Task)
    requires
        tasks_consistent(v),
        alloc_fits(v.ids, now),
    ensures
        ({
            let (ids, key) = alloc_spec(v.ids, now);
            &&& !v.tasks.contains_key(key)
            &&& tasks_consistent(TasksView { ids, tasks: v.tasks.insert(key, task) })
        }),
{
    lemma_alloc_hands_out_fresh_key(v.ids, now);
}

/// Removing a task keeps the store consistent.
pub proof fn lemma_remove_task_keeps_consistency(v: TasksView, key: usize)
    requires
        tasks_consistent(v),
    ensures
        tasks_consistent(TasksView { ids: v.ids, tasks: v.tasks.remove(key) }),
{
}

/// What `store_memory` writes, `from_memory` reads back as the same tasks.
pub proof fn lemma_store_then_load(entries: Seq<(String, Task)>, tasks: Map<usize, Task>)
    requires
        stored_form(entries, tasks),
    ensures
        task_keys_valid(entries),
        entries_to_tasks(entries) == tasks,
{
}

/// Task memory in stored form has no key twice.
pub proof fn lemma_stored_keys_distinct(entries: Seq<(String, Task)>, tasks: Map<usize, Task>)
    requires
        stored_form(entries, tasks),
    ensures
        keys_distinct(entries),
{
    assert forall|i: int, j: int| 0 <= i < j < entries.len() implies (#[trigger] entries[i]).0@ != (#[trigger] entries[j]).0@ by {
        assert(key_id('T', entries[i].0@) != key_id('T', entries[j].0@));
    }
}

/// The key of a task id reads back as the same id: `T0007` for 7, `T12345`
/// for 12345.
pub proof fn lemma_task_key_roundtrip(id: TaskId)
    ensures
        key_id('T', key_text('T', 4, id.0 as nat)) == Some(id.0),
{
    lemma_id_key_roundtrip('T', 4, id.0);
}

/// Adding a task to a consistent store adds exactly one task: the id it gets
/// was not in use, so the store grows by one.
pub proof fn lemma_add_task_grows_store(v: TasksView, now: u32, task: Task)
    requires
        tasks_consistent(v),
        v.tasks.dom().finite(),
        alloc_fits(v.ids, now),
    ensures
        ({
            let (ids, key) = alloc_spec(v.ids, now);
            &&& !v.tasks.contains_key(key)
            &&& v.tasks.insert(key, task).dom().len() == v.tasks.dom().len() + 1
        }),
{
    let (ids, key) = alloc_spec(v.ids, now);
    lemma_add_task_never_overwrites(v, now, task);
    assert(v.tasks.insert(key, task).dom() =~= v.tasks.dom().insert(key));
}

/// A task written under an id is what a read of that id finds, as its own
/// kind; once removed, the id is not found.
pub proof fn lemma_read_after_write(tasks: Map<usize, Task>, key: usize, task: CreepSpawnTask)
    ensures
        tasks.insert(key, Task::CreepSpawn(task)).contains_key(key),
        CreepSpawnTask::downcast_spec(tasks.insert(key, Task::CreepSpawn(task))[key]) == Some(task),
        !tasks.insert(key, Task::CreepSpawn(task)).remove(key).contains_key(key),
{
}

/// Whether every key of task memory denotes a task id.
pub fn task_keys_ok(entries: &Vec<(String, Task)>) -> (ok: bool)
    ensures
        ok == task_keys_valid(entries@),
{
    let mut i: usize = 0;
    while i < entries.len()
        invariant
            i <= entries@.len(),
            forall|a: int| 0 <= a < i ==> (#[trigger] key_id('T', entries@[a].0@)) is Some,
        decreases entries@.len() - i,
    {
        if TaskId::parse_key(entries[i].0.as_str()).is_none() {
            return false;
        }
        i = i + 1;
    }
    true
}

} // verus!

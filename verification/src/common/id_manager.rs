//! Allocation of small integer ids that are recycled only after a cooldown.
//!
//! A freed id first waits in a queue of pending keys. Once it has waited
//! [`FREE_COOLDOWN_TIME`] ticks it becomes free again, and the counter of
//! fresh ids shrinks back over free keys at its top. Allocation hands out the
//! smallest free key, or else a fresh id.
use std::collections::{BTreeSet, VecDeque};
use std::marker::PhantomData;
use crate::game::game_time;
use vstd::prelude::*;

verus! {

/// How many ticks a freed id waits before it can be handed out again.
pub const FREE_COOLDOWN_TIME: u32 = 300;

/// A type of id that is a plain `usize` key underneath.
pub trait IdKey: Sized + Copy {
    /// The key of this id.
    spec fn key_of(self) -> usize;

    /// The id with the given key.
    fn from_key(key: usize) -> (id: Self)
        ensures
            id.key_of() == key,
    ;

    /// The key of this id.
    fn key(&self) -> (key: usize)
        ensures
            key == self.key_of(),
    ;
}

/// A freed key, and the tick at which it was freed.
#[derive(Clone, Copy, Debug, PartialEq, Eq, Structural)]
pub struct PendingKey {
    pub key: usize,
    pub free_time: u32,
}

/// Hands out ids of type `T`, reusing freed ones after a cooldown.
pub struct IdManager<T> {
    /// Keys that can be handed out again.
    pub free_keys: BTreeSet<usize>,
    /// Freed keys waiting for their cooldown, oldest first.
    pub pending_keys: VecDeque<PendingKey>,
    /// The next fresh key; every key handed out so far is below it.
    pub next_id: usize,
    pub phantom: PhantomData<T>,
}

/// The abstract state of an [`IdManager`].
pub struct IdState {
    pub free: Set<usize>,
    pub pending: Seq<PendingKey>,
    pub next: usize,
}

impl<T> View for IdManager<T> {
    type V = IdState;

    open spec fn view(&self) -> IdState {
        IdState { free: self.free_keys@, pending: self.pending_keys@, next: self.next_id }
    }
}

/// Whether the cooldown of a pending key is over at tick `now`.
pub open spec fn cooled_down(p: PendingKey, now: u32) -> bool {
    p.free_time + FREE_COOLDOWN_TIME <= now
}

/// Lowers the counter of fresh ids while the key just below it is free,
/// dropping those keys from the free set.
pub open spec fn compact(free: Set<usize>, next: usize) -> (Set<usize>, usize)
    decreases next,
{
    if next > 0 && free.contains((next - 1) as usize) {
        compact(free.remove((next - 1) as usize), (next - 1) as usize)
    } else {
        (free, next)
    }
}

/// Moves pending keys whose cooldown is over, from the front of the queue,
/// into the free set (compacting after each), and stops at the first key
/// still cooling down.
pub open spec fn release_expired(s: IdState, now: u32) -> IdState
    decreases s.pending.len(),
{
    if s.pending.len() > 0 && cooled_down(s.pending[0], now) {
        let (free, next) = compact(s.free.insert(s.pending[0].key), s.next);
        release_expired(IdState { free, pending: s.pending.drop_first(), next }, now)
    } else {
        s
    }
}

/// The smallest key of a set.
pub open spec fn min_key(free: Set<usize>) -> usize {
    choose|k: usize| free.contains(k) && forall|j: usize| free.contains(j) ==> k <= j
}

/// Whether a set holds any key.
pub open spec fn has_key(free: Set<usize>) -> bool {
    exists|k: usize| free.contains(k)
}

/// The state after an allocation at tick `now`, and the key handed out.
pub open spec fn alloc_spec(s: IdState, now: u32) -> (IdState, usize) {
    let r = release_expired(s, now);
    if has_key(r.free) {
        let k = min_key(r.free);
        (IdState { free: r.free.remove(k), ..r }, k)
    } else {
        (IdState { next: (r.next + 1) as usize, ..r }, r.next)
    }
}

/// Whether an allocation at tick `now` stays within `usize`: either a free key
/// is handed out, or the counter of fresh ids can grow.
pub open spec fn alloc_fits(s: IdState, now: u32) -> bool {
    let r = release_expired(s, now);
    has_key(r.free) || r.next < usize::MAX
}

/// The state after freeing `key` at tick `now`.
pub open spec fn free_spec(s: IdState, key: usize, now: u32) -> IdState {
    IdState { pending: s.pending.push(PendingKey { key, free_time: now }), ..s }
}

/// Keys currently handed out: below the counter, neither free nor pending.
pub open spec fn live_keys(s: IdState) -> Set<usize> {
    Set::new(
        |k: usize|
            k < s.next && !s.free.contains(k) && !(exists|i: int|
                0 <= i < s.pending.len() && #[trigger] s.pending[i].key == k),
    )
}

/// Whether a key waits in the pending queue.
pub open spec fn is_pending(s: IdState, k: usize) -> bool {
    exists|i: int| 0 <= i < s.pending.len() && #[trigger] s.pending[i].key == k
}

/// The state of a manager that has handed out nothing yet.
pub open spec fn fresh_ids() -> IdState {
    IdState { free: Set::empty(), pending: Seq::empty(), next: 0 }
}

/// A consistent state: every free or pending key is below the counter, and
/// no key is both free and pending, or pending twice.
pub open spec fn well_formed(s: IdState) -> bool {
    &&& forall|k: usize| #[trigger] s.free.contains(k) ==> k < s.next
    &&& forall|i: int| 0 <= i < s.pending.len() ==> #[trigger] s.pending[i].key < s.next
    &&& forall|i: int| 0 <= i < s.pending.len() ==> !s.free.contains(#[trigger] s.pending[i].key)
    &&& forall|i: int, j: int|
        0 <= i < j < s.pending.len() ==> #[trigger] s.pending[i].key != #[trigger] s.pending[j].key
}

proof fn lemma_min_exists(set: Set<usize>, k: usize)
    requires
        set.contains(k),
    ensures
        set.contains(min_key(set)),
        forall|j: usize| set.contains(j) ==> min_key(set) <= j,
    decreases k,
{
    if exists|j: usize| set.contains(j) && j < k {
        let j = choose|j: usize| set.contains(j) && j < k;
        lemma_min_exists(set, j);
    } else {
        assert(set.contains(k) && forall|j: usize| set.contains(j) ==> k <= j);
    }
}

proof fn lemma_compact(s: IdState)
    requires
        well_formed(s),
    ensures
        ({
            let (free, next) = compact(s.free, s.next);
            let t = IdState { free, pending: s.pending, next };
            &&& well_formed(t)
            &&& live_keys(t) == live_keys(s)
            &&& forall|k: usize| t.free.contains(k) ==> s.free.contains(k)
        }),
    decreases s.next,
{
    if s.next > 0 && s.free.contains((s.next - 1) as usize) {
        let top = (s.next - 1) as usize;
        let u = IdState { free: s.free.remove(top), pending: s.pending, next: top };
        assert forall|k: usize| #[trigger] u.free.contains(k) implies k < u.next by {
            assert(s.free.contains(k) && k != top);
        }
        assert forall|i: int| 0 <= i < u.pending.len() implies #[trigger] u.pending[i].key < u.next by {
            assert(!s.free.contains(s.pending[i].key));
        }
        assert(live_keys(u) =~= live_keys(s)) by {
            assert forall|k: usize| live_keys(s).contains(k) implies live_keys(u).contains(k) by {
                assert(k != top);
            }
        }
        lemma_compact(u);
    }
}

proof fn lemma_release_step(s: IdState)
    requires
        well_formed(s),
        s.pending.len() > 0,
    ensures
        ({
            let t = IdState {
                free: s.free.insert(s.pending[0].key),
                pending: s.pending.drop_first(),
                next: s.next,
            };
            &&& well_formed(t)
            &&& live_keys(t) == live_keys(s)
        }),
{
    let key = s.pending[0].key;
    let t = IdState { free: s.free.insert(key), pending: s.pending.drop_first(), next: s.next };
    assert forall|k: usize| #[trigger] t.free.contains(k) implies k < t.next by {
        if k != key {
            assert(s.free.contains(k));
        }
    }
    assert forall|i: int| 0 <= i < t.pending.len() implies #[trigger] t.pending[i].key < t.next by {
        assert(t.pending[i] == s.pending[i + 1]);
    }
    assert forall|i: int| 0 <= i < t.pending.len() implies !t.free.contains(
        #[trigger] t.pending[i].key,
    ) by {
        assert(t.pending[i] == s.pending[i + 1]);
        assert(s.pending[0].key != s.pending[i + 1].key);
    }
    assert forall|i: int, j: int| 0 <= i < j < t.pending.len() implies #[trigger] t.pending[i].key
        != #[trigger] t.pending[j].key by {
        assert(t.pending[i] == s.pending[i + 1]);
        assert(t.pending[j] == s.pending[j + 1]);
    }
    assert(live_keys(t) =~= live_keys(s)) by {
        assert forall|k: usize| live_keys(s).contains(k) implies live_keys(t).contains(k) by {
            assert(k != key);
            if is_pending(t, k) {
                let i = choose|i: int| 0 <= i < t.pending.len() && #[trigger] t.pending[i].key == k;
                assert(s.pending[i + 1].key == k);
            }
        }
        assert forall|k: usize| live_keys(t).contains(k) implies live_keys(s).contains(k) by {
            if is_pending(s, k) {
                let i = choose|i: int| 0 <= i < s.pending.len() && #[trigger] s.pending[i].key == k;
                if i > 0 {
                    assert(t.pending[i - 1].key == k);
                }
            }
        }
    }
}

proof fn lemma_release(s: IdState, now: u32)
    requires
        well_formed(s),
    ensures
        ({
            let r = release_expired(s, now);
            &&& well_formed(r)
            &&& live_keys(r) == live_keys(s)
            &&& r.pending.len() <= s.pending.len()
            &&& r.pending == s.pending.subrange(s.pending.len() - r.pending.len(), s.pending.len() as int)
            &&& forall|i: int| 0 <= i < s.pending.len() - r.pending.len() ==> cooled_down(#[trigger] s.pending[i], now)
        }),
    decreases s.pending.len(),
{
    if s.pending.len() > 0 && cooled_down(s.pending[0], now) {
        lemma_release_step(s);
        let t = IdState {
            free: s.free.insert(s.pending[0].key),
            pending: s.pending.drop_first(),
            next: s.next,
        };
        lemma_compact(t);
        let (free, next) = compact(t.free, t.next);
        let u = IdState { free, pending: t.pending, next };
        lemma_release(u, now);
        let r = release_expired(u, now);
        assert(r == release_expired(s, now));
        assert(r.pending =~= s.pending.subrange(s.pending.len() - r.pending.len(), s.pending.len() as int));
        assert forall|i: int| 0 <= i < s.pending.len() - r.pending.len() implies cooled_down(
            #[trigger] s.pending[i],
            now,
        ) by {
            if i > 0 {
                assert(s.pending[i] == u.pending[i - 1]);
            }
        }
    } else {
        assert(s.pending =~= s.pending.subrange(0, s.pending.len() as int));
    }
}

proof fn lemma_compact_next_le(free: Set<usize>, next: usize)
    ensures
        compact(free, next).1 <= next,
    decreases next,
{
    if next > 0 && free.contains((next - 1) as usize) {
        lemma_compact_next_le(free.remove((next - 1) as usize), (next - 1) as usize);
    }
}

/// Releasing pending keys never raises the counter of fresh ids, so an
/// allocation always fits while the counter is below `usize::MAX`.
pub proof fn lemma_alloc_fits_below_max(s: IdState, now: u32)
    requires
        s.next < usize::MAX,
    ensures
        release_expired(s, now).next <= s.next,
        alloc_fits(s, now),
    decreases s.pending.len(),
{
    if s.pending.len() > 0 && cooled_down(s.pending[0], now) {
        let (free, next) = compact(s.free.insert(s.pending[0].key), s.next);
        lemma_compact_next_le(s.free.insert(s.pending[0].key), s.next);
        lemma_alloc_fits_below_max(IdState { free, pending: s.pending.drop_first(), next }, now);
    }
}

/// Allocation hands out a key that was not in use, marks exactly that key as
/// in use, keeps the manager consistent, and never hands out a key whose
/// cooldown is still running: such keys stay in the pending queue.
pub proof fn lemma_alloc_hands_out_fresh_key(s: IdState, now: u32)
    requires
        well_formed(s),
        alloc_fits(s, now),
    ensures
        ({
            let (t, k) = alloc_spec(s, now);
            &&& well_formed(t)
            &&& !live_keys(s).contains(k)
            &&& live_keys(t) == live_keys(s).insert(k)
            &&& forall|i: int|
                0 <= i < s.pending.len() && !cooled_down(#[trigger] s.pending[i], now) ==> t.pending.contains(
                    s.pending[i],
                ) && k != s.pending[i].key
        }),
{
    lemma_release(s, now);
    let r = release_expired(s, now);
    let (t, k) = alloc_spec(s, now);
    let d = s.pending.len() - r.pending.len();
    assert forall|i: int|
        0 <= i < s.pending.len() && !cooled_down(#[trigger] s.pending[i], now) implies t.pending.contains(
        s.pending[i],
    ) && k != s.pending[i].key by {
        assert(i >= d);
        assert(t.pending == r.pending);
        assert(r.pending[i - d] == s.pending[i]);
        assert(t.pending[i - d] == s.pending[i]);
        assert(!r.free.contains(r.pending[i - d].key));
        assert(r.pending[i - d].key < r.next);
        if has_key(r.free) {
            lemma_min_exists(r.free, choose|k0: usize| r.free.contains(k0));
        }
    }
    if has_key(r.free) {
        let m = min_key(r.free);
        lemma_min_exists(r.free, choose|k0: usize| r.free.contains(k0));
        assert(r.free.contains(m));
        assert forall|k2: usize| #[trigger] t.free.contains(k2) implies k2 < t.next by {
            assert(r.free.contains(k2));
        }
        assert(live_keys(t) =~= live_keys(r).insert(k)) by {
            assert(!is_pending(r, m));
        }
    } else {
        assert forall|k2: usize| #[trigger] t.free.contains(k2) implies k2 < t.next by {
            assert(r.free.contains(k2));
        }
        assert(live_keys(t) =~= live_keys(r).insert(k)) by {
            assert(!is_pending(r, r.next)) by {
                if is_pending(r, r.next) {
                    let i = choose|i: int| 0 <= i < r.pending.len() && #[trigger] r.pending[i].key == r.next;
                }
            }
        }
    }
}

/// Freeing a key in use takes exactly that key out of use and keeps the
/// manager consistent.
pub proof fn lemma_free_releases_key(s: IdState, key: usize, now: u32)
    requires
        well_formed(s),
        live_keys(s).contains(key),
    ensures
        well_formed(free_spec(s, key, now)),
        live_keys(free_spec(s, key, now)) == live_keys(s).remove(key),
{
    let t = free_spec(s, key, now);
    assert(!is_pending(s, key));
    assert forall|i: int| 0 <= i < t.pending.len() implies #[trigger] t.pending[i].key < t.next by {
        if i < s.pending.len() {
            assert(t.pending[i] == s.pending[i]);
        }
    }
    assert forall|i: int| 0 <= i < t.pending.len() implies !t.free.contains(#[trigger] t.pending[i].key) by {
        if i < s.pending.len() {
            assert(t.pending[i] == s.pending[i]);
        }
    }
    assert forall|i: int, j: int| 0 <= i < j < t.pending.len() implies #[trigger] t.pending[i].key
        != #[trigger] t.pending[j].key by {
        assert(t.pending[i] == s.pending[i]);
        if j < s.pending.len() {
            assert(t.pending[j] == s.pending[j]);
        }
    }
    assert(live_keys(t) =~= live_keys(s).remove(key)) by {
        assert(t.pending[s.pending.len() as int].key == key);
        assert forall|k: usize| live_keys(s).contains(k) && k != key implies live_keys(t).contains(k) by {
            if is_pending(t, k) {
                let i = choose|i: int| 0 <= i < t.pending.len() && #[trigger] t.pending[i].key == k;
                assert(s.pending[i].key == k);
            }
        }
        assert forall|k: usize| live_keys(t).contains(k) implies live_keys(s).contains(k) by {
            if is_pending(s, k) {
                let i = choose|i: int| 0 <= i < s.pending.len() && #[trigger] s.pending[i].key == k;
                assert(t.pending[i].key == k);
            }
        }
    }
}

/// `BTreeSet::pop_first` of std: removes and returns the smallest element,
/// or `None` when the set is empty.
#[verifier::external_body]
fn pop_first_key(set: &mut BTreeSet<usize>) -> (first: Option<usize>)
    ensures
        match first {
            Some(k) => {
                &&& old(set)@.contains(k)
                &&& forall|j: usize| old(set)@.contains(j) ==> k <= j
                &&& final(set)@ == old(set)@.remove(k)
            },
            None => {
                &&& old(set)@ == Set::<usize>::empty()
                &&& final(set)@ == old(set)@
            },
        },
{
    set.pop_first()
}

impl<T> IdManager<T> {
    /// A manager that has handed out nothing yet.
    pub fn new() -> (m: Self)
        ensures
            m@ == fresh_ids(),
            well_formed(m@),
    {
        IdManager {
            free_keys: BTreeSet::new(),
            pending_keys: VecDeque::new(),
            next_id: 0,
            phantom: PhantomData,
        }
    }

    /// A copy of this manager with the same state.
    pub fn duplicate(&self) -> (m: Self)
        ensures
            m@ == self@,
    {
        let mut pending = VecDeque::new();
        let mut i: usize = 0;
        let n = self.pending_keys.len();
        while i < n
            invariant
                n == self.pending_keys@.len(),
                i <= n,
                pending@ == self.pending_keys@.take(i as int),
            decreases n - i,
        {
            let p = self.pending_keys[i];
            pending.push_back(PendingKey { key: p.key, free_time: p.free_time });
            i = i + 1;
            assert(pending@ =~= self.pending_keys@.take(i as int));
        }
        assert(pending@ =~= self.pending_keys@);
        IdManager {
            free_keys: self.free_keys.clone(),
            pending_keys: pending,
            next_id: self.next_id,
            phantom: PhantomData,
        }
    }

    /// Frees `id` at tick `now`: its key waits in the pending queue until its
    /// cooldown is over.
    pub fn free_key_at(&mut self, key: usize, now: u32)
        ensures
            final(self)@ == free_spec(old(self)@, key, now),
    {
        self.pending_keys.push_back(PendingKey { key, free_time: now });
    }

    /// Allocates a key at tick `now`: releases the pending keys whose cooldown
    /// is over, then hands out the smallest free key, or else a fresh one.
    pub fn alloc_key_at(&mut self, now: u32) -> (key: usize)
        requires
            alloc_fits(old(self)@, now),
        ensures
            (final(self)@, key) == alloc_spec(old(self)@, now),
    {
        let ghost start = self@;
        while self.pending_keys.len() > 0
            invariant_except_break
                release_expired(self@, now) == release_expired(start, now),
            ensures
                release_expired(self@, now) == release_expired(start, now),
                release_expired(self@, now) == self@,
            decreases self.pending_keys@.len(),
        {
            let pending = self.pending_keys[0];
            if pending.free_time as u64 + FREE_COOLDOWN_TIME as u64 > now as u64 {
                break;
            }
            let ghost before = self@;
            let popped = self.pending_keys.pop_front();
            let _ = self.free_keys.insert(pending.key);
            let ghost inserted = self.free_keys@;
            assert(self.pending_keys@ =~= before.pending.drop_first());
            loop
                invariant_except_break
                    compact(self.free_keys@, self.next_id) == compact(inserted, before.next),
                    self.pending_keys@ == before.pending.drop_first(),
                invariant
                    self.pending_keys@ == before.pending.drop_first(),
                ensures
                    (self.free_keys@, self.next_id) == compact(inserted, before.next),
                decreases self.next_id,
            {
                if self.next_id == 0 {
                    break;
                }
                let removed = self.free_keys.remove(&(self.next_id - 1));
                if !removed {
                    break;
                }
                self.next_id = self.next_id - 1;
            }
        }
        let ghost released = self@;
        match pop_first_key(&mut self.free_keys) {
            Some(key) => {
                assert(has_key(released.free));
                assert(min_key(released.free) == key) by {
                    let m = min_key(released.free);
                    assert(released.free.contains(m) && forall|j: usize|
                        released.free.contains(j) ==> m <= j);
                }
                key
            },
            None => {
                assert(!has_key(released.free));
                let id = self.next_id;
                self.next_id = self.next_id + 1;
                id
            },
        }
    }
}

impl<T: IdKey> IdManager<T> {
    /// Allocates an id at tick `now` (see `alloc_key_at`).
    pub fn alloc_id_at(&mut self, now: u32) -> (id: T)
        requires
            alloc_fits(old(self)@, now),
        ensures
            (final(self)@, id.key_of()) == alloc_spec(old(self)@, now),
    {
        let key = self.alloc_key_at(now);
        T::from_key(key)
    }

    /// Frees `id` at tick `now` (see `free_key_at`).
    pub fn free_id_at(&mut self, id: T, now: u32)
        ensures
            final(self)@ == free_spec(old(self)@, id.key_of(), now),
    {
        let key = id.key();
        self.free_key_at(key, now)
    }

    /// Allocates an id at the current game tick.
    pub fn alloc_id(&mut self) -> (id: T)
        requires
            forall|now: u32| alloc_fits(old(self)@, now),
        ensures
            exists|now: u32| (final(self)@, id.key_of()) == alloc_spec(old(self)@, now),
    {
        let now = game_time();
        self.alloc_id_at(now)
    }

    /// Frees `id` at the current game tick.
    pub fn free_id(&mut self, id: T)
        ensures
            exists|now: u32| final(self)@ == free_spec(old(self)@, id.key_of(), now),
    {
        let now = game_time();
        self.free_id_at(id, now)
    }
}

impl<T> Default for IdManager<T> {
    fn default() -> (m: Self)
        ensures
            m@ == fresh_ids(),
    {
        Self::new()
    }
}

/// One call on an id manager: an allocation or a free, at a game tick.
pub enum IdOp {
    Alloc { now: u32 },
    Free { key: usize, now: u32 },
}

/// The game tick of a call.
pub open spec fn op_time(op: IdOp) -> u32 {
    match op {
        IdOp::Alloc { now } => now,
        IdOp::Free { now, .. } => now,
    }
}

/// The state after one call.
pub open spec fn apply_op(s: IdState, op: IdOp) -> IdState {
    match op {
        IdOp::Alloc { now } => alloc_spec(s, now).0,
        IdOp::Free { key, now } => free_spec(s, key, now),
    }
}

/// The state after a sequence of calls.
pub open spec fn run_ops(s: IdState, ops: Seq<IdOp>) -> IdState
    decreases ops.len(),
{
    if ops.len() == 0 {
        s
    } else {
        apply_op(run_ops(s, ops.drop_last()), ops.last())
    }
}

/// Whether every call in `ops` is one the manager accepts where it comes:
/// each allocation fits, and each free is of a key in use.
pub open spec fn ops_valid(s: IdState, ops: Seq<IdOp>) -> bool {
    forall|i: int|
        0 <= i < ops.len() ==> match #[trigger] ops[i] {
            IdOp::Alloc { now } => alloc_fits(run_ops(s, ops.take(i)), now),
            IdOp::Free { key, .. } => live_keys(run_ops(s, ops.take(i))).contains(key),
        }
}

/// Whether the calls come at non-decreasing game ticks.
pub open spec fn ops_in_time_order(ops: Seq<IdOp>) -> bool {
    forall|i: int, j: int| 0 <= i <= j < ops.len() ==> op_time(#[trigger] ops[i]) <= op_time(#[trigger] ops[j])
}

proof fn lemma_alloc_keeps_cooling_key(prev: IdState, now: u32, p: PendingKey)
    requires
        well_formed(prev),
        alloc_fits(prev, now),
        prev.pending.contains(p),
        now < p.free_time + FREE_COOLDOWN_TIME,
    ensures
        alloc_spec(prev, now).0.pending.contains(p),
        alloc_spec(prev, now).1 != p.key,
{
    lemma_alloc_hands_out_fresh_key(prev, now);
    let i = choose|i: int| 0 <= i < prev.pending.len() && prev.pending[i] == p;
    assert(!cooled_down(prev.pending[i], now));
}

proof fn lemma_free_keeps_pending(prev: IdState, key: usize, now: u32, p: PendingKey)
    requires
        prev.pending.contains(p) || p == (PendingKey { key, free_time: now }),
    ensures
        free_spec(prev, key, now).pending.contains(p),
{
    let cur = free_spec(prev, key, now);
    if prev.pending.contains(p) {
        let i = choose|i: int| 0 <= i < prev.pending.len() && prev.pending[i] == p;
        assert(cur.pending[i] == p);
    } else {
        assert(cur.pending[prev.pending.len() as int] == p);
    }
}

/// The key and tick of a free call.
pub open spec fn freed(op: IdOp) -> PendingKey {
    PendingKey { key: op->Free_key, free_time: op->Free_now }
}

#[verifier::spinoff_prover]
proof fn lemma_ops_invariant(s: IdState, ops: Seq<IdOp>, n: int)
    requires
        well_formed(s),
        ops_valid(s, ops),
        ops_in_time_order(ops),
        0 <= n <= ops.len(),
    ensures
        well_formed(run_ops(s, ops.take(n))),
        forall|f: int|
            0 <= f < n && (#[trigger] ops[f]) is Free && op_time(ops[n - 1]) < ops[f]->Free_now + FREE_COOLDOWN_TIME
                ==> run_ops(s, ops.take(n)).pending.contains(freed(ops[f])),
    decreases n,
{
    if n > 0 {
        lemma_ops_invariant(s, ops, n - 1);
        let prev = run_ops(s, ops.take(n - 1));
        let op = ops[n - 1];
        assert(ops.take(n).drop_last() =~= ops.take(n - 1));
        let cur = run_ops(s, ops.take(n));
        assert(cur == apply_op(prev, op));
        assert forall|f: int|
            0 <= f < n && (#[trigger] ops[f]) is Free && op_time(ops[n - 1]) < ops[f]->Free_now + FREE_COOLDOWN_TIME
            implies cur.pending.contains(freed(ops[f])) by {
            if f < n - 1 {
                assert(op_time(ops[n - 2]) <= op_time(ops[n - 1]));
                assert(prev.pending.contains(freed(ops[f])));
            }
            match op {
                IdOp::Alloc { now } => {
                    assert(alloc_fits(run_ops(s, ops.take(n - 1)), now));
                    lemma_alloc_keeps_cooling_key(prev, now, freed(ops[f]));
                },
                IdOp::Free { key, now } => {
                    lemma_free_keeps_pending(prev, key, now, freed(ops[f]));
                },
            }
        }
        match op {
            IdOp::Alloc { now } => {
                assert(alloc_fits(run_ops(s, ops.take(n - 1)), now));
                lemma_alloc_hands_out_fresh_key(prev, now);
            },
            IdOp::Free { key, now } => {
                assert(live_keys(run_ops(s, ops.take(n - 1))).contains(key));
                lemma_free_releases_key(prev, key, now);
            },
        }
    }
}

/// Over any sequence of valid calls at non-decreasing ticks, starting from a
/// consistent manager (such as a new one): every allocation hands out an id
/// that is not in use at that moment, and never one that was freed less than
/// `FREE_COOLDOWN_TIME` ticks before.
pub proof fn lemma_alloc_sequence(s: IdState, ops: Seq<IdOp>, i: int)
    requires
        well_formed(s),
        ops_valid(s, ops),
        ops_in_time_order(ops),
        0 <= i < ops.len(),
        ops[i] is Alloc,
    ensures
        ({
            let before = run_ops(s, ops.take(i));
            let key = alloc_spec(before, ops[i]->Alloc_now).1;
            &&& !live_keys(before).contains(key)
            &&& forall|f: int|
                0 <= f < i && (#[trigger] ops[f]) is Free && ops[i]->Alloc_now < ops[f]->Free_now + FREE_COOLDOWN_TIME
                    ==> key != ops[f]->Free_key
        }),
{
    lemma_ops_invariant(s, ops, i);
    let before = run_ops(s, ops.take(i));
    let now = ops[i]->Alloc_now;
    assert(alloc_fits(run_ops(s, ops.take(i)), now));
    lemma_alloc_hands_out_fresh_key(before, now);
    let key = alloc_spec(before, now).1;
    assert forall|f: int|
        0 <= f < i && (#[trigger] ops[f]) is Free && now < ops[f]->Free_now + FREE_COOLDOWN_TIME implies key
        != ops[f]->Free_key by {
        assert(op_time(ops[i - 1]) <= op_time(ops[i]));
        assert(before.pending.contains(freed(ops[f])));
        lemma_alloc_keeps_cooling_key(before, now, freed(ops[f]));
    }
}

/// A new manager is consistent.
pub proof fn lemma_fresh_ids_well_formed()
    ensures
        well_formed(fresh_ids()),
{
}

} // verus!

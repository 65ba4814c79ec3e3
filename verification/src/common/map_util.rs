//! Helpers over `HashMap`s: their keys in a vector, re-keying a map, and a
//! slot to update a value in place.
//!
//! The contracts rest on key types whose `Hash` and `Eq` agree, which std's
//! `HashMap` itself needs to behave (`obeys_key_model`; vstd states it of the
//! integer types).
use std::collections::HashMap;
use std::hash::Hash;
use vstd::prelude::*;
use vstd::std_specs::hash::obeys_key_model;
use vstd::std_specs::iter::IteratorSpec;

verus! {

broadcast use vstd::std_specs::hash::group_hash_axioms;

/// References to the keys of `m`, each once, in the map's own order.
pub fn map_keys<K: Eq + Hash, V>(m: &HashMap<K, V>) -> (keys: Vec<&K>)
    requires
        obeys_key_model::<K>(),
    ensures
        forall|i: int| 0 <= i < keys@.len() ==> m@.contains_key(*#[trigger] keys@[i]),
        forall|k: K| #[trigger] m@.contains_key(k) ==> exists|i: int| 0 <= i < keys@.len() && *keys@[i] == k,
        forall|i: int, j: int| 0 <= i < keys@.len() && 0 <= j < keys@.len() && i != j ==> *#[trigger] keys@[i] != *#[trigger] keys@[j],
        keys@.len() == m@.dom().len(),
{
    let mut keys: Vec<&K> = Vec::new();
    let ghost pairs = vstd::std_specs::hash::spec_hash_map_iter(m).remaining();
    for (k, v) in it: m.iter()
        invariant
            it.seq() == pairs,
            keys@.len() == it.index(),
            forall|j: int| 0 <= j < it.index() ==> *keys@[j] == *(#[trigger] it.seq()[j]).0,
    {
        keys.push(k);
    }
    assert(keys@.len() == pairs.len());
    assert forall|k: K| #[trigger] m@.contains_key(k) implies exists|i: int| 0 <= i < keys@.len() && *keys@[i] == k by {
        assert(pairs.contains((&k, &m@[k])));
        let j = choose|j: int| 0 <= j < pairs.len() && pairs[j] == (&k, &m@[k]);
        assert(*keys@[j] == k);
    }
    assert forall|i: int| 0 <= i < keys@.len() implies m@.contains_key(*#[trigger] keys@[i]) by {
        assert(m@.contains_key(*pairs[i].0));
    }
    assert forall|i: int, j: int| 0 <= i < keys@.len() && 0 <= j < keys@.len() && i != j implies *#[trigger] keys@[i] != *#[trigger] keys@[j] by {
        if *keys@[i] == *keys@[j] {
            assert(m@[*pairs[i].0] == *pairs[i].1);
            assert(m@[*pairs[j].0] == *pairs[j].1);
            assert(pairs[i] == pairs[j]);
        }
    }
    keys
}

/// The keys of `m`, each once, in the map's own order.
pub fn map_keys_copied<K: Copy + Eq + Hash, V>(m: &HashMap<K, V>) -> (keys: Vec<K>)
    requires
        obeys_key_model::<K>(),
    ensures
        forall|i: int| 0 <= i < keys@.len() ==> m@.contains_key(#[trigger] keys@[i]),
        forall|k: K| #[trigger] m@.contains_key(k) ==> exists|i: int| 0 <= i < keys@.len() && keys@[i] == k,
        forall|i: int, j: int| 0 <= i < keys@.len() && 0 <= j < keys@.len() && i != j ==> #[trigger] keys@[i] != #[trigger] keys@[j],
        keys@.len() == m@.dom().len(),
{
    let refs = map_keys(m);
    let mut keys: Vec<K> = Vec::new();
    let mut i: usize = 0;
    while i < refs.len()
        invariant
            i <= refs@.len(),
            keys@.len() == i,
            forall|j: int| 0 <= j < i ==> keys@[j] == *refs@[j],
        decreases refs@.len() - i,
    {
        keys.push(*refs[i]);
        i = i + 1;
    }
    assert forall|k: K| #[trigger] m@.contains_key(k) implies exists|i: int| 0 <= i < keys@.len() && keys@[i] == k by {
        let j = choose|j: int| 0 <= j < refs@.len() && *refs@[j] == k;
        assert(keys@[j] == k);
    }
    assert forall|i: int, j: int| 0 <= i < keys@.len() && 0 <= j < keys@.len() && i != j implies #[trigger] keys@[i] != #[trigger] keys@[j] by {
        assert(*refs@[i] != *refs@[j]);
    }
    keys
}

/// `HashMap::get_mut` of std: a mutable reference to the value under `key`,
/// if there is one; what is written through it ends up in the map.
#[verifier::external_body]
pub(crate) fn map_get_mut<'a, K: Eq + Hash, V>(m: &'a mut HashMap<K, V>, key: &K) -> (slot: Option<&'a mut V>)
    requires
        obeys_key_model::<K>(),
    ensures
        match slot {
            Some(v) => {
                &&& old(m)@.contains_key(*key)
                &&& *v == old(m)@[*key]
                &&& final(m)@ == old(m)@.insert(*key, *final(v))
            },
            None => {
                &&& !old(m)@.contains_key(*key)
                &&& final(m)@ == old(m)@
            },
        },
{
    m.get_mut(key)
}

/// Builds a map with each entry of `m` re-keyed by `f_key` and its value
/// mapped by `f_val`. Where two entries land on one key, the entry visited
/// later (in the map's own order, which is not known) wins.
pub fn hash_map<TKIn: Copy + Eq + Hash, TKOut: Eq + Hash, TVIn, TVOut>(
    m: &HashMap<TKIn, TVIn>,
    mut f_key: impl FnMut(TKIn) -> TKOut,
    mut f_val: impl FnMut(&TVIn) -> TVOut,
) -> (result: HashMap<TKOut, TVOut>)
    requires
        obeys_key_model::<TKIn>(),
        obeys_key_model::<TKOut>(),
        forall|k: TKIn| #[trigger] m@.contains_key(k) ==> f_key.requires((k,)),
        forall|k: TKIn| #[trigger] m@.contains_key(k) ==> f_val.requires((&m@[k],)),
    ensures
        forall|ko: TKOut| #[trigger]
            result@.contains_key(ko) ==> exists|k: TKIn|
                #![trigger m@[k]]
                m@.contains_key(k) && f_key.ensures((k,), ko) && f_val.ensures(
                    (&m@[k],),
                    result@[ko],
                ),
        forall|k: TKIn| #[trigger]
            m@.contains_key(k) ==> exists|ko: TKOut|
                #![trigger result@[ko]]
                result@.contains_key(ko) && f_key.ensures((k,), ko),
{
    let ghost f_key0 = f_key;
    let ghost f_val0 = f_val;
    let keys = map_keys(m);
    let mut result = HashMap::with_capacity(m.len());
    let mut i: usize = 0;
    while i < keys.len()
        invariant
            f_key == f_key0,
            f_val == f_val0,
            obeys_key_model::<TKIn>(),
            obeys_key_model::<TKOut>(),
            forall|k: TKIn| #[trigger] m@.contains_key(k) ==> f_key.requires((k,)),
            forall|k: TKIn| #[trigger] m@.contains_key(k) ==> f_val.requires((&m@[k],)),
            forall|j: int| 0 <= j < keys@.len() ==> m@.contains_key(*#[trigger] keys@[j]),
            forall|k: TKIn| #[trigger] m@.contains_key(k) ==> exists|j: int| 0 <= j < keys@.len() && *keys@[j] == k,
            i <= keys@.len(),
            forall|ko: TKOut| #[trigger]
                result@.contains_key(ko) ==> exists|k: TKIn|
                    #![trigger m@[k]]
                    m@.contains_key(k) && f_key.ensures((k,), ko) && f_val.ensures(
                        (&m@[k],),
                        result@[ko],
                    ),
            forall|j: int|
                0 <= j < i ==> exists|ko: TKOut|
                    #![trigger result@[ko]]
                    result@.contains_key(ko) && f_key.ensures((*#[trigger] keys@[j],), ko),
        decreases keys@.len() - i,
    {
        let k: TKIn = *keys[i];
        assert(m@.contains_key(*keys@[i as int]));
        match m.get(&k) {
            Some(v) => {
                let new_key = f_key(k);
                let new_val = f_val(v);
                let ghost before = result@;
                result.insert(new_key, new_val);
                assert forall|ko: TKOut| #[trigger] result@.contains_key(ko) implies exists|k2: TKIn|
                    #![trigger m@[k2]]
                    m@.contains_key(k2) && f_key.ensures((k2,), ko) && f_val.ensures(
                        (&m@[k2],),
                        result@[ko],
                    ) by {
                    if ko != new_key {
                        assert(before.contains_key(ko));
                    } else {
                        assert(m@[k] == *v);
                    }
                }
                assert forall|j: int| 0 <= j < i + 1 implies exists|ko: TKOut|
                    #![trigger result@[ko]]
                    result@.contains_key(ko) && f_key.ensures((*#[trigger] keys@[j],), ko) by {
                    if j < i {
                        let ko = choose|ko: TKOut| before.contains_key(ko) && f_key.ensures((*keys@[j],), ko);
                        assert(result@.contains_key(ko));
                    } else {
                        assert(result@.contains_key(new_key));
                    }
                }
            },
            None => {},
        }
        i = i + 1;
    }
    assert forall|k: TKIn| #[trigger] m@.contains_key(k) implies exists|ko: TKOut|
        #![trigger result@[ko]]
        result@.contains_key(ko) && f_key.ensures((k,), ko) by {
        let j = choose|j: int| 0 <= j < keys@.len() && *keys@[j] == k;
        assert(f_key.ensures((*keys@[j],), choose|ko: TKOut| result@.contains_key(ko) && f_key.ensures((*keys@[j],), ko)));
    }
    result
}

/// Builds a map with each entry of `m` re-keyed by `f_key`; `f_val` sees the
/// new key and the value, and the entry is kept only where it returns a value.
/// Where two kept entries land on one key, the one visited later (in the
/// map's own order, which is not known) wins.
pub fn hash_map_key<TKIn: Eq + Hash, TKOut: Copy + Eq + Hash, TVIn, TVOut>(
    m: &HashMap<TKIn, TVIn>,
    mut f_key: impl FnMut(&TKIn) -> TKOut,
    mut f_val: impl FnMut(TKOut, &TVIn) -> Option<TVOut>,
) -> (result: HashMap<TKOut, TVOut>)
    requires
        obeys_key_model::<TKIn>(),
        obeys_key_model::<TKOut>(),
        forall|k: TKIn| #[trigger] m@.contains_key(k) ==> f_key.requires((&k,)),
        forall|k: TKIn, ko: TKOut| m@.contains_key(k) && #[trigger] f_key.ensures((&k,), ko) ==> f_val.requires((ko, &m@[k])),
    ensures
        forall|ko: TKOut| #[trigger]
            result@.contains_key(ko) ==> exists|k: TKIn|
                #![trigger m@[k]]
                m@.contains_key(k) && f_key.ensures((&k,), ko) && f_val.ensures(
                    (ko, &m@[k]),
                    Some(result@[ko]),
                ),
        forall|k: TKIn| #[trigger]
            m@.contains_key(k) ==> exists|ko: TKOut|
                #![trigger f_key.ensures((&k,), ko)]
                f_key.ensures((&k,), ko) && (result@.contains_key(ko) || f_val.ensures((ko, &m@[k]), None)),
{
    let ghost f_key0 = f_key;
    let ghost f_val0 = f_val;
    let keys = map_keys(m);
    let mut result = HashMap::with_capacity(m.len());
    let mut i: usize = 0;
    let ghost mut outs: Seq<TKOut> = Seq::empty();
    while i < keys.len()
        invariant
            f_key == f_key0,
            f_val == f_val0,
            obeys_key_model::<TKIn>(),
            obeys_key_model::<TKOut>(),
            forall|k: TKIn| #[trigger] m@.contains_key(k) ==> f_key.requires((&k,)),
            forall|k: TKIn, ko: TKOut| m@.contains_key(k) && #[trigger] f_key.ensures((&k,), ko) ==> f_val.requires((ko, &m@[k])),
            forall|j: int| 0 <= j < keys@.len() ==> m@.contains_key(*#[trigger] keys@[j]),
            forall|k: TKIn| #[trigger] m@.contains_key(k) ==> exists|j: int| 0 <= j < keys@.len() && *keys@[j] == k,
            i <= keys@.len(),
            forall|ko: TKOut| #[trigger]
                result@.contains_key(ko) ==> exists|k: TKIn|
                    #![trigger m@[k]]
                    m@.contains_key(k) && f_key.ensures((&k,), ko) && f_val.ensures(
                        (ko, &m@[k]),
                        Some(result@[ko]),
                    ),
            outs.len() == i,
            forall|j: int|
                0 <= j < i ==> f_key.ensures((&*#[trigger] keys@[j],), outs[j]) && (result@.contains_key(outs[j]) || f_val.ensures((outs[j], &m@[*keys@[j]]), None)),
        decreases keys@.len() - i,
    {
        let k: &TKIn = keys[i];
        assert(m@.contains_key(*keys@[i as int]));
        match m.get(k) {
            Some(v) => {
                let new_key = f_key(k);
                let ghost before = result@;
                let new_val = f_val(new_key, v);
                match new_val {
                    Some(val) => {
                        result.insert(new_key, val);
                    },
                    None => {},
                }
                assert(m@[*k] == *v);
                assert forall|ko: TKOut| #[trigger] result@.contains_key(ko) implies exists|k2: TKIn|
                    #![trigger m@[k2]]
                    m@.contains_key(k2) && f_key.ensures((&k2,), ko) && f_val.ensures(
                        (ko, &m@[k2]),
                        Some(result@[ko]),
                    ) by {
                    if ko != new_key || new_val is None {
                        assert(before.contains_key(ko));
                    }
                }
                proof {
                    outs = outs.push(new_key);
                }
            },
            None => {
                assert(false);
            },
        }
        i = i + 1;
    }
    assert forall|k: TKIn| #[trigger] m@.contains_key(k) implies exists|ko: TKOut|
        #![trigger f_key.ensures((&k,), ko)]
        f_key.ensures((&k,), ko) && (result@.contains_key(ko) || f_val.ensures((ko, &m@[k]), None)) by {
        let j = choose|j: int| 0 <= j < keys@.len() && *keys@[j] == k;
        assert(f_key.ensures((&k,), outs[j]));
    }
    result
}

} // verus!

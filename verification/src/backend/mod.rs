//! The store that the commands read and change: three namespaces keyed by
//! text, one of frames, one of hashes and one of sets. A key may be in all
//! three at once.

pub mod store;
use self::store::{
    entry_or, hash_entries, hash_get, hash_get_all, hash_insert, new_hashes, new_scalars, new_sets,
    scalar_entries, scalar_get, scalar_insert, set_contains, set_entries, set_insert, set_open,
    Fields, Members,
};
use crate::resp::RespFrame;
use dashmap::DashMap;
use dashmap::DashSet;
use vstd::prelude::*;

verus! {

/// What a store holds, as mathematics.
pub struct BackendState {
    /// For each key of the scalar namespace its frame.
    pub scalars: Fields,
    /// For each key of the hash namespace the fields of its hash.
    pub hashes: Map<Seq<char>, Fields>,
    /// For each key of the set namespace its members.
    pub sets: Map<Seq<char>, Members>,
}

impl BackendState {
    /// The store that holds nothing.
    pub open spec fn empty() -> BackendState {
        BackendState { scalars: Map::empty(), hashes: Map::empty(), sets: Map::empty() }
    }
}

/// The store. Whoever changes it has it to itself for the length of the
/// call, so every operation is one complete step.
pub struct Backend {
    pub(crate) map: DashMap<String, RespFrame>,
    pub(crate) hmap: DashMap<String, DashMap<String, RespFrame>>,
    pub(crate) set: DashMap<String, DashSet<String>>,
}

impl View for Backend {
    type V = BackendState;

    open(crate) spec fn view(&self) -> BackendState {
        BackendState {
            scalars: scalar_entries(self.map),
            hashes: hash_entries(self.hmap),
            sets: set_entries(self.set),
        }
    }
}

/// The texts of a run of strings, in order.
pub open spec fn texts(strings: Seq<String>) -> Seq<Seq<char>> {
    Seq::new(strings.len(), |i: int| strings[i]@)
}

/// Membership as a number: 1 for a member, 0 for any other text.
pub open spec fn membership(members: Members, member: Seq<char>) -> i64 {
    if members.contains(member) {
        1
    } else {
        0
    }
}

/// A count as an `i64` can hold it.
pub open spec fn saturated(count: nat) -> i64 {
    if count > i64::MAX {
        i64::MAX
    } else {
        count as i64
    }
}

impl Backend {
    /// A store that holds nothing.
    pub fn new() -> (r: Self)
        ensures
            r@ == BackendState::empty(),
    {
        let r = Backend { map: new_scalars(), hmap: new_hashes(), set: new_sets() };
        proof {
            assert(r@.scalars =~= Map::empty());
            assert(r@.hashes =~= Map::empty());
            assert(r@.sets =~= Map::empty());
        }
        r
    }

    /// The frame of `key` in the scalar namespace, if it has one.
    pub fn get(&self, key: &str) -> (r: Option<RespFrame>)
        ensures
            match r {
                Some(frame) => self@.scalars.contains_key(key@) && self@.scalars[key@] == frame@,
                None => !self@.scalars.contains_key(key@),
            },
    {
        scalar_get(&self.map, key)
    }

    /// Gives `key` the frame `value` in the scalar namespace.
    pub fn set(&mut self, key: String, value: RespFrame)
        ensures
            final(self)@ == (BackendState {
                scalars: old(self)@.scalars.insert(key@, value@),
                ..old(self)@
            }),
    {
        scalar_insert(&mut self.map, key, value);
    }

    /// The frame of `field` in the hash of `key`, if there is such a hash
    /// and it has such a field.
    pub fn hget(&self, key: &str, field: &str) -> (r: Option<RespFrame>)
        ensures
            match r {
                Some(frame) => self@.hashes.contains_key(key@) && self@.hashes[key@].contains_key(
                    field@,
                ) && self@.hashes[key@][field@] == frame@,
                None => !self@.hashes.contains_key(key@) || !self@.hashes[key@].contains_key(
                    field@,
                ),
            },
    {
        hash_get(&self.hmap, key, field)
    }

    /// Gives `field` the frame `value` in the hash of `key`. The hash is
    /// made if there was none.
    pub fn hset(&mut self, key: String, field: String, value: RespFrame)
        ensures
            final(self)@ == (BackendState {
                hashes: old(self)@.hashes.insert(
                    key@,
                    entry_or(old(self)@.hashes, key@, Map::empty()).insert(field@, value@),
                ),
                ..old(self)@
            }),
    {
        hash_insert(&mut self.hmap, key, field, value);
    }

    /// A copy of the hash of `key`, if there is one.
    pub fn hgetall(&self, key: &str) -> (r: Option<DashMap<String, RespFrame>>)
        ensures
            match r {
                Some(hash) => self@.hashes.contains_key(key@) && self@.hashes[key@]
                    == scalar_entries(hash),
                None => !self@.hashes.contains_key(key@),
            },
    {
        hash_get_all(&self.hmap, key)
    }

    /// Puts `members` into the set of `key`, which is made if there was
    /// none. Gives the number of members that were new to the set: one
    /// that the set held already, or that stands twice in `members`, is
    /// counted no second time.
    pub fn sadd(&mut self, key: String, members: Vec<String>) -> (r: i64)
        ensures
            final(self)@ == (BackendState {
                sets: old(self)@.sets.insert(
                    key@,
                    entry_or(old(self)@.sets, key@, Set::empty()).union(texts(members@).to_set()),
                ),
                ..old(self)@
            }),
            r == saturated(
                texts(members@).to_set().difference(
                    entry_or(old(self)@.sets, key@, Set::empty()),
                ).len(),
            ),
    {
        let ghost before = self@.sets;
        let ghost held = entry_or(before, key@, Set::empty());
        let ghost all = texts(members@);
        set_open(&mut self.set, key.clone());
        let mut count: usize = 0;
        let mut i: usize = 0;
        proof {
            assert(all.take(0).to_set() =~= Set::<Seq<char>>::empty());
            assert(held.union(all.take(0).to_set()) =~= held);
            assert(all.take(0).to_set().difference(held) =~= Set::<Seq<char>>::empty());
        }
        while i < members.len()
            invariant
                i <= members@.len(),
                all == texts(members@),
                held == entry_or(before, key@, Set::empty()),
                self@.scalars == old(self)@.scalars,
                self@.hashes == old(self)@.hashes,
                self@.sets == before.insert(key@, held.union(all.take(i as int).to_set())),
                count == all.take(i as int).to_set().difference(held).len(),
                count <= i,
            decreases members@.len() - i,
        {
            let ghost seen = all.take(i as int).to_set();
            let ghost member = all[i as int];
            let added = set_insert(&mut self.set, key.clone(), members[i].clone());
            proof {
                vstd::seq_lib::seq_to_set_is_finite(all.take(i as int));
                assert(all.take(i + 1) =~= all.take(i as int).push(member));
                all.take(i as int).lemma_push_to_set_commute(member);
                let next = all.take(i + 1).to_set();
                assert(next =~= seen.insert(member));
                assert(held.union(seen).insert(member) =~= held.union(next));
                assert(before.insert(key@, held.union(seen)).insert(key@, held.union(next))
                    =~= before.insert(key@, held.union(next)));
                if added {
                    assert(next.difference(held) =~= seen.difference(held).insert(member));
                } else {
                    assert(next.difference(held) =~= seen.difference(held));
                }
            }
            if added {
                count = count + 1;
            }
            i = i + 1;
        }
        proof {
            assert(all.take(members@.len() as int) =~= all);
        }
        let wide: u64 = count as u64;
        if wide > 0x7fff_ffff_ffff_ffff {
            0x7fff_ffff_ffff_ffff
        } else {
            wide as i64
        }
    }

    /// Whether `member` is in the set of `key`, as 1 or 0, if there is
    /// such a set.
    pub fn sismember(&self, key: &str, member: &str) -> (r: Option<i64>)
        ensures
            match r {
                Some(answer) => self@.sets.contains_key(key@) && answer == membership(
                    self@.sets[key@],
                    member@,
                ),
                None => !self@.sets.contains_key(key@),
            },
    {
        match set_contains(&self.set, key, member) {
            Some(true) => Some(1),
            Some(false) => Some(0),
            None => None,
        }
    }
}

impl Default for Backend {
    fn default() -> (r: Self)
        ensures
            r@ == BackendState::empty(),
    {
        Backend::new()
    }
}

} // verus!

//! The three concurrent collections of the store, `dashmap::DashMap` and
//! `dashmap::DashSet`, seen by the verifier as the maps and sets that they
//! hold. What is stated here holds of a collection that one caller has to
//! itself for the length of the call, which is what a `&mut` says.

use crate::resp::frame::entry_values;
use crate::resp::{FrameValue, RespFrame};
use dashmap::DashMap;
use dashmap::DashSet;
use vstd::prelude::*;

verus! {

/// `dashmap::DashMap`, carried through as it is. What a map of the store
/// holds is named by `scalar_entries`, `hash_entries` and `set_entries`.
#[verifier::external_type_specification]
#[verifier::external_body]
#[verifier::reject_recursive_types(K)]
#[verifier::reject_recursive_types(V)]
#[verifier::reject_recursive_types(S)]
pub struct ExDashMap<K, V, S>(DashMap<K, V, S>);

/// `dashmap::DashSet`, carried through as it is, inside the map of sets.
#[verifier::external_type_specification]
#[verifier::external_body]
#[verifier::reject_recursive_types(K)]
#[verifier::reject_recursive_types(S)]
pub struct ExDashSet<K, S>(DashSet<K, S>);

/// The fields of one hash: for each field its frame.
pub type Fields = Map<Seq<char>, FrameValue>;

/// The members of one set.
pub type Members = Set<Seq<char>>;

/// The entries that a map of frames holds: for each key its frame.
pub uninterp spec fn scalar_entries(map: DashMap<String, RespFrame>) -> Fields;

/// The hashes that a map holds: for each key the fields of its hash.
pub uninterp spec fn hash_entries(map: DashMap<String, DashMap<String, RespFrame>>) -> Map<
    Seq<char>,
    Fields,
>;

/// The sets that a map holds: for each key its members.
pub uninterp spec fn set_entries(map: DashMap<String, DashSet<String>>) -> Map<
    Seq<char>,
    Members,
>;

/// What `key` has in `map`, or `none` if it has nothing.
pub open spec fn entry_or<V>(map: Map<Seq<char>, V>, key: Seq<char>, none: V) -> V {
    if map.contains_key(key) {
        map[key]
    } else {
        none
    }
}

/// `pairs` lists what `fields` holds: every field with its frame, each
/// once, in whatever order.
pub open spec fn lists(pairs: Seq<(Seq<char>, FrameValue)>, fields: Fields) -> bool {
    &&& forall|i: int|
        0 <= i < pairs.len() ==> fields.contains_key((#[trigger] pairs[i]).0)
            && fields[pairs[i].0] == pairs[i].1
    &&& forall|i: int, j: int|
        0 <= i < j < pairs.len() ==> (#[trigger] pairs[i]).0 != (#[trigger] pairs[j]).0
    &&& forall|name: Seq<char>| #[trigger]
        fields.contains_key(name) ==> exists|i: int|
            0 <= i < pairs.len() && (#[trigger] pairs[i]).0 == name
}

/// `DashMap::new`: a map of frames that holds nothing.
#[verifier::external_body]
pub(crate) fn new_scalars() -> (fresh: DashMap<String, RespFrame>)
    ensures
        scalar_entries(fresh).dom() == Set::<Seq<char>>::empty(),
{
    DashMap::new()
}

/// `DashMap::new`: a map of hashes that holds nothing.
#[verifier::external_body]
pub(crate) fn new_hashes() -> (fresh: DashMap<String, DashMap<String, RespFrame>>)
    ensures
        hash_entries(fresh).dom() == Set::<Seq<char>>::empty(),
{
    DashMap::new()
}

/// `DashMap::new`: a map of sets that holds nothing.
#[verifier::external_body]
pub(crate) fn new_sets() -> (fresh: DashMap<String, DashSet<String>>)
    ensures
        set_entries(fresh).dom() == Set::<Seq<char>>::empty(),
{
    DashMap::new()
}

/// `DashMap::get`, with the frame that it finds copied out: the frame of
/// `key`, if the map holds one.
#[verifier::external_body]
pub(crate) fn scalar_get(map: &DashMap<String, RespFrame>, key: &str) -> (found: Option<RespFrame>)
    ensures
        match found {
            Some(frame) => scalar_entries(*map).contains_key(key@) && scalar_entries(*map)[key@]
                == frame@,
            None => !scalar_entries(*map).contains_key(key@),
        },
{
    map.get(key).map(|entry| entry.value().clone())
}

/// `DashMap::insert`: afterwards `key` has the frame `value`, and every
/// other key what it had.
#[verifier::external_body]
pub(crate) fn scalar_insert(map: &mut DashMap<String, RespFrame>, key: String, value: RespFrame)
    ensures
        scalar_entries(*final(map)) == scalar_entries(*old(map)).insert(key@, value@),
{
    map.insert(key, value);
}

/// `DashMap::iter`, with each entry copied out: every entry of the map
/// once, in no stated order.
#[verifier::external_body]
pub(crate) fn scalar_pairs(map: &DashMap<String, RespFrame>) -> (pairs: Vec<(String, RespFrame)>)
    ensures
        lists(entry_values(pairs@), scalar_entries(*map)),
{
    map.iter().map(|entry| (entry.key().clone(), entry.value().clone())).collect()
}

/// `DashMap::get` on the hash of `key` and on the field in it, with the
/// frame that it finds copied out: the frame of `field` in the hash of
/// `key`, if there is such a hash and it has such a field.
#[verifier::external_body]
pub(crate) fn hash_get(
    map: &DashMap<String, DashMap<String, RespFrame>>,
    key: &str,
    field: &str,
) -> (found: Option<RespFrame>)
    ensures
        match found {
            Some(frame) => hash_entries(*map).contains_key(key@) && hash_entries(
                *map,
            )[key@].contains_key(field@) && hash_entries(*map)[key@][field@] == frame@,
            None => !hash_entries(*map).contains_key(key@) || !hash_entries(
                *map,
            )[key@].contains_key(field@),
        },
{
    map.get(key).and_then(|hash| hash.get(field).map(|entry| entry.value().clone()))
}

/// `DashMap::get` on the hash of `key`, with the hash copied out: a map of
/// its own that holds the fields of that hash, if there is such a hash.
#[verifier::external_body]
pub(crate) fn hash_get_all(map: &DashMap<String, DashMap<String, RespFrame>>, key: &str) -> (found:
    Option<DashMap<String, RespFrame>>)
    ensures
        match found {
            Some(hash) => hash_entries(*map).contains_key(key@) && hash_entries(*map)[key@]
                == scalar_entries(hash),
            None => !hash_entries(*map).contains_key(key@),
        },
{
    map.get(key).map(|hash| hash.clone())
}

/// `DashMap::entry` and `Entry::or_default` on the hash of `key`, then
/// `DashMap::insert` into it: the hash of `key` is made if there was none,
/// and afterwards `field` has the frame `value` in it. Every other field
/// and every other hash is as it was.
#[verifier::external_body]
pub(crate) fn hash_insert(
    map: &mut DashMap<String, DashMap<String, RespFrame>>,
    key: String,
    field: String,
    value: RespFrame,
)
    ensures
        hash_entries(*final(map)) == hash_entries(*old(map)).insert(
            key@,
            entry_or(hash_entries(*old(map)), key@, Map::empty()).insert(field@, value@),
        ),
{
    map.entry(key).or_default().insert(field, value);
}

/// `DashMap::entry` and `Entry::or_default` on the set of `key`: the set
/// of `key` is made, empty, if there was none. Nothing else changes.
#[verifier::external_body]
pub(crate) fn set_open(map: &mut DashMap<String, DashSet<String>>, key: String)
    ensures
        set_entries(*final(map)) == set_entries(*old(map)).insert(
            key@,
            entry_or(set_entries(*old(map)), key@, Set::empty()),
        ),
{
    map.entry(key).or_default();
}

/// `DashMap::entry` and `Entry::or_default` on the set of `key`, then
/// `DashSet::insert` into it: afterwards `member` is in the set of `key`,
/// which is made if there was none. The answer is whether the member is
/// new to the set.
#[verifier::external_body]
pub(crate) fn set_insert(
    map: &mut DashMap<String, DashSet<String>>,
    key: String,
    member: String,
) -> (added: bool)
    ensures
        added == !entry_or(set_entries(*old(map)), key@, Set::empty()).contains(member@),
        set_entries(*final(map)) == set_entries(*old(map)).insert(
            key@,
            entry_or(set_entries(*old(map)), key@, Set::empty()).insert(member@),
        ),
{
    map.entry(key).or_default().insert(member)
}

/// `DashMap::get` on the set of `key` and `DashSet::contains` on it:
/// whether `member` is in the set of `key`, if there is such a set.
#[verifier::external_body]
pub(crate) fn set_contains(
    map: &DashMap<String, DashSet<String>>,
    key: &str,
    member: &str,
) -> (found: Option<bool>)
    ensures
        match found {
            Some(is_member) => set_entries(*map).contains_key(key@) && is_member == set_entries(
                *map,
            )[key@].contains(member@),
            None => !set_entries(*map).contains_key(key@),
        },
{
    map.get(key).map(|set| set.contains(member))
}

} // verus!

//! What holds of commands that follow one another.

use super::{answers, effect, hget_value, nil_value, CommandValue};
use crate::backend::store::entry_or;
use crate::backend::BackendState;
use crate::resp::FrameValue;
use vstd::prelude::*;

verus! {

/// `HSET key field value` and then `HGET key field` answers `value`.
pub proof fn lemma_hset_then_hget(
    before: BackendState,
    key: Seq<char>,
    field: Seq<char>,
    value: FrameValue,
)
    ensures
        answers(
            CommandValue::HGet { key, field },
            effect(CommandValue::HSet { key, field, value }, before),
            value,
        ),
{
}

/// `HGET` of a field that the hash of the key does not have, or of a key
/// that has no hash, answers the nil marker.
pub proof fn lemma_hget_missing(store: BackendState, key: Seq<char>, field: Seq<char>)
    requires
        !store.hashes.contains_key(key) || !store.hashes[key].contains_key(field),
    ensures
        answers(CommandValue::HGet { key, field }, store, nil_value()),
{
}

/// `HSET` changes what `HGET` answers for its own key and field alone.
pub proof fn lemma_hset_leaves_other_fields(
    before: BackendState,
    key: Seq<char>,
    field: Seq<char>,
    value: FrameValue,
    other_key: Seq<char>,
    other_field: Seq<char>,
)
    requires
        other_key != key || other_field != field,
    ensures
        hget_value(
            effect(CommandValue::HSet { key, field, value }, before),
            other_key,
            other_field,
        ) == hget_value(before, other_key, other_field),
{
}

/// `HMGET` answers an array with one element for each field asked for,
/// whatever the store holds: the frame of the field, or the nil marker.
pub proof fn lemma_hmget_length(
    store: BackendState,
    key: Seq<char>,
    fields: Seq<Seq<char>>,
    reply: FrameValue,
)
    requires
        answers(CommandValue::HMGet { key, fields }, store, reply),
    ensures
        reply matches FrameValue::Array(items) && items.len() == fields.len() && forall|i: int|
            0 <= i < fields.len() ==> items[i] == hget_value(store, key, #[trigger] fields[i]),
{
}

/// `SADD` counts a member once, however often it is given, and a member
/// that the set holds already not at all: it answers the number of
/// different members given that the set did not hold.
pub proof fn lemma_sadd_counts_new_members(
    before: BackendState,
    key: Seq<char>,
    members: Seq<Seq<char>>,
    reply: FrameValue,
)
    requires
        answers(CommandValue::Sadd { key, members }, before, reply),
        members.len() <= i64::MAX,
    ensures
        reply matches FrameValue::Integer(count) && count == members.to_set().difference(
            entry_or(before.sets, key, Set::empty()),
        ).len() && 0 <= count <= members.len(),
{
    let held = entry_or(before.sets, key, Set::empty());
    let given = members.to_set();
    vstd::seq_lib::seq_to_set_is_finite(members);
    members.lemma_cardinality_of_set();
    vstd::set_lib::lemma_len_difference(given, held);
}

/// After `SADD key members`, `SISMEMBER` answers 1 for each of the
/// members.
pub proof fn lemma_sadd_then_sismember(
    before: BackendState,
    key: Seq<char>,
    members: Seq<Seq<char>>,
    i: int,
)
    requires
        0 <= i < members.len(),
    ensures
        answers(
            CommandValue::SISMember { key, field: members[i] },
            effect(CommandValue::Sadd { key, members }, before),
            FrameValue::Integer(1),
        ),
{
    assert(members.to_set().contains(members[i]));
}

/// `SET key value` and then `GET key` answers `value`.
pub proof fn lemma_set_then_get(before: BackendState, key: Seq<char>, value: FrameValue)
    ensures
        answers(
            CommandValue::Get { key },
            effect(CommandValue::SetCmd { key, value }, before),
            value,
        ),
{
}

/// The three namespaces do not touch: a command changes at most its own.
pub proof fn lemma_namespaces_disjoint(command: CommandValue, before: BackendState)
    ensures
        !(command is SetCmd) ==> effect(command, before).scalars == before.scalars,
        !(command is HSet) ==> effect(command, before).hashes == before.hashes,
        !(command is Sadd) ==> effect(command, before).sets == before.sets,
{
}

} // verus!

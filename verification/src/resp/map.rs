//! Maps: a counted run of key and value pairs behind `%`, kept in key order.

use super::frame::{clone_entries, entry_values, FrameValue, RespFrame};
use vstd::prelude::*;
use vstd::utf8::{encode_utf8, encode_utf8_decode_utf8};

verus! {

/// The order of byte strings: byte by byte, a proper prefix first.
pub open spec fn bytes_lt(a: Seq<u8>, b: Seq<u8>) -> bool
    decreases a.len(),
{
    if b.len() == 0 {
        false
    } else if a.len() == 0 {
        true
    } else if a[0] != b[0] {
        a[0] < b[0]
    } else {
        bytes_lt(a.drop_first(), b.drop_first())
    }
}

/// The order of keys: that of their UTF-8 bytes.
pub open spec fn key_lt(a: Seq<char>, b: Seq<char>) -> bool {
    bytes_lt(encode_utf8(a), encode_utf8(b))
}

/// Each key is below every key behind it, so no key occurs twice.
pub open spec fn keys_ascending(m: Seq<(Seq<char>, FrameValue)>) -> bool {
    forall|i: int, j: int| 0 <= i < j < m.len() ==> key_lt(#[trigger] m[i].0, #[trigger] m[j].0)
}

/// The entries after `key` has been given `value`: a present key keeps its
/// place and changes its value, an absent one goes where the order puts it.
pub open spec fn entries_insert(
    m: Seq<(Seq<char>, FrameValue)>,
    key: Seq<char>,
    value: FrameValue,
) -> Seq<(Seq<char>, FrameValue)>
    decreases m.len(),
{
    if m.len() == 0 {
        seq![(key, value)]
    } else if key_lt(m[0].0, key) {
        seq![m[0]] + entries_insert(m.drop_first(), key, value)
    } else if m[0].0 == key {
        seq![(key, value)] + m.drop_first()
    } else {
        seq![(key, value)] + m
    }
}

/// The value that `key` has among the entries, if it has one.
pub open spec fn entries_get(m: Seq<(Seq<char>, FrameValue)>, key: Seq<char>) -> Option<
    FrameValue,
>
    decreases m.len(),
{
    if m.len() == 0 {
        None
    } else if m[0].0 == key {
        Some(m[0].1)
    } else {
        entries_get(m.drop_first(), key)
    }
}

/// No byte string is below itself.
pub proof fn lemma_bytes_lt_irreflexive(a: Seq<u8>)
    ensures
        !bytes_lt(a, a),
    decreases a.len(),
{
    if a.len() > 0 {
        lemma_bytes_lt_irreflexive(a.drop_first());
    }
}

/// Of two different byte strings one is below the other.
pub proof fn lemma_bytes_lt_total(a: Seq<u8>, b: Seq<u8>)
    ensures
        a == b || bytes_lt(a, b) || bytes_lt(b, a),
    decreases a.len(),
{
    if a.len() == 0 || b.len() == 0 {
        if a.len() == 0 && b.len() == 0 {
            assert(a =~= b);
        }
    } else if a[0] == b[0] {
        lemma_bytes_lt_total(a.drop_first(), b.drop_first());
        if a.drop_first() == b.drop_first() {
            assert(a =~= seq![a[0]] + a.drop_first());
            assert(b =~= seq![b[0]] + b.drop_first());
        }
    }
}

/// The order of byte strings is transitive.
pub proof fn lemma_bytes_lt_transitive(a: Seq<u8>, b: Seq<u8>, c: Seq<u8>)
    requires
        bytes_lt(a, b),
        bytes_lt(b, c),
    ensures
        bytes_lt(a, c),
    decreases a.len(),
{
    if a.len() > 0 && a[0] == b[0] && b[0] == c[0] {
        lemma_bytes_lt_transitive(a.drop_first(), b.drop_first(), c.drop_first());
    }
}

/// Different keys have different bytes, so of two different keys one is
/// below the other, and no key is below itself.
pub proof fn lemma_key_lt_total(a: Seq<char>, b: Seq<char>)
    ensures
        a == b || key_lt(a, b) || key_lt(b, a),
        !key_lt(a, a),
{
    lemma_bytes_lt_total(encode_utf8(a), encode_utf8(b));
    lemma_bytes_lt_irreflexive(encode_utf8(a));
    encode_utf8_decode_utf8(a);
    encode_utf8_decode_utf8(b);
}

/// The order of keys is transitive.
pub proof fn lemma_key_lt_transitive(a: Seq<char>, b: Seq<char>, c: Seq<char>)
    requires
        key_lt(a, b),
        key_lt(b, c),
    ensures
        key_lt(a, c),
{
    lemma_bytes_lt_transitive(encode_utf8(a), encode_utf8(b), encode_utf8(c));
}

/// Putting a key above `low` into entries above `low` leaves all of them
/// above `low`.
pub(crate) proof fn lemma_insert_keeps_lower_bound(
    m: Seq<(Seq<char>, FrameValue)>,
    key: Seq<char>,
    value: FrameValue,
    low: Seq<char>,
)
    requires
        key_lt(low, key),
        forall|j: int| 0 <= j < m.len() ==> key_lt(low, #[trigger] m[j].0),
    ensures
        forall|j: int|
            0 <= j < entries_insert(m, key, value).len() ==> key_lt(
                low,
                #[trigger] entries_insert(m, key, value)[j].0,
            ),
    decreases m.len(),
{
    let r = entries_insert(m, key, value);
    if m.len() == 0 {
    } else if key_lt(m[0].0, key) {
        let rest = m.drop_first();
        assert forall|j: int| 0 <= j < rest.len() implies key_lt(low, #[trigger] rest[j].0) by {
            assert(rest[j] == m[j + 1]);
        }
        lemma_insert_keeps_lower_bound(rest, key, value, low);
        let tail = entries_insert(rest, key, value);
        assert forall|j: int| 0 <= j < r.len() implies key_lt(low, #[trigger] r[j].0) by {
            if j > 0 {
                assert(r[j] == tail[j - 1]);
            }
        }
    } else if m[0].0 == key {
        assert forall|j: int| 0 <= j < r.len() implies key_lt(low, #[trigger] r[j].0) by {
            if j > 0 {
                assert(r[j] == m[j]);
            }
        }
    } else {
        assert forall|j: int| 0 <= j < r.len() implies key_lt(low, #[trigger] r[j].0) by {
            if j > 0 {
                assert(r[j] == m[j - 1]);
            }
        }
    }
}

/// Entries in ascending key order stay so when a key is given a value.
pub proof fn lemma_insert_keeps_ascending(
    m: Seq<(Seq<char>, FrameValue)>,
    key: Seq<char>,
    value: FrameValue,
)
    requires
        keys_ascending(m),
    ensures
        keys_ascending(entries_insert(m, key, value)),
    decreases m.len(),
{
    let r = entries_insert(m, key, value);
    if m.len() == 0 {
    } else if key_lt(m[0].0, key) {
        let rest = m.drop_first();
        assert forall|j: int| 0 <= j < rest.len() implies key_lt(m[0].0, #[trigger] rest[j].0) by {
            assert(rest[j] == m[j + 1]);
        }
        assert(keys_ascending(rest)) by {
            assert forall|a: int, b: int| 0 <= a < b < rest.len() implies key_lt(
                #[trigger] rest[a].0,
                #[trigger] rest[b].0,
            ) by {
                assert(rest[a] == m[a + 1]);
                assert(rest[b] == m[b + 1]);
            }
        }
        lemma_insert_keeps_ascending(rest, key, value);
        lemma_insert_keeps_lower_bound(rest, key, value, m[0].0);
        let tail = entries_insert(rest, key, value);
        assert forall|a: int, b: int| 0 <= a < b < r.len() implies key_lt(
            #[trigger] r[a].0,
            #[trigger] r[b].0,
        ) by {
            assert(r[b] == tail[b - 1]);
            if a > 0 {
                assert(r[a] == tail[a - 1]);
            }
        }
    } else if m[0].0 == key {
        assert forall|a: int, b: int| 0 <= a < b < r.len() implies key_lt(
            #[trigger] r[a].0,
            #[trigger] r[b].0,
        ) by {
            assert(r[b] == m[b]);
            assert(r[a].0 == m[a].0);
        }
    } else {
        lemma_key_lt_total(key, m[0].0);
        assert forall|a: int, b: int| 0 <= a < b < r.len() implies key_lt(
            #[trigger] r[a].0,
            #[trigger] r[b].0,
        ) by {
            assert(r[b] == m[b - 1]);
            if a > 0 {
                assert(r[a] == m[a - 1]);
            } else if b - 1 > 0 {
                lemma_key_lt_transitive(key, m[0].0, m[b - 1].0);
            }
        }
    }
}

/// What `key` has after it has been given `value` is `value`; what any
/// other key has is what it had.
pub proof fn lemma_get_of_insert(
    m: Seq<(Seq<char>, FrameValue)>,
    key: Seq<char>,
    value: FrameValue,
    asked: Seq<char>,
)
    ensures
        entries_get(entries_insert(m, key, value), asked) == if asked == key {
            Some(value)
        } else {
            entries_get(m, asked)
        },
    decreases m.len(),
{
    let r = entries_insert(m, key, value);
    if m.len() == 0 {
        assert(r.drop_first() =~= m);
    } else if key_lt(m[0].0, key) {
        lemma_key_lt_total(key, key);
        lemma_get_of_insert(m.drop_first(), key, value, asked);
        assert(r.drop_first() =~= entries_insert(m.drop_first(), key, value));
    } else if m[0].0 == key {
        assert(r.drop_first() =~= m.drop_first());
    } else {
        assert(r.drop_first() =~= m);
    }
}

/// A key has a value among the entries exactly if one of them holds it,
/// and the value it has is that of the first such entry.
pub(crate) proof fn lemma_get_finds(m: Seq<(Seq<char>, FrameValue)>, asked: Seq<char>)
    ensures
        match entries_get(m, asked) {
            Some(value) => exists|i: int| 0 <= i < m.len() && #[trigger] m[i] == (asked, value),
            None => forall|i: int| 0 <= i < m.len() ==> (#[trigger] m[i]).0 != asked,
        },
    decreases m.len(),
{
    if m.len() == 0 {
    } else if m[0].0 == asked {
        assert(m[0] == (asked, m[0].1));
    } else {
        let rest = m.drop_first();
        lemma_get_finds(rest, asked);
        match entries_get(rest, asked) {
            Some(value) => {
                let i = choose|i: int| 0 <= i < rest.len() && #[trigger] rest[i] == (asked, value);
                assert(m[i + 1] == rest[i]);
            },
            None => {
                assert forall|i: int| 0 <= i < m.len() implies (#[trigger] m[i]).0 != asked by {
                    if i > 0 {
                        assert(m[i] == rest[i - 1]);
                    }
                }
            },
        }
    }
}

/// Entries in ascending key order are told by what their keys have: two
/// runs in which every key has the same value are the same run.
pub proof fn lemma_ascending_entries_equal(
    a: Seq<(Seq<char>, FrameValue)>,
    b: Seq<(Seq<char>, FrameValue)>,
)
    requires
        keys_ascending(a),
        keys_ascending(b),
        forall|asked: Seq<char>| entries_get(a, asked) == entries_get(b, asked),
    ensures
        a == b,
    decreases a.len(),
{
    if a.len() == 0 {
        if b.len() > 0 {
            assert(entries_get(a, b[0].0) == entries_get(b, b[0].0));
        }
        assert(a =~= b);
    } else if b.len() == 0 {
        assert(entries_get(a, a[0].0) == entries_get(b, a[0].0));
    } else {
        let x = a[0];
        let y = b[0];
        assert(entries_get(a, x.0) == entries_get(b, x.0));
        assert(entries_get(a, y.0) == entries_get(b, y.0));
        lemma_get_finds(b, x.0);
        lemma_get_finds(a, y.0);
        let j = choose|j: int| 0 <= j < b.len() && #[trigger] b[j] == (x.0, x.1);
        let i = choose|i: int| 0 <= i < a.len() && #[trigger] a[i] == (y.0, y.1);
        lemma_key_lt_total(x.0, y.0);
        if j > 0 {
            assert(key_lt(b[0].0, b[j].0));
            if i > 0 {
                assert(key_lt(a[0].0, a[i].0));
                lemma_key_lt_transitive(x.0, y.0, x.0);
            }
        } else if i > 0 {
            assert(key_lt(a[0].0, a[i].0));
        }
        assert(x == y);
        let ta = a.drop_first();
        let tb = b.drop_first();
        assert(keys_ascending(ta)) by {
            assert forall|p: int, q: int| 0 <= p < q < ta.len() implies key_lt(
                #[trigger] ta[p].0,
                #[trigger] ta[q].0,
            ) by {
                assert(ta[p] == a[p + 1]);
                assert(ta[q] == a[q + 1]);
            }
        }
        assert(keys_ascending(tb)) by {
            assert forall|p: int, q: int| 0 <= p < q < tb.len() implies key_lt(
                #[trigger] tb[p].0,
                #[trigger] tb[q].0,
            ) by {
                assert(tb[p] == b[p + 1]);
                assert(tb[q] == b[q + 1]);
            }
        }
        assert forall|asked: Seq<char>| entries_get(ta, asked) == entries_get(tb, asked) by {
            assert(entries_get(a, asked) == entries_get(b, asked));
            if asked == x.0 {
                lemma_get_finds(ta, asked);
                lemma_get_finds(tb, asked);
                lemma_key_lt_total(asked, asked);
                if entries_get(ta, asked) is Some {
                    let p = choose|p: int|
                        0 <= p < ta.len() && #[trigger] ta[p] == (
                            asked,
                            entries_get(ta, asked)->Some_0,
                        );
                    assert(ta[p] == a[p + 1]);
                    assert(key_lt(a[0].0, a[p + 1].0));
                }
                if entries_get(tb, asked) is Some {
                    let p = choose|p: int|
                        0 <= p < tb.len() && #[trigger] tb[p] == (
                            asked,
                            entries_get(tb, asked)->Some_0,
                        );
                    assert(tb[p] == b[p + 1]);
                    assert(key_lt(b[0].0, b[p + 1].0));
                }
            }
        }
        lemma_ascending_entries_equal(ta, tb);
        assert(a =~= seq![x] + ta);
        assert(b =~= seq![y] + tb);
    }
}

/// The order in which two different keys are given their values makes no
/// difference to the map: its entries stand in ascending key order either
/// way.
pub proof fn lemma_insert_order_irrelevant(
    m: Seq<(Seq<char>, FrameValue)>,
    key_a: Seq<char>,
    value_a: FrameValue,
    key_b: Seq<char>,
    value_b: FrameValue,
)
    requires
        keys_ascending(m),
        key_a != key_b,
    ensures
        entries_insert(entries_insert(m, key_a, value_a), key_b, value_b) == entries_insert(
            entries_insert(m, key_b, value_b),
            key_a,
            value_a,
        ),
        keys_ascending(entries_insert(entries_insert(m, key_a, value_a), key_b, value_b)),
{
    let first_a = entries_insert(m, key_a, value_a);
    let first_b = entries_insert(m, key_b, value_b);
    let ab = entries_insert(first_a, key_b, value_b);
    let ba = entries_insert(first_b, key_a, value_a);
    lemma_insert_keeps_ascending(m, key_a, value_a);
    lemma_insert_keeps_ascending(m, key_b, value_b);
    lemma_insert_keeps_ascending(first_a, key_b, value_b);
    lemma_insert_keeps_ascending(first_b, key_a, value_a);
    assert forall|asked: Seq<char>| entries_get(ab, asked) == entries_get(ba, asked) by {
        lemma_get_of_insert(m, key_a, value_a, asked);
        lemma_get_of_insert(m, key_b, value_b, asked);
        lemma_get_of_insert(first_a, key_b, value_b, asked);
        lemma_get_of_insert(first_b, key_a, value_a, asked);
    }
    lemma_ascending_entries_equal(ab, ba);
}

/// `a` is below `b` in the order of byte strings.
pub fn bytes_less(a: &[u8], b: &[u8]) -> (r: bool)
    ensures
        r == bytes_lt(a@, b@),
{
    let mut i: usize = 0;
    proof {
        assert(a@.skip(0) =~= a@);
        assert(b@.skip(0) =~= b@);
    }
    while i < a.len() && i < b.len()
        invariant
            i <= a@.len(),
            i <= b@.len(),
            bytes_lt(a@, b@) == bytes_lt(a@.skip(i as int), b@.skip(i as int)),
        decreases a@.len() - i,
    {
        proof {
            let x = a@.skip(i as int);
            let y = b@.skip(i as int);
            assert(x.drop_first() =~= a@.skip(i + 1));
            assert(y.drop_first() =~= b@.skip(i + 1));
        }
        if a[i] != b[i] {
            return a[i] < b[i];
        }
        i = i + 1;
    }
    i < b.len()
}

/// `a` and `b` are the same text.
pub fn key_equal(a: &str, b: &str) -> (r: bool)
    ensures
        r == (a@ == b@),
{
    let x = a.as_bytes();
    let y = b.as_bytes();
    proof {
        encode_utf8_decode_utf8(a@);
        encode_utf8_decode_utf8(b@);
    }
    if x.len() != y.len() {
        return false;
    }
    let mut i: usize = 0;
    while i < x.len()
        invariant
            i <= x@.len() == y@.len(),
            x@ == encode_utf8(a@),
            y@ == encode_utf8(b@),
            forall|j: int| 0 <= j < i ==> x@[j] == y@[j],
        decreases x@.len() - i,
    {
        if x[i] != y[i] {
            return false;
        }
        i = i + 1;
    }
    assert(x@ =~= y@);
    true
}

/// `a` is below `b` in the order of keys.
pub fn key_less(a: &str, b: &str) -> (r: bool)
    ensures
        r == key_lt(a@, b@),
{
    bytes_less(a.as_bytes(), b.as_bytes())
}

/// A map from text to frames. Its entries are kept in ascending key order,
/// whatever the order in which they were put in.
#[derive(Debug, PartialEq, Eq)]
pub struct RespMap(pub(crate) Vec<(String, RespFrame)>);

impl View for RespMap {
    type V = Seq<(Seq<char>, FrameValue)>;

    open(crate) spec fn view(&self) -> Seq<(Seq<char>, FrameValue)> {
        entry_values(self.0@)
    }
}

impl Clone for RespMap {
    fn clone(&self) -> (r: Self)
        ensures
            r@ == self@,
    {
        proof {
            use_type_invariant(self);
        }
        RespMap(clone_entries(&self.0))
    }
}

impl RespMap {
    /// The entries are in ascending key order.
    #[verifier::type_invariant]
    pub open(crate) spec fn ordered(self) -> bool {
        keys_ascending(entry_values(self.0@))
    }

    /// A map without entries.
    pub fn new() -> (r: Self)
        ensures
            r@ == Seq::<(Seq<char>, FrameValue)>::empty(),
    {
        let entries: Vec<(String, RespFrame)> = Vec::new();
        assert(entry_values(entries@) =~= Seq::<(Seq<char>, FrameValue)>::empty());
        RespMap(entries)
    }

    /// The number of entries.
    pub fn len(&self) -> (n: usize)
        ensures
            n == self@.len(),
    {
        self.0.len()
    }

    /// The entries, in ascending key order.
    pub fn entries(&self) -> (r: &Vec<(String, RespFrame)>)
        ensures
            entry_values(r@) == self@,
            keys_ascending(self@),
    {
        proof {
            use_type_invariant(self);
        }
        &self.0
    }

    /// Gives `key` the value `value`, in place of the value it had, if any.
    pub fn insert(&mut self, key: String, value: RespFrame)
        ensures
            final(self)@ == entries_insert(old(self)@, key@, value@),
    {
        proof {
            use_type_invariant(&*self);
        }
        let mut entries: Vec<(String, RespFrame)> = Vec::new();
        assert(entry_values(entries@) =~= Seq::<(Seq<char>, FrameValue)>::empty());
        core::mem::swap(&mut self.0, &mut entries);
        let ghost before = entry_values(entries@);
        let ghost goal = entries_insert(before, key@, value@);
        let n = entries.len();
        let mut i: usize = 0;
        proof {
            assert(before.skip(0) =~= before);
            assert(before.take(0) + goal =~= goal);
            lemma_insert_keeps_ascending(before, key@, value@);
        }
        while i < n && key_less(entries[i].0.as_str(), key.as_str())
            invariant
                i <= n == entries@.len(),
                before == entry_values(entries@),
                goal == before.take(i as int) + entries_insert(before.skip(i as int), key@, value@),
            decreases n - i,
        {
            proof {
                let rest = before.skip(i as int);
                assert(rest[0] == before[i as int]);
                assert(rest.drop_first() =~= before.skip(i + 1));
                assert(before.take(i as int) + (seq![rest[0]] + entries_insert(
                    rest.drop_first(),
                    key@,
                    value@,
                )) =~= before.take(i + 1) + entries_insert(before.skip(i + 1), key@, value@));
            }
            i = i + 1;
        }
        let ghost rest = before.skip(i as int);
        if i < n && entries[i].0 == key {
            proof {
                assert(rest[0] == before[i as int]);
            }
            entries[i] = (key, value);
            assert(entry_values(entries@) =~= before.take(i as int) + (seq![(key@, value@)]
                + rest.drop_first()));
        } else {
            proof {
                if i < n {
                    assert(rest[0] == before[i as int]);
                }
            }
            entries.insert(i, (key, value));
            assert(entry_values(entries@) =~= before.take(i as int) + (seq![(key@, value@)]
                + rest));
        }
        core::mem::swap(&mut self.0, &mut entries);
    }

    /// The value that `key` has, if it has one.
    pub fn get(&self, key: &str) -> (r: Option<&RespFrame>)
        ensures
            match r {
                Some(frame) => entries_get(self@, key@) == Some(frame@),
                None => entries_get(self@, key@) is None,
            },
    {
        let ghost all = entry_values(self.0@);
        let mut i: usize = 0;
        assert(all.skip(0) =~= all);
        while i < self.0.len()
            invariant
                i <= self.0@.len(),
                all == entry_values(self.0@),
                entries_get(all, key@) == entries_get(all.skip(i as int), key@),
            decreases self.0@.len() - i,
        {
            proof {
                let rest = all.skip(i as int);
                assert(rest[0] == all[i as int]);
                assert(rest.drop_first() =~= all.skip(i + 1));
            }
            if key_equal(self.0[i].0.as_str(), key) {
                return Some(&self.0[i].1);
            }
            i = i + 1;
        }
        None
    }
}

} // verus!

//! The frame: the one value type that every wire message decodes into and
//! encodes from.

use super::array::{RespArray, RespNullArray};
use super::bulk_string::{BulkString, RespNullBulkString};
use super::double::RespDouble;
use super::map::RespMap;
use super::null::RespNull;
use super::set::RespSet;
use super::simple_error::SimpleError;
use super::simple_string::SimpleString;
use vstd::prelude::*;
use vstd::std_specs::convert::FromSpecImpl;

verus! {

/// What a frame holds, as mathematics: text is a sequence of characters,
/// a composite a sequence of values, a map the sequence of its entries in
/// key order.
pub enum FrameValue {
    SimpleString(Seq<char>),
    Error(Seq<char>),
    Integer(i64),
    BulkString(Seq<u8>),
    NullBulkString,
    Array(Seq<FrameValue>),
    NullArray,
    Null,
    Boolean(bool),
    Double(Seq<u8>),
    RespMap(Seq<(Seq<char>, FrameValue)>),
    RespSet(Seq<FrameValue>),
}

/// One protocol value. The null forms are variants of their own, not a
/// marker on an empty bulk string or array.
#[derive(Debug, PartialEq, Eq)]
pub enum RespFrame {
    SimpleString(SimpleString),
    Error(SimpleError),
    Integer(i64),
    BulkString(BulkString),
    NullBulkString(RespNullBulkString),
    Array(RespArray),
    NullArray(RespNullArray),
    Null(RespNull),
    Boolean(bool),
    Double(RespDouble),
    RespMap(RespMap),
    RespSet(RespSet),
}

impl View for RespFrame {
    type V = FrameValue;

    open(crate) spec fn view(&self) -> FrameValue
        decreases self,
    {
        match self {
            RespFrame::SimpleString(s) => FrameValue::SimpleString(s.0@),
            RespFrame::Error(e) => FrameValue::Error(e.0@),
            RespFrame::Integer(i) => FrameValue::Integer(*i),
            RespFrame::BulkString(b) => FrameValue::BulkString(b.0@),
            RespFrame::NullBulkString(_) => FrameValue::NullBulkString,
            RespFrame::Array(a) => FrameValue::Array(
                Seq::new(
                    a.0@.len(),
                    |i: int|
                        if 0 <= i < a.0@.len() {
                            a.0@[i].view()
                        } else {
                            FrameValue::Null
                        },
                ),
            ),
            RespFrame::NullArray(_) => FrameValue::NullArray,
            RespFrame::Null(_) => FrameValue::Null,
            RespFrame::Boolean(b) => FrameValue::Boolean(*b),
            RespFrame::Double(d) => FrameValue::Double(d.0@),
            RespFrame::RespMap(m) => FrameValue::RespMap(
                Seq::new(
                    m.0@.len(),
                    |i: int|
                        if 0 <= i < m.0@.len() {
                            (m.0@[i].0@, m.0@[i].1.view())
                        } else {
                            (Seq::empty(), FrameValue::Null)
                        },
                ),
            ),
            RespFrame::RespSet(s) => FrameValue::RespSet(
                Seq::new(
                    s.0@.len(),
                    |i: int|
                        if 0 <= i < s.0@.len() {
                            s.0@[i].view()
                        } else {
                            FrameValue::Null
                        },
                ),
            ),
        }
    }
}

/// The values of a run of frames, in order.
pub open spec fn frame_values(frames: Seq<RespFrame>) -> Seq<FrameValue> {
    Seq::new(frames.len(), |i: int| frames[i]@)
}

/// The entries of a run of keyed frames, in order.
pub open spec fn entry_values(entries: Seq<(String, RespFrame)>) -> Seq<(Seq<char>, FrameValue)> {
    Seq::new(entries.len(), |i: int| (entries[i].0@, entries[i].1@))
}

/// Copies a run of frames.
pub fn clone_frames(frames: &Vec<RespFrame>) -> (r: Vec<RespFrame>)
    ensures
        frame_values(r@) == frame_values(frames@),
    decreases frames,
{
    let mut copy: Vec<RespFrame> = Vec::new();
    let mut i: usize = 0;
    while i < frames.len()
        invariant
            i <= frames@.len(),
            copy@.len() == i,
            forall|j: int| 0 <= j < i ==> copy@[j]@ == frames@[j]@,
        decreases frames@.len() - i,
    {
        copy.push(frames[i].clone());
        i = i + 1;
    }
    assert(frame_values(copy@) =~= frame_values(frames@));
    copy
}

/// Copies a run of keyed frames.
pub fn clone_entries(entries: &Vec<(String, RespFrame)>) -> (r: Vec<(String, RespFrame)>)
    ensures
        entry_values(r@) == entry_values(entries@),
    decreases entries,
{
    let mut copy: Vec<(String, RespFrame)> = Vec::new();
    let mut i: usize = 0;
    while i < entries.len()
        invariant
            i <= entries@.len(),
            copy@.len() == i,
            forall|j: int|
                0 <= j < i ==> copy@[j].0@ == entries@[j].0@ && copy@[j].1@ == entries@[j].1@,
        decreases entries@.len() - i,
    {
        copy.push((entries[i].0.clone(), entries[i].1.clone()));
        i = i + 1;
    }
    assert(entry_values(copy@) =~= entry_values(entries@));
    copy
}

impl Clone for RespFrame {
    fn clone(&self) -> (r: Self)
        ensures
            r@ == self@,
        decreases self,
    {
        match self {
            RespFrame::SimpleString(s) => RespFrame::SimpleString(s.clone()),
            RespFrame::Error(e) => RespFrame::Error(e.clone()),
            RespFrame::Integer(i) => RespFrame::Integer(*i),
            RespFrame::BulkString(b) => RespFrame::BulkString(b.clone()),
            RespFrame::NullBulkString(_) => RespFrame::NullBulkString(RespNullBulkString),
            RespFrame::Array(a) => {
                let copy = RespArray(clone_frames(&a.0));
                proof {
                    lemma_array_view(*a);
                    lemma_array_view(copy);
                }
                RespFrame::Array(copy)
            },
            RespFrame::NullArray(_) => RespFrame::NullArray(RespNullArray),
            RespFrame::Null(_) => RespFrame::Null(RespNull),
            RespFrame::Boolean(b) => RespFrame::Boolean(*b),
            RespFrame::Double(d) => RespFrame::Double(d.clone()),
            RespFrame::RespMap(m) => {
                proof {
                    use_type_invariant(m);
                }
                let copy = RespMap(clone_entries(&m.0));
                proof {
                    lemma_map_view(*m);
                    lemma_map_view(copy);
                }
                RespFrame::RespMap(copy)
            },
            RespFrame::RespSet(s) => {
                let copy = RespSet(clone_frames(&s.0));
                proof {
                    lemma_set_view(*s);
                    lemma_set_view(copy);
                }
                RespFrame::RespSet(copy)
            },
        }
    }
}

/// The value of an array frame is the values of its frames.
pub proof fn lemma_array_view(a: RespArray)
    ensures
        RespFrame::Array(a)@ == FrameValue::Array(a@),
{
    reveal_with_fuel(<RespFrame as View>::view, 2);
    assert(RespFrame::Array(a)@->Array_0 =~= a@);
}

/// The value of a set frame is the values of its members.
pub proof fn lemma_set_view(s: RespSet)
    ensures
        RespFrame::RespSet(s)@ == FrameValue::RespSet(s@),
{
    reveal_with_fuel(<RespFrame as View>::view, 2);
    assert(RespFrame::RespSet(s)@->RespSet_0 =~= s@);
}

/// The value of a map frame is the entries of the map.
pub proof fn lemma_map_view(m: RespMap)
    ensures
        RespFrame::RespMap(m)@ == FrameValue::RespMap(m@),
{
    reveal_with_fuel(<RespFrame as View>::view, 2);
    assert(RespFrame::RespMap(m)@->RespMap_0 =~= m@);
}

impl From<SimpleString> for RespFrame {
    fn from(v: SimpleString) -> (r: RespFrame) {
        RespFrame::SimpleString(v)
    }
}

impl FromSpecImpl<SimpleString> for RespFrame {
    open spec fn obeys_from_spec() -> bool {
        true
    }

    open spec fn from_spec(v: SimpleString) -> RespFrame {
        RespFrame::SimpleString(v)
    }
}

impl From<SimpleError> for RespFrame {
    fn from(v: SimpleError) -> (r: RespFrame) {
        RespFrame::Error(v)
    }
}

impl FromSpecImpl<SimpleError> for RespFrame {
    open spec fn obeys_from_spec() -> bool {
        true
    }

    open spec fn from_spec(v: SimpleError) -> RespFrame {
        RespFrame::Error(v)
    }
}

impl From<i64> for RespFrame {
    fn from(v: i64) -> (r: RespFrame) {
        RespFrame::Integer(v)
    }
}

impl FromSpecImpl<i64> for RespFrame {
    open spec fn obeys_from_spec() -> bool {
        true
    }

    open spec fn from_spec(v: i64) -> RespFrame {
        RespFrame::Integer(v)
    }
}

impl From<BulkString> for RespFrame {
    fn from(v: BulkString) -> (r: RespFrame) {
        RespFrame::BulkString(v)
    }
}

impl FromSpecImpl<BulkString> for RespFrame {
    open spec fn obeys_from_spec() -> bool {
        true
    }

    open spec fn from_spec(v: BulkString) -> RespFrame {
        RespFrame::BulkString(v)
    }
}

impl From<RespNullBulkString> for RespFrame {
    fn from(v: RespNullBulkString) -> (r: RespFrame) {
        RespFrame::NullBulkString(v)
    }
}

impl FromSpecImpl<RespNullBulkString> for RespFrame {
    open spec fn obeys_from_spec() -> bool {
        true
    }

    open spec fn from_spec(v: RespNullBulkString) -> RespFrame {
        RespFrame::NullBulkString(v)
    }
}

impl From<RespArray> for RespFrame {
    fn from(v: RespArray) -> (r: RespFrame) {
        RespFrame::Array(v)
    }
}

impl FromSpecImpl<RespArray> for RespFrame {
    open spec fn obeys_from_spec() -> bool {
        true
    }

    open spec fn from_spec(v: RespArray) -> RespFrame {
        RespFrame::Array(v)
    }
}

impl From<RespNullArray> for RespFrame {
    fn from(v: RespNullArray) -> (r: RespFrame) {
        RespFrame::NullArray(v)
    }
}

impl FromSpecImpl<RespNullArray> for RespFrame {
    open spec fn obeys_from_spec() -> bool {
        true
    }

    open spec fn from_spec(v: RespNullArray) -> RespFrame {
        RespFrame::NullArray(v)
    }
}

impl From<RespNull> for RespFrame {
    fn from(v: RespNull) -> (r: RespFrame) {
        RespFrame::Null(v)
    }
}

impl FromSpecImpl<RespNull> for RespFrame {
    open spec fn obeys_from_spec() -> bool {
        true
    }

    open spec fn from_spec(v: RespNull) -> RespFrame {
        RespFrame::Null(v)
    }
}

impl From<bool> for RespFrame {
    fn from(v: bool) -> (r: RespFrame) {
        RespFrame::Boolean(v)
    }
}

impl FromSpecImpl<bool> for RespFrame {
    open spec fn obeys_from_spec() -> bool {
        true
    }

    open spec fn from_spec(v: bool) -> RespFrame {
        RespFrame::Boolean(v)
    }
}

impl From<RespDouble> for RespFrame {
    fn from(v: RespDouble) -> (r: RespFrame) {
        RespFrame::Double(v)
    }
}

impl FromSpecImpl<RespDouble> for RespFrame {
    open spec fn obeys_from_spec() -> bool {
        true
    }

    open spec fn from_spec(v: RespDouble) -> RespFrame {
        RespFrame::Double(v)
    }
}

impl From<RespMap> for RespFrame {
    fn from(v: RespMap) -> (r: RespFrame) {
        RespFrame::RespMap(v)
    }
}

impl FromSpecImpl<RespMap> for RespFrame {
    open spec fn obeys_from_spec() -> bool {
        true
    }

    open spec fn from_spec(v: RespMap) -> RespFrame {
        RespFrame::RespMap(v)
    }
}

impl From<RespSet> for RespFrame {
    fn from(v: RespSet) -> (r: RespFrame) {
        RespFrame::RespSet(v)
    }
}

impl FromSpecImpl<RespSet> for RespFrame {
    open spec fn obeys_from_spec() -> bool {
        true
    }

    open spec fn from_spec(v: RespSet) -> RespFrame {
        RespFrame::RespSet(v)
    }
}

} // verus!

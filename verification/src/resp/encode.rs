//! The encoder: from a frame to the one byte sequence that stands for it.

use super::array::{RespArray, RespNullArray};
use super::bulk_string::{BulkString, RespNullBulkString};
use super::decimal::{decimal, push_decimal, push_signed_decimal, signed_decimal};
use super::double::RespDouble;
use super::frame::{
    entry_values, frame_values, lemma_array_view, lemma_map_view, lemma_set_view, FrameValue,
    RespFrame,
};
use super::map::{keys_ascending, RespMap};
use super::null::RespNull;
use super::set::RespSet;
use super::simple_error::SimpleError;
use super::simple_string::SimpleString;
use super::wire::{
    crlf, encode_elements, encode_entries, encode_frame, encode_line, false_bytes,
    null_array_bytes, null_bulk_string_bytes, null_bytes, true_bytes, ARRAY, BULK_STRING, DOUBLE,
    ERROR, INTEGER, MAP, SET, SIMPLE_STRING,
};
use super::RespEncode;
use vstd::prelude::*;
use vstd::utf8::encode_utf8;

verus! {

/// The encoding of a run of values is that of its front part followed by
/// that of the rest.
pub proof fn lemma_encode_elements_concat(a: Seq<FrameValue>, b: Seq<FrameValue>)
    ensures
        encode_elements(a + b) == encode_elements(a) + encode_elements(b),
    decreases a.len(),
{
    if a.len() == 0 {
        assert(a + b =~= b);
        assert(encode_elements(a) + encode_elements(b) =~= encode_elements(b));
    } else {
        lemma_encode_elements_concat(a.drop_first(), b);
        assert((a + b).drop_first() =~= a.drop_first() + b);
        assert(encode_frame(a[0]) + (encode_elements(a.drop_first()) + encode_elements(b))
            =~= (encode_frame(a[0]) + encode_elements(a.drop_first())) + encode_elements(b));
    }
}

/// The encoding of a run of entries is that of its front part followed by
/// that of the rest.
pub proof fn lemma_encode_entries_concat(
    a: Seq<(Seq<char>, FrameValue)>,
    b: Seq<(Seq<char>, FrameValue)>,
)
    ensures
        encode_entries(a + b) == encode_entries(a) + encode_entries(b),
    decreases a.len(),
{
    if a.len() == 0 {
        assert(a + b =~= b);
        assert(encode_entries(a) + encode_entries(b) =~= encode_entries(b));
    } else {
        lemma_encode_entries_concat(a.drop_first(), b);
        assert((a + b).drop_first() =~= a.drop_first() + b);
        let head = encode_line(SIMPLE_STRING, encode_utf8(a[0].0)) + encode_frame(a[0].1);
        assert(head + (encode_entries(a.drop_first()) + encode_entries(b)) =~= (head
            + encode_entries(a.drop_first())) + encode_entries(b));
    }
}

/// The encoding of a run of one value is the encoding of that value.
pub(crate) proof fn lemma_encode_elements_one(item: FrameValue)
    ensures
        encode_elements(seq![item]) == encode_frame(item),
{
    reveal_with_fuel(encode_elements, 2);
    assert(seq![item].drop_first() =~= Seq::<FrameValue>::empty());
    assert(encode_frame(item) + Seq::<u8>::empty() =~= encode_frame(item));
}

/// The encoding of a run of one entry is the key as a simple string and
/// then the value.
pub(crate) proof fn lemma_encode_entries_one(entry: (Seq<char>, FrameValue))
    ensures
        encode_entries(seq![entry]) == encode_line(SIMPLE_STRING, encode_utf8(entry.0))
            + encode_frame(entry.1),
{
    reveal_with_fuel(encode_entries, 2);
    assert(seq![entry].drop_first() =~= Seq::<(Seq<char>, FrameValue)>::empty());
    let head = encode_line(SIMPLE_STRING, encode_utf8(entry.0)) + encode_frame(entry.1);
    assert(head + Seq::<u8>::empty() =~= head);
}

/// Appends a line: the sigil, the payload and the line terminator.
fn write_line(out: &mut Vec<u8>, sigil: u8, payload: &[u8])
    ensures
        final(out)@ == old(out)@ + encode_line(sigil, payload@),
{
    out.push(sigil);
    out.extend_from_slice(payload);
    out.push(13);
    out.push(10);
    assert(out@ =~= old(out)@ + encode_line(sigil, payload@));
}

/// Appends a header line: the sigil, the digits of `n` and the line
/// terminator.
fn write_header(out: &mut Vec<u8>, sigil: u8, n: usize)
    ensures
        final(out)@ == old(out)@ + encode_line(sigil, decimal(n as nat)),
{
    out.push(sigil);
    push_decimal(out, n as u64);
    out.push(13);
    out.push(10);
    assert(out@ =~= old(out)@ + encode_line(sigil, decimal(n as nat)));
}

/// Appends the frames of an array or a set, in order.
fn write_elements(out: &mut Vec<u8>, frames: &Vec<RespFrame>)
    ensures
        final(out)@ == old(out)@ + encode_elements(frame_values(frames@)),
    decreases frames,
{
    let ghost items = frame_values(frames@);
    let n = frames.len();
    let mut i: usize = 0;
    assert(items.take(0) =~= Seq::<FrameValue>::empty());
    assert(out@ =~= old(out)@ + encode_elements(items.take(0)));
    while i < n
        invariant
            i <= n == frames@.len(),
            items == frame_values(frames@),
            out@ == old(out)@ + encode_elements(items.take(i as int)),
        decreases n - i,
    {
        write_frame(out, &frames[i]);
        proof {
            lemma_encode_elements_concat(items.take(i as int), seq![items[i as int]]);
            assert(items.take(i + 1) =~= items.take(i as int) + seq![items[i as int]]);
            lemma_encode_elements_one(items[i as int]);
            assert(out@ =~= old(out)@ + encode_elements(items.take(i + 1)));
        }
        i = i + 1;
    }
    assert(items.take(n as int) =~= items);
}

/// Appends the entries of a map, in order: each key as a simple string,
/// then its value.
fn write_entries(out: &mut Vec<u8>, entries: &Vec<(String, RespFrame)>)
    ensures
        final(out)@ == old(out)@ + encode_entries(entry_values(entries@)),
    decreases entries,
{
    let ghost items = entry_values(entries@);
    let n = entries.len();
    let mut i: usize = 0;
    assert(items.take(0) =~= Seq::<(Seq<char>, FrameValue)>::empty());
    assert(out@ =~= old(out)@ + encode_entries(items.take(0)));
    while i < n
        invariant
            i <= n == entries@.len(),
            items == entry_values(entries@),
            out@ == old(out)@ + encode_entries(items.take(i as int)),
        decreases n - i,
    {
        write_line(out, SIMPLE_STRING, entries[i].0.as_str().as_bytes());
        write_frame(out, &entries[i].1);
        proof {
            let one = seq![items[i as int]];
            lemma_encode_entries_concat(items.take(i as int), one);
            assert(items.take(i + 1) =~= items.take(i as int) + one);
            lemma_encode_entries_one(items[i as int]);
            assert(out@ =~= old(out)@ + encode_entries(items.take(i + 1)));
        }
        i = i + 1;
    }
    assert(items.take(n as int) =~= items);
}

/// Appends the encoding of `frame` to `out`.
pub fn write_frame(out: &mut Vec<u8>, frame: &RespFrame)
    ensures
        final(out)@ == old(out)@ + encode_frame(frame@),
    decreases frame,
{
    match frame {
        RespFrame::SimpleString(s) => {
            write_line(out, SIMPLE_STRING, s.0.as_str().as_bytes());
        },
        RespFrame::Error(e) => {
            write_line(out, ERROR, e.0.as_str().as_bytes());
        },
        RespFrame::Integer(v) => {
            out.push(INTEGER);
            push_signed_decimal(out, *v);
            out.push(13);
            out.push(10);
            assert(out@ =~= old(out)@ + encode_line(INTEGER, signed_decimal(*v as int)));
        },
        RespFrame::BulkString(b) => {
            write_header(out, BULK_STRING, b.0.len());
            out.extend_from_slice(b.0.as_slice());
            out.push(13);
            out.push(10);
            assert(out@ =~= old(out)@ + (encode_line(BULK_STRING, decimal(b.0@.len())) + b.0@
                + crlf()));
        },
        RespFrame::NullBulkString(_) => {
            let literal: [u8; 5] = [36, 45, 49, 13, 10];
            assert(literal@ =~= null_bulk_string_bytes());
            out.extend_from_slice(literal.as_slice());
        },
        RespFrame::Array(a) => {
            proof {
                lemma_array_view(*a);
            }
            write_header(out, ARRAY, a.0.len());
            write_elements(out, &a.0);
            assert(out@ =~= old(out)@ + (encode_line(ARRAY, decimal(a@.len())) + encode_elements(
                a@,
            )));
        },
        RespFrame::NullArray(_) => {
            let literal: [u8; 5] = [42, 45, 49, 13, 10];
            assert(literal@ =~= null_array_bytes());
            out.extend_from_slice(literal.as_slice());
        },
        RespFrame::Null(_) => {
            let literal: [u8; 3] = [95, 13, 10];
            assert(literal@ =~= null_bytes());
            out.extend_from_slice(literal.as_slice());
        },
        RespFrame::Boolean(b) => {
            if *b {
                let literal: [u8; 4] = [35, 116, 13, 10];
                assert(literal@ =~= true_bytes());
                out.extend_from_slice(literal.as_slice());
            } else {
                let literal: [u8; 4] = [35, 102, 13, 10];
                assert(literal@ =~= false_bytes());
                out.extend_from_slice(literal.as_slice());
            }
        },
        RespFrame::Double(d) => {
            write_line(out, DOUBLE, d.0.as_slice());
        },
        RespFrame::RespMap(m) => {
            proof {
                lemma_map_view(*m);
            }
            write_header(out, MAP, m.0.len());
            write_entries(out, &m.0);
            assert(out@ =~= old(out)@ + (encode_line(MAP, decimal(m@.len())) + encode_entries(
                m@,
            )));
        },
        RespFrame::RespSet(s) => {
            proof {
                lemma_set_view(*s);
            }
            write_header(out, SET, s.0.len());
            write_elements(out, &s.0);
            assert(out@ =~= old(out)@ + (encode_line(SET, decimal(s@.len())) + encode_elements(
                s@,
            )));
        },
    }
}

impl RespEncode for RespFrame {
    open spec fn encoding(self) -> Seq<u8> {
        encode_frame(self@)
    }

    fn encode(self) -> (out: Vec<u8>) {
        let mut out: Vec<u8> = Vec::new();
        write_frame(&mut out, &self);
        assert(Seq::<u8>::empty() + encode_frame(self@) =~= encode_frame(self@));
        out
    }
}

impl RespEncode for SimpleString {
    open spec fn encoding(self) -> Seq<u8> {
        encode_frame(FrameValue::SimpleString(self@))
    }

    fn encode(self) -> (out: Vec<u8>) {
        RespFrame::SimpleString(self).encode()
    }
}

impl RespEncode for SimpleError {
    open spec fn encoding(self) -> Seq<u8> {
        encode_frame(FrameValue::Error(self@))
    }

    fn encode(self) -> (out: Vec<u8>) {
        RespFrame::Error(self).encode()
    }
}

impl RespEncode for i64 {
    open spec fn encoding(self) -> Seq<u8> {
        encode_frame(FrameValue::Integer(self))
    }

    fn encode(self) -> (out: Vec<u8>) {
        RespFrame::Integer(self).encode()
    }
}

impl RespEncode for BulkString {
    open spec fn encoding(self) -> Seq<u8> {
        encode_frame(FrameValue::BulkString(self@))
    }

    fn encode(self) -> (out: Vec<u8>) {
        RespFrame::BulkString(self).encode()
    }
}

impl RespEncode for RespNullBulkString {
    open spec fn encoding(self) -> Seq<u8> {
        encode_frame(FrameValue::NullBulkString)
    }

    fn encode(self) -> (out: Vec<u8>) {
        RespFrame::NullBulkString(self).encode()
    }
}

impl RespEncode for RespArray {
    open spec fn encoding(self) -> Seq<u8> {
        encode_frame(FrameValue::Array(self@))
    }

    fn encode(self) -> (out: Vec<u8>) {
        proof {
            lemma_array_view(self);
        }
        RespFrame::Array(self).encode()
    }
}

impl RespEncode for RespNullArray {
    open spec fn encoding(self) -> Seq<u8> {
        encode_frame(FrameValue::NullArray)
    }

    fn encode(self) -> (out: Vec<u8>) {
        RespFrame::NullArray(self).encode()
    }
}

impl RespEncode for RespNull {
    open spec fn encoding(self) -> Seq<u8> {
        encode_frame(FrameValue::Null)
    }

    fn encode(self) -> (out: Vec<u8>) {
        RespFrame::Null(self).encode()
    }
}

impl RespEncode for bool {
    open spec fn encoding(self) -> Seq<u8> {
        encode_frame(FrameValue::Boolean(self))
    }

    fn encode(self) -> (out: Vec<u8>) {
        RespFrame::Boolean(self).encode()
    }
}

impl RespEncode for RespDouble {
    open spec fn encoding(self) -> Seq<u8> {
        encode_frame(FrameValue::Double(self@))
    }

    fn encode(self) -> (out: Vec<u8>) {
        RespFrame::Double(self).encode()
    }
}

impl RespEncode for RespMap {
    open spec fn encoding(self) -> Seq<u8> {
        encode_frame(FrameValue::RespMap(self@))
    }

    fn encode(self) -> (out: Vec<u8>)
        ensures
            keys_ascending(self@),
    {
        proof {
            use_type_invariant(&self);
            lemma_map_view(self);
        }
        RespFrame::RespMap(self).encode()
    }
}

impl RespEncode for RespSet {
    open spec fn encoding(self) -> Seq<u8> {
        encode_frame(FrameValue::RespSet(self@))
    }

    fn encode(self) -> (out: Vec<u8>) {
        proof {
            lemma_set_view(self);
        }
        RespFrame::RespSet(self).encode()
    }
}

} // verus!

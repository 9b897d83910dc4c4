//! What the encoder writes, the decoder reads back.

use super::decimal::{
    all_digits, decimal, is_digit, lemma_decimal_value, lemma_signed_literal_of_signed_decimal,
    lemma_unsigned_literal_of_decimal, signed_decimal,
};
use super::double::{digit_run, has_sign, is_float_literal, is_number};
use super::frame::{
    entry_values, frame_values, lemma_array_view, lemma_map_view, lemma_set_view, FrameValue,
    RespFrame,
};
use super::laws::{
    lemma_elements_stable, lemma_entries_stable, lemma_frame_cases, lemma_frame_stable,
    lemma_literal_differs,
};
use super::map::{entries_insert, key_lt, keys_ascending};
use super::text::lemma_lossy_text_of_encoded;
use super::util::{
    find_crlf, header_payload, is_crlf_at, lemma_first_crlf, lemma_first_crlf_none, length_header,
    no_crlf_before, simple_frame_end,
};
use super::wire::{
    crlf, elements_length, encode_elements, encode_entries, encode_frame, encode_line,
    lemma_parse_elements_step, lemma_parse_entries_step,
    entries_length, false_bytes, null_array_bytes, null_bulk_string_bytes, null_bytes,
    parse_elements, parse_entries, parse_frame, parse_map, parse_sequence, total_length, true_bytes,
    ARRAY, BULK_STRING, DOUBLE, ERROR, INTEGER, MAP, SET, SIMPLE_STRING,
};
use super::RespDecode;
use super::RespEncode;
use super::RespError;
use vstd::prelude::*;
use vstd::utf8::encode_utf8;

verus! {

/// No line terminator starts anywhere in `bytes`.
pub open spec fn crlf_free(bytes: Seq<u8>) -> bool {
    forall|i: int| !is_crlf_at(bytes, i)
}

/// No carriage return stands anywhere in `bytes`.
pub open spec fn cr_free(bytes: Seq<u8>) -> bool {
    forall|i: int| 0 <= i < bytes.len() ==> bytes[i] != 13
}

/// The values that the wire can carry as they are: text in a line holds no
/// line terminator, a double is a literal with its sign, the keys of a map
/// are in ascending order, and every count fits a `usize`. Every other
/// value is cut short or refused when it is read back.
pub open spec fn wire_safe(value: FrameValue) -> bool
    decreases value,
{
    match value {
        FrameValue::SimpleString(text) => crlf_free(encode_utf8(text)),
        FrameValue::Error(text) => crlf_free(encode_utf8(text)),
        FrameValue::Integer(_) => true,
        FrameValue::BulkString(bytes) => bytes.len() <= usize::MAX,
        FrameValue::NullBulkString => true,
        FrameValue::Array(items) => all_wire_safe(items),
        FrameValue::NullArray => true,
        FrameValue::Null => true,
        FrameValue::Boolean(_) => true,
        FrameValue::Double(literal) => is_float_literal(literal) && has_sign(literal),
        FrameValue::RespMap(entries) => entries.len() <= usize::MAX && keys_ascending(entries)
            && forall|i: int|
            0 <= i < entries.len() ==> crlf_free(encode_utf8(#[trigger] entries[i].0))
                && wire_safe(entries[i].1),
        FrameValue::RespSet(items) => all_wire_safe(items),
    }
}

/// A run of values that the wire can carry, short enough to be counted.
pub open spec fn all_wire_safe(items: Seq<FrameValue>) -> bool
    decreases items,
{
    items.len() <= usize::MAX && forall|i: int|
        0 <= i < items.len() ==> wire_safe(#[trigger] items[i])
}

/// A line ends where its payload ends, if the payload holds no line
/// terminator; and what stands between the sigil and that end is the
/// payload.
pub(crate) proof fn lemma_line_end(sigil: u8, payload: Seq<u8>, rest: Seq<u8>)
    requires
        sigil != 13,
        crlf_free(payload),
    ensures
        simple_frame_end(encode_line(sigil, payload) + rest, seq![sigil]) == Ok::<
            int,
            RespError,
        >(1 + payload.len() as int),
        header_payload(
            encode_line(sigil, payload) + rest,
            seq![sigil],
            1 + payload.len() as int,
        )
            == payload,
        (encode_line(sigil, payload) + rest).skip(payload.len() as int + 3) == rest,
        encode_line(sigil, payload).len() == payload.len() + 3,
        (encode_line(sigil, payload) + rest)[0] == sigil,
{
    let s = encode_line(sigil, payload) + rest;
    let end = 1 + payload.len() as int;
    assert(seq![sigil] =~= s.subrange(0, 1));
    assert(is_crlf_at(s, end));
    assert(no_crlf_before(s, end)) by {
        assert forall|j: int| 0 <= j < end implies !is_crlf_at(s, j) by {
            if j >= 1 && j + 1 < end {
                assert(s[j] == payload[j - 1]);
                assert(s[j + 1] == payload[j]);
                assert(!is_crlf_at(payload, j - 1));
            }
        }
    }
    lemma_first_crlf(s, end);
    assert(header_payload(s, seq![sigil], end) =~= payload);
    assert(s.skip(payload.len() as int + 3) =~= rest);
}

/// Digits hold no carriage return.
pub(crate) proof fn lemma_digits_cr_free(digits: Seq<u8>)
    requires
        all_digits(digits),
    ensures
        cr_free(digits),
        crlf_free(digits),
{
    assert forall|i: int| 0 <= i < digits.len() implies digits[i] != 13 by {
        assert(is_digit(digits[i]));
    }
}

/// The digits that follow `from` are digits, and they end inside `s`.
pub(crate) proof fn lemma_digit_run(s: Seq<u8>, from: int)
    requires
        0 <= from <= s.len(),
    ensures
        from <= digit_run(s, from) <= s.len(),
        forall|i: int| from <= i < digit_run(s, from) ==> is_digit(#[trigger] s[i]),
    decreases s.len() - from,
{
    if from < s.len() && is_digit(s[from]) {
        lemma_digit_run(s, from + 1);
    }
}

/// A number holds no carriage return.
pub(crate) proof fn lemma_number_cr_free(s: Seq<u8>)
    requires
        is_number(s),
    ensures
        cr_free(s),
{
    let int_end = digit_run(s, 0);
    lemma_digit_run(s, 0);
    let has_point = int_end < s.len() && s[int_end] == 46;
    let mantissa_end = if has_point {
        digit_run(s, int_end + 1)
    } else {
        int_end
    };
    if has_point {
        lemma_digit_run(s, int_end + 1);
    }
    if mantissa_end < s.len() {
        let signed = mantissa_end + 1 < s.len() && (s[mantissa_end + 1] == 43 || s[mantissa_end
            + 1] == 45);
        let exp_start = if signed {
            mantissa_end + 2
        } else {
            mantissa_end + 1
        };
        lemma_digit_run(s, exp_start);
    }
    assert forall|i: int| 0 <= i < s.len() implies s[i] != 13 by {
        if s[i] == 13 {
            assert(!is_digit(s[i]));
        }
    }
}

/// A floating point literal holds no carriage return.
pub(crate) proof fn lemma_float_literal_cr_free(s: Seq<u8>)
    requires
        is_float_literal(s),
    ensures
        cr_free(s),
{
    let body = if has_sign(s) {
        s.skip(1)
    } else {
        s
    };
    if is_number(body) {
        lemma_number_cr_free(body);
    }
    assert forall|i: int| 0 <= i < s.len() implies s[i] != 13 by {
        if has_sign(s) {
            if i > 0 {
                assert(s[i] == body[i - 1]);
            }
        }
    }
}

/// A key that is above all keys of a map goes behind them.
pub(crate) proof fn lemma_insert_last(
    m: Seq<(Seq<char>, FrameValue)>,
    key: Seq<char>,
    value: FrameValue,
)
    requires
        forall|j: int| 0 <= j < m.len() ==> key_lt(#[trigger] m[j].0, key),
    ensures
        entries_insert(m, key, value) == m.push((key, value)),
    decreases m.len(),
{
    if m.len() == 0 {
        assert(seq![(key, value)] =~= m.push((key, value)));
    } else {
        let rest = m.drop_first();
        assert forall|j: int| 0 <= j < rest.len() implies key_lt(#[trigger] rest[j].0, key) by {
            assert(rest[j] == m[j + 1]);
        }
        lemma_insert_last(rest, key, value);
        assert(key_lt(m[0].0, key));
        assert(seq![m[0]] + rest.push((key, value)) =~= m.push((key, value)));
    }
}

/// Reading the bytes of `value`, whatever follows them, gives `value` and
/// takes exactly these bytes.
pub open spec fn reads_back(value: FrameValue, rest: Seq<u8>) -> bool {
    parse_frame(encode_frame(value) + rest) == Ok::<(FrameValue, int), RespError>(
        (value, encode_frame(value).len() as int),
    )
}

/// A simple string and an error are read back.
proof fn lemma_text_reads_back(value: FrameValue, rest: Seq<u8>)
    requires
        value is SimpleString || value is Error,
        wire_safe(value),
    ensures
        reads_back(value, rest),
{
    let s = encode_frame(value) + rest;
    lemma_frame_cases(s);
    match value {
        FrameValue::SimpleString(text) => {
            lemma_line_end(SIMPLE_STRING, encode_utf8(text), rest);
            lemma_lossy_text_of_encoded(text);
        },
        FrameValue::Error(text) => {
            lemma_line_end(ERROR, encode_utf8(text), rest);
            lemma_lossy_text_of_encoded(text);
        },
        _ => {},
    }
}

/// An integer is read back.
proof fn lemma_integer_reads_back(v: i64, rest: Seq<u8>)
    ensures
        reads_back(FrameValue::Integer(v), rest),
{
    let payload = signed_decimal(v as int);
    let s = encode_frame(FrameValue::Integer(v)) + rest;
    lemma_frame_cases(s);
    let magnitude = if v < 0 {
        (-v) as nat
    } else {
        v as nat
    };
    lemma_decimal_value(magnitude);
    lemma_digits_cr_free(decimal(magnitude));
    assert(cr_free(payload)) by {
        assert forall|i: int| 0 <= i < payload.len() implies payload[i] != 13 by {
            if i > 0 {
                assert(payload[i] == decimal(magnitude)[i - 1]);
            }
        }
    }
    lemma_line_end(INTEGER, payload, rest);
    lemma_signed_literal_of_signed_decimal(v as int);
}

/// A double is read back.
proof fn lemma_double_reads_back(literal: Seq<u8>, rest: Seq<u8>)
    requires
        wire_safe(FrameValue::Double(literal)),
    ensures
        reads_back(FrameValue::Double(literal), rest),
{
    let s = encode_frame(FrameValue::Double(literal)) + rest;
    lemma_frame_cases(s);
    lemma_float_literal_cr_free(literal);
    lemma_line_end(DOUBLE, literal, rest);
}

/// The header line of a counted frame is read back as its count.
pub(crate) proof fn lemma_header_reads_back(sigil: u8, n: nat, rest: Seq<u8>)
    requires
        sigil != 13,
        n <= usize::MAX,
    ensures
        length_header(encode_line(sigil, decimal(n)) + rest, seq![sigil]) == Ok::<
            (int, usize),
            RespError,
        >((1 + decimal(n).len() as int, n as usize)),
        (encode_line(sigil, decimal(n)) + rest).skip(decimal(n).len() as int + 3) == rest,
        encode_line(sigil, decimal(n)).len() == decimal(n).len() + 3,
        (encode_line(sigil, decimal(n)) + rest)[0] == sigil,
        (encode_line(sigil, decimal(n)) + rest)[1] != 45,
{
    lemma_decimal_value(n);
    lemma_digits_cr_free(decimal(n));
    lemma_line_end(sigil, decimal(n), rest);
    lemma_unsigned_literal_of_decimal(n);
    let s = encode_line(sigil, decimal(n)) + rest;
    assert(s[1] == decimal(n)[0]);
    assert(is_digit(decimal(n)[0]));
}

/// A bulk string is read back.
proof fn lemma_bulk_string_reads_back(bytes: Seq<u8>, rest: Seq<u8>)
    requires
        wire_safe(FrameValue::BulkString(bytes)),
    ensures
        reads_back(FrameValue::BulkString(bytes), rest),
{
    let value = FrameValue::BulkString(bytes);
    let s = encode_frame(value) + rest;
    let line = encode_line(BULK_STRING, decimal(bytes.len()));
    let tail = bytes + crlf() + rest;
    assert(s =~= line + tail);
    lemma_header_reads_back(BULK_STRING, bytes.len(), tail);
    let end = 1 + decimal(bytes.len()).len() as int;
    assert(s.subrange(end + 2, end + 2 + bytes.len()) =~= bytes);
    lemma_literal_differs(s, s, null_bulk_string_bytes(), 2, 1);
    lemma_frame_cases(s);
}

/// The null bulk string, the null array, null and the booleans are read
/// back.
proof fn lemma_literal_reads_back(value: FrameValue, rest: Seq<u8>)
    requires
        value is NullBulkString || value is NullArray || value is Null || value is Boolean,
    ensures
        reads_back(value, rest),
{
    let s = encode_frame(value) + rest;
    lemma_frame_cases(s);
    match value {
        FrameValue::NullBulkString => {
            assert(null_bulk_string_bytes() =~= s.subrange(0, 5));
        },
        FrameValue::NullArray => {
            assert(null_array_bytes() =~= s.subrange(0, 5));
        },
        FrameValue::Null => {
            assert(null_bytes() =~= s.subrange(0, 3));
        },
        FrameValue::Boolean(b) => {
            if b {
                assert(true_bytes() =~= s.subrange(0, 4));
            } else {
                assert(false_bytes() =~= s.subrange(0, 4));
                assert(true_bytes()[1] != s.subrange(0, 4)[1]);
            }
        },
        _ => {},
    }
}

/// A run of values is read back, one after the other.
pub(crate) proof fn lemma_elements_read_back(items: Seq<FrameValue>, rest: Seq<u8>)
    requires
        all_wire_safe(items),
    ensures
        parse_elements(encode_elements(items) + rest, items.len() as int) == Ok::<
            (Seq<FrameValue>, int),
            RespError,
        >((items, encode_elements(items).len() as int)),
    decreases items, 0int,
{
    let s = encode_elements(items) + rest;
    if items.len() == 0 {
        reveal(parse_elements);
        assert(items =~= Seq::<FrameValue>::empty());
    } else {
        lemma_parse_elements_step(s, items.len() as int);
        let first = items[0];
        let tail = items.drop_first();
        let behind = encode_elements(tail) + rest;
        assert(s =~= encode_frame(first) + behind);
        lemma_round_trip(first, behind);
        let n = encode_frame(first).len() as int;
        lemma_frame_stable(s, s, first, n);
        assert(s.skip(n) =~= behind);
        assert(all_wire_safe(tail)) by {
            assert forall|i: int| 0 <= i < tail.len() implies wire_safe(#[trigger] tail[i]) by {
                assert(tail[i] == items[i + 1]);
            }
        }
        lemma_elements_read_back(tail, rest);
        assert(seq![first] + tail =~= items);
    }
}

/// A run of map entries in ascending key order is read back into the map
/// that it came from: the entries from `from` on, into the entries before.
pub(crate) proof fn lemma_entries_read_back(
    entries: Seq<(Seq<char>, FrameValue)>,
    from: int,
    rest: Seq<u8>,
)
    requires
        wire_safe(FrameValue::RespMap(entries)),
        0 <= from <= entries.len(),
    ensures
        parse_entries(
            encode_entries(entries.skip(from)) + rest,
            entries.len() - from,
            entries.take(from),
        ) == Ok::<(Seq<(Seq<char>, FrameValue)>, int), RespError>(
            (entries, encode_entries(entries.skip(from)).len() as int),
        ),
    decreases entries, entries.len() - from,
{
    let left = entries.skip(from);
    let s = encode_entries(left) + rest;
    if from == entries.len() {
        reveal(parse_entries);
        assert(entries.take(from) =~= entries);
    } else {
        lemma_parse_entries_step(s, entries.len() - from, entries.take(from));
        let (key, value) = entries[from];
        assert(left[0] == entries[from]);
        assert(left.drop_first() =~= entries.skip(from + 1));
        let key_line = encode_line(SIMPLE_STRING, encode_utf8(key));
        let tail = encode_entries(entries.skip(from + 1)) + rest;
        let behind = encode_frame(value) + tail;
        assert(s =~= key_line + behind);
        assert(crlf_free(encode_utf8(entries[from].0)));
        lemma_line_end(SIMPLE_STRING, encode_utf8(key), behind);
        lemma_lossy_text_of_encoded(key);
        let key_len = key_line.len() as int;
        assert(s.skip(key_len) =~= behind);
        assert(wire_safe(entries[from].1));
        lemma_round_trip(value, tail);
        let value_len = encode_frame(value).len() as int;
        lemma_frame_stable(behind, behind, value, value_len);
        assert(behind.skip(value_len) =~= tail);
        let before = entries.take(from);
        assert forall|j: int| 0 <= j < before.len() implies key_lt(#[trigger] before[j].0, key) by {
            assert(before[j] == entries[j]);
        }
        lemma_insert_last(before, key, value);
        assert(before.push((key, value)) =~= entries.take(from + 1));
        lemma_entries_read_back(entries, from + 1, rest);
    }
}

/// The array, or the set, of the given items.
pub open spec fn sequence_value(sigil: u8, items: Seq<FrameValue>) -> FrameValue {
    if sigil == ARRAY {
        FrameValue::Array(items)
    } else {
        FrameValue::RespSet(items)
    }
}

/// An array and a set are read back.
proof fn lemma_sequence_reads_back(sigil: u8, items: Seq<FrameValue>, rest: Seq<u8>)
    requires
        sigil == ARRAY || sigil == SET,
        all_wire_safe(items),
    ensures
        reads_back(sequence_value(sigil, items), rest),
    decreases items, 1int,
{
    let value = sequence_value(sigil, items);
    let s = encode_frame(value) + rest;
    let body = encode_elements(items) + rest;
    assert(s =~= encode_line(sigil, decimal(items.len())) + body);
    lemma_header_reads_back(sigil, items.len(), body);
    let end = 1 + decimal(items.len()).len() as int;
    lemma_elements_read_back(items, rest);
    let used = encode_elements(items).len() as int;
    lemma_elements_stable(body, body, items.len() as int, items, used);
    assert(parse_sequence(s, seq![sigil]) == Ok::<(Seq<FrameValue>, int), RespError>(
        (items, end + 2 + used),
    )) by {
        reveal(parse_sequence);
        reveal(parse_elements);
        reveal(total_length);
        reveal(elements_length);
    }
    if sigil == ARRAY {
        lemma_literal_differs(s, s, null_array_bytes(), 2, 1);
    }
    lemma_frame_cases(s);
}

/// A map is read back.
proof fn lemma_map_reads_back(entries: Seq<(Seq<char>, FrameValue)>, rest: Seq<u8>)
    requires
        wire_safe(FrameValue::RespMap(entries)),
    ensures
        reads_back(FrameValue::RespMap(entries), rest),
    decreases FrameValue::RespMap(entries), 0int,
{
    reveal(parse_map);
    reveal(parse_entries);
    reveal(total_length);
    reveal(entries_length);
    assert(seq![MAP][0] != seq![ARRAY][0]);
    assert(seq![MAP][0] != seq![SET][0]);
    let value = FrameValue::RespMap(entries);
    let s = encode_frame(value) + rest;
    let body = encode_entries(entries) + rest;
    assert(s =~= encode_line(MAP, decimal(entries.len())) + body);
    lemma_header_reads_back(MAP, entries.len(), body);
    assert(entries.skip(0) =~= entries);
    assert(entries.take(0) =~= Seq::<(Seq<char>, FrameValue)>::empty());
    lemma_entries_read_back(entries, 0, rest);
    let used = encode_entries(entries).len() as int;
    lemma_entries_stable(body, body, entries.len() as int, Seq::empty(), entries, used);
    lemma_frame_cases(s);
}

/// Round trip. Every value that the wire can carry as it is comes back
/// from its encoding: reading the bytes that the encoder writes for it,
/// whatever follows them in the buffer, gives the value again and takes
/// exactly these bytes.
pub proof fn lemma_round_trip(value: FrameValue, rest: Seq<u8>)
    requires
        wire_safe(value),
    ensures
        reads_back(value, rest),
    decreases value, 1int,
{
    match value {
        FrameValue::SimpleString(_) => lemma_text_reads_back(value, rest),
        FrameValue::Error(_) => lemma_text_reads_back(value, rest),
        FrameValue::Integer(v) => lemma_integer_reads_back(v, rest),
        FrameValue::BulkString(bytes) => lemma_bulk_string_reads_back(bytes, rest),
        FrameValue::NullBulkString => lemma_literal_reads_back(value, rest),
        FrameValue::Array(items) => lemma_sequence_reads_back(ARRAY, items, rest),
        FrameValue::NullArray => lemma_literal_reads_back(value, rest),
        FrameValue::Null => lemma_literal_reads_back(value, rest),
        FrameValue::Boolean(_) => lemma_literal_reads_back(value, rest),
        FrameValue::Double(literal) => lemma_double_reads_back(literal, rest),
        FrameValue::RespMap(entries) => lemma_map_reads_back(entries, rest),
        FrameValue::RespSet(items) => lemma_sequence_reads_back(SET, items, rest),
    }
}

/// Round trip, in the words of the codec: what `RespFrame::decode` reads
/// off a buffer that begins with what `encode` wrote for a frame is that
/// frame, and it takes exactly the bytes written. As `encode` writes what
/// `encoding` says, it also writes the same bytes every time.
pub proof fn lemma_decode_of_encode(frame: RespFrame, rest: Seq<u8>)
    requires
        wire_safe(frame@),
    ensures
        <RespFrame as RespDecode>::parsed(frame.encoding() + rest) == Ok::<
            (FrameValue, int),
            RespError,
        >((frame@, frame.encoding().len() as int)),
{
    lemma_round_trip(frame@, rest);
}

/// Whether text holds no line terminator.
fn text_is_crlf_free(text: &str) -> (r: bool)
    ensures
        r == crlf_free(encode_utf8(text@)),
{
    let bytes = text.as_bytes();
    proof {
        lemma_first_crlf_none(bytes@);
    }
    find_crlf(bytes, 1).is_none()
}

/// Whether each of `frames` is a value that the wire can carry as it is.
fn all_are_wire_safe(frames: &Vec<RespFrame>) -> (r: bool)
    ensures
        r == all_wire_safe(frame_values(frames@)),
    decreases frames,
{
    let ghost items = frame_values(frames@);
    let n = frames.len();
    let mut i: usize = 0;
    while i < n
        invariant
            i <= n == frames@.len(),
            items == frame_values(frames@),
            forall|j: int| 0 <= j < i ==> wire_safe(#[trigger] items[j]),
        decreases n - i,
    {
        if !is_wire_safe(&frames[i]) {
            assert(!wire_safe(items[i as int]));
            return false;
        }
        i = i + 1;
    }
    true
}

/// Whether each key of `entries` is free of line terminators and each
/// value is one that the wire can carry as it is.
fn all_entries_are_wire_safe(entries: &Vec<(String, RespFrame)>) -> (r: bool)
    ensures
        r == forall|j: int|
            0 <= j < entries@.len() ==> crlf_free(
                encode_utf8((#[trigger] entry_values(entries@)[j]).0),
            ) && wire_safe(entry_values(entries@)[j].1),
    decreases entries,
{
    let ghost items = entry_values(entries@);
    let n = entries.len();
    let mut i: usize = 0;
    while i < n
        invariant
            i <= n == entries@.len(),
            items == entry_values(entries@),
            forall|j: int|
                0 <= j < i ==> crlf_free(encode_utf8((#[trigger] items[j]).0)) && wire_safe(
                    items[j].1,
                ),
        decreases n - i,
    {
        if !text_is_crlf_free(entries[i].0.as_str()) || !is_wire_safe(&entries[i].1) {
            assert(!(crlf_free(encode_utf8(items[i as int].0)) && wire_safe(items[i as int].1)));
            return false;
        }
        i = i + 1;
    }
    true
}

/// Whether `frame` is a value that the wire can carry as it is, so that
/// decoding what it encodes to gives it back. For a frame that a program
/// holds this comes down to its texts: none of its simple strings, errors
/// and map keys may hold a line terminator.
pub fn is_wire_safe(frame: &RespFrame) -> (r: bool)
    ensures
        r == wire_safe(frame@),
    decreases frame,
{
    match frame {
        RespFrame::SimpleString(s) => {
            let safe = text_is_crlf_free(s.as_str());
            assert(safe == wire_safe(FrameValue::SimpleString(s@)));
            safe
        },
        RespFrame::Error(e) => {
            let safe = text_is_crlf_free(e.as_str());
            assert(safe == wire_safe(FrameValue::Error(e@)));
            safe
        },
        RespFrame::Integer(_) => true,
        RespFrame::BulkString(b) => {
            let n = b.len();
            assert(wire_safe(FrameValue::BulkString(b@)));
            true
        },
        RespFrame::NullBulkString(_) => true,
        RespFrame::Array(a) => {
            proof {
                lemma_array_view(*a);
            }
            let safe = all_are_wire_safe(&a.0);
            assert(safe == wire_safe(FrameValue::Array(a@)));
            safe
        },
        RespFrame::NullArray(_) => true,
        RespFrame::Null(_) => true,
        RespFrame::Boolean(_) => true,
        RespFrame::Double(d) => {
            let literal = d.literal();
            assert(wire_safe(FrameValue::Double(d@)));
            true
        },
        RespFrame::RespMap(m) => {
            proof {
                use_type_invariant(m);
                lemma_map_view(*m);
            }
            let n = m.0.len();
            let safe = all_entries_are_wire_safe(&m.0);
            assert(safe == wire_safe(FrameValue::RespMap(m@)));
            safe
        },
        RespFrame::RespSet(s) => {
            proof {
                lemma_set_view(*s);
            }
            let safe = all_are_wire_safe(&s.0);
            assert(safe == wire_safe(FrameValue::RespSet(s@)));
            safe
        },
    }
}

} // verus!

//! The wire grammar, as mathematics: what a run of bytes decodes to, how
//! long the frame at its front is, and what bytes a value encodes to.

use super::decimal::{decimal, i64_literal, signed_decimal};
use super::double::{is_float_literal, with_sign};
use super::frame::FrameValue;
use super::map::entries_insert;
use super::text::lossy_text;
use super::util::{fixed_literal, header_payload, length_header, simple_frame_end};
use super::RespError;
use vstd::prelude::*;
use vstd::utf8::encode_utf8;

verus! {

/// `+`, the sigil of a simple string.
pub const SIMPLE_STRING: u8 = 43;

/// `-`, the sigil of an error.
pub const ERROR: u8 = 45;

/// `:`, the sigil of an integer.
pub const INTEGER: u8 = 58;

/// `$`, the sigil of a bulk string and of the null bulk string.
pub const BULK_STRING: u8 = 36;

/// `*`, the sigil of an array and of the null array.
pub const ARRAY: u8 = 42;

/// `_`, the sigil of null.
pub const NULL: u8 = 95;

/// `#`, the sigil of a boolean.
pub const BOOLEAN: u8 = 35;

/// `,`, the sigil of a double.
pub const DOUBLE: u8 = 44;

/// `%`, the sigil of a map.
pub const MAP: u8 = 37;

/// `~`, the sigil of a set.
pub const SET: u8 = 126;

/// The line terminator.
pub open spec fn crlf() -> Seq<u8> {
    seq![13u8, 10u8]
}

/// `$-1` and its line terminator: the null bulk string.
pub open spec fn null_bulk_string_bytes() -> Seq<u8> {
    seq![36u8, 45u8, 49u8, 13u8, 10u8]
}

/// `*-1` and its line terminator: the null array.
pub open spec fn null_array_bytes() -> Seq<u8> {
    seq![42u8, 45u8, 49u8, 13u8, 10u8]
}

/// `_` and its line terminator: null.
pub open spec fn null_bytes() -> Seq<u8> {
    seq![95u8, 13u8, 10u8]
}

/// `#t` and its line terminator: true.
pub open spec fn true_bytes() -> Seq<u8> {
    seq![35u8, 116u8, 13u8, 10u8]
}

/// `#f` and its line terminator: false.
pub open spec fn false_bytes() -> Seq<u8> {
    seq![35u8, 102u8, 13u8, 10u8]
}

/// What a successful read gives: the value and the number of bytes it took.
pub type Parsed<T> = Result<(T, int), RespError>;

/// What lies behind the first `used` bytes of `s`. A frame takes at least
/// one byte and no more than there are; for any other `used` nothing is
/// left to read.
pub open spec fn remainder(s: Seq<u8>, used: int) -> Seq<u8> {
    if 0 < used <= s.len() {
        s.skip(used)
    } else {
        Seq::empty()
    }
}

/// A length as a program can hold it: a frame too long for the address
/// space never completes.
pub open spec fn clip_length(length: Result<int, RespError>) -> Result<int, RespError> {
    match length {
        Ok(n) => if n > usize::MAX {
            Err(RespError::NotComplete)
        } else {
            Ok(n)
        },
        Err(e) => Err(e),
    }
}

/// What has been read so far, `done` values over `used` bytes, followed
/// by what reading on gives.
pub open spec fn read_on<T>(done: Seq<T>, used: int, more: Parsed<Seq<T>>) -> Parsed<Seq<T>> {
    match more {
        Err(e) => Err(e),
        Ok((rest, n)) => Ok((done + rest, used + n)),
    }
}

/// What reading on gives, counted from `used` bytes further to the front.
pub open spec fn shift_on<T>(used: int, more: Parsed<T>) -> Parsed<T> {
    match more {
        Err(e) => Err(e),
        Ok((value, n)) => Ok((value, used + n)),
    }
}

/// Reading one more value and then the rest is reading the rest behind one
/// more value.
pub(crate) proof fn lemma_read_on_step<T>(
    done: Seq<T>,
    used: int,
    first: T,
    first_len: int,
    more: Parsed<Seq<T>>,
)
    ensures
        read_on(done, used, read_on(seq![first], first_len, more)) == read_on(
            done.push(first),
            used + first_len,
            more,
        ),
{
    match more {
        Err(e) => {},
        Ok((rest, n)) => {
            assert(done + (seq![first] + rest) =~= done.push(first) + rest);
        },
    }
}

/// A length measured so far, followed by what measuring on gives.
pub open spec fn measure_on(used: int, more: Result<int, RespError>) -> Result<int, RespError> {
    match more {
        Err(e) => Err(e),
        Ok(n) => Ok(used + n),
    }
}

// ---------------------------------------------------------------------
// Lengths
// ---------------------------------------------------------------------
/// The length of the bulk string at the front of `s`: its header, the
/// announced bytes and their line terminator. The bytes need not all be
/// there yet.
pub open spec fn bulk_string_length(s: Seq<u8>) -> Result<int, RespError> {
    match length_header(s, seq![BULK_STRING]) {
        Err(e) => Err(e),
        Ok((end, n)) => Ok(end + 2 + n + 2),
    }
}

/// The length of the simple frame at the front of `s`: up to and including
/// its line terminator.
pub open spec fn simple_frame_length(s: Seq<u8>, sigil: u8) -> Result<int, RespError> {
    match simple_frame_end(s, seq![sigil]) {
        Err(e) => Err(e),
        Ok(end) => Ok(end + 2),
    }
}

/// The number of bytes that the frame at the front of `s` will occupy once
/// it has been received in full, nested frames included.
///
/// A composite is measured through its elements, so all of them but for
/// the tail of a last bulk string must be there already; where they are
/// not, the answer is `NotComplete`.
#[verifier::opaque]
pub open spec fn frame_length(s: Seq<u8>) -> Result<int, RespError>
    decreases s.len(), 2int,
{
    if s.len() == 0 {
        Err(RespError::NotComplete)
    } else if s[0] == ARRAY {
        if null_array_bytes().is_prefix_of(s) {
            Ok(5)
        } else {
            composite_length(s, seq![ARRAY])
        }
    } else if s[0] == SET {
        composite_length(s, seq![SET])
    } else if s[0] == MAP {
        composite_length(s, seq![MAP])
    } else if s[0] == BULK_STRING {
        if null_bulk_string_bytes().is_prefix_of(s) {
            Ok(5)
        } else {
            bulk_string_length(s)
        }
    } else if s[0] == INTEGER || s[0] == SIMPLE_STRING || s[0] == ERROR || s[0] == DOUBLE {
        simple_frame_length(s, s[0])
    } else if s[0] == BOOLEAN {
        Ok(4)
    } else if s[0] == NULL {
        Ok(3)
    } else {
        Err(RespError::InvalidFrameType)
    }
}

/// The length of the array, set or map at the front of `s`, whose sigil is
/// the one byte of `prefix`.
pub open spec fn composite_length(s: Seq<u8>, prefix: Seq<u8>) -> Result<int, RespError>
    decreases s.len(), 1int,
{
    match length_header(s, prefix) {
        Err(e) => Err(e),
        Ok((end, n)) => total_length(s, end, n as int, prefix),
    }
}

/// The length of a frame whose header line ends at `end` and announces
/// `count`: for an array or a set the header and `count` frames, for a map
/// the header and `count` pairs of a simple string and a frame, for any
/// other prefix `count` bytes and a line terminator.
#[verifier::opaque]
pub open spec fn total_length(s: Seq<u8>, end: int, count: int, prefix: Seq<u8>) -> Result<
    int,
    RespError,
>
    decreases s.len(), 0int,
{
    if end < 0 || end + 2 > s.len() {
        Err(RespError::NotComplete)
    } else if prefix == seq![ARRAY] || prefix == seq![SET] {
        match elements_length(s.skip(end + 2), count) {
            Err(e) => Err(e),
            Ok(body) => Ok(end + 2 + body),
        }
    } else if prefix == seq![MAP] {
        match entries_length(s.skip(end + 2), count) {
            Err(e) => Err(e),
            Ok(body) => Ok(end + 2 + body),
        }
    } else {
        Ok(count + 2)
    }
}

/// The length of `count` frames in a row, all of which lie in `s` in full.
#[verifier::opaque]
pub open spec fn elements_length(s: Seq<u8>, count: int) -> Result<int, RespError>
    decreases s.len(), count + 3,
{
    if count <= 0 {
        Ok(0)
    } else {
        match frame_length(s) {
            Err(e) => Err(e),
            Ok(first) => if first < 0 || first > s.len() {
                Err(RespError::NotComplete)
            } else {
                match elements_length(s.skip(first), count - 1) {
                    Err(e) => Err(e),
                    Ok(rest) => Ok(first + rest),
                }
            },
        }
    }
}

/// The length of `count` map entries in a row, all of which lie in `s` in
/// full: each a simple string, the key, and a frame, the value.
#[verifier::opaque]
pub open spec fn entries_length(s: Seq<u8>, count: int) -> Result<int, RespError>
    decreases s.len(), count + 3,
{
    if count <= 0 {
        Ok(0)
    } else {
        match simple_frame_length(s, SIMPLE_STRING) {
            Err(e) => Err(e),
            Ok(key) => if key <= 0 || key > s.len() {
                Err(RespError::NotComplete)
            } else {
                match frame_length(s.skip(key)) {
                    Err(e) => Err(e),
                    Ok(value) => if value < 0 || key + value > s.len() {
                        Err(RespError::NotComplete)
                    } else {
                        match entries_length(s.skip(key + value), count - 1) {
                            Err(e) => Err(e),
                            Ok(rest) => Ok(key + value + rest),
                        }
                    },
                }
            },
        }
    }
}

// ---------------------------------------------------------------------
// Decoding
// ---------------------------------------------------------------------
/// The simple string at the front of `s`.
pub open spec fn parse_simple_string(s: Seq<u8>) -> Parsed<Seq<char>> {
    match simple_frame_end(s, seq![SIMPLE_STRING]) {
        Err(e) => Err(e),
        Ok(end) => Ok((lossy_text(header_payload(s, seq![SIMPLE_STRING], end)), end + 2)),
    }
}

/// The error at the front of `s`.
pub open spec fn parse_simple_error(s: Seq<u8>) -> Parsed<Seq<char>> {
    match simple_frame_end(s, seq![ERROR]) {
        Err(e) => Err(e),
        Ok(end) => Ok((lossy_text(header_payload(s, seq![ERROR], end)), end + 2)),
    }
}

/// The integer at the front of `s`. A payload that is no literal of an
/// `i64` is a fatal error.
pub open spec fn parse_integer(s: Seq<u8>) -> Parsed<i64> {
    match simple_frame_end(s, seq![INTEGER]) {
        Err(e) => Err(e),
        Ok(end) => match i64_literal(header_payload(s, seq![INTEGER], end)) {
            Some(v) => Ok((v, end + 2)),
            None => Err(RespError::ParseIntError),
        },
    }
}

/// The double at the front of `s`, as its literal with the sign written
/// out. A payload that is no floating point literal is a fatal error.
pub open spec fn parse_double(s: Seq<u8>) -> Parsed<Seq<u8>> {
    match simple_frame_end(s, seq![DOUBLE]) {
        Err(e) => Err(e),
        Ok(end) => {
            let payload = header_payload(s, seq![DOUBLE], end);
            if is_float_literal(payload) {
                Ok((with_sign(payload), end + 2))
            } else {
                Err(RespError::ParseFloatError)
            }
        },
    }
}

/// The bulk string at the front of `s`: the announced number of bytes
/// behind the header. The two bytes behind them are taken for the line
/// terminator without being looked at.
pub open spec fn parse_bulk_string(s: Seq<u8>) -> Parsed<Seq<u8>> {
    match length_header(s, seq![BULK_STRING]) {
        Err(e) => Err(e),
        Ok((end, n)) => if s.len() < end + 2 + n + 2 {
            Err(RespError::NotComplete)
        } else {
            Ok((s.subrange(end + 2, end + 2 + n), end + 2 + n + 2))
        },
    }
}

/// A fixed literal at the front of `s`, taken for `value`.
pub open spec fn parse_literal<T>(s: Seq<u8>, literal: Seq<u8>, value: T) -> Parsed<T> {
    match fixed_literal(s, literal) {
        Err(e) => Err(e),
        Ok(_) => Ok((value, literal.len() as int)),
    }
}

/// The boolean at the front of `s`: `#t` or `#f`.
pub open spec fn parse_boolean(s: Seq<u8>) -> Parsed<bool> {
    match fixed_literal(s, true_bytes()) {
        Ok(_) => Ok((true, 4)),
        Err(RespError::NotComplete) => Err(RespError::NotComplete),
        Err(_) => parse_literal(s, false_bytes(), false),
    }
}

/// The frame at the front of `s`, chosen by its first byte.
///
/// The null bulk string and the null array are fixed literals, which are
/// looked for before the length-prefixed form that shares their sigil.
#[verifier::opaque]
pub open spec fn parse_frame(s: Seq<u8>) -> Parsed<FrameValue>
    decreases s.len(), 2int,
{
    if s.len() == 0 {
        Err(RespError::NotComplete)
    } else if s[0] == SIMPLE_STRING {
        match parse_simple_string(s) {
            Err(e) => Err(e),
            Ok((text, used)) => Ok((FrameValue::SimpleString(text), used)),
        }
    } else if s[0] == ERROR {
        match parse_simple_error(s) {
            Err(e) => Err(e),
            Ok((text, used)) => Ok((FrameValue::Error(text), used)),
        }
    } else if s[0] == INTEGER {
        match parse_integer(s) {
            Err(e) => Err(e),
            Ok((v, used)) => Ok((FrameValue::Integer(v), used)),
        }
    } else if s[0] == BULK_STRING {
        if null_bulk_string_bytes().is_prefix_of(s) {
            Ok((FrameValue::NullBulkString, 5))
        } else {
            match parse_bulk_string(s) {
                Err(e) => Err(e),
                Ok((bytes, used)) => Ok((FrameValue::BulkString(bytes), used)),
            }
        }
    } else if s[0] == ARRAY {
        if null_array_bytes().is_prefix_of(s) {
            Ok((FrameValue::NullArray, 5))
        } else {
            match parse_array(s) {
                Err(e) => Err(e),
                Ok((items, used)) => Ok((FrameValue::Array(items), used)),
            }
        }
    } else if s[0] == NULL {
        parse_literal(s, null_bytes(), FrameValue::Null)
    } else if s[0] == BOOLEAN {
        match parse_boolean(s) {
            Err(e) => Err(e),
            Ok((b, used)) => Ok((FrameValue::Boolean(b), used)),
        }
    } else if s[0] == DOUBLE {
        match parse_double(s) {
            Err(e) => Err(e),
            Ok((literal, used)) => Ok((FrameValue::Double(literal), used)),
        }
    } else if s[0] == MAP {
        match parse_map(s) {
            Err(e) => Err(e),
            Ok((entries, used)) => Ok((FrameValue::RespMap(entries), used)),
        }
    } else if s[0] == SET {
        match parse_set(s) {
            Err(e) => Err(e),
            Ok((items, used)) => Ok((FrameValue::RespSet(items), used)),
        }
    } else {
        Err(RespError::InvalidFrameType)
    }
}

/// The array at the front of `s`. Nothing is read until the whole array
/// has been measured and found to be there.
pub open spec fn parse_array(s: Seq<u8>) -> Parsed<Seq<FrameValue>>
    decreases s.len(), 1int,
{
    parse_sequence(s, seq![ARRAY])
}

/// The set at the front of `s`. Nothing is read until the whole set has
/// been measured and found to be there.
pub open spec fn parse_set(s: Seq<u8>) -> Parsed<Seq<FrameValue>>
    decreases s.len(), 1int,
{
    parse_sequence(s, seq![SET])
}

/// The array or set at the front of `s`, whose sigil is the one byte of
/// `prefix`: the header, then as many frames as it announces.
#[verifier::opaque]
pub open spec fn parse_sequence(s: Seq<u8>, prefix: Seq<u8>) -> Parsed<Seq<FrameValue>>
    decreases s.len(), 0int,
{
    match length_header(s, prefix) {
        Err(e) => Err(e),
        Ok((end, n)) => match total_length(s, end, n as int, prefix) {
            Err(e) => Err(e),
            Ok(total) => if s.len() < total {
                Err(RespError::NotComplete)
            } else {
                match parse_elements(remainder(s, end + 2), n as int) {
                    Err(e) => Err(e),
                    Ok((items, used)) => Ok((items, end + 2 + used)),
                }
            },
        },
    }
}

/// The map at the front of `s`: the header, then as many pairs of a simple
/// string and a frame as it announces, put into a map one after the other.
/// Nothing is read until the whole map has been measured and found to be
/// there.
#[verifier::opaque]
pub open spec fn parse_map(s: Seq<u8>) -> Parsed<Seq<(Seq<char>, FrameValue)>>
    decreases s.len(), 1int,
{
    match length_header(s, seq![MAP]) {
        Err(e) => Err(e),
        Ok((end, n)) => match total_length(s, end, n as int, seq![MAP]) {
            Err(e) => Err(e),
            Ok(total) => if s.len() < total {
                Err(RespError::NotComplete)
            } else {
                match parse_entries(remainder(s, end + 2), n as int, Seq::empty()) {
                    Err(e) => Err(e),
                    Ok((entries, used)) => Ok((entries, end + 2 + used)),
                }
            },
        },
    }
}

/// `count` frames in a row at the front of `s`.
#[verifier::opaque]
pub open spec fn parse_elements(s: Seq<u8>, count: int) -> Parsed<Seq<FrameValue>>
    decreases s.len(), count + 3,
{
    if count <= 0 {
        Ok((Seq::empty(), 0))
    } else {
        match parse_frame(s) {
            Err(e) => Err(e),
            Ok((first, used)) => match parse_elements(remainder(s, used), count - 1) {
                Err(e) => Err(e),
                Ok((rest, more)) => Ok((seq![first] + rest, used + more)),
            },
        }
    }
}

/// `count` map entries in a row at the front of `s`, put into `map` one
/// after the other, so that of two entries with one key the later stays.
#[verifier::opaque]
pub open spec fn parse_entries(
    s: Seq<u8>,
    count: int,
    map: Seq<(Seq<char>, FrameValue)>,
) -> Parsed<Seq<(Seq<char>, FrameValue)>>
    decreases s.len(), count + 3,
{
    if count <= 0 {
        Ok((map, 0))
    } else {
        match parse_simple_string(s) {
            Err(e) => Err(e),
            Ok((key, key_len)) => match parse_frame(remainder(s, key_len)) {
                Err(e) => Err(e),
                Ok((value, value_len)) => match parse_entries(
                    remainder(remainder(s, key_len), value_len),
                    count - 1,
                    entries_insert(map, key, value),
                ) {
                    Err(e) => Err(e),
                    Ok((entries, more)) => Ok((entries, key_len + value_len + more)),
                },
            },
        }
    }
}

/// One step of reading map entries: the key, the value, and the entries
/// behind them read into the map that has the key and the value put in.
pub(crate) proof fn lemma_parse_entries_step(
    s: Seq<u8>,
    count: int,
    map: Seq<(Seq<char>, FrameValue)>,
)
    requires
        count > 0,
    ensures
        parse_entries(s, count, map) == match parse_simple_string(s) {
            Err(e) => Err(e),
            Ok((key, key_len)) => match parse_frame(remainder(s, key_len)) {
                Err(e) => Err(e),
                Ok((value, value_len)) => shift_on(
                    key_len + value_len,
                    parse_entries(
                        remainder(remainder(s, key_len), value_len),
                        count - 1,
                        entries_insert(map, key, value),
                    ),
                ),
            },
        },
{
    reveal(parse_entries);
    reveal(parse_frame);
}

/// One step of reading a run of frames: the first frame, and the frames
/// behind it.
pub(crate) proof fn lemma_parse_elements_step(s: Seq<u8>, count: int)
    requires
        count > 0,
    ensures
        parse_elements(s, count) == match parse_frame(s) {
            Err(e) => Err(e),
            Ok((first, used)) => read_on(
                seq![first],
                used,
                parse_elements(remainder(s, used), count - 1),
            ),
        },
{
    reveal(parse_elements);
    reveal(parse_frame);
}

// ---------------------------------------------------------------------
// Encoding
// ---------------------------------------------------------------------
/// A line: the sigil, the payload and the line terminator.
pub open spec fn encode_line(sigil: u8, payload: Seq<u8>) -> Seq<u8> {
    seq![sigil] + payload + crlf()
}

/// The one byte sequence that stands for `value` on the wire.
pub open spec fn encode_frame(value: FrameValue) -> Seq<u8>
    decreases value,
{
    match value {
        FrameValue::SimpleString(text) => encode_line(SIMPLE_STRING, encode_utf8(text)),
        FrameValue::Error(text) => encode_line(ERROR, encode_utf8(text)),
        FrameValue::Integer(v) => encode_line(INTEGER, signed_decimal(v as int)),
        FrameValue::BulkString(bytes) => encode_line(BULK_STRING, decimal(bytes.len())) + bytes
            + crlf(),
        FrameValue::NullBulkString => null_bulk_string_bytes(),
        FrameValue::Array(items) => encode_line(ARRAY, decimal(items.len())) + encode_elements(
            items,
        ),
        FrameValue::NullArray => null_array_bytes(),
        FrameValue::Null => null_bytes(),
        FrameValue::Boolean(b) => if b {
            true_bytes()
        } else {
            false_bytes()
        },
        FrameValue::Double(literal) => encode_line(DOUBLE, literal),
        FrameValue::RespMap(entries) => encode_line(MAP, decimal(entries.len())) + encode_entries(
            entries,
        ),
        FrameValue::RespSet(items) => encode_line(SET, decimal(items.len())) + encode_elements(
            items,
        ),
    }
}

/// The encodings of `items`, one behind the other.
pub open spec fn encode_elements(items: Seq<FrameValue>) -> Seq<u8>
    decreases items, items.len(),
{
    if items.len() == 0 {
        Seq::empty()
    } else {
        encode_frame(items[0]) + encode_elements(items.drop_first())
    }
}

/// The encodings of `entries`, one behind the other: each key as a simple
/// string, then its value.
pub open spec fn encode_entries(entries: Seq<(Seq<char>, FrameValue)>) -> Seq<u8>
    decreases entries, entries.len(),
{
    if entries.len() == 0 {
        Seq::empty()
    } else {
        encode_line(SIMPLE_STRING, encode_utf8(entries[0].0)) + encode_frame(entries[0].1)
            + encode_entries(entries.drop_first())
    }
}

} // verus!

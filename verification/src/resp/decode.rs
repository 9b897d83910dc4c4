//! The decoder: from the bytes at the front of a buffer to a frame.

use super::array::RespArray;
use super::array::RespNullArray;
use super::bulk_string::BulkString;
use super::bulk_string::RespNullBulkString;
use super::decimal::parse_i64;
use super::double::RespDouble;
use super::frame::{
    frame_values, lemma_array_view, lemma_map_view, lemma_set_view, FrameValue, RespFrame,
};
use super::map::RespMap;
use super::null::RespNull;
use super::set::RespSet;
use super::simple_error::SimpleError;
use super::simple_string::SimpleString;
use super::text::string_from_utf8_lossy;
use super::util::{
    calc_total_length, check_fixed_data, extract_simple_frame_data, lemma_scan_crlf_bounds,
    length_matches, parse_length, starts_with,
};
use super::wire::{
    bulk_string_length, composite_length, false_bytes, frame_length, lemma_parse_entries_step, lemma_read_on_step,
    null_array_bytes, null_bulk_string_bytes, null_bytes, parse_array, parse_boolean,
    parse_bulk_string, parse_double, parse_elements, parse_entries, parse_frame, parse_integer,
    parse_literal, parse_map, parse_sequence, parse_set, parse_simple_error, parse_simple_string,
    read_on, shift_on, simple_frame_length, true_bytes, Parsed, ARRAY, BOOLEAN, BULK_STRING, DOUBLE,
    ERROR, INTEGER, MAP, NULL, SET, SIMPLE_STRING,
};
use super::buffer::buffer_bytes;
use super::RespDecode;
use super::RespError;
use super::CRLF_LEN;
use bytes::Buf;
use bytes::BytesMut;
use vstd::prelude::*;
use vstd::utf8::encode_utf8;

verus! {

/// The texts of the sigils are the one byte each that the grammar names.
pub(crate) proof fn lemma_sigil_bytes()
    ensures
        encode_utf8("+"@) == seq![SIMPLE_STRING],
        encode_utf8("-"@) == seq![ERROR],
        encode_utf8(":"@) == seq![INTEGER],
        encode_utf8("$"@) == seq![BULK_STRING],
        encode_utf8("*"@) == seq![ARRAY],
        encode_utf8(","@) == seq![DOUBLE],
        encode_utf8("%"@) == seq![MAP],
        encode_utf8("~"@) == seq![SET],
{
    reveal_strlit("+");
    reveal_strlit("-");
    reveal_strlit(":");
    reveal_strlit("$");
    reveal_strlit("*");
    reveal_strlit(",");
    reveal_strlit("%");
    reveal_strlit("~");
    vstd::utf8::is_ascii_chars_encode_utf8("+"@);
    vstd::utf8::is_ascii_chars_encode_utf8("-"@);
    vstd::utf8::is_ascii_chars_encode_utf8(":"@);
    vstd::utf8::is_ascii_chars_encode_utf8("$"@);
    vstd::utf8::is_ascii_chars_encode_utf8("*"@);
    vstd::utf8::is_ascii_chars_encode_utf8(","@);
    vstd::utf8::is_ascii_chars_encode_utf8("%"@);
    vstd::utf8::is_ascii_chars_encode_utf8("~"@);
    assert(encode_utf8("+"@) =~= seq![SIMPLE_STRING]);
    assert(encode_utf8("-"@) =~= seq![ERROR]);
    assert(encode_utf8(":"@) =~= seq![INTEGER]);
    assert(encode_utf8("$"@) =~= seq![BULK_STRING]);
    assert(encode_utf8("*"@) =~= seq![ARRAY]);
    assert(encode_utf8(","@) =~= seq![DOUBLE]);
    assert(encode_utf8("%"@) =~= seq![MAP]);
    assert(encode_utf8("~"@) =~= seq![SET]);
}

/// Measures the frame at the front of `buf`: the number of bytes that it
/// will occupy once it has been received in full.
pub fn expect_frame_length(buf: &[u8]) -> (r: Result<usize, RespError>)
    ensures
        length_matches(r, frame_length(buf@)),
    decreases buf@.len(), 3int,
{
    proof {
        reveal_with_fuel(frame_length, 1);
        lemma_sigil_bytes();
    }
    if buf.len() == 0 {
        return Err(RespError::NotComplete);
    }
    let sigil = buf[0];
    if sigil == ARRAY {
        let null: [u8; 5] = [42, 45, 49, 13, 10];
        assert(null@ =~= null_array_bytes());
        if starts_with(buf, null.as_slice()) {
            Ok(5)
        } else {
            expect_composite_length(buf, "*")
        }
    } else if sigil == SET {
        expect_composite_length(buf, "~")
    } else if sigil == MAP {
        expect_composite_length(buf, "%")
    } else if sigil == BULK_STRING {
        let null: [u8; 5] = [36, 45, 49, 13, 10];
        assert(null@ =~= null_bulk_string_bytes());
        if starts_with(buf, null.as_slice()) {
            Ok(5)
        } else {
            expect_bulk_string_length(buf)
        }
    } else if sigil == INTEGER {
        expect_simple_frame_length(buf, ":")
    } else if sigil == SIMPLE_STRING {
        expect_simple_frame_length(buf, "+")
    } else if sigil == ERROR {
        expect_simple_frame_length(buf, "-")
    } else if sigil == DOUBLE {
        expect_simple_frame_length(buf, ",")
    } else if sigil == BOOLEAN {
        Ok(4)
    } else if sigil == NULL {
        Ok(3)
    } else {
        Err(RespError::InvalidFrameType)
    }
}

/// Measures a simple frame: up to and including its line terminator.
fn expect_simple_frame_length(buf: &[u8], prefix: &str) -> (r: Result<usize, RespError>)
    requires
        encode_utf8(prefix@).len() == 1,
    ensures
        length_matches(r, simple_frame_length(buf@, encode_utf8(prefix@)[0])),
{
    assert(encode_utf8(prefix@) =~= seq![encode_utf8(prefix@)[0]]);
    match super::util::extract_simple_frame_data(buf, prefix) {
        Ok(end) => Ok(end + CRLF_LEN),
        Err(e) => Err(e),
    }
}

/// Measures a bulk string: header, announced bytes and line terminator.
pub fn expect_bulk_string_length(buf: &[u8]) -> (r: Result<usize, RespError>)
    ensures
        length_matches(r, bulk_string_length(buf@)),
{
    proof {
        lemma_sigil_bytes();
    }
    let (end, len) = match parse_length(buf, "$") {
        Ok(header) => header,
        Err(e) => {
            return Err(e);
        },
    };
    let header = end + CRLF_LEN;
    match len.checked_add(CRLF_LEN) {
        None => Err(RespError::NotComplete),
        Some(body) => match header.checked_add(body) {
            None => Err(RespError::NotComplete),
            Some(total) => Ok(total),
        },
    }
}

/// Measures an array, a set or a map, whose sigil is the text `prefix`.
pub fn expect_composite_length(buf: &[u8], prefix: &str) -> (r: Result<usize, RespError>)
    ensures
        length_matches(r, composite_length(buf@, encode_utf8(prefix@))),
    decreases buf@.len(), 2int,
{
    let (end, len) = match parse_length(buf, prefix) {
        Ok(header) => header,
        Err(e) => {
            return Err(e);
        },
    };
    calc_total_length(buf, end, len, prefix)
}

/// What a read has to give: the value and the length that the grammar
/// gives, or the error that it gives. A value takes at least one byte and
/// no more than there are.
pub open spec fn read_matches<T: View>(
    r: Result<(T, usize), RespError>,
    parsed: Parsed<T::V>,
    available: nat,
) -> bool {
    match r {
        Ok((value, used)) => parsed == Ok::<(T::V, int), RespError>((value@, used as int)) && 0
            < used <= available,
        Err(e) => parsed == Err::<(T::V, int), RespError>(e),
    }
}

/// The payload of a simple frame: what stands between the sigil and the
/// line terminator.
fn simple_payload<'a>(data: &'a [u8], prefix: &str) -> (r: Result<(&'a [u8], usize), RespError>)
    requires
        encode_utf8(prefix@).len() == 1,
        encode_utf8(prefix@)[0] != 13,
    ensures
        match r {
            Ok((payload, end)) => super::util::simple_frame_end(data@, encode_utf8(prefix@))
                == Ok::<int, RespError>(end as int) && payload@ == super::util::header_payload(
                data@,
                encode_utf8(prefix@),
                end as int,
            ) && end + 2 <= data@.len() <= usize::MAX,
            Err(e) => super::util::simple_frame_end(data@, encode_utf8(prefix@)) == Err::<
                int,
                RespError,
            >(e),
        },
{
    let end = match extract_simple_frame_data(data, prefix) {
        Ok(end) => end,
        Err(e) => {
            return Err(e);
        },
    };
    proof {
        lemma_scan_crlf_bounds(data@, 0, 1);
    }
    Ok((vstd::slice::slice_subrange(data, 1, end), end))
}

/// Reads the simple string at the front of `data`.
pub fn read_simple_string(data: &[u8]) -> (r: Result<(SimpleString, usize), RespError>)
    ensures
        read_matches(r, parse_simple_string(data@), data@.len()),
{
    proof {
        lemma_sigil_bytes();
    }
    match simple_payload(data, "+") {
        Ok((payload, end)) => Ok((SimpleString(string_from_utf8_lossy(payload)), end + CRLF_LEN)),
        Err(e) => Err(e),
    }
}

/// Reads the error at the front of `data`.
pub fn read_simple_error(data: &[u8]) -> (r: Result<(SimpleError, usize), RespError>)
    ensures
        read_matches(r, parse_simple_error(data@), data@.len()),
{
    proof {
        lemma_sigil_bytes();
    }
    match simple_payload(data, "-") {
        Ok((payload, end)) => Ok((SimpleError(string_from_utf8_lossy(payload)), end + CRLF_LEN)),
        Err(e) => Err(e),
    }
}

/// Reads the integer at the front of `data`.
pub fn read_integer(data: &[u8]) -> (r: Result<(i64, usize), RespError>)
    ensures
        read_matches(r, parse_integer(data@), data@.len()),
{
    proof {
        lemma_sigil_bytes();
    }
    match simple_payload(data, ":") {
        Ok((payload, end)) => match parse_i64(payload) {
            Some(v) => Ok((v, end + CRLF_LEN)),
            None => Err(RespError::ParseIntError),
        },
        Err(e) => Err(e),
    }
}

/// Reads the double at the front of `data`.
pub fn read_double(data: &[u8]) -> (r: Result<(RespDouble, usize), RespError>)
    ensures
        read_matches(r, parse_double(data@), data@.len()),
{
    proof {
        lemma_sigil_bytes();
    }
    match simple_payload(data, ",") {
        Ok((payload, end)) => match RespDouble::new(payload) {
            Some(d) => Ok((d, end + CRLF_LEN)),
            None => Err(RespError::ParseFloatError),
        },
        Err(e) => Err(e),
    }
}

/// Reads the bulk string at the front of `data`.
pub fn read_bulk_string(data: &[u8]) -> (r: Result<(BulkString, usize), RespError>)
    ensures
        read_matches(r, parse_bulk_string(data@), data@.len()),
{
    proof {
        lemma_sigil_bytes();
    }
    let (end, len) = match parse_length(data, "$") {
        Ok(header) => header,
        Err(e) => {
            return Err(e);
        },
    };
    let start = end + CRLF_LEN;
    let remained = data.len() - start;
    if remained < len || remained - len < CRLF_LEN {
        return Err(RespError::NotComplete);
    }
    let bytes = vstd::slice::slice_to_vec(vstd::slice::slice_subrange(data, start, start + len));
    Ok((BulkString::new(bytes), start + len + CRLF_LEN))
}

/// Reads the null bulk string at the front of `data`.
pub fn read_null_bulk_string(data: &[u8]) -> (r: Result<(RespNullBulkString, usize), RespError>)
    ensures
        read_matches(
            r,
            parse_literal(data@, null_bulk_string_bytes(), RespNullBulkString),
            data@.len(),
        ),
{
    let literal: [u8; 5] = [36, 45, 49, 13, 10];
    assert(literal@ =~= null_bulk_string_bytes());
    match check_fixed_data(data, literal.as_slice()) {
        Ok(_) => Ok((RespNullBulkString, 5)),
        Err(e) => Err(e),
    }
}

/// Reads the null array at the front of `data`.
pub fn read_null_array(data: &[u8]) -> (r: Result<(RespNullArray, usize), RespError>)
    ensures
        read_matches(r, parse_literal(data@, null_array_bytes(), RespNullArray), data@.len()),
{
    let literal: [u8; 5] = [42, 45, 49, 13, 10];
    assert(literal@ =~= null_array_bytes());
    match check_fixed_data(data, literal.as_slice()) {
        Ok(_) => Ok((RespNullArray, 5)),
        Err(e) => Err(e),
    }
}

/// Reads null at the front of `data`.
pub fn read_null(data: &[u8]) -> (r: Result<(RespNull, usize), RespError>)
    ensures
        read_matches(r, parse_literal(data@, null_bytes(), RespNull), data@.len()),
{
    let literal: [u8; 3] = [95, 13, 10];
    assert(literal@ =~= null_bytes());
    match check_fixed_data(data, literal.as_slice()) {
        Ok(_) => Ok((RespNull, 3)),
        Err(e) => Err(e),
    }
}

/// Reads the boolean at the front of `data`.
pub fn read_boolean(data: &[u8]) -> (r: Result<(bool, usize), RespError>)
    ensures
        read_matches(r, parse_boolean(data@), data@.len()),
{
    let yes: [u8; 4] = [35, 116, 13, 10];
    let no: [u8; 4] = [35, 102, 13, 10];
    assert(yes@ =~= true_bytes());
    assert(no@ =~= false_bytes());
    match check_fixed_data(data, yes.as_slice()) {
        Ok(_) => Ok((true, 4)),
        Err(RespError::NotComplete) => Err(RespError::NotComplete),
        Err(_) => match check_fixed_data(data, no.as_slice()) {
            Ok(_) => Ok((false, 4)),
            Err(e) => Err(e),
        },
    }
}

/// Reads `count` frames in a row, the first of which begins at `start`.
/// Gives the frames and the place where the last of them ends.
fn read_elements(data: &[u8], start: usize, count: usize) -> (r: Result<
    (Vec<RespFrame>, usize),
    RespError,
>)
    requires
        0 < start <= data@.len(),
    ensures
        match r {
            Ok((items, stop)) => start <= stop <= data@.len() && parse_elements(
                data@.skip(start as int),
                count as int,
            ) == Ok::<(Seq<FrameValue>, int), RespError>((frame_values(items@), stop - start)),
            Err(e) => parse_elements(data@.skip(start as int), count as int) == Err::<
                (Seq<FrameValue>, int),
                RespError,
            >(e),
        },
    decreases data@.len(), 0int,
{
    let n = data.len();
    let mut items: Vec<RespFrame> = Vec::new();
    let mut pos = start;
    let mut i: usize = 0;
    let ghost whole = parse_elements(data@.skip(start as int), count as int);
    reveal(parse_elements);
    reveal(parse_frame);
    proof {
        assert(frame_values(items@) =~= Seq::<FrameValue>::empty());
        match whole {
            Ok((v, k)) => {
                assert(Seq::<FrameValue>::empty() + v =~= v);
            },
            Err(e) => {},
        }
    }
    while i < count
        invariant
            n == data@.len(),
            0 < start <= pos <= n,
            i <= count,
            whole == parse_elements(data@.skip(start as int), count as int),
            whole == read_on(
                frame_values(items@),
                pos - start,
                parse_elements(data@.skip(pos as int), count - i),
            ),
        decreases count - i,
    {
        let ghost rest = data@.skip(pos as int);
        let ghost done = frame_values(items@);
        reveal(parse_elements);
        reveal(parse_frame);
        let (frame, used) = match read_frame(vstd::slice::slice_subrange(data, pos, n)) {
            Ok(read) => read,
            Err(e) => {
                return Err(e);
            },
        };
        proof {
            assert(rest.skip(used as int) =~= data@.skip(pos + used));
            lemma_read_on_step(
                done,
                pos - start,
                frame@,
                used as int,
                parse_elements(data@.skip(pos + used), count - i - 1),
            );
        }
        items.push(frame);
        assert(frame_values(items@) =~= done.push(frame@));
        pos = pos + used;
        i = i + 1;
    }
    proof {
        assert(frame_values(items@) + Seq::<FrameValue>::empty() =~= frame_values(items@));
    }
    Ok((items, pos))
}

/// Reads the array or the set at the front of `data`, whose sigil is the
/// text `prefix`: measures it, makes sure that all of it is there, and
/// only then reads its frames in order.
fn read_sequence(data: &[u8], prefix: &str) -> (r: Result<(Vec<RespFrame>, usize), RespError>)
    ensures
        match r {
            Ok((items, used)) => 0 < used <= data@.len() && parse_sequence(
                data@,
                encode_utf8(prefix@),
            ) == Ok::<(Seq<FrameValue>, int), RespError>((frame_values(items@), used as int)),
            Err(e) => parse_sequence(data@, encode_utf8(prefix@)) == Err::<
                (Seq<FrameValue>, int),
                RespError,
            >(e),
        },
    decreases data@.len(), 1int,
{
    reveal(parse_sequence);
    reveal(parse_elements);
    let (end, len) = match parse_length(data, prefix) {
        Ok(header) => header,
        Err(e) => {
            return Err(e);
        },
    };
    let total_len = match calc_total_length(data, end, len, prefix) {
        Ok(total) => total,
        Err(e) => {
            return Err(e);
        },
    };
    if data.len() < total_len {
        return Err(RespError::NotComplete);
    }
    read_elements(data, end + CRLF_LEN, len)
}

/// Reads the array at the front of `data`.
pub fn read_array(data: &[u8]) -> (r: Result<(RespArray, usize), RespError>)
    ensures
        read_matches(r, parse_array(data@), data@.len()),
    decreases data@.len(), 2int,
{
    reveal(parse_sequence);
    proof {
        lemma_sigil_bytes();
    }
    match read_sequence(data, "*") {
        Ok((items, used)) => Ok((RespArray::new(items), used)),
        Err(e) => Err(e),
    }
}

/// Reads the set at the front of `data`.
pub fn read_set(data: &[u8]) -> (r: Result<(RespSet, usize), RespError>)
    ensures
        read_matches(r, parse_set(data@), data@.len()),
    decreases data@.len(), 2int,
{
    reveal(parse_sequence);
    proof {
        lemma_sigil_bytes();
    }
    match read_sequence(data, "~") {
        Ok((items, used)) => Ok((RespSet::new(items), used)),
        Err(e) => Err(e),
    }
}

/// Reads `count` map entries in a row, the first of which begins at
/// `start`, into a map. Gives the map and the place where the last entry
/// ends.
fn read_entries(data: &[u8], start: usize, count: usize) -> (r: Result<(RespMap, usize), RespError>)
    requires
        0 < start <= data@.len(),
    ensures
        match r {
            Ok((map, stop)) => start <= stop <= data@.len() && parse_entries(
                data@.skip(start as int),
                count as int,
                Seq::empty(),
            ) == Ok::<(Seq<(Seq<char>, FrameValue)>, int), RespError>((map@, stop - start)),
            Err(e) => parse_entries(data@.skip(start as int), count as int, Seq::empty()) == Err::<
                (Seq<(Seq<char>, FrameValue)>, int),
                RespError,
            >(e),
        },
    decreases data@.len(), 0int,
{
    let n = data.len();
    let mut map = RespMap::new();
    let mut pos = start;
    let mut i: usize = 0;
    let ghost whole = parse_entries(
        data@.skip(start as int),
        count as int,
        Seq::<(Seq<char>, FrameValue)>::empty(),
    );
    while i < count
        invariant
            n == data@.len(),
            0 < start <= pos <= n,
            i <= count,
            whole == parse_entries(
                data@.skip(start as int),
                count as int,
                Seq::<(Seq<char>, FrameValue)>::empty(),
            ),
            whole == shift_on(
                pos - start,
                parse_entries(data@.skip(pos as int), count - i, map@),
            ),
        decreases count - i,
    {
        let ghost rest = data@.skip(pos as int);
        proof {
            lemma_parse_entries_step(rest, count - i, map@);
        }
        let (key, key_len) = match read_simple_string(vstd::slice::slice_subrange(data, pos, n)) {
            Ok(read) => read,
            Err(e) => {
                return Err(e);
            },
        };
        assert(rest.skip(key_len as int) =~= data@.skip(pos + key_len));
        let (value, value_len) = match read_frame(
            vstd::slice::slice_subrange(data, pos + key_len, n),
        ) {
            Ok(read) => read,
            Err(e) => {
                return Err(e);
            },
        };
        assert(rest.skip(key_len as int).skip(value_len as int) =~= data@.skip(
            pos + key_len + value_len,
        ));
        map.insert(key.0, value);
        pos = pos + key_len + value_len;
        i = i + 1;
    }
    proof {
        reveal(parse_entries);
    }
    Ok((map, pos))
}

/// Reads the map at the front of `data`: measures it, makes sure that all
/// of it is there, and only then reads its entries in order.
pub fn read_map(data: &[u8]) -> (r: Result<(RespMap, usize), RespError>)
    ensures
        read_matches(r, parse_map(data@), data@.len()),
    decreases data@.len(), 2int,
{
    reveal(parse_map);
    reveal(parse_entries);
    proof {
        lemma_sigil_bytes();
    }
    let (end, len) = match parse_length(data, "%") {
        Ok(header) => header,
        Err(e) => {
            return Err(e);
        },
    };
    let total_len = match calc_total_length(data, end, len, "%") {
        Ok(total) => total,
        Err(e) => {
            return Err(e);
        },
    };
    if data.len() < total_len {
        return Err(RespError::NotComplete);
    }
    read_entries(data, end + CRLF_LEN, len)
}

/// Reads the frame at the front of `data`, chosen by its first byte.
#[verifier::rlimit(40)]
pub fn read_frame(data: &[u8]) -> (r: Result<(RespFrame, usize), RespError>)
    ensures
        read_matches(r, parse_frame(data@), data@.len()),
    decreases data@.len(), 3int,
{
    reveal(parse_frame);
    reveal(parse_sequence);
    reveal(parse_map);
    if data.len() == 0 {
        return Err(RespError::NotComplete);
    }
    let sigil = data[0];
    if sigil == SIMPLE_STRING {
        match read_simple_string(data) {
            Ok((frame, used)) => Ok((RespFrame::SimpleString(frame), used)),
            Err(e) => Err(e),
        }
    } else if sigil == ERROR {
        match read_simple_error(data) {
            Ok((frame, used)) => Ok((RespFrame::Error(frame), used)),
            Err(e) => Err(e),
        }
    } else if sigil == INTEGER {
        match read_integer(data) {
            Ok((frame, used)) => Ok((RespFrame::Integer(frame), used)),
            Err(e) => Err(e),
        }
    } else if sigil == BULK_STRING {
        // the null bulk string first
        match read_null_bulk_string(data) {
            Ok((frame, used)) => Ok((RespFrame::NullBulkString(frame), used)),
            Err(_) => match read_bulk_string(data) {
                Ok((frame, used)) => Ok((RespFrame::BulkString(frame), used)),
                Err(e) => Err(e),
            },
        }
    } else if sigil == ARRAY {
        // the null array first
        match read_null_array(data) {
            Ok((frame, used)) => Ok((RespFrame::NullArray(frame), used)),
            Err(_) => match read_array(data) {
                Ok((frame, used)) => {
                    proof {
                        lemma_array_view(frame);
                    }
                    Ok((RespFrame::Array(frame), used))
                },
                Err(e) => Err(e),
            },
        }
    } else if sigil == NULL {
        match read_null(data) {
            Ok((frame, used)) => Ok((RespFrame::Null(frame), used)),
            Err(e) => Err(e),
        }
    } else if sigil == BOOLEAN {
        match read_boolean(data) {
            Ok((frame, used)) => Ok((RespFrame::Boolean(frame), used)),
            Err(e) => Err(e),
        }
    } else if sigil == DOUBLE {
        match read_double(data) {
            Ok((frame, used)) => Ok((RespFrame::Double(frame), used)),
            Err(e) => Err(e),
        }
    } else if sigil == MAP {
        match read_map(data) {
            Ok((frame, used)) => {
                proof {
                    lemma_map_view(frame);
                }
                Ok((RespFrame::RespMap(frame), used))
            },
            Err(e) => Err(e),
        }
    } else if sigil == SET {
        match read_set(data) {
            Ok((frame, used)) => {
                proof {
                    lemma_set_view(frame);
                }
                Ok((RespFrame::RespSet(frame), used))
            },
            Err(e) => Err(e),
        }
    } else {
        Err(RespError::InvalidFrameType)
    }
}

/// Takes what has been read off the front of the buffer: on success the
/// bytes of the value, on an error nothing.
fn take_read<T>(buf: &mut BytesMut, read: Result<(T, usize), RespError>) -> (r: Result<
    T,
    RespError,
>)
    requires
        read matches Ok((_, used)) ==> used <= buffer_bytes(*old(buf)).len(),
    ensures
        match read {
            Ok((value, used)) => r == Ok::<T, RespError>(value) && buffer_bytes(*final(buf))
                == buffer_bytes(*old(buf)).skip(used as int),
            Err(e) => r == Err::<T, RespError>(e) && buffer_bytes(*final(buf)) == buffer_bytes(
                *old(buf),
            ),
        },
{
    match read {
        Ok((value, used)) => {
            buf.advance(used);
            Ok(value)
        },
        Err(e) => Err(e),
    }
}

impl RespDecode for RespFrame {
    const PREFIX: &'static str = "";

    open spec fn parsed(s: Seq<u8>) -> Parsed<<Self as View>::V> {
        parse_frame(s)
    }

    open spec fn measured(s: Seq<u8>) -> Result<int, RespError> {
        frame_length(s)
    }

    fn decode(buf: &mut BytesMut) -> (r: Result<Self, RespError>) {
        let read = read_frame(<BytesMut as AsRef<[u8]>>::as_ref(buf));
        take_read(buf, read)
    }

    fn expect_length(buf: &[u8]) -> (r: Result<usize, RespError>) {
        expect_frame_length(buf)
    }
}

impl RespDecode for SimpleString {
    const PREFIX: &'static str = "+";

    open spec fn parsed(s: Seq<u8>) -> Parsed<<Self as View>::V> {
        parse_simple_string(s)
    }

    open spec fn measured(s: Seq<u8>) -> Result<int, RespError> {
        simple_frame_length(s, SIMPLE_STRING)
    }

    fn decode(buf: &mut BytesMut) -> (r: Result<Self, RespError>) {
        let read = read_simple_string(<BytesMut as AsRef<[u8]>>::as_ref(buf));
        take_read(buf, read)
    }

    fn expect_length(buf: &[u8]) -> (r: Result<usize, RespError>) {
        proof {
            lemma_sigil_bytes();
        }
        expect_simple_frame_length(buf, Self::PREFIX)
    }
}

impl RespDecode for SimpleError {
    const PREFIX: &'static str = "-";

    open spec fn parsed(s: Seq<u8>) -> Parsed<<Self as View>::V> {
        parse_simple_error(s)
    }

    open spec fn measured(s: Seq<u8>) -> Result<int, RespError> {
        simple_frame_length(s, ERROR)
    }

    fn decode(buf: &mut BytesMut) -> (r: Result<Self, RespError>) {
        let read = read_simple_error(<BytesMut as AsRef<[u8]>>::as_ref(buf));
        take_read(buf, read)
    }

    fn expect_length(buf: &[u8]) -> (r: Result<usize, RespError>) {
        proof {
            lemma_sigil_bytes();
        }
        expect_simple_frame_length(buf, Self::PREFIX)
    }
}

impl RespDecode for i64 {
    const PREFIX: &'static str = ":";

    open spec fn parsed(s: Seq<u8>) -> Parsed<<Self as View>::V> {
        parse_integer(s)
    }

    open spec fn measured(s: Seq<u8>) -> Result<int, RespError> {
        simple_frame_length(s, INTEGER)
    }

    fn decode(buf: &mut BytesMut) -> (r: Result<Self, RespError>) {
        let read = read_integer(<BytesMut as AsRef<[u8]>>::as_ref(buf));
        take_read(buf, read)
    }

    fn expect_length(buf: &[u8]) -> (r: Result<usize, RespError>) {
        proof {
            lemma_sigil_bytes();
        }
        expect_simple_frame_length(buf, Self::PREFIX)
    }
}

impl RespDecode for BulkString {
    const PREFIX: &'static str = "$";

    open spec fn parsed(s: Seq<u8>) -> Parsed<<Self as View>::V> {
        parse_bulk_string(s)
    }

    open spec fn measured(s: Seq<u8>) -> Result<int, RespError> {
        bulk_string_length(s)
    }

    fn decode(buf: &mut BytesMut) -> (r: Result<Self, RespError>) {
        let read = read_bulk_string(<BytesMut as AsRef<[u8]>>::as_ref(buf));
        take_read(buf, read)
    }

    fn expect_length(buf: &[u8]) -> (r: Result<usize, RespError>) {
        expect_bulk_string_length(buf)
    }
}

impl RespDecode for RespNullBulkString {
    const PREFIX: &'static str = "$";

    open spec fn parsed(s: Seq<u8>) -> Parsed<<Self as View>::V> {
        parse_literal(s, null_bulk_string_bytes(), RespNullBulkString)
    }

    open spec fn measured(s: Seq<u8>) -> Result<int, RespError> {
        Ok(5)
    }

    fn decode(buf: &mut BytesMut) -> (r: Result<Self, RespError>) {
        let read = read_null_bulk_string(<BytesMut as AsRef<[u8]>>::as_ref(buf));
        take_read(buf, read)
    }

    fn expect_length(buf: &[u8]) -> (r: Result<usize, RespError>) {
        Ok(5)
    }
}

impl RespDecode for RespArray {
    const PREFIX: &'static str = "*";

    open spec fn parsed(s: Seq<u8>) -> Parsed<<Self as View>::V> {
        parse_array(s)
    }

    open spec fn measured(s: Seq<u8>) -> Result<int, RespError> {
        composite_length(s, seq![ARRAY])
    }

    fn decode(buf: &mut BytesMut) -> (r: Result<Self, RespError>) {
        let read = read_array(<BytesMut as AsRef<[u8]>>::as_ref(buf));
        take_read(buf, read)
    }

    fn expect_length(buf: &[u8]) -> (r: Result<usize, RespError>) {
        proof {
            lemma_sigil_bytes();
        }
        expect_composite_length(buf, Self::PREFIX)
    }
}

impl RespDecode for RespNullArray {
    const PREFIX: &'static str = "*";

    open spec fn parsed(s: Seq<u8>) -> Parsed<<Self as View>::V> {
        parse_literal(s, null_array_bytes(), RespNullArray)
    }

    open spec fn measured(s: Seq<u8>) -> Result<int, RespError> {
        Ok(5)
    }

    fn decode(buf: &mut BytesMut) -> (r: Result<Self, RespError>) {
        let read = read_null_array(<BytesMut as AsRef<[u8]>>::as_ref(buf));
        take_read(buf, read)
    }

    fn expect_length(buf: &[u8]) -> (r: Result<usize, RespError>) {
        Ok(5)
    }
}

impl RespDecode for RespNull {
    const PREFIX: &'static str = "_";

    open spec fn parsed(s: Seq<u8>) -> Parsed<<Self as View>::V> {
        parse_literal(s, null_bytes(), RespNull)
    }

    open spec fn measured(s: Seq<u8>) -> Result<int, RespError> {
        Ok(3)
    }

    fn decode(buf: &mut BytesMut) -> (r: Result<Self, RespError>) {
        let read = read_null(<BytesMut as AsRef<[u8]>>::as_ref(buf));
        take_read(buf, read)
    }

    fn expect_length(buf: &[u8]) -> (r: Result<usize, RespError>) {
        Ok(3)
    }
}

impl RespDecode for bool {
    const PREFIX: &'static str = "#";

    open spec fn parsed(s: Seq<u8>) -> Parsed<<Self as View>::V> {
        parse_boolean(s)
    }

    open spec fn measured(s: Seq<u8>) -> Result<int, RespError> {
        Ok(4)
    }

    fn decode(buf: &mut BytesMut) -> (r: Result<Self, RespError>) {
        let read = read_boolean(<BytesMut as AsRef<[u8]>>::as_ref(buf));
        take_read(buf, read)
    }

    fn expect_length(buf: &[u8]) -> (r: Result<usize, RespError>) {
        Ok(4)
    }
}

impl RespDecode for RespDouble {
    const PREFIX: &'static str = ",";

    open spec fn parsed(s: Seq<u8>) -> Parsed<<Self as View>::V> {
        parse_double(s)
    }

    open spec fn measured(s: Seq<u8>) -> Result<int, RespError> {
        simple_frame_length(s, DOUBLE)
    }

    fn decode(buf: &mut BytesMut) -> (r: Result<Self, RespError>) {
        let read = read_double(<BytesMut as AsRef<[u8]>>::as_ref(buf));
        take_read(buf, read)
    }

    fn expect_length(buf: &[u8]) -> (r: Result<usize, RespError>) {
        proof {
            lemma_sigil_bytes();
        }
        expect_simple_frame_length(buf, Self::PREFIX)
    }
}

impl RespDecode for RespMap {
    const PREFIX: &'static str = "%";

    open spec fn parsed(s: Seq<u8>) -> Parsed<<Self as View>::V> {
        parse_map(s)
    }

    open spec fn measured(s: Seq<u8>) -> Result<int, RespError> {
        composite_length(s, seq![MAP])
    }

    fn decode(buf: &mut BytesMut) -> (r: Result<Self, RespError>) {
        let read = read_map(<BytesMut as AsRef<[u8]>>::as_ref(buf));
        take_read(buf, read)
    }

    fn expect_length(buf: &[u8]) -> (r: Result<usize, RespError>) {
        proof {
            lemma_sigil_bytes();
        }
        expect_composite_length(buf, Self::PREFIX)
    }
}

impl RespDecode for RespSet {
    const PREFIX: &'static str = "~";

    open spec fn parsed(s: Seq<u8>) -> Parsed<<Self as View>::V> {
        parse_set(s)
    }

    open spec fn measured(s: Seq<u8>) -> Result<int, RespError> {
        composite_length(s, seq![SET])
    }

    fn decode(buf: &mut BytesMut) -> (r: Result<Self, RespError>) {
        let read = read_set(<BytesMut as AsRef<[u8]>>::as_ref(buf));
        take_read(buf, read)
    }

    fn expect_length(buf: &[u8]) -> (r: Result<usize, RespError>) {
        proof {
            lemma_sigil_bytes();
        }
        expect_composite_length(buf, Self::PREFIX)
    }
}

} // verus!

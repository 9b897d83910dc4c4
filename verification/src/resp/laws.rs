//! What holds of the codec as a whole: a frame is read from its own bytes
//! alone, a frame that has not arrived in full is never misread, and what
//! the encoder writes the decoder reads back.

use super::frame::{FrameValue, RespFrame};
use super::map::entries_insert;
use super::util::{
    fixed_literal, header_payload, is_crlf_at, lemma_first_crlf, lemma_first_crlf_none,
    length_header, no_crlf_before, simple_frame_end,
};
use super::wire::{
    bulk_string_length, composite_length, elements_length, entries_length, false_bytes,
    frame_length, null_array_bytes, null_bulk_string_bytes, null_bytes, parse_boolean,
    parse_bulk_string, parse_double, parse_elements, parse_entries, parse_frame, parse_integer,
    parse_literal, parse_map, parse_sequence, parse_simple_error, parse_simple_string,
    simple_frame_length, total_length, true_bytes, ARRAY, BOOLEAN, BULK_STRING, DOUBLE, ERROR,
    INTEGER, MAP, NULL, SET, SIMPLE_STRING,
};
use super::RespDecode;
use super::RespError;
use vstd::prelude::*;

verus! {

/// Whatever `s` holds of its first `n` bytes, `t` holds too, in the same
/// places.
pub open spec fn same_front(s: Seq<u8>, t: Seq<u8>, n: int) -> bool {
    &&& n <= s.len() ==> n <= t.len()
    &&& s.len() < n ==> s.len() <= t.len()
    &&& forall|i: int| 0 <= i < n && i < s.len() ==> s[i] == t[i]
}

/// What agrees on a front agrees on every shorter front, and behind any
/// number of bytes that both hold.
pub(crate) proof fn lemma_same_front_parts(s: Seq<u8>, t: Seq<u8>, n: int, skipped: int, m: int)
    requires
        same_front(s, t, n),
        0 <= skipped <= s.len(),
        skipped <= t.len(),
        skipped + m <= n,
    ensures
        same_front(s, t, skipped + m),
        same_front(s.skip(skipped), t.skip(skipped), m),
{
    assert forall|i: int| 0 <= i < m && i < s.skip(skipped).len() implies s.skip(skipped)[i]
        == t.skip(skipped)[i] by {
        assert(s[i + skipped] == t[i + skipped]);
    }
}

/// The end of a simple frame is found again in any buffer that begins with
/// the bytes of the frame, and so is its payload.
pub(crate) proof fn lemma_simple_end_stable(s: Seq<u8>, t: Seq<u8>, sigil: u8, end: int)
    requires
        simple_frame_end(s, seq![sigil]) == Ok::<int, RespError>(end),
        sigil != 13,
        same_front(s, t, end + 2),
    ensures
        1 <= end,
        end + 2 <= s.len(),
        simple_frame_end(t, seq![sigil]) == Ok::<int, RespError>(end),
        header_payload(t, seq![sigil], end) == header_payload(s, seq![sigil], end),
{
    let prefix = seq![sigil];
    lemma_first_crlf(s, end);
    assert(prefix == s.subrange(0, 1));
    assert(prefix[0] == s.subrange(0, 1)[0]);
    assert(s[0] == sigil);
    assert(s[end] == t[end] && s[end + 1] == t[end + 1]);
    assert(prefix =~= t.subrange(0, 1));
    assert(is_crlf_at(t, end));
    assert(no_crlf_before(t, end)) by {
        assert forall|j: int| 0 <= j < end implies !is_crlf_at(t, j) by {
            assert(!is_crlf_at(s, j));
        }
    }
    lemma_first_crlf(t, end);
    assert(header_payload(t, prefix, end) =~= header_payload(s, prefix, end));
}

/// A buffer that ends before a simple frame does holds no simple frame
/// yet.
pub(crate) proof fn lemma_simple_end_prefix(s: Seq<u8>, sigil: u8, end: int, k: int)
    requires
        simple_frame_end(s, seq![sigil]) == Ok::<int, RespError>(end),
        0 <= k < end + 2,
    ensures
        simple_frame_end(s.take(k), seq![sigil]) == Err::<int, RespError>(RespError::NotComplete),
{
    let prefix = seq![sigil];
    let t = s.take(k);
    lemma_first_crlf(s, end);
    if k >= 3 {
        assert(prefix == s.subrange(0, 1));
        assert(prefix[0] == s.subrange(0, 1)[0]);
        assert(prefix =~= t.subrange(0, 1));
        assert(no_crlf_before(t, t.len() as int)) by {
            assert forall|j: int| 0 <= j < t.len() implies !is_crlf_at(t, j) by {
                if is_crlf_at(t, j) {
                    assert(is_crlf_at(s, j));
                }
            }
        }
        lemma_first_crlf_none(t);
    }
}

/// The header of a length-prefixed frame is found again in any buffer that
/// begins with the bytes of the header line.
pub(crate) proof fn lemma_length_header_stable(s: Seq<u8>, t: Seq<u8>, sigil: u8, end: int, n: usize)
    requires
        length_header(s, seq![sigil]) == Ok::<(int, usize), RespError>((end, n)),
        sigil != 13,
        same_front(s, t, end + 2),
    ensures
        1 <= end,
        end + 2 <= s.len(),
        length_header(t, seq![sigil]) == Ok::<(int, usize), RespError>((end, n)),
{
    lemma_simple_end_stable(s, t, sigil, end);
}

/// A buffer that ends before a header line does holds no header yet.
pub(crate) proof fn lemma_length_header_prefix(s: Seq<u8>, sigil: u8, end: int, n: usize, k: int)
    requires
        length_header(s, seq![sigil]) == Ok::<(int, usize), RespError>((end, n)),
        0 <= k < end + 2,
    ensures
        length_header(s.take(k), seq![sigil]) == Err::<(int, usize), RespError>(
            RespError::NotComplete,
        ),
{
    lemma_simple_end_prefix(s, sigil, end, k);
}

/// A literal that a buffer begins with is what any buffer with the same
/// first bytes begins with.
pub(crate) proof fn lemma_literal_front(s: Seq<u8>, t: Seq<u8>, literal: Seq<u8>, n: int)
    requires
        same_front(s, t, n),
        literal.len() <= n,
        literal.is_prefix_of(s),
    ensures
        literal.is_prefix_of(t),
{
    assert(literal == s.subrange(0, literal.len() as int));
    assert forall|i: int| 0 <= i < literal.len() implies literal[i] == s[i] by {
        assert(literal[i] == s.subrange(0, literal.len() as int)[i]);
    }
    if literal.len() > 0 {
        assert(s[literal.len() - 1] == t[literal.len() - 1]);
    }
    assert(literal =~= t.subrange(0, literal.len() as int));
}

/// A buffer that differs from a literal in one of its first bytes does not
/// begin with the literal, and neither does a buffer with the same first
/// bytes.
pub(crate) proof fn lemma_literal_differs(s: Seq<u8>, t: Seq<u8>, literal: Seq<u8>, n: int, at: int)
    requires
        same_front(s, t, n),
        0 <= at < n,
        at < s.len(),
        at < literal.len(),
        s[at] != literal[at],
    ensures
        !literal.is_prefix_of(s),
        !literal.is_prefix_of(t),
{
    if literal.is_prefix_of(s) {
        assert(literal[at] == s.subrange(0, literal.len() as int)[at]);
    }
    if literal.is_prefix_of(t) {
        assert(literal[at] == t.subrange(0, literal.len() as int)[at]);
    }
}

/// A length or a count is written with a digit or a `+` in front, never
/// with a `-`.
pub(crate) proof fn lemma_length_header_first_byte(s: Seq<u8>, sigil: u8, end: int, n: usize)
    requires
        length_header(s, seq![sigil]) == Ok::<(int, usize), RespError>((end, n)),
        sigil != 13,
    ensures
        2 <= end,
        end + 2 <= s.len(),
        s[0] == sigil,
        s[1] != 45,
{
    lemma_simple_end_stable(s, s, sigil, end);
    let payload = header_payload(s, seq![sigil], end);
    assert(seq![sigil] == s.subrange(0, 1));
    assert(seq![sigil][0] == s.subrange(0, 1)[0]);
    if end >= 2 {
        assert(payload[0] == s[1]);
        if s[1] == 45 {
            assert(!super::decimal::is_digit(payload[0]));
        }
    }
}

/// A simple frame is read from its own bytes alone: any buffer that begins
/// with them gives the same payload and the same length.
pub(crate) proof fn lemma_simple_frame_stable(s: Seq<u8>, t: Seq<u8>, sigil: u8, end: int)
    requires
        simple_frame_end(s, seq![sigil]) == Ok::<int, RespError>(end),
        sigil != 13,
        same_front(s, t, end + 2),
    ensures
        3 <= end + 2 <= s.len(),
        end + 2 <= t.len(),
        s[0] == sigil,
        t[0] == sigil,
        simple_frame_end(t, seq![sigil]) == Ok::<int, RespError>(end),
        header_payload(t, seq![sigil], end) == header_payload(s, seq![sigil], end),
{
    lemma_simple_end_stable(s, t, sigil, end);
    assert(seq![sigil] == s.subrange(0, 1));
    assert(seq![sigil][0] == s.subrange(0, 1)[0]);
    assert(s[0] == t[0]);
}

/// A bulk string is read from its own bytes alone.
pub(crate) proof fn lemma_bulk_string_stable(s: Seq<u8>, t: Seq<u8>, bytes: Seq<u8>, n: int)
    requires
        parse_bulk_string(s) == Ok::<(Seq<u8>, int), RespError>((bytes, n)),
        same_front(s, t, n),
    ensures
        6 <= n <= s.len(),
        n <= t.len(),
        s[0] == BULK_STRING,
        t[0] == BULK_STRING,
        !null_bulk_string_bytes().is_prefix_of(s),
        !null_bulk_string_bytes().is_prefix_of(t),
        parse_bulk_string(t) == parse_bulk_string(s),
        bulk_string_length(s) == Ok::<int, RespError>(n),
        bulk_string_length(t) == Ok::<int, RespError>(n),
{
    let header = length_header(s, seq![BULK_STRING]);
    let (end, len) = header->Ok_0;
    lemma_length_header_first_byte(s, BULK_STRING, end, len);
    lemma_same_front_parts(s, t, n, 0, end + 2);
    lemma_length_header_stable(s, t, BULK_STRING, end, len);
    assert(s[0] == t[0]);
    lemma_literal_differs(s, t, null_bulk_string_bytes(), n, 1);
    assert(t.subrange(end + 2, end + 2 + len) =~= s.subrange(end + 2, end + 2 + len));
}

/// A fixed literal is read from its own bytes alone.
pub(crate) proof fn lemma_literal_stable<T>(s: Seq<u8>, t: Seq<u8>, literal: Seq<u8>, value: T, n: int)
    requires
        parse_literal(s, literal, value) == Ok::<(T, int), RespError>((value, n)),
        same_front(s, t, n),
    ensures
        n == literal.len(),
        n <= s.len(),
        n <= t.len(),
        parse_literal(t, literal, value) == parse_literal(s, literal, value),
{
    lemma_literal_front(s, t, literal, n);
}

/// A boolean is read from its own bytes alone.
pub(crate) proof fn lemma_boolean_stable(s: Seq<u8>, t: Seq<u8>, b: bool, n: int)
    requires
        parse_boolean(s) == Ok::<(bool, int), RespError>((b, n)),
        same_front(s, t, n),
    ensures
        n == 4,
        n <= s.len(),
        n <= t.len(),
        s[0] == BOOLEAN,
        t[0] == BOOLEAN,
        parse_boolean(t) == parse_boolean(s),
{
    if fixed_literal(s, true_bytes()) is Ok {
        lemma_literal_front(s, t, true_bytes(), 4);
        assert(true_bytes()[0] == s.subrange(0, 4)[0]);
    } else {
        lemma_literal_front(s, t, false_bytes(), 4);
        assert(false_bytes()[0] == s.subrange(0, 4)[0]);
        assert(false_bytes()[1] == s.subrange(0, 4)[1]);
        lemma_literal_differs(s, t, true_bytes(), 4, 1);
    }
    assert(s[0] == t[0]);
}

/// How a frame is read and measured, sigil by sigil.
pub proof fn lemma_frame_cases(s: Seq<u8>)
    ensures
        s.len() == 0 ==> parse_frame(s) == Err::<(FrameValue, int), RespError>(
            RespError::NotComplete,
        ) && frame_length(s) == Err::<int, RespError>(RespError::NotComplete),
        s.len() > 0 && s[0] == SIMPLE_STRING ==> frame_length(s) == simple_frame_length(
            s,
            SIMPLE_STRING,
        ) && match parse_simple_string(s) {
            Ok((text, used)) => parse_frame(s) == Ok::<(FrameValue, int), RespError>(
                (FrameValue::SimpleString(text), used),
            ),
            Err(e) => parse_frame(s) == Err::<(FrameValue, int), RespError>(e),
        },
        s.len() > 0 && s[0] == ERROR ==> frame_length(s) == simple_frame_length(s, ERROR)
            && match parse_simple_error(s) {
            Ok((text, used)) => parse_frame(s) == Ok::<(FrameValue, int), RespError>(
                (FrameValue::Error(text), used),
            ),
            Err(e) => parse_frame(s) == Err::<(FrameValue, int), RespError>(e),
        },
        s.len() > 0 && s[0] == INTEGER ==> frame_length(s) == simple_frame_length(s, INTEGER)
            && match parse_integer(s) {
            Ok((v, used)) => parse_frame(s) == Ok::<(FrameValue, int), RespError>(
                (FrameValue::Integer(v), used),
            ),
            Err(e) => parse_frame(s) == Err::<(FrameValue, int), RespError>(e),
        },
        s.len() > 0 && s[0] == DOUBLE ==> frame_length(s) == simple_frame_length(s, DOUBLE)
            && match parse_double(s) {
            Ok((literal, used)) => parse_frame(s) == Ok::<(FrameValue, int), RespError>(
                (FrameValue::Double(literal), used),
            ),
            Err(e) => parse_frame(s) == Err::<(FrameValue, int), RespError>(e),
        },
        s.len() > 0 && s[0] == BULK_STRING && null_bulk_string_bytes().is_prefix_of(s)
            ==> frame_length(s) == Ok::<int, RespError>(5) && parse_frame(s) == Ok::<
            (FrameValue, int),
            RespError,
        >((FrameValue::NullBulkString, 5)),
        s.len() > 0 && s[0] == BULK_STRING && !null_bulk_string_bytes().is_prefix_of(s)
            ==> frame_length(s) == bulk_string_length(s) && match parse_bulk_string(s) {
            Ok((bytes, used)) => parse_frame(s) == Ok::<(FrameValue, int), RespError>(
                (FrameValue::BulkString(bytes), used),
            ),
            Err(e) => parse_frame(s) == Err::<(FrameValue, int), RespError>(e),
        },
        s.len() > 0 && s[0] == ARRAY && null_array_bytes().is_prefix_of(s) ==> frame_length(s)
            == Ok::<int, RespError>(5) && parse_frame(s) == Ok::<(FrameValue, int), RespError>(
            (FrameValue::NullArray, 5),
        ),
        s.len() > 0 && s[0] == ARRAY && !null_array_bytes().is_prefix_of(s) ==> frame_length(s)
            == composite_length(s, seq![ARRAY]) && match parse_sequence(s, seq![ARRAY]) {
            Ok((items, used)) => parse_frame(s) == Ok::<(FrameValue, int), RespError>(
                (FrameValue::Array(items), used),
            ),
            Err(e) => parse_frame(s) == Err::<(FrameValue, int), RespError>(e),
        },
        s.len() > 0 && s[0] == SET ==> frame_length(s) == composite_length(s, seq![SET])
            && match parse_sequence(s, seq![SET]) {
            Ok((items, used)) => parse_frame(s) == Ok::<(FrameValue, int), RespError>(
                (FrameValue::RespSet(items), used),
            ),
            Err(e) => parse_frame(s) == Err::<(FrameValue, int), RespError>(e),
        },
        s.len() > 0 && s[0] == MAP ==> frame_length(s) == composite_length(s, seq![MAP])
            && match parse_map(s) {
            Ok((entries, used)) => parse_frame(s) == Ok::<(FrameValue, int), RespError>(
                (FrameValue::RespMap(entries), used),
            ),
            Err(e) => parse_frame(s) == Err::<(FrameValue, int), RespError>(e),
        },
        s.len() > 0 && s[0] == NULL ==> frame_length(s) == Ok::<int, RespError>(3)
            && parse_frame(s) == parse_literal(s, null_bytes(), FrameValue::Null),
        s.len() > 0 && s[0] == BOOLEAN ==> frame_length(s) == Ok::<int, RespError>(4)
            && match parse_boolean(s) {
            Ok((b, used)) => parse_frame(s) == Ok::<(FrameValue, int), RespError>(
                (FrameValue::Boolean(b), used),
            ),
            Err(e) => parse_frame(s) == Err::<(FrameValue, int), RespError>(e),
        },
        s.len() > 0 && !is_sigil(s[0]) ==> frame_length(s) == Err::<int, RespError>(
            RespError::InvalidFrameType,
        ) && parse_frame(s) == Err::<(FrameValue, int), RespError>(
            RespError::InvalidFrameType,
        ),
{
    reveal(parse_frame);
    reveal(frame_length);
    reveal(parse_sequence);
    reveal(parse_map);
}

/// `b` is one of the ten sigils.
pub open spec fn is_sigil(b: u8) -> bool {
    b == SIMPLE_STRING || b == ERROR || b == INTEGER || b == BULK_STRING || b == ARRAY || b
        == NULL || b == BOOLEAN || b == DOUBLE || b == MAP || b == SET
}

/// A run of frames is read from its own bytes alone, and it is as long as
/// it measures.
pub(crate) proof fn lemma_elements_stable(
    s: Seq<u8>,
    t: Seq<u8>,
    count: int,
    items: Seq<FrameValue>,
    used: int,
)
    requires
        parse_elements(s, count) == Ok::<(Seq<FrameValue>, int), RespError>((items, used)),
        same_front(s, t, used),
    ensures
        0 <= used <= s.len(),
        used <= t.len(),
        count > 0 ==> used > 0,
        parse_elements(t, count) == parse_elements(s, count),
        elements_length(s, count) == Ok::<int, RespError>(used),
        elements_length(t, count) == Ok::<int, RespError>(used),
    decreases s.len(), count + 3,
{
    reveal(parse_elements);
    reveal(elements_length);
    reveal(parse_frame);
    reveal(frame_length);
    if count > 0 {
        let (first, n) = parse_frame(s)->Ok_0;
        lemma_frame_stable(s, s, first, n);
        let (rest, more) = parse_elements(s.skip(n), count - 1)->Ok_0;
        lemma_elements_stable(s.skip(n), s.skip(n), count - 1, rest, more);
        lemma_same_front_parts(s, t, used, 0, n);
        lemma_frame_stable(s, t, first, n);
        lemma_same_front_parts(s, t, used, n, more);
        lemma_elements_stable(s.skip(n), t.skip(n), count - 1, rest, more);
    }
}

/// A run of map entries is read from its own bytes alone, and it is as
/// long as it measures.
pub(crate) proof fn lemma_entries_stable(
    s: Seq<u8>,
    t: Seq<u8>,
    count: int,
    map: Seq<(Seq<char>, FrameValue)>,
    entries: Seq<(Seq<char>, FrameValue)>,
    used: int,
)
    requires
        parse_entries(s, count, map) == Ok::<(Seq<(Seq<char>, FrameValue)>, int), RespError>(
            (entries, used),
        ),
        same_front(s, t, used),
    ensures
        0 <= used <= s.len(),
        used <= t.len(),
        count > 0 ==> used > 0,
        parse_entries(t, count, map) == parse_entries(s, count, map),
        entries_length(s, count) == Ok::<int, RespError>(used),
        entries_length(t, count) == Ok::<int, RespError>(used),
    decreases s.len(), count + 3,
{
    reveal(parse_entries);
    reveal(entries_length);
    reveal(parse_frame);
    reveal(frame_length);
    if count > 0 {
        let (key, key_len) = parse_simple_string(s)->Ok_0;
        let end = key_len - 2;
        lemma_simple_frame_stable(s, s, SIMPLE_STRING, end);
        let behind = s.skip(key_len);
        let (value, value_len) = parse_frame(behind)->Ok_0;
        lemma_frame_stable(behind, behind, value, value_len);
        let next = entries_insert(map, key, value);
        let tail = behind.skip(value_len);
        assert(tail =~= s.skip(key_len + value_len));
        let (last, more) = parse_entries(tail, count - 1, next)->Ok_0;
        lemma_entries_stable(tail, tail, count - 1, next, last, more);
        lemma_same_front_parts(s, t, used, 0, key_len);
        lemma_simple_frame_stable(s, t, SIMPLE_STRING, end);
        lemma_same_front_parts(s, t, used, key_len, value_len);
        lemma_frame_stable(behind, t.skip(key_len), value, value_len);
        lemma_same_front_parts(s, t, used, key_len + value_len, more);
        assert(t.skip(key_len).skip(value_len) =~= t.skip(key_len + value_len));
        lemma_entries_stable(tail, t.skip(key_len + value_len), count - 1, next, last, more);
    }
}

/// An array or a set is read from its own bytes alone, and it is as long
/// as it measures.
pub(crate) proof fn lemma_sequence_stable(
    s: Seq<u8>,
    t: Seq<u8>,
    sigil: u8,
    items: Seq<FrameValue>,
    n: int,
)
    requires
        sigil == ARRAY || sigil == SET,
        parse_sequence(s, seq![sigil]) == Ok::<(Seq<FrameValue>, int), RespError>((items, n)),
        same_front(s, t, n),
    ensures
        4 <= n <= s.len(),
        n <= t.len(),
        s[0] == sigil,
        t[0] == sigil,
        s[1] != 45,
        t[1] != 45,
        parse_sequence(t, seq![sigil]) == parse_sequence(s, seq![sigil]),
        composite_length(s, seq![sigil]) == Ok::<int, RespError>(n),
        composite_length(t, seq![sigil]) == Ok::<int, RespError>(n),
    decreases s.len(), 0int,
{
    reveal(parse_sequence);
    reveal(parse_elements);
    reveal(total_length);
    reveal(elements_length);
    let (end, count) = length_header(s, seq![sigil])->Ok_0;
    lemma_length_header_first_byte(s, sigil, end, count);
    let body = s.skip(end + 2);
    let (parsed, used) = parse_elements(body, count as int)->Ok_0;
    lemma_elements_stable(body, body, count as int, parsed, used);
    lemma_same_front_parts(s, t, n, 0, end + 2);
    lemma_length_header_stable(s, t, sigil, end, count);
    assert(s[0] == t[0] && s[1] == t[1]);
    lemma_same_front_parts(s, t, n, end + 2, used);
    lemma_elements_stable(body, t.skip(end + 2), count as int, parsed, used);
}

/// A map is read from its own bytes alone, and it is as long as it
/// measures.
pub(crate) proof fn lemma_map_stable(
    s: Seq<u8>,
    t: Seq<u8>,
    entries: Seq<(Seq<char>, FrameValue)>,
    n: int,
)
    requires
        parse_map(s) == Ok::<(Seq<(Seq<char>, FrameValue)>, int), RespError>((entries, n)),
        same_front(s, t, n),
    ensures
        4 <= n <= s.len(),
        n <= t.len(),
        s[0] == MAP,
        t[0] == MAP,
        parse_map(t) == parse_map(s),
        composite_length(s, seq![MAP]) == Ok::<int, RespError>(n),
        composite_length(t, seq![MAP]) == Ok::<int, RespError>(n),
    decreases s.len(), 1int,
{
    reveal(parse_map);
    reveal(parse_entries);
    reveal(total_length);
    reveal(entries_length);
    assert(seq![MAP][0] != seq![ARRAY][0]);
    assert(seq![MAP][0] != seq![SET][0]);
    let (end, count) = length_header(s, seq![MAP])->Ok_0;
    lemma_length_header_first_byte(s, MAP, end, count);
    let body = s.skip(end + 2);
    let (parsed, used) = parse_entries(body, count as int, Seq::empty())->Ok_0;
    lemma_entries_stable(body, body, count as int, Seq::empty(), parsed, used);
    lemma_same_front_parts(s, t, n, 0, end + 2);
    lemma_length_header_stable(s, t, MAP, end, count);
    assert(s[0] == t[0]);
    lemma_same_front_parts(s, t, n, end + 2, used);
    lemma_entries_stable(body, t.skip(end + 2), count as int, Seq::empty(), parsed, used);
}

/// A frame is read from its own bytes alone: any buffer that begins with
/// them gives the same frame and the same length, whatever follows. And a
/// frame is as long as it measures.
pub proof fn lemma_frame_stable(s: Seq<u8>, t: Seq<u8>, value: FrameValue, n: int)
    requires
        parse_frame(s) == Ok::<(FrameValue, int), RespError>((value, n)),
        same_front(s, t, n),
    ensures
        0 < n <= s.len(),
        n <= t.len(),
        parse_frame(t) == parse_frame(s),
        frame_length(s) == Ok::<int, RespError>(n),
        frame_length(t) == Ok::<int, RespError>(n),
    decreases s.len(), 2int,
{
    lemma_frame_cases(s);
    if s.len() == 0 {
    } else if s[0] == SIMPLE_STRING {
        lemma_simple_frame_stable(s, t, SIMPLE_STRING, n - 2);
        lemma_frame_cases(t);
    } else if s[0] == ERROR {
        lemma_simple_frame_stable(s, t, ERROR, n - 2);
        lemma_frame_cases(t);
    } else if s[0] == INTEGER {
        lemma_simple_frame_stable(s, t, INTEGER, n - 2);
        lemma_frame_cases(t);
    } else if s[0] == DOUBLE {
        lemma_simple_frame_stable(s, t, DOUBLE, n - 2);
        lemma_frame_cases(t);
    } else if s[0] == BULK_STRING {
        if null_bulk_string_bytes().is_prefix_of(s) {
            lemma_literal_front(s, t, null_bulk_string_bytes(), 5);
            assert(s[0] == t[0]);
        } else {
            lemma_bulk_string_stable(s, t, value->BulkString_0, n);
        }
        lemma_frame_cases(t);
    } else if s[0] == ARRAY {
        if null_array_bytes().is_prefix_of(s) {
            lemma_literal_front(s, t, null_array_bytes(), 5);
            assert(s[0] == t[0]);
        } else {
            lemma_sequence_stable(s, t, ARRAY, value->Array_0, n);
            lemma_literal_differs(s, t, null_array_bytes(), n, 1);
        }
        lemma_frame_cases(t);
    } else if s[0] == NULL {
        lemma_literal_stable(s, t, null_bytes(), FrameValue::Null, n);
        assert(s[0] == t[0]);
        lemma_frame_cases(t);
    } else if s[0] == BOOLEAN {
        lemma_boolean_stable(s, t, value->Boolean_0, n);
        lemma_frame_cases(t);
    } else if s[0] == MAP {
        lemma_map_stable(s, t, value->RespMap_0, n);
        lemma_frame_cases(t);
    } else if s[0] == SET {
        lemma_sequence_stable(s, t, SET, value->RespSet_0, n);
        lemma_frame_cases(t);
    }
}

/// A buffer is its own front.
pub(crate) proof fn lemma_same_front_take(s: Seq<u8>, k: int, n: int)
    requires
        0 <= n <= k <= s.len(),
    ensures
        same_front(s, s.take(k), n),
{
}

/// No proper front of a null literal holds a header line.
pub(crate) proof fn lemma_null_literal_prefix(s: Seq<u8>, sigil: u8, k: int)
    requires
        seq![sigil, 45u8, 49u8, 13u8, 10u8].is_prefix_of(s),
        0 <= k < 5,
    ensures
        length_header(s.take(k), seq![sigil]) == Err::<(int, usize), RespError>(
            RespError::NotComplete,
        ),
        !seq![sigil, 45u8, 49u8, 13u8, 10u8].is_prefix_of(s.take(k)),
{
    let literal = seq![sigil, 45u8, 49u8, 13u8, 10u8];
    let t = s.take(k);
    assert forall|i: int| 0 <= i < 5 implies s[i] == literal[i] by {
        assert(literal[i] == s.subrange(0, 5)[i]);
    }
    if k >= 3 {
        assert(seq![sigil] =~= t.subrange(0, 1));
        assert(no_crlf_before(t, t.len() as int)) by {
            assert forall|j: int| 0 <= j < t.len() implies !is_crlf_at(t, j) by {
                if is_crlf_at(t, j) {
                    assert(t[j] == s[j]);
                    assert(t[j + 1] == s[j + 1]);
                }
            }
        }
        lemma_first_crlf_none(t);
    }
}

/// A buffer that ends inside a run of frames does not measure.
pub(crate) proof fn lemma_elements_prefix(
    s: Seq<u8>,
    count: int,
    items: Seq<FrameValue>,
    used: int,
    k: int,
)
    requires
        parse_elements(s, count) == Ok::<(Seq<FrameValue>, int), RespError>((items, used)),
        0 <= k < used,
    ensures
        elements_length(s.take(k), count) == Err::<int, RespError>(RespError::NotComplete),
    decreases s.len(), count + 3,
{
    reveal(parse_elements);
    reveal(elements_length);
    reveal(parse_frame);
    reveal(frame_length);
    let (first, n) = parse_frame(s)->Ok_0;
    lemma_frame_stable(s, s, first, n);
    let (rest, more) = parse_elements(s.skip(n), count - 1)->Ok_0;
    lemma_elements_stable(s.skip(n), s.skip(n), count - 1, rest, more);
    if k < n {
        lemma_frame_prefix(s, first, n, k);
    } else {
        lemma_same_front_take(s, k, n);
        lemma_frame_stable(s, s.take(k), first, n);
        assert(s.take(k).skip(n) =~= s.skip(n).take(k - n));
        lemma_elements_prefix(s.skip(n), count - 1, rest, more, k - n);
    }
}

/// A buffer that ends inside a run of map entries does not measure.
pub(crate) proof fn lemma_entries_prefix(
    s: Seq<u8>,
    count: int,
    map: Seq<(Seq<char>, FrameValue)>,
    entries: Seq<(Seq<char>, FrameValue)>,
    used: int,
    k: int,
)
    requires
        parse_entries(s, count, map) == Ok::<(Seq<(Seq<char>, FrameValue)>, int), RespError>(
            (entries, used),
        ),
        0 <= k < used,
    ensures
        entries_length(s.take(k), count) == Err::<int, RespError>(RespError::NotComplete),
    decreases s.len(), count + 3,
{
    reveal(parse_entries);
    reveal(entries_length);
    reveal(parse_frame);
    reveal(frame_length);
    let (key, key_len) = parse_simple_string(s)->Ok_0;
    let end = key_len - 2;
    lemma_simple_frame_stable(s, s, SIMPLE_STRING, end);
    let behind = s.skip(key_len);
    let (value, value_len) = parse_frame(behind)->Ok_0;
    lemma_frame_stable(behind, behind, value, value_len);
    let next = entries_insert(map, key, value);
    let tail = behind.skip(value_len);
    assert(tail =~= s.skip(key_len + value_len));
    let (last, more) = parse_entries(tail, count - 1, next)->Ok_0;
    lemma_entries_stable(tail, tail, count - 1, next, last, more);
    let t = s.take(k);
    if k < key_len {
        lemma_simple_end_prefix(s, SIMPLE_STRING, end, k);
    } else {
        lemma_same_front_take(s, k, key_len);
        lemma_simple_frame_stable(s, t, SIMPLE_STRING, end);
        assert(t.skip(key_len) =~= behind.take(k - key_len));
        if k < key_len + value_len {
            lemma_frame_prefix(behind, value, value_len, k - key_len);
        } else {
            lemma_same_front_take(behind, k - key_len, value_len);
            lemma_frame_stable(behind, behind.take(k - key_len), value, value_len);
            assert(t.skip(key_len + value_len) =~= tail.take(k - key_len - value_len));
            lemma_entries_prefix(tail, count - 1, next, last, more, k - key_len - value_len);
        }
    }
}

/// A buffer that ends inside an array or a set holds no array or set yet,
/// and does not measure.
pub(crate) proof fn lemma_sequence_prefix(
    s: Seq<u8>,
    sigil: u8,
    items: Seq<FrameValue>,
    n: int,
    k: int,
)
    requires
        sigil == ARRAY || sigil == SET,
        parse_sequence(s, seq![sigil]) == Ok::<(Seq<FrameValue>, int), RespError>((items, n)),
        0 <= k < n,
    ensures
        parse_sequence(s.take(k), seq![sigil]) == Err::<(Seq<FrameValue>, int), RespError>(
            RespError::NotComplete,
        ),
        composite_length(s.take(k), seq![sigil]) == Err::<int, RespError>(
            RespError::NotComplete,
        ),
    decreases s.len(), 0int,
{
    reveal(parse_sequence);
    reveal(parse_elements);
    reveal(total_length);
    reveal(elements_length);
    let (end, count) = length_header(s, seq![sigil])->Ok_0;
    lemma_length_header_first_byte(s, sigil, end, count);
    let body = s.skip(end + 2);
    let (parsed, used) = parse_elements(body, count as int)->Ok_0;
    lemma_elements_stable(body, body, count as int, parsed, used);
    if k < end + 2 {
        lemma_length_header_prefix(s, sigil, end, count, k);
    } else {
        lemma_same_front_take(s, k, end + 2);
        lemma_length_header_stable(s, s.take(k), sigil, end, count);
        assert(s.take(k).skip(end + 2) =~= body.take(k - end - 2));
        lemma_elements_prefix(body, count as int, parsed, used, k - end - 2);
    }
}

/// A buffer that ends inside a map holds no map yet, and does not measure.
pub(crate) proof fn lemma_map_prefix(
    s: Seq<u8>,
    entries: Seq<(Seq<char>, FrameValue)>,
    n: int,
    k: int,
)
    requires
        parse_map(s) == Ok::<(Seq<(Seq<char>, FrameValue)>, int), RespError>((entries, n)),
        0 <= k < n,
    ensures
        parse_map(s.take(k)) == Err::<(Seq<(Seq<char>, FrameValue)>, int), RespError>(
            RespError::NotComplete,
        ),
        composite_length(s.take(k), seq![MAP]) == Err::<int, RespError>(RespError::NotComplete),
    decreases s.len(), 1int,
{
    reveal(parse_map);
    reveal(parse_entries);
    reveal(total_length);
    reveal(entries_length);
    assert(seq![MAP][0] != seq![ARRAY][0]);
    assert(seq![MAP][0] != seq![SET][0]);
    let (end, count) = length_header(s, seq![MAP])->Ok_0;
    lemma_length_header_first_byte(s, MAP, end, count);
    let body = s.skip(end + 2);
    let (parsed, used) = parse_entries(body, count as int, Seq::empty())->Ok_0;
    lemma_entries_stable(body, body, count as int, Seq::empty(), parsed, used);
    if k < end + 2 {
        lemma_length_header_prefix(s, MAP, end, count, k);
    } else {
        lemma_same_front_take(s, k, end + 2);
        lemma_length_header_stable(s, s.take(k), MAP, end, count);
        assert(s.take(k).skip(end + 2) =~= body.take(k - end - 2));
        lemma_entries_prefix(body, count as int, Seq::empty(), parsed, used, k - end - 2);
    }
}

/// A buffer that ends inside a bulk string holds no bulk string yet; it
/// measures as the whole bulk string once its header line is there.
pub(crate) proof fn lemma_bulk_string_prefix(s: Seq<u8>, bytes: Seq<u8>, n: int, k: int)
    requires
        parse_bulk_string(s) == Ok::<(Seq<u8>, int), RespError>((bytes, n)),
        0 <= k < n,
    ensures
        parse_bulk_string(s.take(k)) == Err::<(Seq<u8>, int), RespError>(
            RespError::NotComplete,
        ),
        bulk_string_length(s.take(k)) == Err::<int, RespError>(RespError::NotComplete)
            || bulk_string_length(s.take(k)) == Ok::<int, RespError>(n),
{
    let (end, len) = length_header(s, seq![BULK_STRING])->Ok_0;
    lemma_length_header_first_byte(s, BULK_STRING, end, len);
    if k < end + 2 {
        lemma_length_header_prefix(s, BULK_STRING, end, len, k);
    } else {
        lemma_same_front_take(s, k, end + 2);
        lemma_length_header_stable(s, s.take(k), BULK_STRING, end, len);
    }
}

/// The two things that hold of a buffer that ends inside a frame of `n`
/// bytes: reading it asks for more bytes, and measuring it either asks for
/// more bytes too or gives `n`.
pub open spec fn asks_for_more(t: Seq<u8>, n: int) -> bool {
    &&& parse_frame(t) == Err::<(FrameValue, int), RespError>(RespError::NotComplete)
    &&& frame_length(t) == Err::<int, RespError>(RespError::NotComplete) || frame_length(t)
        == Ok::<int, RespError>(n)
}

/// A buffer that ends inside a simple frame asks for more.
proof fn lemma_frame_prefix_simple(s: Seq<u8>, value: FrameValue, n: int, k: int)
    requires
        parse_frame(s) == Ok::<(FrameValue, int), RespError>((value, n)),
        0 < k < n <= s.len(),
        s.len() > 0,
        s[0] == SIMPLE_STRING || s[0] == ERROR || s[0] == INTEGER || s[0] == DOUBLE,
    ensures
        asks_for_more(s.take(k), n),
{
    lemma_frame_cases(s);
    lemma_frame_cases(s.take(k));
    assert(s.take(k)[0] == s[0]);
    lemma_simple_end_prefix(s, s[0], n - 2, k);
}

/// A buffer that ends inside a bulk string or a null bulk string asks for
/// more.
proof fn lemma_frame_prefix_bulk_string(s: Seq<u8>, value: FrameValue, n: int, k: int)
    requires
        parse_frame(s) == Ok::<(FrameValue, int), RespError>((value, n)),
        0 < k < n <= s.len(),
        s.len() > 0,
        s[0] == BULK_STRING,
    ensures
        asks_for_more(s.take(k), n),
{
    let t = s.take(k);
    lemma_frame_cases(s);
    lemma_frame_cases(t);
    if null_bulk_string_bytes().is_prefix_of(s) {
        lemma_null_literal_prefix(s, BULK_STRING, k);
    } else {
        lemma_bulk_string_prefix(s, value->BulkString_0, n, k);
        lemma_bulk_string_stable(s, s, value->BulkString_0, n);
        lemma_same_front_take(s, k, k);
        if k >= 2 {
            lemma_literal_differs(s, t, null_bulk_string_bytes(), k, 1);
        }
    }
}

/// A buffer that ends inside null or a boolean asks for more.
proof fn lemma_frame_prefix_literal(s: Seq<u8>, value: FrameValue, n: int, k: int)
    requires
        parse_frame(s) == Ok::<(FrameValue, int), RespError>((value, n)),
        0 < k < n <= s.len(),
        s.len() > 0,
        s[0] == NULL || s[0] == BOOLEAN,
    ensures
        asks_for_more(s.take(k), n),
{
    lemma_frame_cases(s);
    lemma_frame_cases(s.take(k));
    if s[0] == BOOLEAN {
        lemma_boolean_stable(s, s, value->Boolean_0, n);
    }
}

/// A buffer that ends inside an array or a null array asks for more.
proof fn lemma_frame_prefix_array(s: Seq<u8>, value: FrameValue, n: int, k: int)
    requires
        parse_frame(s) == Ok::<(FrameValue, int), RespError>((value, n)),
        0 < k < n <= s.len(),
        s.len() > 0,
        s[0] == ARRAY,
    ensures
        asks_for_more(s.take(k), n),
    decreases s.len(), 2int,
{
    let t = s.take(k);
    lemma_frame_cases(s);
    lemma_frame_cases(t);
    assert(t[0] == s[0]);
    if null_array_bytes().is_prefix_of(s) {
        reveal(parse_sequence);
        lemma_null_literal_prefix(s, ARRAY, k);
    } else {
        lemma_sequence_prefix(s, ARRAY, value->Array_0, n, k);
        lemma_sequence_stable(s, s, ARRAY, value->Array_0, n);
        lemma_same_front_take(s, k, k);
        if k >= 2 {
            lemma_literal_differs(s, t, null_array_bytes(), k, 1);
        }
    }
}

/// A buffer that ends inside a set or a map asks for more.
proof fn lemma_frame_prefix_composite(s: Seq<u8>, value: FrameValue, n: int, k: int)
    requires
        parse_frame(s) == Ok::<(FrameValue, int), RespError>((value, n)),
        0 < k < n <= s.len(),
        s.len() > 0,
        s[0] == SET || s[0] == MAP,
    ensures
        asks_for_more(s.take(k), n),
    decreases s.len(), 2int,
{
    lemma_frame_cases(s);
    lemma_frame_cases(s.take(k));
    assert(s.take(k)[0] == s[0]);
    if s[0] == MAP {
        lemma_map_prefix(s, value->RespMap_0, n, k);
    } else {
        lemma_sequence_prefix(s, SET, value->RespSet_0, n, k);
    }
}

/// A buffer that ends inside a frame holds no frame yet: reading it asks
/// for more bytes, and measuring it either asks for more bytes too or
/// gives the length of the whole frame.
pub proof fn lemma_frame_prefix(s: Seq<u8>, value: FrameValue, n: int, k: int)
    requires
        parse_frame(s) == Ok::<(FrameValue, int), RespError>((value, n)),
        0 <= k < n,
    ensures
        asks_for_more(s.take(k), n),
    decreases s.len(), 3int,
{
    lemma_frame_stable(s, s, value, n);
    if k == 0 {
        lemma_frame_cases(s.take(k));
    } else if s[0] == SIMPLE_STRING || s[0] == ERROR || s[0] == INTEGER || s[0] == DOUBLE {
        lemma_frame_prefix_simple(s, value, n, k);
    } else if s[0] == BULK_STRING {
        lemma_frame_prefix_bulk_string(s, value, n, k);
    } else if s[0] == ARRAY {
        lemma_frame_prefix_array(s, value, n, k);
    } else if s[0] == NULL || s[0] == BOOLEAN {
        lemma_frame_prefix_literal(s, value, n, k);
    } else if s[0] == MAP || s[0] == SET {
        lemma_frame_prefix_composite(s, value, n, k);
    } else {
        lemma_frame_cases(s);
    }
}

/// Incremental feed, in the words of the codec: of a buffer that begins
/// with a frame which `RespFrame::decode` reads, every shorter front that
/// ends inside the frame makes `decode` ask for more, and every front that
/// holds the frame makes it read the same frame.
pub proof fn lemma_decode_of_pieces(s: Seq<u8>, k: int)
    requires
        <RespFrame as RespDecode>::parsed(s) is Ok,
        0 <= k <= s.len(),
    ensures
        <RespFrame as RespDecode>::parsed(s.take(k)) == if k < <RespFrame as RespDecode>::parsed(
            s,
        )->Ok_0.1 {
            Err(RespError::NotComplete)
        } else {
            <RespFrame as RespDecode>::parsed(s)
        },
{
    let (value, n) = parse_frame(s)->Ok_0;
    lemma_incremental_feed(s, value, n, k);
}

/// Incremental feed. Let the buffer `s` begin with a complete frame of `n`
/// bytes. A buffer that has received only the first `k < n` of these bytes
/// is told to wait, and a buffer that has received `n` of them or more
/// yields the frame, the same one however many bytes follow it. As a
/// decoder that is told to wait leaves its buffer untouched, feeding the
/// bytes in pieces ends with the frame that feeding them at once gives.
pub proof fn lemma_incremental_feed(s: Seq<u8>, value: FrameValue, n: int, k: int)
    requires
        parse_frame(s) == Ok::<(FrameValue, int), RespError>((value, n)),
        0 <= k <= s.len(),
    ensures
        0 < n <= s.len(),
        k < n ==> parse_frame(s.take(k)) == Err::<(FrameValue, int), RespError>(
            RespError::NotComplete,
        ),
        k >= n ==> parse_frame(s.take(k)) == Ok::<(FrameValue, int), RespError>((value, n)),
{
    lemma_frame_stable(s, s, value, n);
    if k < n {
        lemma_frame_prefix(s, value, n, k);
    } else {
        lemma_same_front_take(s, k, n);
        lemma_frame_stable(s, s.take(k), value, n);
    }
}

} // verus!

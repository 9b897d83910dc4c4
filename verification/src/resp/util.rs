//! Line terminators, headers and fixed literals: the pieces every frame is
//! read with.

use super::buffer::buffer_bytes;
use super::decimal::{parse_usize, usize_literal};
use super::decode::{expect_frame_length, lemma_sigil_bytes};
use super::wire::{
    clip_length, elements_length, entries_length, measure_on, total_length, ARRAY, MAP, SET,
    SIMPLE_STRING,
};
use super::RespError;
use super::CRLF_LEN;
use bytes::Buf;
use bytes::BytesMut;
use vstd::prelude::*;
use vstd::utf8::*;

verus! {

/// A carriage return at `i` and a line feed right behind it.
pub open spec fn is_crlf_at(s: Seq<u8>, i: int) -> bool {
    0 <= i && i + 1 < s.len() && s[i] == 13 && s[i + 1] == 10
}

/// Where the `nth` line terminator at or behind `from` starts, counting from one.
pub open spec fn scan_crlf(s: Seq<u8>, from: int, nth: int) -> Option<int>
    decreases s.len() - from,
{
    if from < 0 || from + 1 >= s.len() {
        None
    } else if is_crlf_at(s, from) {
        if nth == 1 {
            Some(from)
        } else {
            scan_crlf(s, from + 1, nth - 1)
        }
    } else {
        scan_crlf(s, from + 1, nth)
    }
}

/// Where the `nth` line terminator of `s` starts, counting from one.
pub open spec fn nth_crlf(s: Seq<u8>, nth: int) -> Option<int> {
    scan_crlf(s, 0, nth)
}

/// Where the first line terminator of `s` starts.
pub open spec fn first_crlf(s: Seq<u8>) -> Option<int> {
    nth_crlf(s, 1)
}

/// Where the payload of a simple frame ends: at the first line terminator
/// of a buffer that holds at least three bytes and begins with `prefix`.
pub open spec fn simple_frame_end(s: Seq<u8>, prefix: Seq<u8>) -> Result<int, RespError> {
    if s.len() < 3 {
        Err(RespError::NotComplete)
    } else if !prefix.is_prefix_of(s) {
        Err(RespError::InvalidFrameType)
    } else {
        match first_crlf(s) {
            Some(end) => Ok(end),
            None => Err(RespError::NotComplete),
        }
    }
}

/// The bytes between the prefix and the line terminator at `end`.
pub open spec fn header_payload(s: Seq<u8>, prefix: Seq<u8>, end: int) -> Seq<u8> {
    if prefix.len() <= end <= s.len() {
        s.subrange(prefix.len() as int, end)
    } else {
        Seq::empty()
    }
}

/// The header of a length-prefixed frame: where its line ends, and the
/// length or count that it announces.
pub open spec fn length_header(s: Seq<u8>, prefix: Seq<u8>) -> Result<(int, usize), RespError> {
    match simple_frame_end(s, prefix) {
        Err(e) => Err(e),
        Ok(end) => match usize_literal(header_payload(s, prefix, end)) {
            Some(n) => Ok((end, n)),
            None => Err(RespError::ParseIntError),
        },
    }
}

/// A line terminator that `scan_crlf` finds lies inside the buffer, at or
/// behind the place where the scan began.
pub(crate) proof fn lemma_scan_crlf_bounds(s: Seq<u8>, from: int, nth: int)
    ensures
        scan_crlf(s, from, nth) matches Some(i) ==> from <= i && is_crlf_at(s, i),
    decreases s.len() - from,
{
    if from < 0 || from + 1 >= s.len() {
    } else if is_crlf_at(s, from) {
        if nth != 1 {
            lemma_scan_crlf_bounds(s, from + 1, nth - 1);
        }
    } else {
        lemma_scan_crlf_bounds(s, from + 1, nth);
    }
}

/// No line terminator starts before `e`.
pub open spec fn no_crlf_before(s: Seq<u8>, e: int) -> bool {
    forall|j: int| 0 <= j < e ==> !is_crlf_at(s, j)
}

/// A scan for the first line terminator stops at `target` if it begins at
/// or before it and no line terminator lies in between.
pub(crate) proof fn lemma_scan_crlf_finds(s: Seq<u8>, from: int, target: int)
    requires
        0 <= from <= target,
        is_crlf_at(s, target),
        forall|j: int| from <= j < target ==> !is_crlf_at(s, j),
    ensures
        scan_crlf(s, from, 1) == Some(target),
    decreases target - from,
{
    if from < target {
        lemma_scan_crlf_finds(s, from + 1, target);
    }
}

/// A scan for the first line terminator finds none where there is none.
pub(crate) proof fn lemma_scan_crlf_none(s: Seq<u8>, from: int)
    requires
        forall|j: int| from <= j ==> !is_crlf_at(s, j),
    ensures
        scan_crlf(s, from, 1) is None,
    decreases s.len() - from,
{
    if from < 0 || from + 1 >= s.len() {
    } else {
        lemma_scan_crlf_none(s, from + 1);
    }
}

/// What a scan for the first line terminator finds is the first one at or
/// behind the place where it began.
pub(crate) proof fn lemma_scan_crlf_first(s: Seq<u8>, from: int)
    ensures
        match scan_crlf(s, from, 1) {
            Some(e) => from <= e && is_crlf_at(s, e) && forall|j: int|
                from <= j < e ==> !is_crlf_at(s, j),
            None => forall|j: int| 0 <= from <= j ==> !is_crlf_at(s, j),
        },
    decreases s.len() - from,
{
    if from < 0 || from + 1 >= s.len() {
    } else if is_crlf_at(s, from) {
    } else {
        lemma_scan_crlf_first(s, from + 1);
    }
}

/// The first line terminator of `s` starts at `e` exactly if one starts
/// there and none before.
pub proof fn lemma_first_crlf(s: Seq<u8>, e: int)
    ensures
        first_crlf(s) == Some(e) <==> is_crlf_at(s, e) && no_crlf_before(s, e),
{
    lemma_scan_crlf_first(s, 0);
    if is_crlf_at(s, e) && no_crlf_before(s, e) {
        lemma_scan_crlf_finds(s, 0, e);
    }
}

/// `s` has no first line terminator exactly if it has none at all.
pub proof fn lemma_first_crlf_none(s: Seq<u8>)
    ensures
        first_crlf(s) is None <==> no_crlf_before(s, s.len() as int),
{
    lemma_scan_crlf_first(s, 0);
    if no_crlf_before(s, s.len() as int) {
        lemma_scan_crlf_none(s, 0);
    }
}

/// `prefix` is what `buf` begins with.
pub fn starts_with(buf: &[u8], prefix: &[u8]) -> (r: bool)
    ensures
        r == prefix@.is_prefix_of(buf@),
{
    if prefix.len() > buf.len() {
        return false;
    }
    let mut i: usize = 0;
    while i < prefix.len()
        invariant
            i <= prefix@.len() <= buf@.len(),
            forall|j: int| 0 <= j < i ==> prefix@[j] == buf@[j],
        decreases prefix.len() - i,
    {
        if prefix[i] != buf[i] {
            assert(buf@.subrange(0, prefix@.len() as int)[i as int] != prefix@[i as int]);
            return false;
        }
        i = i + 1;
    }
    assert(prefix@ =~= buf@.subrange(0, prefix@.len() as int));
    true
}

/// Finds the start of the `offset`-th line terminator in `buf`, counting from one.
pub fn find_crlf(buf: &[u8], offset: usize) -> (r: Option<usize>)
    ensures
        r matches Some(i) ==> nth_crlf(buf@, offset as int) == Some(i as int),
        r is None ==> nth_crlf(buf@, offset as int) is None,
{
    let n = buf.len();
    if n < 2 {
        return None;
    }
    let mut count: usize = 0;
    let mut idx: usize = 0;
    while idx < n - 1
        invariant
            n == buf@.len(),
            n >= 2,
            count <= idx <= n,
            nth_crlf(buf@, offset as int) == scan_crlf(buf@, idx as int, offset - count),
        decreases n - idx,
    {
        if buf[idx] == 13 && buf[idx + 1] == 10 {
            count = count + 1;
            if count == offset {
                return Some(idx);
            }
        }
        idx = idx + 1;
    }
    None
}

/// Checks the prefix of a simple frame and finds the line terminator that ends it.
pub fn extract_simple_frame_data(buf: &[u8], prefix: &str) -> (r: Result<usize, RespError>)
    ensures
        match r {
            Ok(end) => simple_frame_end(buf@, encode_utf8(prefix@)) == Ok::<int, RespError>(
                end as int,
            ) && end + 2 <= buf@.len() <= usize::MAX,
            Err(e) => simple_frame_end(buf@, encode_utf8(prefix@)) == Err::<int, RespError>(e),
        },
{
    if buf.len() < 3 {
        return Err(RespError::NotComplete);
    }
    if !starts_with(buf, prefix.as_bytes()) {
        return Err(RespError::InvalidFrameType);
    }
    match find_crlf(buf, 1) {
        Some(end) => {
            proof {
                lemma_scan_crlf_bounds(buf@, 0, 1);
            }
            Ok(end)
        },
        None => Err(RespError::NotComplete),
    }
}

/// Reads the header of a length-prefixed frame: the index of the line
/// terminator that ends it, and the length or count between the prefix and
/// that terminator.
pub fn parse_length(buf: &[u8], prefix: &str) -> (r: Result<(usize, usize), RespError>)
    ensures
        match r {
            Ok((end, n)) => length_header(buf@, encode_utf8(prefix@)) == Ok::<
                (int, usize),
                RespError,
            >((end as int, n)) && end + 2 <= buf@.len() <= usize::MAX,
            Err(e) => length_header(buf@, encode_utf8(prefix@)) == Err::<(int, usize), RespError>(
                e,
            ),
        },
{
    let end = match extract_simple_frame_data(buf, prefix) {
        Ok(end) => end,
        Err(e) => {
            return Err(e);
        },
    };
    let start = prefix.as_bytes().len();
    let parsed = if start <= end {
        parse_usize(vstd::slice::slice_subrange(buf, start, end))
    } else {
        parse_usize(vstd::slice::slice_subrange(buf, 0, 0))
    };
    proof {
        assert(buf@.subrange(0, 0) =~= Seq::<u8>::empty());
    }
    match parsed {
        Some(n) => Ok((end, n)),
        None => Err(RespError::ParseIntError),
    }
}

/// Looks for the literal at the front of `data`.
pub fn check_fixed_data(data: &[u8], literal: &[u8]) -> (r: Result<(), RespError>)
    ensures
        r == fixed_literal(data@, literal@),
{
    if data.len() < literal.len() {
        return Err(RespError::NotComplete);
    }
    if !starts_with(data, literal) {
        return Err(RespError::InvalidFrameType);
    }
    Ok(())
}

/// Takes the literal `expect` off the front of the buffer.
///
/// `expect_type` names the frame that the literal stands for; it has no
/// part in the outcome.
pub fn extract_fixed_data(buf: &mut BytesMut, expect: &str, expect_type: &str) -> (r: Result<
    (),
    RespError,
>)
    ensures
        r == fixed_literal(buffer_bytes(*old(buf)), encode_utf8(expect@)),
        r is Ok ==> buffer_bytes(*final(buf)) == buffer_bytes(*old(buf)).skip(
            encode_utf8(expect@).len() as int,
        ),
        r is Err ==> buffer_bytes(*final(buf)) == buffer_bytes(*old(buf)),
{
    let literal = expect.as_bytes();
    match check_fixed_data(<BytesMut as AsRef<[u8]>>::as_ref(buf), literal) {
        Ok(_) => {
            buf.advance(literal.len());
            Ok(())
        },
        Err(e) => Err(e),
    }
}

/// Whether a buffer begins with a fixed literal: it does, it holds too few
/// bytes to tell, or it holds something else.
pub open spec fn fixed_literal(s: Seq<u8>, literal: Seq<u8>) -> Result<(), RespError> {
    if s.len() < literal.len() {
        Err(RespError::NotComplete)
    } else if literal.is_prefix_of(s) {
        Ok(())
    } else {
        Err(RespError::InvalidFrameType)
    }
}

/// What a measured length has to be: the length that the grammar gives,
/// as far as a `usize` can hold it.
pub open spec fn length_matches(
    r: Result<usize, RespError>,
    length: Result<int, RespError>,
) -> bool {
    match r {
        Ok(n) => clip_length(length) == Ok::<int, RespError>(n as int),
        Err(e) => clip_length(length) == Err::<int, RespError>(e),
    }
}

/// Measures `count` frames in a row, the first of which begins at `start`.
/// Gives the place where the last of them ends.
fn measure_elements(buf: &[u8], start: usize, count: usize) -> (r: Result<usize, RespError>)
    requires
        0 < start <= buf@.len(),
    ensures
        match r {
            Ok(total) => start <= total <= buf@.len() && elements_length(
                buf@.skip(start as int),
                count as int,
            ) == Ok::<int, RespError>(total - start),
            Err(e) => elements_length(buf@.skip(start as int), count as int) == Err::<
                int,
                RespError,
            >(e),
        },
    decreases buf@.len(), 0int,
{
    let n = buf.len();
    let mut total = start;
    let mut i: usize = 0;
    proof {
        reveal_with_fuel(elements_length, 1);
        assert(measure_on(0, elements_length(buf@.skip(start as int), count as int))
            == elements_length(buf@.skip(start as int), count as int));
    }
    while i < count
        invariant
            n == buf@.len(),
            0 < start <= total <= n,
            i <= count,
            elements_length(buf@.skip(start as int), count as int) == measure_on(
                total - start,
                elements_length(buf@.skip(total as int), count - i),
            ),
        decreases count - i,
    {
        let ghost rest = buf@.skip(total as int);
        proof {
            reveal_with_fuel(elements_length, 1);
        }
        let first = match expect_frame_length(vstd::slice::slice_subrange(buf, total, n)) {
            Ok(first) => first,
            Err(e) => {
                return Err(e);
            },
        };
        if first > n - total {
            return Err(RespError::NotComplete);
        }
        assert(rest.skip(first as int) =~= buf@.skip(total + first));
        total = total + first;
        i = i + 1;
    }
    Ok(total)
}

/// Measures `count` map entries in a row, the first of which begins at
/// `start`. Gives the place where the last of them ends.
fn measure_entries(buf: &[u8], start: usize, count: usize) -> (r: Result<usize, RespError>)
    requires
        0 < start <= buf@.len(),
    ensures
        match r {
            Ok(total) => start <= total <= buf@.len() && entries_length(
                buf@.skip(start as int),
                count as int,
            ) == Ok::<int, RespError>(total - start),
            Err(e) => entries_length(buf@.skip(start as int), count as int) == Err::<
                int,
                RespError,
            >(e),
        },
    decreases buf@.len(), 0int,
{
    let n = buf.len();
    let mut total = start;
    let mut i: usize = 0;
    proof {
        reveal_with_fuel(entries_length, 1);
        lemma_sigil_bytes();
        assert(measure_on(0, entries_length(buf@.skip(start as int), count as int))
            == entries_length(buf@.skip(start as int), count as int));
    }
    while i < count
        invariant
            n == buf@.len(),
            0 < start <= total <= n,
            i <= count,
            encode_utf8("+"@) == seq![SIMPLE_STRING],
            entries_length(buf@.skip(start as int), count as int) == measure_on(
                total - start,
                entries_length(buf@.skip(total as int), count - i),
            ),
        decreases count - i,
    {
        let ghost rest = buf@.skip(total as int);
        proof {
            reveal_with_fuel(entries_length, 1);
        }
        let key = match extract_simple_frame_data(
            vstd::slice::slice_subrange(buf, total, n),
            "+",
        ) {
            Ok(end) => end + CRLF_LEN,
            Err(e) => {
                return Err(e);
            },
        };
        assert(rest.skip(key as int) =~= buf@.skip(total + key));
        let value = match expect_frame_length(vstd::slice::slice_subrange(buf, total + key, n)) {
            Ok(value) => value,
            Err(e) => {
                return Err(e);
            },
        };
        if value > n - total - key {
            return Err(RespError::NotComplete);
        }
        assert(rest.skip(key + value) =~= buf@.skip(total + key + value));
        total = total + key + value;
        i = i + 1;
    }
    Ok(total)
}

/// Computes the length that a composite frame will occupy, from the end of
/// its header line and the count that the header announces.
///
/// For the prefixes `*` and `~` the body is `len` frames, for `%` it is
/// `len` pairs of a simple string and a frame; for any other prefix the
/// answer is `len` bytes and a line terminator. The elements are measured
/// one after the other, and each has to lie in `buf` in full.
pub fn calc_total_length(buf: &[u8], end: usize, len: usize, prefix: &str) -> (r: Result<
    usize,
    RespError,
>)
    ensures
        length_matches(r, total_length(buf@, end as int, len as int, encode_utf8(prefix@))),
    decreases buf@.len(), 1int,
{
    reveal(total_length);
    reveal(elements_length);
    reveal(entries_length);
    let n = buf.len();
    if end > n || n - end < CRLF_LEN {
        return Err(RespError::NotComplete);
    }
    let start = end + CRLF_LEN;
    let sigil = prefix.as_bytes();
    if sigil.len() == 1 && (sigil[0] == ARRAY || sigil[0] == SET) {
        assert(sigil@ =~= seq![sigil@[0]]);
        measure_elements(buf, start, len)
    } else if sigil.len() == 1 && sigil[0] == MAP {
        assert(sigil@ =~= seq![sigil@[0]]);
        measure_entries(buf, start, len)
    } else {
        proof {
            if sigil@ == seq![ARRAY] || sigil@ == seq![SET] || sigil@ == seq![MAP] {
                assert(sigil@.len() == 1);
            }
        }
        match len.checked_add(CRLF_LEN) {
            Some(total) => Ok(total),
            None => Err(RespError::NotComplete),
        }
    }
}

} // verus!

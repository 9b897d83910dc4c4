//! The command layer: from a decoded array of bulk strings to a typed
//! command, and from a command and the store to a reply.

pub mod echo;
pub mod hmap;
pub mod laws;
pub mod map;
pub mod member;

pub use self::echo::Echo;
pub use self::hmap::{HGet, HGetAll, HMGet, HSet};
pub use self::map::{Get, SetCmd};
pub use self::member::{SISMember, Sadd};
use crate::backend::store::{entry_or, lists};
use crate::backend::{membership, saturated, Backend, BackendState};
use crate::resp::decimal::{decimal, push_decimal};
use crate::resp::double::ascii_lower;
use crate::resp::frame::{frame_values, lemma_array_view};
use crate::resp::text::{lossy_text, string_from_utf8_lossy};
use crate::resp::{FrameValue, RespArray, RespError, RespFrame, RespNullBulkString, SimpleString};
use vstd::prelude::*;
use vstd::std_specs::convert::TryFromSpecImpl;
use vstd::utf8::encode_utf8;

verus! {

/// Why an array is no command.
#[derive(Debug, PartialEq, Eq)]
pub enum CommandError {
    /// A leading token is missing, is no bulk string or is not the name
    /// that was expected.
    InvalidCommand(String),
    /// The number of arguments is wrong, or an argument is no bulk string
    /// where one is needed.
    InvalidArgument(String),
    /// The frame could not be decoded.
    RespError(RespError),
}

/// A command error, as mathematics: the variant and the text it carries.
pub enum CommandErrorValue {
    InvalidCommand(Seq<char>),
    InvalidArgument(Seq<char>),
    RespError(RespError),
}

impl View for CommandError {
    type V = CommandErrorValue;

    open spec fn view(&self) -> CommandErrorValue {
        match self {
            CommandError::InvalidCommand(text) => CommandErrorValue::InvalidCommand(text@),
            CommandError::InvalidArgument(text) => CommandErrorValue::InvalidArgument(text@),
            CommandError::RespError(e) => CommandErrorValue::RespError(*e),
        }
    }
}

impl From<RespError> for CommandError {
    fn from(e: RespError) -> (r: CommandError) {
        CommandError::RespError(e)
    }
}

impl vstd::std_specs::convert::FromSpecImpl<RespError> for CommandError {
    open spec fn obeys_from_spec() -> bool {
        true
    }

    open spec fn from_spec(e: RespError) -> CommandError {
        CommandError::RespError(e)
    }
}

/// The bytes of a run of names, name by name.
pub open spec fn name_bytes(names: Seq<&'static str>) -> Seq<Seq<u8>> {
    Seq::new(names.len(), |i: int| encode_utf8(names[i]@))
}

/// The names with one space between each two of them.
pub open spec fn joined(names: Seq<Seq<u8>>) -> Seq<u8>
    decreases names.len(),
{
    if names.len() == 0 {
        Seq::empty()
    } else if names.len() == 1 {
        names[0]
    } else {
        joined(names.drop_last()) + seq![32u8] + names.last()
    }
}

/// The bytes in lower case, letter by letter.
pub open spec fn lowercase(bytes: Seq<u8>) -> Seq<u8> {
    Seq::new(bytes.len(), |i: int| ascii_lower(bytes[i]))
}

/// What is said of a wrong number of arguments.
pub open spec fn arity_message(names: Seq<Seq<u8>>, expect_len: nat) -> Seq<char> {
    lossy_text(
        encode_utf8("command "@) + joined(names) + encode_utf8(" expected "@) + decimal(expect_len)
            + encode_utf8(" arguments"@),
    )
}

/// What is said of a leading token that is not the name expected.
pub open spec fn mismatch_message(name: Seq<u8>, got: Seq<u8>) -> Seq<char> {
    lossy_text(encode_utf8("expected "@) + name + encode_utf8(" got "@) + got)
}

/// What is said of a leading token that is missing or no bulk string.
pub open spec fn not_bulk_message() -> Seq<char> {
    "Command must have a BulkString as the first argument"@
}

/// What is said of a key or a field that is no bulk string.
pub open spec fn invalid_key_message() -> Seq<char> {
    "Invalid key"@
}

/// What is said of a frame that is no array.
pub open spec fn not_array_message() -> Seq<char> {
    "Command must be an array"@
}

/// The leading tokens of `items` from the `from`-th on, held against the
/// names: each has to be a bulk string that spells its name when put in
/// lower case. The first that does not decides the error.
pub open spec fn check_names(items: Seq<FrameValue>, names: Seq<Seq<u8>>, from: int) -> Result<
    (),
    CommandErrorValue,
>
    decreases names.len() - from,
{
    if from < 0 || from >= names.len() {
        Ok(())
    } else if from >= items.len() {
        Err(CommandErrorValue::InvalidCommand(not_bulk_message()))
    } else {
        match items[from] {
            FrameValue::BulkString(bytes) => if lowercase(bytes) == names[from] {
                check_names(items, names, from + 1)
            } else {
                Err(CommandErrorValue::InvalidCommand(mismatch_message(names[from], bytes)))
            },
            _ => Err(CommandErrorValue::InvalidCommand(not_bulk_message())),
        }
    }
}

/// The rule that every command is held against: the number of elements
/// has to be right, which `arity_ok` says, and the leading tokens have to
/// be the names.
pub open spec fn validation(
    items: Seq<FrameValue>,
    names: Seq<Seq<u8>>,
    expect_len: nat,
    arity_ok: bool,
) -> Result<(), CommandErrorValue> {
    if !arity_ok {
        Err(CommandErrorValue::InvalidArgument(arity_message(names, expect_len)))
    } else {
        check_names(items, names, 0)
    }
}

/// What a validation has to give.
pub open spec fn validation_matches(
    r: Result<(), CommandError>,
    expected: Result<(), CommandErrorValue>,
) -> bool {
    match r {
        Ok(_) => expected is Ok,
        Err(e) => expected == Err::<(), CommandErrorValue>(e@),
    }
}

/// The bytes in lower case.
pub fn ascii_lowercase(bytes: &[u8]) -> (r: Vec<u8>)
    ensures
        r@ == lowercase(bytes@),
{
    let mut out: Vec<u8> = Vec::new();
    let mut i: usize = 0;
    while i < bytes.len()
        invariant
            i <= bytes@.len(),
            out@.len() == i,
            forall|j: int| 0 <= j < i ==> out@[j] == ascii_lower(bytes@[j]),
        decreases bytes@.len() - i,
    {
        let b = bytes[i];
        if b >= 65 && b <= 90 {
            out.push(b + 32);
        } else {
            out.push(b);
        }
        i = i + 1;
    }
    assert(out@ =~= lowercase(bytes@));
    out
}

/// `a` and `b` are the same bytes.
pub fn bytes_equal(a: &[u8], b: &[u8]) -> (r: bool)
    ensures
        r == (a@ == b@),
{
    if a.len() != b.len() {
        return false;
    }
    let mut i: usize = 0;
    while i < a.len()
        invariant
            i <= a@.len() == b@.len(),
            forall|j: int| 0 <= j < i ==> a@[j] == b@[j],
        decreases a@.len() - i,
    {
        if a[i] != b[i] {
            return false;
        }
        i = i + 1;
    }
    assert(a@ =~= b@);
    true
}

/// The names with one space between each two of them.
fn join_names(names: &[&'static str]) -> (r: Vec<u8>)
    ensures
        r@ == joined(name_bytes(names@)),
{
    let ghost all = name_bytes(names@);
    let mut out: Vec<u8> = Vec::new();
    let mut i: usize = 0;
    assert(all.take(0) =~= Seq::<Seq<u8>>::empty());
    while i < names.len()
        invariant
            i <= names@.len(),
            all == name_bytes(names@),
            out@ == joined(all.take(i as int)),
        decreases names@.len() - i,
    {
        let ghost done = all.take(i as int);
        let ghost next = all.take(i + 1);
        if i > 0 {
            out.push(32);
        }
        out.extend_from_slice(names[i].as_bytes());
        proof {
            assert(next.drop_last() =~= done);
            assert(next.last() == all[i as int]);
            if i == 0 {
                assert(done =~= Seq::<Seq<u8>>::empty());
                assert(out@ =~= all[0]);
            } else {
                assert(out@ =~= joined(done) + seq![32u8] + all[i as int]);
            }
        }
        i = i + 1;
    }
    assert(all.take(names@.len() as int) =~= all);
    out
}

/// Holds an array against the shape of a command: `comparator` says
/// whether the number of elements suits the number expected, which is
/// `expect_len` arguments and the name, and each of `names` has to be
/// spelled, in any case, by the bulk string in its place.
pub fn validate_command<F: Fn(usize, usize) -> bool>(
    value: &RespArray,
    names: &[&'static str],
    expect_len: usize,
    comparator: F,
) -> (r: Result<(), CommandError>)
    requires
        expect_len < usize::MAX,
        comparator.requires((value@.len() as usize, (expect_len + 1) as usize)),
    ensures
        exists|arity_ok: bool|
            comparator.ensures((value@.len() as usize, (expect_len + 1) as usize), arity_ok)
                && validation_matches(
                r,
                validation(value@, name_bytes(names@), expect_len as nat, arity_ok),
            ),
{
    let arity_ok = comparator(value.len(), expect_len + 1);
    check_command(value, names, expect_len, arity_ok)
}

/// Holds an array against the shape of a command, once it is known
/// whether the number of its elements is right.
pub fn check_command(
    value: &RespArray,
    names: &[&'static str],
    expect_len: usize,
    arity_ok: bool,
) -> (r: Result<(), CommandError>)
    ensures
        validation_matches(r, validation(value@, name_bytes(names@), expect_len as nat, arity_ok)),
{
    if !arity_ok {
        let mut text: Vec<u8> = Vec::new();
        text.extend_from_slice("command ".as_bytes());
        let list = join_names(names);
        text.extend_from_slice(list.as_slice());
        text.extend_from_slice(" expected ".as_bytes());
        push_decimal(&mut text, expect_len as u64);
        text.extend_from_slice(" arguments".as_bytes());
        assert(text@ =~= encode_utf8("command "@) + joined(name_bytes(names@)) + encode_utf8(
            " expected "@,
        ) + decimal(expect_len as nat) + encode_utf8(" arguments"@));
        return Err(CommandError::InvalidArgument(string_from_utf8_lossy(text.as_slice())));
    }
    let frames = value.frames();
    let ghost items = value@;
    let ghost all = name_bytes(names@);
    let mut i: usize = 0;
    while i < names.len()
        invariant
            i <= names@.len(),
            arity_ok,
            items == value@,
            items == frame_values(frames@),
            all == name_bytes(names@),
            check_names(items, all, 0) == check_names(items, all, i as int),
        decreases names@.len() - i,
    {
        if i >= frames.len() {
            return Err(
                CommandError::InvalidCommand(
                    "Command must have a BulkString as the first argument".to_string(),
                ),
            );
        }
        match &frames[i] {
            RespFrame::BulkString(s) => {
                let d = s.as_bytes();
                let lowered = ascii_lowercase(d);
                if !bytes_equal(lowered.as_slice(), names[i].as_bytes()) {
                    let mut text: Vec<u8> = Vec::new();
                    text.extend_from_slice("expected ".as_bytes());
                    text.extend_from_slice(names[i].as_bytes());
                    text.extend_from_slice(" got ".as_bytes());
                    text.extend_from_slice(d);
                    assert(text@ =~= encode_utf8("expected "@) + all[i as int] + encode_utf8(
                        " got "@,
                    ) + d@);
                    return Err(
                        CommandError::InvalidCommand(string_from_utf8_lossy(text.as_slice())),
                    );
                }
            },
            _ => {
                return Err(
                    CommandError::InvalidCommand(
                        "Command must have a BulkString as the first argument".to_string(),
                    ),
                );
            },
        }
        i = i + 1;
    }
    Ok(())
}

/// Holds an array against the shape of a command that takes exactly
/// `expect_len` arguments.
pub fn validate_command_exact_length(
    value: &RespArray,
    names: &[&'static str],
    expect_len: usize,
) -> (r: Result<(), CommandError>)
    ensures
        validation_matches(
            r,
            validation(
                value@,
                name_bytes(names@),
                expect_len as nat,
                value@.len() == expect_len + 1,
            ),
        ),
{
    let n = value.len();
    let arity_ok = expect_len < usize::MAX && n == expect_len + 1;
    check_command(value, names, expect_len, arity_ok)
}

/// Holds an array against the shape of a command that takes `expect_len`
/// arguments or more.
pub fn validate_command_minimum_length(
    value: &RespArray,
    names: &[&'static str],
    expect_len: usize,
) -> (r: Result<(), CommandError>)
    ensures
        validation_matches(
            r,
            validation(
                value@,
                name_bytes(names@),
                expect_len as nat,
                value@.len() >= expect_len + 1,
            ),
        ),
{
    let n = value.len();
    let arity_ok = expect_len < usize::MAX && n >= expect_len + 1;
    check_command(value, names, expect_len, arity_ok)
}

/// The arguments of a command: all elements of the array but the first.
pub fn extract_args(value: RespArray) -> (r: Result<Vec<RespFrame>, CommandError>)
    ensures
        r matches Ok(args) && frame_values(args@) == if value@.len() > 0 {
            value@.skip(1)
        } else {
            value@
        },
{
    let mut frames = value.0;
    if frames.len() > 0 {
        let ghost before = frames@;
        frames.remove(0);
        assert(frame_values(frames@) =~= frame_values(before).skip(1));
    }
    Ok(frames)
}

/// A command, as mathematics: what it is and the values it carries.
pub enum CommandValue {
    Get { key: Seq<char> },
    SetCmd { key: Seq<char>, value: FrameValue },
    HGet { key: Seq<char>, field: Seq<char> },
    HSet { key: Seq<char>, field: Seq<char>, value: FrameValue },
    HGetAll { key: Seq<char> },
    HMGet { key: Seq<char>, fields: Seq<Seq<char>> },
    Sadd { key: Seq<char>, members: Seq<Seq<char>> },
    SISMember { key: Seq<char>, field: Seq<char> },
    Echo { text: Seq<char> },
    UnRecognized,
}

/// What a parsed command is, or why there is none.
pub type ParsedCommand = Result<CommandValue, CommandErrorValue>;

/// The shape that a command of the given name has: the array holds
/// `expect_len` arguments behind the name, or at least as many where
/// `at_least` says so, and its first element spells the name.
pub open spec fn shape(
    items: Seq<FrameValue>,
    name: Seq<char>,
    expect_len: nat,
    at_least: bool,
) -> Result<(), CommandErrorValue> {
    validation(
        items,
        seq![encode_utf8(name)],
        expect_len,
        if at_least {
            items.len() >= expect_len + 1
        } else {
            items.len() == expect_len + 1
        },
    )
}

/// The text of the bulk string in the given place, if there is one there.
/// Bytes that are no UTF-8 become replacement characters.
pub open spec fn text_at(items: Seq<FrameValue>, i: int) -> Option<Seq<char>> {
    if 0 <= i < items.len() {
        match items[i] {
            FrameValue::BulkString(bytes) => Some(lossy_text(bytes)),
            _ => None,
        }
    } else {
        None
    }
}

/// The texts of the bulk strings among `items`, in order. What is no bulk
/// string is passed over.
pub open spec fn bulk_texts(items: Seq<FrameValue>) -> Seq<Seq<char>>
    decreases items.len(),
{
    if items.len() == 0 {
        Seq::empty()
    } else {
        match items.last() {
            FrameValue::BulkString(bytes) => bulk_texts(items.drop_last()).push(
                lossy_text(bytes),
            ),
            _ => bulk_texts(items.drop_last()),
        }
    }
}

/// The error for an argument that is no bulk string where one is needed.
pub open spec fn invalid_key() -> CommandErrorValue {
    CommandErrorValue::InvalidArgument(invalid_key_message())
}

/// `GET key`.
pub open spec fn parse_get(items: Seq<FrameValue>) -> ParsedCommand {
    match shape(items, "get"@, 1, false) {
        Err(e) => Err(e),
        Ok(_) => match text_at(items, 1) {
            Some(key) => Ok(CommandValue::Get { key }),
            None => Err(invalid_key()),
        },
    }
}

/// `SET key value`.
pub open spec fn parse_set(items: Seq<FrameValue>) -> ParsedCommand {
    match shape(items, "set"@, 2, false) {
        Err(e) => Err(e),
        Ok(_) => match text_at(items, 1) {
            Some(key) => Ok(CommandValue::SetCmd { key, value: items[2] }),
            None => Err(invalid_key()),
        },
    }
}

/// `HGET key field`.
pub open spec fn parse_hget(items: Seq<FrameValue>) -> ParsedCommand {
    match shape(items, "hget"@, 2, false) {
        Err(e) => Err(e),
        Ok(_) => match (text_at(items, 1), text_at(items, 2)) {
            (Some(key), Some(field)) => Ok(CommandValue::HGet { key, field }),
            _ => Err(invalid_key()),
        },
    }
}

/// `HSET key field value`.
pub open spec fn parse_hset(items: Seq<FrameValue>) -> ParsedCommand {
    match shape(items, "hset"@, 3, false) {
        Err(e) => Err(e),
        Ok(_) => match (text_at(items, 1), text_at(items, 2)) {
            (Some(key), Some(field)) => Ok(CommandValue::HSet { key, field, value: items[3] }),
            _ => Err(invalid_key()),
        },
    }
}

/// `HGETALL key`.
pub open spec fn parse_hgetall(items: Seq<FrameValue>) -> ParsedCommand {
    match shape(items, "hgetall"@, 1, false) {
        Err(e) => Err(e),
        Ok(_) => match text_at(items, 1) {
            Some(key) => Ok(CommandValue::HGetAll { key }),
            None => Err(invalid_key()),
        },
    }
}

/// `HMGET key field [field...]`.
pub open spec fn parse_hmget(items: Seq<FrameValue>) -> ParsedCommand {
    match shape(items, "hmget"@, 2, true) {
        Err(e) => Err(e),
        Ok(_) => match text_at(items, 1) {
            Some(key) => Ok(CommandValue::HMGet { key, fields: bulk_texts(items.skip(2)) }),
            None => Err(invalid_key()),
        },
    }
}

/// `SADD key member [member...]`.
pub open spec fn parse_sadd(items: Seq<FrameValue>) -> ParsedCommand {
    match shape(items, "sadd"@, 2, true) {
        Err(e) => Err(e),
        Ok(_) => match text_at(items, 1) {
            Some(key) => Ok(CommandValue::Sadd { key, members: bulk_texts(items.skip(2)) }),
            None => Err(invalid_key()),
        },
    }
}

/// `SISMEMBER key member`.
pub open spec fn parse_sismember(items: Seq<FrameValue>) -> ParsedCommand {
    match shape(items, "sismember"@, 2, false) {
        Err(e) => Err(e),
        Ok(_) => match (text_at(items, 1), text_at(items, 2)) {
            (Some(key), Some(field)) => Ok(CommandValue::SISMember { key, field }),
            _ => Err(invalid_key()),
        },
    }
}

/// `ECHO value`.
pub open spec fn parse_echo(items: Seq<FrameValue>) -> ParsedCommand {
    match shape(items, "echo"@, 1, false) {
        Err(e) => Err(e),
        Ok(_) => match text_at(items, 1) {
            Some(text) => Ok(CommandValue::Echo { text }),
            None => Err(invalid_key()),
        },
    }
}

/// The command that an array stands for. Its first element names the
/// command, in any case; a name that is none of the known ones is no
/// error but the command that does nothing.
pub open spec fn parse_command(items: Seq<FrameValue>) -> ParsedCommand {
    if items.len() > 0 && items[0] is BulkString {
        let name = lowercase(items[0]->BulkString_0);
        if name == encode_utf8("get"@) {
            parse_get(items)
        } else if name == encode_utf8("set"@) {
            parse_set(items)
        } else if name == encode_utf8("hget"@) {
            parse_hget(items)
        } else if name == encode_utf8("hset"@) {
            parse_hset(items)
        } else if name == encode_utf8("hgetall"@) {
            parse_hgetall(items)
        } else if name == encode_utf8("echo"@) {
            parse_echo(items)
        } else if name == encode_utf8("hmget"@) {
            parse_hmget(items)
        } else if name == encode_utf8("sadd"@) {
            parse_sadd(items)
        } else if name == encode_utf8("sismember"@) {
            parse_sismember(items)
        } else {
            Ok(CommandValue::UnRecognized)
        }
    } else {
        Err(CommandErrorValue::InvalidCommand(not_bulk_message()))
    }
}

/// The command that a frame stands for: that of its array, if it is one.
pub open spec fn parse_request(frame: FrameValue) -> ParsedCommand {
    match frame {
        FrameValue::Array(items) => parse_command(items),
        _ => Err(CommandErrorValue::InvalidCommand(not_array_message())),
    }
}

/// What parsing has to give: the command that the rule gives, or the
/// error that it gives.
pub open spec fn parse_matches<C: View<V = CommandValue>>(
    r: Result<C, CommandError>,
    expected: ParsedCommand,
) -> bool {
    match r {
        Ok(command) => expected == Ok::<CommandValue, CommandErrorValue>(command@),
        Err(e) => expected == Err::<CommandValue, CommandErrorValue>(e@),
    }
}

/// The success marker: the simple string `OK`.
pub open spec fn ok_value() -> FrameValue {
    FrameValue::SimpleString("OK"@)
}

/// The nil marker: the null bulk string.
pub open spec fn nil_value() -> FrameValue {
    FrameValue::NullBulkString
}

/// What `HGET key field` finds in a store.
pub open spec fn hget_value(store: BackendState, key: Seq<char>, field: Seq<char>) -> FrameValue {
    if store.hashes.contains_key(key) {
        entry_or(store.hashes[key], field, nil_value())
    } else {
        nil_value()
    }
}

/// The names and the frames of `pairs` in turn: each name as a bulk
/// string, then its frame.
pub open spec fn interleaved(pairs: Seq<(Seq<char>, FrameValue)>) -> Seq<FrameValue> {
    Seq::new(
        2 * pairs.len(),
        |i: int|
            if i % 2 == 0 {
                FrameValue::BulkString(encode_utf8(pairs[i / 2].0))
            } else {
                pairs[i / 2].1
            },
    )
}

/// The store after a command has been executed on it.
pub open spec fn effect(command: CommandValue, before: BackendState) -> BackendState {
    match command {
        CommandValue::SetCmd { key, value } => BackendState {
            scalars: before.scalars.insert(key, value),
            ..before
        },
        CommandValue::HSet { key, field, value } => BackendState {
            hashes: before.hashes.insert(
                key,
                entry_or(before.hashes, key, Map::empty()).insert(field, value),
            ),
            ..before
        },
        CommandValue::Sadd { key, members } => BackendState {
            sets: before.sets.insert(
                key,
                entry_or(before.sets, key, Set::empty()).union(members.to_set()),
            ),
            ..before
        },
        _ => before,
    }
}

/// `reply` is what a command answers when it is executed on the store
/// `before`.
pub open spec fn answers(command: CommandValue, before: BackendState, reply: FrameValue) -> bool {
    match command {
        CommandValue::Get { key } => reply == entry_or(before.scalars, key, nil_value()),
        CommandValue::SetCmd { .. } => reply == ok_value(),
        CommandValue::HGet { key, field } => reply == hget_value(before, key, field),
        CommandValue::HSet { .. } => reply == ok_value(),
        CommandValue::HGetAll { key } => if before.hashes.contains_key(key) {
            exists|pairs: Seq<(Seq<char>, FrameValue)>|
                lists(pairs, before.hashes[key]) && reply == FrameValue::Array(
                    interleaved(pairs),
                )
        } else {
            reply == nil_value()
        },
        CommandValue::HMGet { key, fields } => reply == FrameValue::Array(
            Seq::new(fields.len(), |i: int| hget_value(before, key, fields[i])),
        ),
        CommandValue::Sadd { key, members } => reply == FrameValue::Integer(
            saturated(
                members.to_set().difference(entry_or(before.sets, key, Set::empty())).len(),
            ),
        ),
        CommandValue::SISMember { key, field } => reply == FrameValue::Integer(
            membership(entry_or(before.sets, key, Set::empty()), field),
        ),
        CommandValue::Echo { text } => reply == FrameValue::BulkString(encode_utf8(text)),
        CommandValue::UnRecognized => reply == ok_value(),
    }
}

/// A command that can be executed on the store. Executing it is one
/// complete step: it changes the store as `effect` says and answers as
/// `answers` says, without any input or output.
pub trait CommandExecutor: View<V = CommandValue> {
    fn execute(&self, backend: &mut Backend) -> (reply: RespFrame)
        ensures
            final(backend)@ == effect(self@, old(backend)@),
            answers(self@, old(backend)@, reply@),
    ;
}

/// The success marker.
pub fn ok_reply() -> (r: RespFrame)
    ensures
        r@ == ok_value(),
{
    RespFrame::SimpleString(SimpleString::new("OK"))
}

/// The nil marker.
pub fn nil_reply() -> (r: RespFrame)
    ensures
        r@ == nil_value(),
{
    RespFrame::NullBulkString(RespNullBulkString)
}

/// The text of a bulk string, bytes that are no UTF-8 replaced.
pub fn text_of(frame: &RespFrame) -> (r: Option<String>)
    ensures
        match r {
            Some(text) => frame@ matches FrameValue::BulkString(bytes) && text@ == lossy_text(
                bytes,
            ),
            None => !(frame@ is BulkString),
        },
{
    match frame {
        RespFrame::BulkString(bytes) => Some(string_from_utf8_lossy(bytes.as_bytes())),
        _ => None,
    }
}

/// The texts of the bulk strings among `frames` from the `from`-th on.
pub(crate) fn texts_from(frames: &Vec<RespFrame>, from: usize) -> (r: Vec<String>)
    requires
        from <= frames@.len(),
    ensures
        crate::backend::texts(r@) == bulk_texts(frame_values(frames@).skip(from as int)),
{
    let ghost items = frame_values(frames@).skip(from as int);
    let mut out: Vec<String> = Vec::new();
    let mut i: usize = from;
    assert(items.take(0) =~= Seq::<FrameValue>::empty());
    assert(crate::backend::texts(out@) =~= Seq::<Seq<char>>::empty());
    while i < frames.len()
        invariant
            from <= i <= frames@.len(),
            items == frame_values(frames@).skip(from as int),
            crate::backend::texts(out@) == bulk_texts(items.take(i - from)),
        decreases frames@.len() - i,
    {
        let ghost done = items.take(i - from);
        let ghost next = items.take(i - from + 1);
        let ghost before = crate::backend::texts(out@);
        assert(next.drop_last() =~= done);
        assert(next.last() == frames@[i as int]@);
        match text_of(&frames[i]) {
            Some(text) => {
                out.push(text);
                assert(crate::backend::texts(out@) =~= before.push(text@));
            },
            None => {},
        }
        i = i + 1;
    }
    assert(items.take(frames@.len() - from) =~= items);
    out
}

/// The command that does nothing: what any unknown name stands for.
#[derive(Debug)]
pub struct UnRecognized;

impl View for UnRecognized {
    type V = CommandValue;

    open spec fn view(&self) -> CommandValue {
        CommandValue::UnRecognized
    }
}

impl CommandExecutor for UnRecognized {
    fn execute(&self, backend: &mut Backend) -> (reply: RespFrame) {
        ok_reply()
    }
}

/// A command, ready to be executed once.
#[derive(Debug)]
pub enum Command {
    Get(Get),
    SetCmd(SetCmd),
    HGet(HGet),
    HSet(HSet),
    HGetAll(HGetAll),
    UnRecognized(UnRecognized),
    Echo(Echo),
    HMGet(HMGet),
    SADD(Sadd),
    SISMEMBER(SISMember),
}

impl View for Command {
    type V = CommandValue;

    open spec fn view(&self) -> CommandValue {
        match self {
            Command::Get(c) => c@,
            Command::SetCmd(c) => c@,
            Command::HGet(c) => c@,
            Command::HSet(c) => c@,
            Command::HGetAll(c) => c@,
            Command::UnRecognized(c) => c@,
            Command::Echo(c) => c@,
            Command::HMGet(c) => c@,
            Command::SADD(c) => c@,
            Command::SISMEMBER(c) => c@,
        }
    }
}

impl CommandExecutor for Command {
    fn execute(&self, backend: &mut Backend) -> (reply: RespFrame) {
        match self {
            Command::Get(c) => c.execute(backend),
            Command::SetCmd(c) => c.execute(backend),
            Command::HGet(c) => c.execute(backend),
            Command::HSet(c) => c.execute(backend),
            Command::HGetAll(c) => c.execute(backend),
            Command::UnRecognized(c) => c.execute(backend),
            Command::Echo(c) => c.execute(backend),
            Command::HMGet(c) => c.execute(backend),
            Command::SADD(c) => c.execute(backend),
            Command::SISMEMBER(c) => c.execute(backend),
        }
    }
}

impl TryFrom<RespArray> for Command {
    type Error = CommandError;

    /// Reads a command off an array: the first element names it.
    fn try_from(value: RespArray) -> (r: Result<Self, CommandError>)
        ensures
            parse_matches(r, parse_command(value@)),
    {
        let name = if value.len() > 0 {
            match &value.frames()[0] {
                RespFrame::BulkString(cmd) => Some(ascii_lowercase(cmd.as_bytes())),
                _ => None,
            }
        } else {
            None
        };
        let name = match name {
            Some(name) => name,
            None => {
                return Err(
                    CommandError::InvalidCommand(
                        "Command must have a BulkString as the first argument".to_string(),
                    ),
                );
            },
        };
        let name = name.as_slice();
        if bytes_equal(name, "get".as_bytes()) {
            match Get::try_from(value) {
                Ok(c) => Ok(Command::Get(c)),
                Err(e) => Err(e),
            }
        } else if bytes_equal(name, "set".as_bytes()) {
            match SetCmd::try_from(value) {
                Ok(c) => Ok(Command::SetCmd(c)),
                Err(e) => Err(e),
            }
        } else if bytes_equal(name, "hget".as_bytes()) {
            match HGet::try_from(value) {
                Ok(c) => Ok(Command::HGet(c)),
                Err(e) => Err(e),
            }
        } else if bytes_equal(name, "hset".as_bytes()) {
            match HSet::try_from(value) {
                Ok(c) => Ok(Command::HSet(c)),
                Err(e) => Err(e),
            }
        } else if bytes_equal(name, "hgetall".as_bytes()) {
            match HGetAll::try_from(value) {
                Ok(c) => Ok(Command::HGetAll(c)),
                Err(e) => Err(e),
            }
        } else if bytes_equal(name, "echo".as_bytes()) {
            match Echo::try_from(value) {
                Ok(c) => Ok(Command::Echo(c)),
                Err(e) => Err(e),
            }
        } else if bytes_equal(name, "hmget".as_bytes()) {
            match HMGet::try_from(value) {
                Ok(c) => Ok(Command::HMGet(c)),
                Err(e) => Err(e),
            }
        } else if bytes_equal(name, "sadd".as_bytes()) {
            match Sadd::try_from(value) {
                Ok(c) => Ok(Command::SADD(c)),
                Err(e) => Err(e),
            }
        } else if bytes_equal(name, "sismember".as_bytes()) {
            match SISMember::try_from(value) {
                Ok(c) => Ok(Command::SISMEMBER(c)),
                Err(e) => Err(e),
            }
        } else {
            Ok(Command::UnRecognized(UnRecognized))
        }
    }
}

/// The conversion is stated by the contract of `try_from` itself.
impl TryFromSpecImpl<RespArray> for Command {
    open spec fn obeys_try_from_spec() -> bool {
        false
    }

    open spec fn try_from_spec(v: RespArray) -> Result<Self, CommandError> {
        arbitrary()
    }
}

impl TryFrom<RespFrame> for Command {
    type Error = CommandError;

    /// Reads a command off a frame, which has to be an array.
    fn try_from(value: RespFrame) -> (r: Result<Self, CommandError>)
        ensures
            parse_matches(r, parse_request(value@)),
    {
        match value {
            RespFrame::Array(value) => {
                proof {
                    lemma_array_view(value);
                }
                Command::try_from(value)
            },
            _ => Err(CommandError::InvalidCommand("Command must be an array".to_string())),
        }
    }
}

/// The conversion is stated by the contract of `try_from` itself.
impl TryFromSpecImpl<RespFrame> for Command {
    open spec fn obeys_try_from_spec() -> bool {
        false
    }

    open spec fn try_from_spec(v: RespFrame) -> Result<Self, CommandError> {
        arbitrary()
    }
}

/// Holds an array against the shape of the command of the given name,
/// which takes `expect_len` arguments, or at least as many where
/// `at_least` says so.
pub fn check_shape(value: &RespArray, name: &'static str, expect_len: usize, at_least: bool) -> (r:
    Result<(), CommandError>)
    ensures
        validation_matches(r, shape(value@, name@, expect_len as nat, at_least)),
{
    let names: [&'static str; 1] = [name];
    proof {
        assert(names@ =~= seq![name]);
        lemma_one_name(name);
    }
    if at_least {
        validate_command_minimum_length(value, names.as_slice(), expect_len)
    } else {
        validate_command_exact_length(value, names.as_slice(), expect_len)
    }
}

/// Holds an array against the shape of the command of the given name and
/// hands out its arguments: all elements behind the name.
pub fn take_args(value: RespArray, name: &'static str, expect_len: usize, at_least: bool) -> (r:
    Result<Vec<RespFrame>, CommandError>)
    ensures
        match r {
            Ok(args) => shape(value@, name@, expect_len as nat, at_least) is Ok && args@.len()
                == value@.len() - 1 && args@.len() >= expect_len && frame_values(args@)
                == value@.skip(1) && forall|i: int|
                0 <= i < args@.len() ==> (#[trigger] args@[i])@ == value@[i + 1],
            Err(e) => shape(value@, name@, expect_len as nat, at_least) == Err::<
                (),
                CommandErrorValue,
            >(e@),
        },
{
    match check_shape(&value, name, expect_len, at_least) {
        Ok(_) => {},
        Err(e) => {
            return Err(e);
        },
    }
    let ghost items = value@;
    assert(items.len() >= expect_len + 1);
    match extract_args(value) {
        Ok(args) => {
            assert(frame_values(args@).len() == args@.len());
            assert(items.skip(1).len() == items.len() - 1);
            assert forall|i: int| 0 <= i < args@.len() implies (#[trigger] args@[i])@ == items[i
                + 1] by {
                assert(args@[i]@ == frame_values(args@)[i]);
                assert(items.skip(1)[i] == items[i + 1]);
            }
            Ok(args)
        },
        Err(e) => Err(e),
    }
}

/// The names of a command with one name are the bytes of that name.
pub(crate) proof fn lemma_one_name(name: &'static str)
    ensures
        name_bytes(seq![name]) == seq![encode_utf8(name@)],
{
    assert(name_bytes(seq![name]) =~= seq![encode_utf8(name@)]);
}

} // verus!

//! `HGET`, `HSET`, `HGETALL` and `HMGET`: the hash namespace.

use super::{
    hget_value, interleaved, nil_reply, ok_reply, parse_hget, parse_hgetall, parse_hmget,
    parse_hset, parse_matches, take_args, text_of, texts_from, CommandError, CommandExecutor,
    CommandValue,
};
use crate::backend::store::scalar_pairs;
use crate::resp::frame::entry_values;
use crate::backend::{texts, Backend};
use crate::resp::frame::lemma_array_view;
use crate::resp::{BulkString, RespArray, RespFrame};
use vstd::prelude::*;
use vstd::std_specs::convert::TryFromSpecImpl;

verus! {

/// The command `HGET key field`.
#[derive(Debug)]
pub struct HGet {
    pub key: String,
    pub field: String,
}

/// The command `HSET key field value`.
#[derive(Debug)]
pub struct HSet {
    pub key: String,
    pub field: String,
    pub value: RespFrame,
}

/// The command `HGETALL key`.
#[derive(Debug)]
pub struct HGetAll {
    pub key: String,
}

/// The command `HMGET key field [field...]`.
#[derive(Debug)]
pub struct HMGet {
    pub key: String,
    pub fields: Vec<String>,
}

impl View for HGet {
    type V = CommandValue;

    open spec fn view(&self) -> CommandValue {
        CommandValue::HGet { key: self.key@, field: self.field@ }
    }
}

impl View for HSet {
    type V = CommandValue;

    open spec fn view(&self) -> CommandValue {
        CommandValue::HSet { key: self.key@, field: self.field@, value: self.value@ }
    }
}

impl View for HGetAll {
    type V = CommandValue;

    open spec fn view(&self) -> CommandValue {
        CommandValue::HGetAll { key: self.key@ }
    }
}

impl View for HMGet {
    type V = CommandValue;

    open spec fn view(&self) -> CommandValue {
        CommandValue::HMGet { key: self.key@, fields: texts(self.fields@) }
    }
}

impl CommandExecutor for HGet {
    fn execute(&self, backend: &mut Backend) -> (reply: RespFrame) {
        match backend.hget(self.key.as_str(), self.field.as_str()) {
            Some(value) => value,
            None => nil_reply(),
        }
    }
}

impl CommandExecutor for HSet {
    fn execute(&self, backend: &mut Backend) -> (reply: RespFrame) {
        backend.hset(self.key.clone(), self.field.clone(), self.value.clone());
        ok_reply()
    }
}

impl CommandExecutor for HGetAll {
    fn execute(&self, backend: &mut Backend) -> (reply: RespFrame) {
        match backend.hgetall(self.key.as_str()) {
            Some(hash) => {
                let pairs = scalar_pairs(&hash);
                let ghost listed = entry_values(pairs@);
                let mut frames: Vec<RespFrame> = Vec::new();
                let mut i: usize = 0;
                while i < pairs.len()
                    invariant
                        i <= pairs@.len(),
                        listed == entry_values(pairs@),
                        frames@.len() == 2 * i,
                        forall|k: int|
                            0 <= k < 2 * i ==> (#[trigger] frames@[k])@ == interleaved(listed)[k],
                    decreases pairs@.len() - i,
                {
                    let name = vstd::slice::slice_to_vec(pairs[i].0.as_str().as_bytes());
                    frames.push(RespFrame::BulkString(BulkString::new(name)));
                    frames.push(pairs[i].1.clone());
                    i = i + 1;
                }
                let array = RespArray::new(frames);
                proof {
                    lemma_array_view(array);
                    assert(array@ =~= interleaved(listed));
                }
                RespFrame::Array(array)
            },
            None => nil_reply(),
        }
    }
}

impl CommandExecutor for HMGet {
    fn execute(&self, backend: &mut Backend) -> (reply: RespFrame) {
        let mut frames: Vec<RespFrame> = Vec::new();
        let mut i: usize = 0;
        while i < self.fields.len()
            invariant
                i <= self.fields@.len(),
                frames@.len() == i,
                *backend == *old(backend),
                forall|j: int|
                    0 <= j < i ==> (#[trigger] frames@[j])@ == hget_value(
                        backend@,
                        self.key@,
                        self.fields@[j]@,
                    ),
            decreases self.fields@.len() - i,
        {
            match backend.hget(self.key.as_str(), self.fields[i].as_str()) {
                Some(value) => frames.push(value),
                None => frames.push(nil_reply()),
            }
            i = i + 1;
        }
        let array = RespArray::new(frames);
        proof {
            lemma_array_view(array);
            assert(array@ =~= Seq::new(
                texts(self.fields@).len(),
                |i: int| hget_value(backend@, self.key@, texts(self.fields@)[i]),
            ));
        }
        RespFrame::Array(array)
    }
}

impl TryFrom<RespArray> for HGet {
    type Error = CommandError;

    fn try_from(value: RespArray) -> (r: Result<Self, CommandError>)
        ensures
            parse_matches(r, parse_hget(value@)),
    {
        let mut args = match take_args(value, "hget", 2, false) {
            Ok(args) => args,
            Err(e) => {
                return Err(e);
            },
        };
        match (text_of(&args[0]), text_of(&args[1])) {
            (Some(key), Some(field)) => {
                Ok(HGet { key, field })
            },
            _ => Err(CommandError::InvalidArgument("Invalid key".to_string())),
        }
    }
}

/// The conversion is stated by the contract of `try_from` itself.
impl TryFromSpecImpl<RespArray> for HGet {
    open spec fn obeys_try_from_spec() -> bool {
        false
    }

    open spec fn try_from_spec(v: RespArray) -> Result<Self, CommandError> {
        arbitrary()
    }
}

impl TryFrom<RespArray> for HSet {
    type Error = CommandError;

    fn try_from(value: RespArray) -> (r: Result<Self, CommandError>)
        ensures
            parse_matches(r, parse_hset(value@)),
    {
        let mut args = match take_args(value, "hset", 3, false) {
            Ok(args) => args,
            Err(e) => {
                return Err(e);
            },
        };
        match (text_of(&args[0]), text_of(&args[1])) {
            (Some(key), Some(field)) => {
                let value = args.remove(2);
                Ok(HSet { key, field, value })
            },
            _ => Err(CommandError::InvalidArgument("Invalid key".to_string())),
        }
    }
}

/// The conversion is stated by the contract of `try_from` itself.
impl TryFromSpecImpl<RespArray> for HSet {
    open spec fn obeys_try_from_spec() -> bool {
        false
    }

    open spec fn try_from_spec(v: RespArray) -> Result<Self, CommandError> {
        arbitrary()
    }
}

impl TryFrom<RespArray> for HGetAll {
    type Error = CommandError;

    fn try_from(value: RespArray) -> (r: Result<Self, CommandError>)
        ensures
            parse_matches(r, parse_hgetall(value@)),
    {
        let args = match take_args(value, "hgetall", 1, false) {
            Ok(args) => args,
            Err(e) => {
                return Err(e);
            },
        };
        match text_of(&args[0]) {
            Some(key) => Ok(HGetAll { key }),
            None => Err(CommandError::InvalidArgument("Invalid key".to_string())),
        }
    }
}

/// The conversion is stated by the contract of `try_from` itself.
impl TryFromSpecImpl<RespArray> for HGetAll {
    open spec fn obeys_try_from_spec() -> bool {
        false
    }

    open spec fn try_from_spec(v: RespArray) -> Result<Self, CommandError> {
        arbitrary()
    }
}

impl TryFrom<RespArray> for HMGet {
    type Error = CommandError;

    fn try_from(value: RespArray) -> (r: Result<Self, CommandError>)
        ensures
            parse_matches(r, parse_hmget(value@)),
    {
        let ghost items = value@;
        let args = match take_args(value, "hmget", 2, true) {
            Ok(args) => args,
            Err(e) => {
                return Err(e);
            },
        };
        let fields = texts_from(&args, 1);
        assert(items.skip(1).skip(1) =~= items.skip(2));
        match text_of(&args[0]) {
            Some(key) => Ok(HMGet { key, fields }),
            None => Err(CommandError::InvalidArgument("Invalid key".to_string())),
        }
    }
}

/// The conversion is stated by the contract of `try_from` itself.
impl TryFromSpecImpl<RespArray> for HMGet {
    open spec fn obeys_try_from_spec() -> bool {
        false
    }

    open spec fn try_from_spec(v: RespArray) -> Result<Self, CommandError> {
        arbitrary()
    }
}

} // verus!

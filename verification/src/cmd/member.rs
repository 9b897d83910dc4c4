//! `SADD` and `SISMEMBER`: the set namespace.

use super::{
    parse_matches, parse_sadd, parse_sismember, take_args, text_of, texts_from, CommandError,
    CommandExecutor, CommandValue,
};
use crate::backend::{texts, Backend};
use crate::resp::{RespArray, RespFrame};
use vstd::prelude::*;
use vstd::std_specs::convert::TryFromSpecImpl;

verus! {

/// The command `SADD key member [member...]`.
#[derive(Debug)]
pub struct Sadd {
    pub key: String,
    pub members: Vec<String>,
}

/// The command `SISMEMBER key member`.
#[derive(Debug)]
pub struct SISMember {
    pub key: String,
    pub field: String,
}

impl View for Sadd {
    type V = CommandValue;

    open spec fn view(&self) -> CommandValue {
        CommandValue::Sadd { key: self.key@, members: texts(self.members@) }
    }
}

impl View for SISMember {
    type V = CommandValue;

    open spec fn view(&self) -> CommandValue {
        CommandValue::SISMember { key: self.key@, field: self.field@ }
    }
}

/// Copies a run of strings.
fn clone_strings(strings: &Vec<String>) -> (r: Vec<String>)
    ensures
        texts(r@) == texts(strings@),
{
    let mut copy: Vec<String> = Vec::new();
    let mut i: usize = 0;
    while i < strings.len()
        invariant
            i <= strings@.len(),
            copy@.len() == i,
            forall|j: int| 0 <= j < i ==> copy@[j]@ == strings@[j]@,
        decreases strings@.len() - i,
    {
        copy.push(strings[i].clone());
        i = i + 1;
    }
    assert(texts(copy@) =~= texts(strings@));
    copy
}

impl CommandExecutor for Sadd {
    fn execute(&self, backend: &mut Backend) -> (reply: RespFrame) {
        let res = backend.sadd(self.key.clone(), clone_strings(&self.members));
        RespFrame::Integer(res)
    }
}

impl CommandExecutor for SISMember {
    fn execute(&self, backend: &mut Backend) -> (reply: RespFrame) {
        match backend.sismember(self.key.as_str(), self.field.as_str()) {
            Some(i) => RespFrame::Integer(i),
            None => RespFrame::Integer(0),
        }
    }
}

impl TryFrom<RespArray> for Sadd {
    type Error = CommandError;

    fn try_from(value: RespArray) -> (r: Result<Self, CommandError>)
        ensures
            parse_matches(r, parse_sadd(value@)),
    {
        let ghost items = value@;
        let args = match take_args(value, "sadd", 2, true) {
            Ok(args) => args,
            Err(e) => {
                return Err(e);
            },
        };
        let members = texts_from(&args, 1);
        assert(items.skip(1).skip(1) =~= items.skip(2));
        match text_of(&args[0]) {
            Some(key) => Ok(Sadd { key, members }),
            None => Err(CommandError::InvalidArgument("Invalid key".to_string())),
        }
    }
}

/// The conversion is stated by the contract of `try_from` itself.
impl TryFromSpecImpl<RespArray> for Sadd {
    open spec fn obeys_try_from_spec() -> bool {
        false
    }

    open spec fn try_from_spec(v: RespArray) -> Result<Self, CommandError> {
        arbitrary()
    }
}

impl TryFrom<RespArray> for SISMember {
    type Error = CommandError;

    fn try_from(value: RespArray) -> (r: Result<Self, CommandError>)
        ensures
            parse_matches(r, parse_sismember(value@)),
    {
        let args = match take_args(value, "sismember", 2, false) {
            Ok(args) => args,
            Err(e) => {
                return Err(e);
            },
        };
        match (text_of(&args[0]), text_of(&args[1])) {
            (Some(key), Some(field)) => Ok(SISMember { key, field }),
            _ => Err(CommandError::InvalidArgument("Invalid key".to_string())),
        }
    }
}

/// The conversion is stated by the contract of `try_from` itself.
impl TryFromSpecImpl<RespArray> for SISMember {
    open spec fn obeys_try_from_spec() -> bool {
        false
    }

    open spec fn try_from_spec(v: RespArray) -> Result<Self, CommandError> {
        arbitrary()
    }
}

} // verus!

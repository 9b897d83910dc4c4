//! `GET key` and `SET key value`: the scalar namespace.

use super::{
    nil_reply, ok_reply, parse_get, parse_matches, parse_set, take_args, text_of, CommandError,
    CommandExecutor, CommandValue,
};
use crate::backend::Backend;
use crate::resp::{RespArray, RespFrame};
use vstd::prelude::*;
use vstd::std_specs::convert::TryFromSpecImpl;

verus! {

/// The command `GET key`.
#[derive(Debug)]
pub struct Get {
    pub key: String,
}

/// The command `SET key value`.
#[derive(Debug)]
pub struct SetCmd {
    pub key: String,
    pub value: RespFrame,
}

impl View for Get {
    type V = CommandValue;

    open spec fn view(&self) -> CommandValue {
        CommandValue::Get { key: self.key@ }
    }
}

impl View for SetCmd {
    type V = CommandValue;

    open spec fn view(&self) -> CommandValue {
        CommandValue::SetCmd { key: self.key@, value: self.value@ }
    }
}

impl CommandExecutor for Get {
    fn execute(&self, backend: &mut Backend) -> (reply: RespFrame) {
        match backend.get(self.key.as_str()) {
            Some(value) => value,
            None => nil_reply(),
        }
    }
}

impl CommandExecutor for SetCmd {
    fn execute(&self, backend: &mut Backend) -> (reply: RespFrame) {
        backend.set(self.key.clone(), self.value.clone());
        ok_reply()
    }
}

impl TryFrom<RespArray> for Get {
    type Error = CommandError;

    fn try_from(value: RespArray) -> (r: Result<Self, CommandError>)
        ensures
            parse_matches(r, parse_get(value@)),
    {
        let args = match take_args(value, "get", 1, false) {
            Ok(args) => args,
            Err(e) => {
                return Err(e);
            },
        };
        match text_of(&args[0]) {
            Some(key) => Ok(Get { key }),
            None => Err(CommandError::InvalidArgument("Invalid key".to_string())),
        }
    }
}

/// The conversion is stated by the contract of `try_from` itself.
impl TryFromSpecImpl<RespArray> for Get {
    open spec fn obeys_try_from_spec() -> bool {
        false
    }

    open spec fn try_from_spec(v: RespArray) -> Result<Self, CommandError> {
        arbitrary()
    }
}

impl TryFrom<RespArray> for SetCmd {
    type Error = CommandError;

    fn try_from(value: RespArray) -> (r: Result<Self, CommandError>)
        ensures
            parse_matches(r, parse_set(value@)),
    {
        let mut args = match take_args(value, "set", 2, false) {
            Ok(args) => args,
            Err(e) => {
                return Err(e);
            },
        };
        match text_of(&args[0]) {
            Some(key) => {
                let value = args.remove(1);
                Ok(SetCmd { key, value })
            },
            None => Err(CommandError::InvalidArgument("Invalid key".to_string())),
        }
    }
}

/// The conversion is stated by the contract of `try_from` itself.
impl TryFromSpecImpl<RespArray> for SetCmd {
    open spec fn obeys_try_from_spec() -> bool {
        false
    }

    open spec fn try_from_spec(v: RespArray) -> Result<Self, CommandError> {
        arbitrary()
    }
}

} // verus!

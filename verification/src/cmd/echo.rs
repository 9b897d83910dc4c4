//! `ECHO value`: answers the text it was given.

use super::{
    parse_echo, parse_matches, take_args, text_of, CommandError, CommandExecutor, CommandValue,
};
use crate::backend::Backend;
use crate::resp::{BulkString, RespArray, RespFrame};
use vstd::prelude::*;
use vstd::std_specs::convert::TryFromSpecImpl;

verus! {

/// The command `ECHO value`.
#[derive(Debug)]
pub struct Echo {
    pub value: String,
}

impl View for Echo {
    type V = CommandValue;

    open spec fn view(&self) -> CommandValue {
        CommandValue::Echo { text: self.value@ }
    }
}

impl TryFrom<RespArray> for Echo {
    type Error = CommandError;

    fn try_from(value: RespArray) -> (r: Result<Self, CommandError>)
        ensures
            parse_matches(r, parse_echo(value@)),
    {
        let args = match take_args(value, "echo", 1, false) {
            Ok(args) => args,
            Err(e) => {
                return Err(e);
            },
        };
        match text_of(&args[0]) {
            Some(value) => Ok(Echo { value }),
            None => Err(CommandError::InvalidArgument("Invalid key".to_string())),
        }
    }
}

/// The conversion is stated by the contract of `try_from` itself.
impl TryFromSpecImpl<RespArray> for Echo {
    open spec fn obeys_try_from_spec() -> bool {
        false
    }

    open spec fn try_from_spec(v: RespArray) -> Result<Self, CommandError> {
        arbitrary()
    }
}

impl CommandExecutor for Echo {
    fn execute(&self, backend: &mut Backend) -> (reply: RespFrame) {
        let bytes = vstd::slice::slice_to_vec(self.value.as_str().as_bytes());
        RespFrame::BulkString(BulkString::new(bytes))
    }
}

} // verus!

//! What a session does with a buffer and a store between reading and
//! writing: decode a frame if one is there, execute it as a command,
//! encode the reply. Reading the transport and writing to it is the
//! caller's part.

use crate::backend::Backend;
use crate::cmd::{
    answers, effect, parse_request, Command, CommandError, CommandErrorValue, CommandExecutor,
    CommandValue,
};
use crate::resp::buffer::buffer_bytes;
use crate::resp::wire::{encode_frame, parse_frame};
use crate::resp::{FrameValue, RespDecode, RespEncode, RespError, RespFrame};
use bytes::BytesMut;
use vstd::prelude::*;

verus! {

/// A request: the frame that a client sent.
#[derive(Debug)]
pub struct RedisRequest {
    pub frame: RespFrame,
}

/// A response: the frame that goes back to the client.
#[derive(Debug)]
pub struct RedisResponse {
    pub frame: RespFrame,
}

impl Clone for RedisResponse {
    fn clone(&self) -> (r: Self)
        ensures
            r.frame@ == self.frame@,
    {
        RedisResponse { frame: self.frame.clone() }
    }
}

/// Executes a request on the store: the frame is read as a command, the
/// command is executed once, and its reply is the response. A frame that
/// is no command is an error, and the store is left as it was.
pub fn handle_request(request: RedisRequest, backend: &mut Backend) -> (r: Result<
    RedisResponse,
    CommandError,
>)
    ensures
        match r {
            Ok(response) => parse_request(request.frame@) matches Ok(command) && final(backend)@
                == effect(command, old(backend)@) && answers(
                command,
                old(backend)@,
                response.frame@,
            ),
            Err(e) => parse_request(request.frame@) == Err::<CommandValue, CommandErrorValue>(e@)
                && final(backend)@ == old(backend)@,
        },
{
    let cmd = match Command::try_from(request.frame) {
        Ok(cmd) => cmd,
        Err(e) => {
            return Err(e);
        },
    };
    let frame = cmd.execute(backend);
    Ok(RedisResponse { frame })
}

/// The codec of a session: frames off a receive buffer, frames onto a
/// send buffer.
#[derive(Debug)]
pub struct RespFrameCodec;

impl RespFrameCodec {
    /// Takes the next frame off the buffer, if a whole frame is there.
    /// Where the buffer ends before the frame does, the answer is `None`
    /// and the buffer is untouched, so that the caller can read on. Any
    /// other failure is fatal.
    pub fn decode(&mut self, src: &mut BytesMut) -> (r: Result<Option<RespFrame>, RespError>)
        ensures
            match r {
                Ok(Some(frame)) => parse_frame(buffer_bytes(*old(src))) matches Ok((value, used))
                    && frame@ == value && 0 < used <= buffer_bytes(*old(src)).len()
                    && buffer_bytes(*final(src)) == buffer_bytes(*old(src)).skip(used),
                Ok(None) => parse_frame(buffer_bytes(*old(src))) == Err::<
                    (FrameValue, int),
                    RespError,
                >(RespError::NotComplete) && buffer_bytes(*final(src)) == buffer_bytes(*old(src)),
                Err(e) => e != RespError::NotComplete && parse_frame(buffer_bytes(*old(src)))
                    == Err::<(FrameValue, int), RespError>(e) && buffer_bytes(*final(src))
                    == buffer_bytes(*old(src)),
            },
    {
        match RespFrame::decode(src) {
            Ok(frame) => Ok(Some(frame)),
            // wait for more data
            Err(RespError::NotComplete) => Ok(None),
            Err(e) => Err(e),
        }
    }

    /// Puts the encoding of `item` behind what the buffer holds.
    pub fn encode(&mut self, item: RespFrame, dst: &mut BytesMut)
        ensures
            buffer_bytes(*final(dst)) == buffer_bytes(*old(dst)) + encode_frame(item@),
    {
        let data = item.encode();
        dst.extend_from_slice(data.as_slice());
    }
}

} // verus!

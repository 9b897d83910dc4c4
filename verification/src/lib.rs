//! An in-memory key-value store that speaks a Redis-like wire protocol.
//!
//! The crate holds the protocol codec, the command layer and the store.
//! Everything here is synchronous; a transport hands a buffer of
//! received bytes to the decoder and writes out what the encoder returns.

pub mod backend;
pub mod cmd;
pub mod network;
pub mod resp;

pub use backend::{Backend, BackendState};
pub use cmd::{
    extract_args, validate_command, validate_command_exact_length,
    validate_command_minimum_length, Command, CommandError, CommandExecutor, CommandValue, Echo,
    Get, HGet, HGetAll, HMGet, HSet, SISMember, Sadd, SetCmd, UnRecognized,
};
pub use network::{handle_request, RedisRequest, RedisResponse, RespFrameCodec};
pub use resp::{
    calc_total_length, extract_fixed_data, extract_simple_frame_data, find_crlf, is_wire_safe,
    parse_length, BulkString, FrameValue, RespArray, RespDecode, RespDouble, RespEncode, RespError, RespFrame,
    RespMap, RespNull, RespNullArray, RespNullBulkString, RespSet, SimpleError, SimpleString,
};

//! A store that speaks the Redis wire protocol: the frames of the protocol
//! with their two decoders, the commands that an array of frames writes, and
//! the tables that the commands read and change.

pub mod ascii;
pub mod assoc;
pub mod backend;
pub mod buffer;
pub mod cmd;
pub mod convert;
pub mod decimal;
pub mod double;
pub mod double_trip;
pub mod frame;
pub mod given;
pub mod grammar;
pub mod laws;
pub mod line;
pub mod local;
pub mod map;
pub mod order;
pub mod parse;
pub mod partial;
pub mod probe;
pub mod resp;
pub mod respv2;
pub mod roundtrip;
pub mod shard;
pub mod span;
pub mod text;
pub mod wire;

pub use backend::Backend;
pub use cmd::{
    AddMember, Command, CommandError, CommandExecutor, Echo, Get, HGet, HGetAll, HMGet, HSet,
    SetValue, SisMember, Unrecognized,
};
pub use double::RespDouble;
pub use frame::{
    BulkString, RespArray, RespError, RespFrame, RespMap, RespNull, RespSet, SimpleError,
    SimpleString,
};
pub use resp::{RespDecode, RespEncode};
pub use respv2::{parse_frame, parse_frame_length, RespDecodeV2};

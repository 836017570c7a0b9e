//! Conversions: every frame type into a frame, every command type into a
//! command, and texts and bytes into the frame types that hold them.

use vstd::prelude::*;
use vstd::array::array_as_slice;
use vstd::slice::slice_to_vec;
use vstd::std_specs::convert::FromSpecImpl;
use crate::cmd::{
    AddMember, Command, CommandError, Echo, Get, HGet, HGetAll, HMGet, HSet, SetValue, SisMember,
    Unrecognized,
};
use crate::double::RespDouble;
use crate::frame::{
    text_bytes, BulkString, RespArray, RespError, RespFrame, RespMap, RespNull, RespSet,
    SimpleError, SimpleString,
};

verus! {

impl From<SimpleString> for RespFrame {
    fn from(v: SimpleString) -> (r: Self) {
        RespFrame::SimpleString(v)
    }
}

impl FromSpecImpl<SimpleString> for RespFrame {
    open spec fn obeys_from_spec() -> bool {
        true
    }

    open spec fn from_spec(v: SimpleString) -> Self {
        RespFrame::SimpleString(v)
    }
}

impl From<SimpleError> for RespFrame {
    fn from(v: SimpleError) -> (r: Self) {
        RespFrame::Error(v)
    }
}

impl FromSpecImpl<SimpleError> for RespFrame {
    open spec fn obeys_from_spec() -> bool {
        true
    }

    open spec fn from_spec(v: SimpleError) -> Self {
        RespFrame::Error(v)
    }
}

impl From<i64> for RespFrame {
    fn from(v: i64) -> (r: Self) {
        RespFrame::Integer(v)
    }
}

impl FromSpecImpl<i64> for RespFrame {
    open spec fn obeys_from_spec() -> bool {
        true
    }

    open spec fn from_spec(v: i64) -> Self {
        RespFrame::Integer(v)
    }
}

impl From<BulkString> for RespFrame {
    fn from(v: BulkString) -> (r: Self) {
        RespFrame::BulkString(v)
    }
}

impl FromSpecImpl<BulkString> for RespFrame {
    open spec fn obeys_from_spec() -> bool {
        true
    }

    open spec fn from_spec(v: BulkString) -> Self {
        RespFrame::BulkString(v)
    }
}

impl From<RespArray> for RespFrame {
    fn from(v: RespArray) -> (r: Self) {
        RespFrame::Array(v)
    }
}

impl FromSpecImpl<RespArray> for RespFrame {
    open spec fn obeys_from_spec() -> bool {
        true
    }

    open spec fn from_spec(v: RespArray) -> Self {
        RespFrame::Array(v)
    }
}

impl From<RespNull> for RespFrame {
    fn from(v: RespNull) -> (r: Self) {
        RespFrame::Null(v)
    }
}

impl FromSpecImpl<RespNull> for RespFrame {
    open spec fn obeys_from_spec() -> bool {
        true
    }

    open spec fn from_spec(v: RespNull) -> Self {
        RespFrame::Null(v)
    }
}

impl From<bool> for RespFrame {
    fn from(v: bool) -> (r: Self) {
        RespFrame::Boolean(v)
    }
}

impl FromSpecImpl<bool> for RespFrame {
    open spec fn obeys_from_spec() -> bool {
        true
    }

    open spec fn from_spec(v: bool) -> Self {
        RespFrame::Boolean(v)
    }
}

impl From<RespDouble> for RespFrame {
    fn from(v: RespDouble) -> (r: Self) {
        RespFrame::Double(v)
    }
}

impl FromSpecImpl<RespDouble> for RespFrame {
    open spec fn obeys_from_spec() -> bool {
        true
    }

    open spec fn from_spec(v: RespDouble) -> Self {
        RespFrame::Double(v)
    }
}

impl From<RespMap> for RespFrame {
    fn from(v: RespMap) -> (r: Self) {
        RespFrame::MapOf(v)
    }
}

impl FromSpecImpl<RespMap> for RespFrame {
    open spec fn obeys_from_spec() -> bool {
        true
    }

    open spec fn from_spec(v: RespMap) -> Self {
        RespFrame::MapOf(v)
    }
}

impl From<RespSet> for RespFrame {
    fn from(v: RespSet) -> (r: Self) {
        RespFrame::SetOf(v)
    }
}

impl FromSpecImpl<RespSet> for RespFrame {
    open spec fn obeys_from_spec() -> bool {
        true
    }

    open spec fn from_spec(v: RespSet) -> Self {
        RespFrame::SetOf(v)
    }
}

impl From<Get> for Command {
    fn from(v: Get) -> (r: Self) {
        Command::Get(v)
    }
}

impl FromSpecImpl<Get> for Command {
    open spec fn obeys_from_spec() -> bool {
        true
    }

    open spec fn from_spec(v: Get) -> Self {
        Command::Get(v)
    }
}

impl From<SetValue> for Command {
    fn from(v: SetValue) -> (r: Self) {
        Command::SetValue(v)
    }
}

impl FromSpecImpl<SetValue> for Command {
    open spec fn obeys_from_spec() -> bool {
        true
    }

    open spec fn from_spec(v: SetValue) -> Self {
        Command::SetValue(v)
    }
}

impl From<HGet> for Command {
    fn from(v: HGet) -> (r: Self) {
        Command::HGet(v)
    }
}

impl FromSpecImpl<HGet> for Command {
    open spec fn obeys_from_spec() -> bool {
        true
    }

    open spec fn from_spec(v: HGet) -> Self {
        Command::HGet(v)
    }
}

impl From<HMGet> for Command {
    fn from(v: HMGet) -> (r: Self) {
        Command::HMGet(v)
    }
}

impl FromSpecImpl<HMGet> for Command {
    open spec fn obeys_from_spec() -> bool {
        true
    }

    open spec fn from_spec(v: HMGet) -> Self {
        Command::HMGet(v)
    }
}

impl From<HSet> for Command {
    fn from(v: HSet) -> (r: Self) {
        Command::HSet(v)
    }
}

impl FromSpecImpl<HSet> for Command {
    open spec fn obeys_from_spec() -> bool {
        true
    }

    open spec fn from_spec(v: HSet) -> Self {
        Command::HSet(v)
    }
}

impl From<HGetAll> for Command {
    fn from(v: HGetAll) -> (r: Self) {
        Command::HGetAll(v)
    }
}

impl FromSpecImpl<HGetAll> for Command {
    open spec fn obeys_from_spec() -> bool {
        true
    }

    open spec fn from_spec(v: HGetAll) -> Self {
        Command::HGetAll(v)
    }
}

impl From<Unrecognized> for Command {
    fn from(v: Unrecognized) -> (r: Self) {
        Command::Unrecognized(v)
    }
}

impl FromSpecImpl<Unrecognized> for Command {
    open spec fn obeys_from_spec() -> bool {
        true
    }

    open spec fn from_spec(v: Unrecognized) -> Self {
        Command::Unrecognized(v)
    }
}

impl From<Echo> for Command {
    fn from(v: Echo) -> (r: Self) {
        Command::Echo(v)
    }
}

impl FromSpecImpl<Echo> for Command {
    open spec fn obeys_from_spec() -> bool {
        true
    }

    open spec fn from_spec(v: Echo) -> Self {
        Command::Echo(v)
    }
}

impl From<SisMember> for Command {
    fn from(v: SisMember) -> (r: Self) {
        Command::SisMember(v)
    }
}

impl FromSpecImpl<SisMember> for Command {
    open spec fn obeys_from_spec() -> bool {
        true
    }

    open spec fn from_spec(v: SisMember) -> Self {
        Command::SisMember(v)
    }
}

impl From<AddMember> for Command {
    fn from(v: AddMember) -> (r: Self) {
        Command::AddMember(v)
    }
}

impl FromSpecImpl<AddMember> for Command {
    open spec fn obeys_from_spec() -> bool {
        true
    }

    open spec fn from_spec(v: AddMember) -> Self {
        Command::AddMember(v)
    }
}

impl From<Vec<RespFrame>> for RespArray {
    fn from(v: Vec<RespFrame>) -> (r: Self) {
        RespArray(v)
    }
}

impl FromSpecImpl<Vec<RespFrame>> for RespArray {
    open spec fn obeys_from_spec() -> bool {
        true
    }

    open spec fn from_spec(v: Vec<RespFrame>) -> Self {
        RespArray(v)
    }
}

impl From<RespError> for CommandError {
    fn from(v: RespError) -> (r: Self) {
        CommandError::RespError(v)
    }
}

impl FromSpecImpl<RespError> for CommandError {
    open spec fn obeys_from_spec() -> bool {
        true
    }

    open spec fn from_spec(v: RespError) -> Self {
        CommandError::RespError(v)
    }
}

impl From<&str> for SimpleString {
    fn from(s: &str) -> (r: Self)
        ensures
            r@ == text_bytes(s@),
    {
        SimpleString(s.to_string())
    }
}

/// The contract of `from` is stated on the function itself.
impl FromSpecImpl<&str> for SimpleString {
    open spec fn obeys_from_spec() -> bool {
        false
    }

    open spec fn from_spec(s: &str) -> Self {
        arbitrary()
    }
}

impl From<&str> for SimpleError {
    fn from(s: &str) -> (r: Self)
        ensures
            r@ == text_bytes(s@),
    {
        SimpleError(s.to_string())
    }
}

/// The contract of `from` is stated on the function itself.
impl FromSpecImpl<&str> for SimpleError {
    open spec fn obeys_from_spec() -> bool {
        false
    }

    open spec fn from_spec(s: &str) -> Self {
        arbitrary()
    }
}

impl From<&str> for BulkString {
    fn from(s: &str) -> (r: Self)
        ensures
            r@ == text_bytes(s@),
    {
        BulkString(slice_to_vec(s.as_bytes()))
    }
}

/// The contract of `from` is stated on the function itself.
impl FromSpecImpl<&str> for BulkString {
    open spec fn obeys_from_spec() -> bool {
        false
    }

    open spec fn from_spec(s: &str) -> Self {
        arbitrary()
    }
}

impl From<String> for BulkString {
    fn from(s: String) -> (r: Self)
        ensures
            r@ == text_bytes(s@),
    {
        BulkString(slice_to_vec(s.as_str().as_bytes()))
    }
}

/// The contract of `from` is stated on the function itself.
impl FromSpecImpl<String> for BulkString {
    open spec fn obeys_from_spec() -> bool {
        false
    }

    open spec fn from_spec(s: String) -> Self {
        arbitrary()
    }
}

impl From<&[u8]> for BulkString {
    fn from(s: &[u8]) -> (r: Self)
        ensures
            r@ == s@,
    {
        BulkString(slice_to_vec(s))
    }
}

/// The contract of `from` is stated on the function itself.
impl FromSpecImpl<&[u8]> for BulkString {
    open spec fn obeys_from_spec() -> bool {
        false
    }

    open spec fn from_spec(s: &[u8]) -> Self {
        arbitrary()
    }
}

impl<const N: usize> From<&[u8; N]> for BulkString {
    fn from(s: &[u8; N]) -> (r: Self)
        ensures
            r@ == s@,
    {
        BulkString(slice_to_vec(array_as_slice(s)))
    }
}

/// The contract of `from` is stated on the function itself.
impl<const N: usize> FromSpecImpl<&[u8; N]> for BulkString {
    open spec fn obeys_from_spec() -> bool {
        false
    }

    open spec fn from_spec(s: &[u8; N]) -> Self {
        arbitrary()
    }
}

} // verus!

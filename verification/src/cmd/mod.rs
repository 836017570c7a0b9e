//! Commands: what a request asks for, how a request is read from a decoded
//! array, and what each command does to the store.

pub mod echo;
pub mod hmap;
pub mod map;
pub mod set;

use vstd::prelude::*;
use vstd::array::array_as_slice;
use vstd::utf8::valid_utf8;
use crate::assoc::{has_key, lookup};
use crate::backend::{flattened, names_view, picked, Backend, Tables};
use crate::frame::{
    frames_view, text_bytes, BulkString, FrameView, RespArray, RespError, RespFrame, SimpleString,
};
use crate::text::string_from_utf8;

verus! {

/// Why an array is not a command.
#[derive(Debug, Clone, Copy, PartialEq, Eq)]
pub enum CommandError {
    /// The array has no name, the wrong name, or the wrong number of elements.
    InvalidCommand,
    /// An argument is not of the type that the command takes.
    InvalidArgument,
    /// The frame could not be decoded.
    RespError(RespError),
    /// An argument that must be a text is not valid UTF-8.
    Utf8Error,
}

/// Whether `member` is in the set `key`.
#[derive(Debug)]
pub struct SisMember {
    pub key: String,
    pub member: String,
}

/// Adds `member` to the set `key`.
#[derive(Debug)]
pub struct AddMember {
    pub key: String,
    pub member: String,
}

/// Sends `message` back.
#[derive(Debug)]
pub struct Echo {
    pub message: String,
}

/// A command with a name that the table does not hold.
#[derive(Debug)]
pub struct Unrecognized;

/// The value of `key` in the string table.
#[derive(Debug)]
pub struct Get {
    pub key: String,
}

/// Sets the value of `key` in the string table.
#[derive(Debug)]
pub struct SetValue {
    pub key: String,
    pub value: RespFrame,
}

/// The value of `field` in the hash `key`.
#[derive(Debug)]
pub struct HGet {
    pub key: String,
    pub field: String,
}

/// The values of several fields of the hash `key`.
#[derive(Debug)]
pub struct HMGet {
    pub key: String,
    pub fields: Vec<String>,
}

/// Sets the value of `field` in the hash `key`.
#[derive(Debug)]
pub struct HSet {
    pub key: String,
    pub field: String,
    pub value: RespFrame,
}

/// All the fields of the hash `key` with their values. Where `sort` is set
/// the reply is in ascending order of the fields; the store holds the fields
/// in that order, so the reply is in it where `sort` is not set, too.
#[derive(Debug)]
pub struct HGetAll {
    pub key: String,
    pub sort: bool,
}

#[derive(Debug)]
pub enum Command {
    Get(Get),
    SetValue(SetValue),
    HGet(HGet),
    HMGet(HMGet),
    HSet(HSet),
    HGetAll(HGetAll),
    Unrecognized(Unrecognized),
    Echo(Echo),
    SisMember(SisMember),
    AddMember(AddMember),
}

/// What a command asks for, with every text as its bytes.
pub enum CommandView {
    Get { key: Seq<u8> },
    SetValue { key: Seq<u8>, value: FrameView },
    HGet { key: Seq<u8>, field: Seq<u8> },
    HMGet { key: Seq<u8>, fields: Seq<Seq<u8>> },
    HSet { key: Seq<u8>, field: Seq<u8>, value: FrameView },
    HGetAll { key: Seq<u8>, sort: bool },
    Unrecognized,
    Echo { message: Seq<u8> },
    SisMember { key: Seq<u8>, member: Seq<u8> },
    AddMember { key: Seq<u8>, member: Seq<u8> },
}

impl View for SisMember {
    type V = CommandView;

    open spec fn view(&self) -> CommandView {
        CommandView::SisMember { key: text_bytes(self.key@), member: text_bytes(self.member@) }
    }
}

impl View for AddMember {
    type V = CommandView;

    open spec fn view(&self) -> CommandView {
        CommandView::AddMember { key: text_bytes(self.key@), member: text_bytes(self.member@) }
    }
}

impl View for Echo {
    type V = CommandView;

    open spec fn view(&self) -> CommandView {
        CommandView::Echo { message: text_bytes(self.message@) }
    }
}

impl View for Unrecognized {
    type V = CommandView;

    open spec fn view(&self) -> CommandView {
        CommandView::Unrecognized
    }
}

impl View for Get {
    type V = CommandView;

    open spec fn view(&self) -> CommandView {
        CommandView::Get { key: text_bytes(self.key@) }
    }
}

impl View for SetValue {
    type V = CommandView;

    open spec fn view(&self) -> CommandView {
        CommandView::SetValue { key: text_bytes(self.key@), value: self.value@ }
    }
}

impl View for HGet {
    type V = CommandView;

    open spec fn view(&self) -> CommandView {
        CommandView::HGet { key: text_bytes(self.key@), field: text_bytes(self.field@) }
    }
}

impl View for HMGet {
    type V = CommandView;

    open spec fn view(&self) -> CommandView {
        CommandView::HMGet { key: text_bytes(self.key@), fields: names_view(self.fields@) }
    }
}

impl View for HSet {
    type V = CommandView;

    open spec fn view(&self) -> CommandView {
        CommandView::HSet {
            key: text_bytes(self.key@),
            field: text_bytes(self.field@),
            value: self.value@,
        }
    }
}

impl View for HGetAll {
    type V = CommandView;

    open spec fn view(&self) -> CommandView {
        CommandView::HGetAll { key: text_bytes(self.key@), sort: self.sort }
    }
}

impl View for Command {
    type V = CommandView;

    open spec fn view(&self) -> CommandView {
        match self {
            Command::Get(c) => c@,
            Command::SetValue(c) => c@,
            Command::HGet(c) => c@,
            Command::HMGet(c) => c@,
            Command::HSet(c) => c@,
            Command::HGetAll(c) => c@,
            Command::Unrecognized(c) => c@,
            Command::Echo(c) => c@,
            Command::SisMember(c) => c@,
            Command::AddMember(c) => c@,
        }
    }
}

/// The key that a command names; none for a command that reads and changes
/// no table.
pub open spec fn key_of(c: CommandView) -> Option<Seq<u8>> {
    match c {
        CommandView::Get { key } => Some(key),
        CommandView::SetValue { key, value } => Some(key),
        CommandView::HGet { key, field } => Some(key),
        CommandView::HMGet { key, fields } => Some(key),
        CommandView::HSet { key, field, value } => Some(key),
        CommandView::HGetAll { key, sort } => Some(key),
        CommandView::SisMember { key, member } => Some(key),
        CommandView::AddMember { key, member } => Some(key),
        CommandView::Unrecognized => None,
        CommandView::Echo { message } => None,
    }
}

impl Command {
    /// The key that the command names. A command reads and changes the
    /// values of this key only.
    pub fn key(&self) -> (r: Option<&String>)
        ensures
            match r {
                Some(k) => key_of(self@) == Some(text_bytes(k@)),
                None => key_of(self@) is None,
            },
    {
        match self {
            Command::Get(c) => Some(&c.key),
            Command::SetValue(c) => Some(&c.key),
            Command::HGet(c) => Some(&c.key),
            Command::HMGet(c) => Some(&c.key),
            Command::HSet(c) => Some(&c.key),
            Command::HGetAll(c) => Some(&c.key),
            Command::SisMember(c) => Some(&c.key),
            Command::AddMember(c) => Some(&c.key),
            Command::Unrecognized(_) => None,
            Command::Echo(_) => None,
        }
    }
}

/// The bytes of the text `OK`.
pub open spec fn ok_bytes() -> Seq<u8> {
    seq![79u8, 75u8]
}

/// The reply to a command that has nothing else to say: the simple string `OK`.
pub open spec fn ok_reply() -> FrameView {
    FrameView::SimpleString(ok_bytes())
}

/// The reply to a lookup: the value, or null where there is none.
pub open spec fn or_null(v: Option<FrameView>) -> FrameView {
    match v {
        Some(f) => f,
        None => FrameView::Null,
    }
}

/// The frame that a command replies with, on a store that holds `store`.
pub open spec fn reply_of(c: CommandView, store: Tables) -> FrameView {
    match c {
        CommandView::Get { key } => or_null(lookup(store.strings, key)),
        CommandView::SetValue { key, value } => ok_reply(),
        CommandView::HGet { key, field } => or_null(lookup(store.fields_of(key), field)),
        CommandView::HMGet { key, fields } => FrameView::Array(
            picked(store.fields_of(key), fields),
        ),
        CommandView::HSet { key, field, value } => ok_reply(),
        CommandView::HGetAll { key, sort } => FrameView::Array(flattened(store.fields_of(key))),
        CommandView::Unrecognized => ok_reply(),
        CommandView::Echo { message } => FrameView::BulkString(message),
        CommandView::SisMember { key, member } => FrameView::Integer(
            if has_key(store.members_of(key), member) {
                1i64
            } else {
                0i64
            },
        ),
        CommandView::AddMember { key, member } => FrameView::Integer(1i64),
    }
}

/// What the store holds after a command, where it held `store` before.
pub open spec fn effect_of(c: CommandView, store: Tables) -> Tables {
    match c {
        CommandView::SetValue { key, value } => store.with_string(key, value),
        CommandView::HSet { key, field, value } => store.with_field(key, field, value),
        CommandView::AddMember { key, member } => store.with_member(key, member),
        _ => store,
    }
}

/// What runs a command against the store.
pub trait CommandExecutor: Sized {
    /// What the command asks for.
    spec fn asks(&self) -> CommandView;

    /// Runs the command: changes the store as the command asks, and gives
    /// the reply.
    fn execute(self, backend: &mut Backend) -> (r: RespFrame)
        ensures
            r@ == reply_of(self.asks(), old(backend)@),
            final(backend)@ == effect_of(self.asks(), old(backend)@),
            old(backend)@.wf() ==> final(backend)@.wf(),
    ;
}

/// The simple string `OK`.
pub fn resp_ok() -> (r: RespFrame)
    ensures
        r@ == ok_reply(),
{
    let text: &str = "OK";
    proof {
        reveal_strlit("OK");
        lemma_ascii_text(text@);
        assert(text_bytes(text@) =~= ok_bytes());
    }
    RespFrame::SimpleString(SimpleString(text.to_string()))
}

/// The bytes of an ASCII text are its characters.
pub proof fn lemma_ascii_text(chars: Seq<char>)
    requires
        vstd::utf8::is_ascii_chars(chars),
    ensures
        text_bytes(chars).len() == chars.len(),
        forall|i: int| 0 <= i < chars.len() ==> #[trigger] text_bytes(chars)[i] == chars[i] as u8,
{
    vstd::utf8::is_ascii_chars_encode_utf8(chars);
}

/// An ASCII letter in lower case; every other byte as it is.
pub open spec fn lower(b: u8) -> u8 {
    if 65 <= b <= 90 {
        (b + 32) as u8
    } else {
        b
    }
}

/// `s` with its ASCII letters in lower case.
pub open spec fn lowered(s: Seq<u8>) -> Seq<u8> {
    Seq::new(s.len(), |i: int| lower(s[i]))
}

/// `f` is a bulk string that writes `name`, in upper or lower case.
pub open spec fn names(f: FrameView, name: Seq<u8>) -> bool {
    match f {
        FrameView::BulkString(b) => lowered(b) == name,
        _ => false,
    }
}

/// The array starts with the name tokens `tokens`, each in upper or lower
/// case, and holds at least `arg_cnt` elements more.
pub open spec fn validated(items: Seq<FrameView>, tokens: Seq<Seq<u8>>, arg_cnt: nat) -> bool {
    &&& items.len() >= tokens.len() + arg_cnt
    &&& forall|i: int| 0 <= i < tokens.len() ==> names(#[trigger] items[i], tokens[i])
}

/// The bytes of the name tokens `cmds`.
pub open spec fn tokens_view(cmds: Seq<&str>) -> Seq<Seq<u8>> {
    Seq::new(cmds.len(), |i: int| text_bytes(cmds[i]@))
}

/// Tells whether `bytes`, with its letters in lower case, is `name`.
pub fn matches_name(bytes: &[u8], name: &[u8]) -> (r: bool)
    ensures
        r == (lowered(bytes@) == name@),
{
    if bytes.len() != name.len() {
        return false;
    }
    let mut i: usize = 0;
    while i < bytes.len()
        invariant
            i <= bytes@.len(),
            bytes@.len() == name@.len(),
            forall|j: int| 0 <= j < i ==> lower(bytes@[j]) == name@[j],
        decreases bytes@.len() - i,
    {
        let b: u8 = bytes[i];
        let low: u8 = if 65 <= b && b <= 90 {
            b + 32
        } else {
            b
        };
        if low != name[i] {
            assert(lowered(bytes@)[i as int] != name@[i as int]);
            return false;
        }
        i = i + 1;
    }
    assert(lowered(bytes@) =~= name@);
    true
}

/// Checks that `frames` starts with the name tokens `cmds` and holds at
/// least `arg_cnt` elements more.
pub fn validate_command(frames: &RespArray, cmds: &[&str], arg_cnt: usize) -> (r: Result<
    (),
    CommandError,
>)
    ensures
        r is Ok <==> validated(frames@, tokens_view(cmds@), arg_cnt as nat),
        r matches Err(e) ==> e == CommandError::InvalidCommand,
{
    let n: usize = frames.0.len();
    if n < cmds.len() || n - cmds.len() < arg_cnt {
        return Err(CommandError::InvalidCommand);
    }
    let ghost tokens = tokens_view(cmds@);
    let mut i: usize = 0;
    while i < cmds.len()
        invariant
            i <= cmds@.len() <= n,
            n == frames.0.len(),
            tokens == tokens_view(cmds@),
            forall|j: int| 0 <= j < i ==> names(#[trigger] frames@[j], tokens[j]),
        decreases cmds@.len() - i,
    {
        let matched: bool = match &frames.0[i] {
            RespFrame::BulkString(b) => matches_name(b.0.as_slice(), cmds[i].as_bytes()),
            _ => false,
        };
        if !matched {
            assert(!names(frames@[i as int], tokens[i as int]));
            return Err(CommandError::InvalidCommand);
        }
        i = i + 1;
    }
    Ok(())
}

/// The elements of `frames` from position `start` on.
pub fn extract_args(frames: RespArray, start: usize) -> (r: Result<Vec<RespFrame>, CommandError>)
    ensures
        r matches Ok(args) && frames_view(args) == (if start <= frames@.len() {
            frames@.skip(start as int)
        } else {
            Seq::empty()
        }),
{
    let mut items: Vec<RespFrame> = frames.0;
    if start > items.len() {
        let none: Vec<RespFrame> = Vec::new();
        assert(frames_view(none) =~= Seq::<FrameView>::empty());
        return Ok(none);
    }
    let ghost before = frames_view(items);
    let rest: Vec<RespFrame> = items.split_off(start);
    assert(frames_view(rest) =~= before.skip(start as int));
    Ok(rest)
}

/// The text of an argument: a bulk string that holds valid UTF-8.
pub open spec fn text_arg(f: FrameView, type_error: CommandError) -> Result<Seq<u8>, CommandError> {
    match f {
        FrameView::BulkString(b) => if valid_utf8(b) {
            Ok(b)
        } else {
            Err(CommandError::Utf8Error)
        },
        _ => Err(type_error),
    }
}

/// A text or an error, with the text as its bytes.
pub open spec fn as_text(r: Result<String, CommandError>) -> Result<Seq<u8>, CommandError> {
    match r {
        Ok(s) => Ok(text_bytes(s@)),
        Err(e) => Err(e),
    }
}

/// The text of the argument `f`; `type_error` where `f` is no bulk string.
pub fn text_of_arg(f: RespFrame, type_error: CommandError) -> (r: Result<String, CommandError>)
    ensures
        as_text(r) == text_arg(f@, type_error),
{
    match f {
        RespFrame::BulkString(b) => match string_from_utf8(b.0) {
            Some(s) => Ok(s),
            None => Err(CommandError::Utf8Error),
        },
        _ => Err(type_error),
    }
}

/// The texts of two arguments. Both must be bulk strings; then both must be
/// valid UTF-8.
pub open spec fn two_texts(a: FrameView, b: FrameView, type_error: CommandError) -> Result<
    (Seq<u8>, Seq<u8>),
    CommandError,
> {
    match (a, b) {
        (FrameView::BulkString(x), FrameView::BulkString(y)) => if valid_utf8(x) && valid_utf8(y) {
            Ok((x, y))
        } else {
            Err(CommandError::Utf8Error)
        },
        _ => Err(type_error),
    }
}

/// The texts of the arguments `a` and `b`.
pub fn texts_of_args(a: RespFrame, b: RespFrame, type_error: CommandError) -> (r: Result<
    (String, String),
    CommandError,
>)
    ensures
        match r {
            Ok((x, y)) => two_texts(a@, b@, type_error) == Ok::<(Seq<u8>, Seq<u8>), CommandError>(
                (text_bytes(x@), text_bytes(y@)),
            ),
            Err(e) => two_texts(a@, b@, type_error) == Err::<(Seq<u8>, Seq<u8>), CommandError>(e),
        },
{
    match (a, b) {
        (RespFrame::BulkString(x), RespFrame::BulkString(y)) => {
            let first: String = match string_from_utf8(x.0) {
                Some(s) => s,
                None => {
                    return Err(CommandError::Utf8Error);
                },
            };
            match string_from_utf8(y.0) {
                Some(second) => Ok((first, second)),
                None => Err(CommandError::Utf8Error),
            }
        },
        _ => Err(type_error),
    }
}

/// A command that was read, or an error, with the command as what it asks for.
pub open spec fn as_asked<C: View<V = CommandView>>(r: Result<C, CommandError>) -> Result<
    CommandView,
    CommandError,
> {
    match r {
        Ok(c) => Ok(c@),
        Err(e) => Err(e),
    }
}

/// The one name token `name` as the list of tokens of a command.
pub open spec fn one_token(name: Seq<u8>) -> Seq<Seq<u8>> {
    seq![name]
}

/// Checks that `frames` is a command with the one name token `name` and
/// exactly `arg_cnt` arguments.
pub fn validate_exact(frames: &RespArray, name: &'static str, arg_cnt: usize) -> (r: Result<
    (),
    CommandError,
>)
    ensures
        r is Ok <==> validated(frames@, one_token(text_bytes(name@)), arg_cnt as nat)
            && frames@.len() == 1 + arg_cnt,
        r matches Err(e) ==> e == CommandError::InvalidCommand,
{
    let tokens: [&str; 1] = [name];
    assert(tokens_view(tokens@) =~= one_token(text_bytes(name@)));
    match validate_command(frames, array_as_slice(&tokens), arg_cnt) {
        Ok(()) => if frames.0.len() - 1 == arg_cnt {
            Ok(())
        } else {
            Err(CommandError::InvalidCommand)
        },
        Err(e) => Err(e),
    }
}

/// Takes the first argument out of `args`.
pub(crate) fn take_first(args: &mut Vec<RespFrame>) -> (r: RespFrame)
    requires
        old(args).len() > 0,
    ensures
        r@ == frames_view(*old(args))[0],
        frames_view(*final(args)) == frames_view(*old(args)).skip(1),
        final(args).len() == old(args).len() - 1,
{
    let ghost before = frames_view(*args);
    assert(before[0] == args[0]@);
    let first: RespFrame = args.remove(0);
    assert(frames_view(*args) =~= before.skip(1));
    first
}

/// The place of the command name `name` in the table of commands, counted
/// from one; zero for a name that the table does not hold.
pub open spec fn place_of(name: Seq<u8>) -> u8 {
    if name == echo::name_echo() {
        1
    } else if name == map::name_get() {
        2
    } else if name == map::name_set() {
        3
    } else if name == hmap::name_hget() {
        4
    } else if name == hmap::name_hmget() {
        5
    } else if name == hmap::name_hset() {
        6
    } else if name == hmap::name_hgetall() {
        7
    } else if name == set::name_addmember() {
        8
    } else if name == set::name_sismember() {
        9
    } else {
        0
    }
}

/// The place in the table of the command that `bytes` names, in upper or
/// lower case.
pub fn classify(bytes: &[u8]) -> (which: u8)
    ensures
        which == place_of(lowered(bytes@)),
{
    proof {
        reveal_strlit("echo");
        lemma_ascii_text("echo"@);
        assert(text_bytes("echo"@) =~= echo::name_echo());
        reveal_strlit("get");
        lemma_ascii_text("get"@);
        assert(text_bytes("get"@) =~= map::name_get());
        reveal_strlit("set");
        lemma_ascii_text("set"@);
        assert(text_bytes("set"@) =~= map::name_set());
        reveal_strlit("hget");
        lemma_ascii_text("hget"@);
        assert(text_bytes("hget"@) =~= hmap::name_hget());
        reveal_strlit("hmget");
        lemma_ascii_text("hmget"@);
        assert(text_bytes("hmget"@) =~= hmap::name_hmget());
        reveal_strlit("hset");
        lemma_ascii_text("hset"@);
        assert(text_bytes("hset"@) =~= hmap::name_hset());
        reveal_strlit("hgetall");
        lemma_ascii_text("hgetall"@);
        assert(text_bytes("hgetall"@) =~= hmap::name_hgetall());
        reveal_strlit("addmember");
        lemma_ascii_text("addmember"@);
        assert(text_bytes("addmember"@) =~= set::name_addmember());
        reveal_strlit("sismember");
        lemma_ascii_text("sismember"@);
        assert(text_bytes("sismember"@) =~= set::name_sismember());
    }
    if matches_name(bytes, "echo".as_bytes()) {
        1
    } else if matches_name(bytes, "get".as_bytes()) {
        2
    } else if matches_name(bytes, "set".as_bytes()) {
        3
    } else if matches_name(bytes, "hget".as_bytes()) {
        4
    } else if matches_name(bytes, "hmget".as_bytes()) {
        5
    } else if matches_name(bytes, "hset".as_bytes()) {
        6
    } else if matches_name(bytes, "hgetall".as_bytes()) {
        7
    } else if matches_name(bytes, "addmember".as_bytes()) {
        8
    } else if matches_name(bytes, "sismember".as_bytes()) {
        9
    } else {
        0
    }
}

/// The command that the elements `items` of an array write. The first
/// element names the command, in upper or lower case; a name that the table
/// does not hold is no error.
pub open spec fn command_of(items: Seq<FrameView>) -> Result<CommandView, CommandError> {
    if items.len() == 0 {
        Err(CommandError::InvalidCommand)
    } else {
        match items[0] {
            FrameView::BulkString(b) => {
                if lowered(b) == echo::name_echo() {
                    echo::echo_of(items)
                } else if lowered(b) == map::name_get() {
                    map::get_of(items)
                } else if lowered(b) == map::name_set() {
                    map::set_of(items)
                } else if lowered(b) == hmap::name_hget() {
                    hmap::hget_of(items)
                } else if lowered(b) == hmap::name_hmget() {
                    hmap::hmget_of(items)
                } else if lowered(b) == hmap::name_hset() {
                    hmap::hset_of(items)
                } else if lowered(b) == hmap::name_hgetall() {
                    hmap::hgetall_of(items)
                } else if lowered(b) == set::name_addmember() {
                    set::addmember_of(items)
                } else if lowered(b) == set::name_sismember() {
                    set::sismember_of(items)
                } else {
                    Ok(CommandView::Unrecognized)
                }
            },
            _ => Err(CommandError::InvalidCommand),
        }
    }
}

/// The command that the frame `f` writes: only an array writes one.
pub open spec fn command_of_frame(f: FrameView) -> Result<CommandView, CommandError> {
    match f {
        FrameView::Array(items) => command_of(items),
        _ => Err(CommandError::InvalidCommand),
    }
}

impl TryFrom<RespArray> for Command {
    type Error = CommandError;

    fn try_from(value: RespArray) -> (r: Result<Self, CommandError>)
        ensures
            as_asked(r) == command_of(value@),
    {
        if value.0.len() == 0 {
            return Err(CommandError::InvalidCommand);
        }
        let which: u8 = match &value.0[0] {
            RespFrame::BulkString(b) => classify(b.0.as_slice()),
            _ => {
                return Err(CommandError::InvalidCommand);
            },
        };
        if which == 1 {
            match Echo::try_from(value) {
                Ok(c) => Ok(Command::Echo(c)),
                Err(e) => Err(e),
            }
        } else if which == 2 {
            match Get::try_from(value) {
                Ok(c) => Ok(Command::Get(c)),
                Err(e) => Err(e),
            }
        } else if which == 3 {
            match SetValue::try_from(value) {
                Ok(c) => Ok(Command::SetValue(c)),
                Err(e) => Err(e),
            }
        } else if which == 4 {
            match HGet::try_from(value) {
                Ok(c) => Ok(Command::HGet(c)),
                Err(e) => Err(e),
            }
        } else if which == 5 {
            match HMGet::try_from(value) {
                Ok(c) => Ok(Command::HMGet(c)),
                Err(e) => Err(e),
            }
        } else if which == 6 {
            match HSet::try_from(value) {
                Ok(c) => Ok(Command::HSet(c)),
                Err(e) => Err(e),
            }
        } else if which == 7 {
            match HGetAll::try_from(value) {
                Ok(c) => Ok(Command::HGetAll(c)),
                Err(e) => Err(e),
            }
        } else if which == 8 {
            match AddMember::try_from(value) {
                Ok(c) => Ok(Command::AddMember(c)),
                Err(e) => Err(e),
            }
        } else if which == 9 {
            match SisMember::try_from(value) {
                Ok(c) => Ok(Command::SisMember(c)),
                Err(e) => Err(e),
            }
        } else {
            Ok(Command::Unrecognized(Unrecognized))
        }
    }
}

impl TryFrom<RespFrame> for Command {
    type Error = CommandError;

    fn try_from(value: RespFrame) -> (r: Result<Self, CommandError>)
        ensures
            as_asked(r) == command_of_frame(value@),
    {
        match value {
            RespFrame::Array(items) => Command::try_from(items),
            _ => Err(CommandError::InvalidCommand),
        }
    }
}

/// The contract of `try_from` is stated on the function itself.
impl vstd::std_specs::convert::TryFromSpecImpl<RespArray> for Command {
    open spec fn obeys_try_from_spec() -> bool {
        false
    }

    open spec fn try_from_spec(v: RespArray) -> Result<Self, CommandError> {
        arbitrary()
    }
}

/// The contract of `try_from` is stated on the function itself.
impl vstd::std_specs::convert::TryFromSpecImpl<RespFrame> for Command {
    open spec fn obeys_try_from_spec() -> bool {
        false
    }

    open spec fn try_from_spec(v: RespFrame) -> Result<Self, CommandError> {
        arbitrary()
    }
}

impl CommandExecutor for Unrecognized {
    open spec fn asks(&self) -> CommandView {
        self@
    }

    fn execute(self, backend: &mut Backend) -> (r: RespFrame) {
        resp_ok()
    }
}

impl CommandExecutor for Command {
    open spec fn asks(&self) -> CommandView {
        self@
    }

    fn execute(self, backend: &mut Backend) -> (r: RespFrame) {
        match self {
            Command::Get(c) => c.execute(backend),
            Command::SetValue(c) => c.execute(backend),
            Command::HGet(c) => c.execute(backend),
            Command::HMGet(c) => c.execute(backend),
            Command::HSet(c) => c.execute(backend),
            Command::HGetAll(c) => c.execute(backend),
            Command::Unrecognized(c) => c.execute(backend),
            Command::Echo(c) => c.execute(backend),
            Command::SisMember(c) => c.execute(backend),
            Command::AddMember(c) => c.execute(backend),
        }
    }
}

} // verus!

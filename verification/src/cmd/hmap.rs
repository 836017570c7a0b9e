//! HGET, HMGET, HGETALL and HSET: the hash table.

use vstd::prelude::*;
use vstd::array::array_as_slice;
use crate::backend::{names_view, Backend};
use crate::cmd::{
    as_asked, as_text, extract_args, lemma_ascii_text, one_token, resp_ok, take_first, text_arg,
    text_of_arg, texts_of_args, tokens_view, two_texts, validate_command, validate_exact, validated,
    CommandError, CommandExecutor, CommandView, HGet, HGetAll, HMGet, HSet,
};
use crate::frame::{frames_view, text_bytes, FrameView, RespArray, RespFrame, RespNull};

verus! {

/// The name of HGET, in lower case.
pub open spec fn name_hget() -> Seq<u8> {
    seq![104u8, 103u8, 101u8, 116u8]
}

/// The name of HMGET, in lower case.
pub open spec fn name_hmget() -> Seq<u8> {
    seq![104u8, 109u8, 103u8, 101u8, 116u8]
}

/// The name of HGETALL, in lower case.
pub open spec fn name_hgetall() -> Seq<u8> {
    seq![104u8, 103u8, 101u8, 116u8, 97u8, 108u8, 108u8]
}

/// The name of HSET, in lower case.
pub open spec fn name_hset() -> Seq<u8> {
    seq![104u8, 115u8, 101u8, 116u8]
}

/// The HGET command that `items` writes: the name, the key and the field.
pub open spec fn hget_of(items: Seq<FrameView>) -> Result<CommandView, CommandError> {
    if !validated(items, one_token(name_hget()), 2) || items.len() != 3 {
        Err(CommandError::InvalidCommand)
    } else {
        match two_texts(items[1], items[2], CommandError::InvalidArgument) {
            Ok((key, field)) => Ok(CommandView::HGet { key, field }),
            Err(e) => Err(e),
        }
    }
}

/// The HGETALL command that `items` writes: the name and the key. A command
/// that was read asks for no order.
pub open spec fn hgetall_of(items: Seq<FrameView>) -> Result<CommandView, CommandError> {
    if !validated(items, one_token(name_hgetall()), 1) || items.len() != 2 {
        Err(CommandError::InvalidCommand)
    } else {
        match text_arg(items[1], CommandError::InvalidArgument) {
            Ok(key) => Ok(CommandView::HGetAll { key, sort: false }),
            Err(e) => Err(e),
        }
    }
}

/// The HSET command that `items` writes: the name, the key, the field and
/// the value, which is kept as it is.
pub open spec fn hset_of(items: Seq<FrameView>) -> Result<CommandView, CommandError> {
    if !validated(items, one_token(name_hset()), 3) || items.len() != 4 {
        Err(CommandError::InvalidCommand)
    } else {
        match two_texts(items[1], items[2], CommandError::InvalidArgument) {
            Ok((key, field)) => Ok(CommandView::HSet { key, field, value: items[3] }),
            Err(e) => Err(e),
        }
    }
}

/// The texts of the arguments `items`, or the error of the first of them
/// that is no text.
pub open spec fn all_texts(items: Seq<FrameView>) -> Result<Seq<Seq<u8>>, CommandError>
    decreases items.len(),
{
    if items.len() == 0 {
        Ok(Seq::empty())
    } else {
        match all_texts(items.drop_last()) {
            Ok(texts) => match text_arg(items.last(), CommandError::InvalidArgument) {
                Ok(t) => Ok(texts.push(t)),
                Err(e) => Err(e),
            },
            Err(e) => Err(e),
        }
    }
}

/// The HMGET command that `items` writes: the name, the key and at least one
/// field.
pub open spec fn hmget_of(items: Seq<FrameView>) -> Result<CommandView, CommandError> {
    if !validated(items, one_token(name_hmget()), 2) {
        Err(CommandError::InvalidCommand)
    } else {
        match text_arg(items[1], CommandError::InvalidArgument) {
            Ok(key) => match all_texts(items.skip(2)) {
                Ok(fields) => Ok(CommandView::HMGet { key, fields }),
                Err(e) => Err(e),
            },
            Err(e) => Err(e),
        }
    }
}

impl CommandExecutor for HGet {
    open spec fn asks(&self) -> CommandView {
        self@
    }

    fn execute(self, backend: &mut Backend) -> (r: RespFrame) {
        match backend.hget(self.key.as_str(), self.field.as_str()) {
            Some(value) => value,
            None => RespFrame::Null(RespNull),
        }
    }
}

impl CommandExecutor for HMGet {
    open spec fn asks(&self) -> CommandView {
        self@
    }

    fn execute(self, backend: &mut Backend) -> (r: RespFrame) {
        backend.hmget(self.key.as_str(), self.fields)
    }
}

impl CommandExecutor for HGetAll {
    open spec fn asks(&self) -> CommandView {
        self@
    }

    fn execute(self, backend: &mut Backend) -> (r: RespFrame) {
        RespFrame::Array(backend.hgetall(self.key.as_str()))
    }
}

impl CommandExecutor for HSet {
    open spec fn asks(&self) -> CommandView {
        self@
    }

    fn execute(self, backend: &mut Backend) -> (r: RespFrame) {
        backend.hset(self.key, self.field, self.value);
        resp_ok()
    }
}

impl TryFrom<RespArray> for HGet {
    type Error = CommandError;

    fn try_from(value: RespArray) -> (r: Result<Self, CommandError>)
        ensures
            as_asked(r) == hget_of(value@),
    {
        proof {
            reveal_strlit("hget");
            lemma_ascii_text("hget"@);
            assert(text_bytes("hget"@) =~= name_hget());
        }
        match validate_exact(&value, "hget", 2) {
            Ok(()) => {},
            Err(e) => {
                return Err(e);
            },
        }
        let mut args: Vec<RespFrame> = match extract_args(value, 1) {
            Ok(args) => args,
            Err(e) => {
                return Err(e);
            },
        };
        assert(frames_view(args).len() == args.len());
        let first: RespFrame = take_first(&mut args);
        let second: RespFrame = take_first(&mut args);
        match texts_of_args(first, second, CommandError::InvalidArgument) {
            Ok((key, field)) => Ok(HGet { key, field }),
            Err(e) => Err(e),
        }
    }
}

/// The text of the argument `frames`, which `arg_name` names for the caller.
pub fn parse_string_arg(frames: RespFrame, arg_name: &str) -> (r: Result<String, CommandError>)
    ensures
        as_text(r) == text_arg(frames@, CommandError::InvalidArgument),
{
    text_of_arg(frames, CommandError::InvalidArgument)
}

impl TryFrom<RespArray> for HMGet {
    type Error = CommandError;

    #[verifier::loop_isolation(false)]
    fn try_from(value: RespArray) -> (r: Result<Self, CommandError>)
        ensures
            as_asked(r) == hmget_of(value@),
    {
        proof {
            reveal_strlit("hmget");
            lemma_ascii_text("hmget"@);
            assert(text_bytes("hmget"@) =~= name_hmget());
        }
        let tokens: [&str; 1] = ["hmget"];
        assert(tokens_view(tokens@) =~= one_token(text_bytes("hmget"@)));
        match validate_command(&value, array_as_slice(&tokens), 2) {
            Ok(()) => {},
            Err(e) => {
                return Err(e);
            },
        }
        let ghost items = value@;
        let mut args: Vec<RespFrame> = match extract_args(value, 1) {
            Ok(args) => args,
            Err(e) => {
                return Err(e);
            },
        };
        assert(frames_view(args).len() == args.len());
        if args.len() < 2 {
            return Err(CommandError::InvalidArgument);
        }
        let key: String = match parse_string_arg(take_first(&mut args), "key") {
            Ok(key) => key,
            Err(e) => {
                return Err(e);
            },
        };
        let ghost rest = items.skip(2);
        assert(frames_view(args) =~= rest);
        let mut fields: Vec<String> = Vec::new();
        let mut done: usize = 0;
        let total: usize = args.len();
        assert(rest.take(0) =~= Seq::<FrameView>::empty());
        assert(names_view(fields@) =~= Seq::<Seq<u8>>::empty());
        while args.len() > 0
            invariant
                done + args.len() == total,
                total == rest.len(),
                frames_view(args) == rest.skip(done as int),
                all_texts(rest.take(done as int)) == Ok::<Seq<Seq<u8>>, CommandError>(
                    names_view(fields@),
                ),
            decreases args.len(),
        {
            let ghost before = names_view(fields@);
            assert(frames_view(args).len() == args.len());
            let next: RespFrame = take_first(&mut args);
            proof {
                assert(rest.take(done + 1).drop_last() =~= rest.take(done as int));
                assert(rest.take(done + 1).last() == rest[done as int]);
                assert(rest.skip(done as int).skip(1) =~= rest.skip(done + 1));
                assert(next@ == rest[done as int]);
                if all_texts(rest.take(done + 1)) is Err {
                    lemma_all_texts_error(rest, done + 1);
                }
            }
            match parse_string_arg(next, "field") {
                Ok(field) => {
                    let ghost name = text_bytes(field@);
                    fields.push(field);
                    assert(names_view(fields@) =~= before.push(name));
                },
                Err(e) => {
                    return Err(e);
                },
            }
            done = done + 1;
        }
        assert(rest.take(done as int) =~= rest);
        Ok(HMGet { key, fields })
    }
}

/// An argument that is no text fails the whole list, with the error of the
/// first such argument.
pub proof fn lemma_all_texts_error(items: Seq<FrameView>, k: int)
    requires
        0 <= k <= items.len(),
        all_texts(items.take(k)) is Err,
    ensures
        all_texts(items) == all_texts(items.take(k)),
    decreases items.len() - k,
{
    if k == items.len() {
        assert(items.take(k) =~= items);
    } else {
        assert(items.take(k + 1).drop_last() =~= items.take(k));
        lemma_all_texts_error(items, k + 1);
    }
}

impl TryFrom<RespArray> for HGetAll {
    type Error = CommandError;

    fn try_from(value: RespArray) -> (r: Result<Self, CommandError>)
        ensures
            as_asked(r) == hgetall_of(value@),
    {
        proof {
            reveal_strlit("hgetall");
            lemma_ascii_text("hgetall"@);
            assert(text_bytes("hgetall"@) =~= name_hgetall());
        }
        match validate_exact(&value, "hgetall", 1) {
            Ok(()) => {},
            Err(e) => {
                return Err(e);
            },
        }
        let mut args: Vec<RespFrame> = match extract_args(value, 1) {
            Ok(args) => args,
            Err(e) => {
                return Err(e);
            },
        };
        assert(frames_view(args).len() == args.len());
        let first: RespFrame = take_first(&mut args);
        match text_of_arg(first, CommandError::InvalidArgument) {
            Ok(key) => Ok(HGetAll { key, sort: false }),
            Err(e) => Err(e),
        }
    }
}

impl TryFrom<RespArray> for HSet {
    type Error = CommandError;

    fn try_from(value: RespArray) -> (r: Result<Self, CommandError>)
        ensures
            as_asked(r) == hset_of(value@),
    {
        proof {
            reveal_strlit("hset");
            lemma_ascii_text("hset"@);
            assert(text_bytes("hset"@) =~= name_hset());
        }
        match validate_exact(&value, "hset", 3) {
            Ok(()) => {},
            Err(e) => {
                return Err(e);
            },
        }
        let mut args: Vec<RespFrame> = match extract_args(value, 1) {
            Ok(args) => args,
            Err(e) => {
                return Err(e);
            },
        };
        assert(frames_view(args).len() == args.len());
        let first: RespFrame = take_first(&mut args);
        let second: RespFrame = take_first(&mut args);
        let third: RespFrame = take_first(&mut args);
        match texts_of_args(first, second, CommandError::InvalidArgument) {
            Ok((key, field)) => Ok(HSet { key, field, value: third }),
            Err(e) => Err(e),
        }
    }
}

/// The contract of `try_from` is stated on the function itself.
impl vstd::std_specs::convert::TryFromSpecImpl<RespArray> for HGet {
    open spec fn obeys_try_from_spec() -> bool {
        false
    }

    open spec fn try_from_spec(v: RespArray) -> Result<Self, CommandError> {
        arbitrary()
    }
}

/// The contract of `try_from` is stated on the function itself.
impl vstd::std_specs::convert::TryFromSpecImpl<RespArray> for HMGet {
    open spec fn obeys_try_from_spec() -> bool {
        false
    }

    open spec fn try_from_spec(v: RespArray) -> Result<Self, CommandError> {
        arbitrary()
    }
}

/// The contract of `try_from` is stated on the function itself.
impl vstd::std_specs::convert::TryFromSpecImpl<RespArray> for HGetAll {
    open spec fn obeys_try_from_spec() -> bool {
        false
    }

    open spec fn try_from_spec(v: RespArray) -> Result<Self, CommandError> {
        arbitrary()
    }
}

/// The contract of `try_from` is stated on the function itself.
impl vstd::std_specs::convert::TryFromSpecImpl<RespArray> for HSet {
    open spec fn obeys_try_from_spec() -> bool {
        false
    }

    open spec fn try_from_spec(v: RespArray) -> Result<Self, CommandError> {
        arbitrary()
    }
}

} // verus!

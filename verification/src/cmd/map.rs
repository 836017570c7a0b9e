//! GET and SET: the string table.

use vstd::prelude::*;
use crate::backend::Backend;
use crate::cmd::{
    as_asked, extract_args, lemma_ascii_text, one_token, resp_ok, take_first, text_arg, text_of_arg,
    validate_exact, validated, CommandError, CommandExecutor, CommandView, Get, SetValue,
};
use crate::frame::{frames_view, text_bytes, FrameView, RespArray, RespFrame, RespNull};

verus! {

/// The name of GET, in lower case.
pub open spec fn name_get() -> Seq<u8> {
    seq![103u8, 101u8, 116u8]
}

/// The name of SET, in lower case.
pub open spec fn name_set() -> Seq<u8> {
    seq![115u8, 101u8, 116u8]
}

/// The GET command that `items` writes: the name and the key.
pub open spec fn get_of(items: Seq<FrameView>) -> Result<CommandView, CommandError> {
    if !validated(items, one_token(name_get()), 1) || items.len() != 2 {
        Err(CommandError::InvalidCommand)
    } else {
        match text_arg(items[1], CommandError::InvalidArgument) {
            Ok(key) => Ok(CommandView::Get { key }),
            Err(e) => Err(e),
        }
    }
}

/// The SET command that `items` writes: the name, the key and the value,
/// which is kept as it is.
pub open spec fn set_of(items: Seq<FrameView>) -> Result<CommandView, CommandError> {
    if !validated(items, one_token(name_set()), 2) || items.len() != 3 {
        Err(CommandError::InvalidCommand)
    } else {
        match text_arg(items[1], CommandError::InvalidArgument) {
            Ok(key) => Ok(CommandView::SetValue { key, value: items[2] }),
            Err(e) => Err(e),
        }
    }
}

impl CommandExecutor for Get {
    open spec fn asks(&self) -> CommandView {
        self@
    }

    fn execute(self, backend: &mut Backend) -> (r: RespFrame) {
        match backend.get(self.key.as_str()) {
            Some(value) => value,
            None => RespFrame::Null(RespNull),
        }
    }
}

impl CommandExecutor for SetValue {
    open spec fn asks(&self) -> CommandView {
        self@
    }

    fn execute(self, backend: &mut Backend) -> (r: RespFrame) {
        backend.set(self.key, self.value);
        resp_ok()
    }
}

impl TryFrom<RespArray> for Get {
    type Error = CommandError;

    fn try_from(value: RespArray) -> (r: Result<Self, CommandError>)
        ensures
            as_asked(r) == get_of(value@),
    {
        proof {
            reveal_strlit("get");
            lemma_ascii_text("get"@);
            assert(text_bytes("get"@) =~= name_get());
        }
        match validate_exact(&value, "get", 1) {
            Ok(()) => {},
            Err(e) => {
                return Err(e);
            },
        }
        let mut args: Vec<RespFrame> = match extract_args(value, 1) {
            Ok(args) => args,
            Err(e) => {
                return Err(e);
            },
        };
        assert(frames_view(args).len() == args.len());
        let first: RespFrame = take_first(&mut args);
        match text_of_arg(first, CommandError::InvalidArgument) {
            Ok(key) => Ok(Get { key }),
            Err(e) => Err(e),
        }
    }
}

impl TryFrom<RespArray> for SetValue {
    type Error = CommandError;

    fn try_from(value: RespArray) -> (r: Result<Self, CommandError>)
        ensures
            as_asked(r) == set_of(value@),
    {
        proof {
            reveal_strlit("set");
            lemma_ascii_text("set"@);
            assert(text_bytes("set"@) =~= name_set());
        }
        match validate_exact(&value, "set", 2) {
            Ok(()) => {},
            Err(e) => {
                return Err(e);
            },
        }
        let mut args: Vec<RespFrame> = match extract_args(value, 1) {
            Ok(args) => args,
            Err(e) => {
                return Err(e);
            },
        };
        assert(frames_view(args).len() == args.len());
        let first: RespFrame = take_first(&mut args);
        let second: RespFrame = take_first(&mut args);
        match text_of_arg(first, CommandError::InvalidArgument) {
            Ok(key) => Ok(SetValue { key, value: second }),
            Err(e) => Err(e),
        }
    }
}

/// The contract of `try_from` is stated on the function itself.
impl vstd::std_specs::convert::TryFromSpecImpl<RespArray> for Get {
    open spec fn obeys_try_from_spec() -> bool {
        false
    }

    open spec fn try_from_spec(v: RespArray) -> Result<Self, CommandError> {
        arbitrary()
    }
}

/// The contract of `try_from` is stated on the function itself.
impl vstd::std_specs::convert::TryFromSpecImpl<RespArray> for SetValue {
    open spec fn obeys_try_from_spec() -> bool {
        false
    }

    open spec fn try_from_spec(v: RespArray) -> Result<Self, CommandError> {
        arbitrary()
    }
}

} // verus!

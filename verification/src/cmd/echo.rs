//! ECHO: sends its argument back.

use vstd::prelude::*;
use vstd::slice::slice_to_vec;
use crate::backend::Backend;
use crate::cmd::{
    as_asked, extract_args, lemma_ascii_text, one_token, take_first, text_arg, text_of_arg,
    validate_exact, validated, CommandError, CommandExecutor, CommandView, Echo,
};
use crate::frame::{frames_view, text_bytes, BulkString, FrameView, RespArray, RespFrame};

verus! {

/// The name of the command, in lower case.
pub open spec fn name_echo() -> Seq<u8> {
    seq![101u8, 99u8, 104u8, 111u8]
}

/// The ECHO command that `items` writes: the name and one text.
pub open spec fn echo_of(items: Seq<FrameView>) -> Result<CommandView, CommandError> {
    if !validated(items, one_token(name_echo()), 1) || items.len() != 2 {
        Err(CommandError::InvalidCommand)
    } else {
        match text_arg(items[1], CommandError::InvalidCommand) {
            Ok(message) => Ok(CommandView::Echo { message }),
            Err(e) => Err(e),
        }
    }
}

impl CommandExecutor for Echo {
    open spec fn asks(&self) -> CommandView {
        self@
    }

    fn execute(self, backend: &mut Backend) -> (r: RespFrame) {
        RespFrame::BulkString(BulkString(slice_to_vec(self.message.as_str().as_bytes())))
    }
}

impl TryFrom<RespArray> for Echo {
    type Error = CommandError;

    fn try_from(value: RespArray) -> (r: Result<Self, CommandError>)
        ensures
            as_asked(r) == echo_of(value@),
    {
        proof {
            reveal_strlit("echo");
            lemma_ascii_text("echo"@);
            assert(text_bytes("echo"@) =~= name_echo());
        }
        match validate_exact(&value, "echo", 1) {
            Ok(()) => {},
            Err(e) => {
                return Err(e);
            },
        }
        let mut args: Vec<RespFrame> = match extract_args(value, 1) {
            Ok(args) => args,
            Err(e) => {
                return Err(e);
            },
        };
        assert(frames_view(args).len() == args.len());
        let first: RespFrame = take_first(&mut args);
        match text_of_arg(first, CommandError::InvalidCommand) {
            Ok(message) => Ok(Echo { message }),
            Err(e) => Err(e),
        }
    }
}

/// The contract of `try_from` is stated on the function itself.
impl vstd::std_specs::convert::TryFromSpecImpl<RespArray> for Echo {
    open spec fn obeys_try_from_spec() -> bool {
        false
    }

    open spec fn try_from_spec(v: RespArray) -> Result<Self, CommandError> {
        arbitrary()
    }
}

} // verus!

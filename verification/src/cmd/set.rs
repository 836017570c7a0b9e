//! ADDMEMBER and SISMEMBER: the set table.

use vstd::prelude::*;
use crate::backend::Backend;
use crate::cmd::{
    as_asked, extract_args, lemma_ascii_text, one_token, take_first, texts_of_args, two_texts,
    validate_exact, validated, AddMember, CommandError, CommandExecutor, CommandView, SisMember,
};
use crate::frame::{frames_view, text_bytes, FrameView, RespArray, RespFrame};

verus! {

/// The name of ADDMEMBER, in lower case.
pub open spec fn name_addmember() -> Seq<u8> {
    seq![97u8, 100u8, 100u8, 109u8, 101u8, 109u8, 98u8, 101u8, 114u8]
}

/// The name of SISMEMBER, in lower case.
pub open spec fn name_sismember() -> Seq<u8> {
    seq![115u8, 105u8, 115u8, 109u8, 101u8, 109u8, 98u8, 101u8, 114u8]
}

/// The ADDMEMBER command that `items` writes: the name, the key and the member.
pub open spec fn addmember_of(items: Seq<FrameView>) -> Result<CommandView, CommandError> {
    if !validated(items, one_token(name_addmember()), 2) || items.len() != 3 {
        Err(CommandError::InvalidCommand)
    } else {
        match two_texts(items[1], items[2], CommandError::InvalidCommand) {
            Ok((key, member)) => Ok(CommandView::AddMember { key, member }),
            Err(e) => Err(e),
        }
    }
}

/// The SISMEMBER command that `items` writes: the name, the key and the member.
pub open spec fn sismember_of(items: Seq<FrameView>) -> Result<CommandView, CommandError> {
    if !validated(items, one_token(name_sismember()), 2) || items.len() != 3 {
        Err(CommandError::InvalidCommand)
    } else {
        match two_texts(items[1], items[2], CommandError::InvalidCommand) {
            Ok((key, member)) => Ok(CommandView::SisMember { key, member }),
            Err(e) => Err(e),
        }
    }
}

impl CommandExecutor for AddMember {
    open spec fn asks(&self) -> CommandView {
        self@
    }

    fn execute(self, backend: &mut Backend) -> (r: RespFrame) {
        backend.add_member(self.key, self.member);
        RespFrame::Integer(1)
    }
}

impl CommandExecutor for SisMember {
    open spec fn asks(&self) -> CommandView {
        self@
    }

    fn execute(self, backend: &mut Backend) -> (r: RespFrame) {
        backend.sis_member(self.key.as_str(), self.member.as_str())
    }
}

impl TryFrom<RespArray> for AddMember {
    type Error = CommandError;

    fn try_from(value: RespArray) -> (r: Result<Self, CommandError>)
        ensures
            as_asked(r) == addmember_of(value@),
    {
        proof {
            reveal_strlit("addmember");
            lemma_ascii_text("addmember"@);
            assert(text_bytes("addmember"@) =~= name_addmember());
        }
        match validate_exact(&value, "addmember", 2) {
            Ok(()) => {},
            Err(e) => {
                return Err(e);
            },
        }
        let mut args: Vec<RespFrame> = match extract_args(value, 1) {
            Ok(args) => args,
            Err(e) => {
                return Err(e);
            },
        };
        assert(frames_view(args).len() == args.len());
        let first: RespFrame = take_first(&mut args);
        let second: RespFrame = take_first(&mut args);
        match texts_of_args(first, second, CommandError::InvalidCommand) {
            Ok((key, member)) => Ok(AddMember { key, member }),
            Err(e) => Err(e),
        }
    }
}

impl TryFrom<RespArray> for SisMember {
    type Error = CommandError;

    fn try_from(value: RespArray) -> (r: Result<Self, CommandError>)
        ensures
            as_asked(r) == sismember_of(value@),
    {
        proof {
            reveal_strlit("sismember");
            lemma_ascii_text("sismember"@);
            assert(text_bytes("sismember"@) =~= name_sismember());
        }
        match validate_exact(&value, "sismember", 2) {
            Ok(()) => {},
            Err(e) => {
                return Err(e);
            },
        }
        let mut args: Vec<RespFrame> = match extract_args(value, 1) {
            Ok(args) => args,
            Err(e) => {
                return Err(e);
            },
        };
        assert(frames_view(args).len() == args.len());
        let first: RespFrame = take_first(&mut args);
        let second: RespFrame = take_first(&mut args);
        match texts_of_args(first, second, CommandError::InvalidCommand) {
            Ok((key, member)) => Ok(SisMember { key, member }),
            Err(e) => Err(e),
        }
    }
}

/// The contract of `try_from` is stated on the function itself.
impl vstd::std_specs::convert::TryFromSpecImpl<RespArray> for AddMember {
    open spec fn obeys_try_from_spec() -> bool {
        false
    }

    open spec fn try_from_spec(v: RespArray) -> Result<Self, CommandError> {
        arbitrary()
    }
}

/// The contract of `try_from` is stated on the function itself.
impl vstd::std_specs::convert::TryFromSpecImpl<RespArray> for SisMember {
    open spec fn obeys_try_from_spec() -> bool {
        false
    }

    open spec fn try_from_spec(v: RespArray) -> Result<Self, CommandError> {
        arbitrary()
    }
}

} // verus!

//! The arguments a message is carried in.
use crate::errors::CodecError;
use crate::frames::headers::{ArgScheme, ArgSchemeValue};
use vstd::prelude::*;

pub use crate::frames::payloads::ResponseCode;

verus! {

/// The arguments of a message and the scheme they are encoded with.
#[derive(Debug, PartialEq)]
pub struct MessageArgs {
    pub arg_scheme: ArgSchemeValue,
    pub args: Vec<Vec<u8>>,
}

/// The arguments of a message, as values.
pub struct MessageArgsView {
    pub arg_scheme: ArgScheme,
    pub args: Seq<Seq<u8>>,
}

/// The bytes of each argument.
pub open spec fn bytes_of_args(args: Seq<Vec<u8>>) -> Seq<Seq<u8>> {
    args.map_values(|a: Vec<u8>| a@)
}

impl View for MessageArgs {
    type V = MessageArgsView;

    open spec fn view(&self) -> MessageArgsView {
        MessageArgsView { arg_scheme: self.arg_scheme@, args: bytes_of_args(self.args@) }
    }
}

impl MessageArgs {
    /// Arguments `args` encoded with `arg_scheme`.
    pub fn new(arg_scheme: ArgSchemeValue, args: Vec<Vec<u8>>) -> (m: MessageArgs)
        ensures
            m.arg_scheme == arg_scheme,
            m.args == args,
    {
        MessageArgs { arg_scheme, args }
    }
}

/// Messages that travel as arguments.
pub trait MessageWithArgs: Sized {
    /// The scheme the arguments of such messages are encoded with.
    spec fn scheme_spec() -> ArgScheme;

    /// The scheme the arguments of such messages are encoded with.
    fn args_scheme() -> (s: ArgSchemeValue)
        ensures
            s@ == Self::scheme_spec(),
    ;

    /// Whether `args` carry a message of this kind.
    spec fn carried_by(args: MessageArgsView) -> bool;

    /// Whether `message` is the message that `args` carry.
    spec fn decodes(args: MessageArgsView, message: Self) -> bool;

    /// The message carried by `args`.
    fn try_from_args(args: MessageArgs) -> (r: Result<Self, CodecError>)
        ensures
            r is Ok <==> Self::carried_by(args@),
            r matches Ok(m) ==> Self::decodes(args@, m),
    ;

    /// Whether `args` are the arguments that carry this message.
    spec fn encodes(&self, args: MessageArgsView) -> bool;

    /// Whether this message can be turned into arguments.
    spec fn encodable(&self) -> bool;

    /// The arguments that carry the message.
    fn try_into_args(self) -> (r: Result<MessageArgs, CodecError>)
        ensures
            r is Ok <==> self.encodable(),
            r matches Ok(m) ==> m@.arg_scheme == Self::scheme_spec() && self.encodes(m@),
    ;
}

} // verus!

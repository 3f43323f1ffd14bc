//! Raw messages: an endpoint, a header and a body, with no encoding of their own.
use crate::errors::CodecError;
use crate::frames::headers::{ArgScheme, ArgSchemeValue};
use crate::messages::args::{MessageArgs, MessageArgsView, MessageWithArgs};
use crate::text::{bytes_debug, bytes_debug_text, concat2, concat4, lemma_utf8_roundtrip, string_bytes, string_from_utf8, utf8_bytes};
use std::string::FromUtf8Error;
use vstd::prelude::*;
use vstd::utf8::{decode_utf8, valid_utf8};

verus! {

/// `RawMessage` is intended for any custom encodings you want to do that are not part of TChannel.
///
///  Consider using the thrift, sthrift, json or http encodings before using it.
#[derive(Default, Debug, Clone, PartialEq, Eq)]
pub struct RawMessage {
    /// arg1
    endpoint: String,
    /// arg2
    header: String,
    /// arg3
    body: Vec<u8>,
}

/// A raw message, as values.
pub struct RawMessageView {
    pub endpoint: Seq<char>,
    pub header: Seq<char>,
    pub body: Seq<u8>,
}

impl View for RawMessage {
    type V = RawMessageView;

    closed spec fn view(&self) -> RawMessageView {
        RawMessageView { endpoint: self.endpoint@, header: self.header@, body: self.body@ }
    }
}

/// The `i`-th argument, if there is one.
pub open spec fn nth_arg(args: Seq<Seq<u8>>, i: int) -> Option<Seq<u8>> {
    if 0 <= i < args.len() {
        Some(args[i])
    } else {
        None
    }
}

/// Whether an optional argument is text (an absent one is empty text).
pub open spec fn is_text(a: Option<Seq<u8>>) -> bool {
    match a {
        Some(b) => valid_utf8(b),
        None => true,
    }
}

/// The text of an optional argument.
pub open spec fn text_of(a: Option<Seq<u8>>) -> Seq<char> {
    match a {
        Some(b) => decode_utf8(b),
        None => Seq::empty(),
    }
}

/// The debug rendering of an argument scheme.
pub open spec fn scheme_debug(v: ArgScheme) -> Seq<char> {
    match v {
        ArgScheme::Raw => "Raw"@,
        ArgScheme::Json => "Json"@,
        ArgScheme::Http => "Http"@,
        ArgScheme::Thrift => "Thrift"@,
        ArgScheme::StreamingThrift => "StreamingThrift"@,
        ArgScheme::Custom(s) => "Custom("@ + quoted(s) + ")"@,
    }
}

/// A string in double quotes, escaped as `Debug` renders it.
pub uninterp spec fn quoted(s: Seq<char>) -> Seq<char>;

/// Renders a string with `Debug` (std's `format!`): in double quotes, with
/// escapes. The contract names the result `quoted` of the string's text.
#[verifier::external_body]
pub(crate) fn quoted_text(s: &String) -> (r: String)
    ensures
        r@ == quoted(s@),
{
    format!("{:?}", s)
}

impl ArgSchemeValue {
    /// The debug rendering of the scheme.
    pub fn debug_text(&self) -> (s: String)
        ensures
            s@ == scheme_debug(self@),
    {
        match self {
            ArgSchemeValue::Raw => crate::text::owned("Raw"),
            ArgSchemeValue::Json => crate::text::owned("Json"),
            ArgSchemeValue::Http => crate::text::owned("Http"),
            ArgSchemeValue::Thrift => crate::text::owned("Thrift"),
            ArgSchemeValue::StreamingThrift => crate::text::owned("StreamingThrift"),
            ArgSchemeValue::Custom(s) => crate::text::concat3("Custom(", quoted_text(s).as_str(), ")"),
        }
    }
}

/// The message of the error for arguments of another scheme than expected.
pub open spec fn wrong_scheme_message(v: ArgScheme) -> Seq<char> {
    "Wrong arg scheme "@ + scheme_debug(v)
}

/// The raw message carried by arguments, or why there is none: arguments of
/// another scheme, or an endpoint or header that is not UTF-8 text.
pub open spec fn raw_of_args(args: MessageArgsView) -> Option<RawMessageView> {
    if args.arg_scheme != ArgScheme::Raw || !is_text(nth_arg(args.args, 0)) || !is_text(nth_arg(args.args, 1)) {
        None
    } else {
        Some(
            RawMessageView {
                endpoint: text_of(nth_arg(args.args, 0)),
                header: text_of(nth_arg(args.args, 1)),
                body: match nth_arg(args.args, 2) {
                    Some(b) => b,
                    None => Seq::empty(),
                },
            },
        )
    }
}

/// The arguments that carry a raw message: its endpoint, header and body.
pub open spec fn args_of_raw(m: RawMessageView) -> Seq<Seq<u8>> {
    seq![utf8_bytes(m.endpoint), utf8_bytes(m.header), m.body]
}

/// The text of an optional argument.
pub fn bytes_to_string(arg: Option<Vec<u8>>) -> (r: Result<String, FromUtf8Error>)
    ensures
        r is Ok <==> is_text(
            match arg {
                Some(b) => Some(b@),
                None => None,
            },
        ),
        r matches Ok(s) ==> s@ == text_of(
            match arg {
                Some(b) => Some(b@),
                None => None,
            },
        ),
{
    match arg {
        None => Ok(String::new()),
        Some(b) => string_from_utf8(b),
    }
}

fn take_front(args: &mut Vec<Vec<u8>>) -> (r: Option<Vec<u8>>)
    ensures
        old(args)@.len() == 0 ==> r is None && final(args)@ == old(args)@,
        old(args)@.len() > 0 ==> r == Some(old(args)@[0]) && final(args)@ == old(args)@.drop_first(),
{
    if args.len() == 0 {
        None
    } else {
        let a: Vec<u8> = args.remove(0);
        assert(args@ =~= old(args)@.drop_first());
        Some(a)
    }
}

impl RawMessage {
    /// A raw message.
    pub fn new(endpoint: String, header: String, body: Vec<u8>) -> (m: RawMessage)
        ensures
            m@ == (RawMessageView { endpoint: endpoint@, header: header@, body: body@ }),
    {
        RawMessage { endpoint, header, body }
    }

    /// The endpoint (arg1).
    pub fn endpoint(&self) -> (e: &String)
        ensures
            e@ == self@.endpoint,
    {
        &self.endpoint
    }

    /// The header (arg2).
    pub fn header(&self) -> (h: &String)
        ensures
            h@ == self@.header,
    {
        &self.header
    }

    /// The body (arg3).
    pub fn body(&self) -> (b: &Vec<u8>)
        ensures
            b@ == self@.body,
    {
        &self.body
    }

    /// A description of the message: its endpoint, header and the debug
    /// rendering of its body.
    pub fn to_string(&self) -> (s: String)
        ensures
            s@ == "Endpoint: '"@ + self@.endpoint + "', Header: '"@ + self@.header + "', Body: '"@ + bytes_debug(
                self@.body,
            ) + "'"@,
    {
        let mut s: String = concat4("Endpoint: '", self.endpoint.as_str(), "', Header: '", self.header.as_str());
        s.append("', Body: '");
        s.append(bytes_debug_text(&self.body).as_str());
        s.append("'");
        s
    }
}

impl MessageWithArgs for RawMessage {
    open spec fn scheme_spec() -> ArgScheme {
        ArgScheme::Raw
    }

    open spec fn carried_by(args: MessageArgsView) -> bool {
        raw_of_args(args) is Some
    }

    open spec fn decodes(args: MessageArgsView, message: RawMessage) -> bool {
        raw_of_args(args) == Some(message@)
    }

    open spec fn encodes(&self, args: MessageArgsView) -> bool {
        args.arg_scheme == ArgScheme::Raw && args.args == args_of_raw(self@)
    }

    open spec fn encodable(&self) -> bool {
        true
    }

    fn args_scheme() -> (s: ArgSchemeValue) {
        ArgSchemeValue::Raw
    }

    fn try_from_args(args: MessageArgs) -> (r: Result<RawMessage, CodecError>)
        ensures
            match raw_of_args(args@) {
                Some(m) => r matches Ok(msg) && msg@ == m,
                None => r is Err,
            },
            args@.arg_scheme != ArgScheme::Raw ==> (r matches Err(CodecError::Error(e)) && e@
                == wrong_scheme_message(args@.arg_scheme)),
            args@.arg_scheme == ArgScheme::Raw && raw_of_args(args@) is None ==> (r matches Err(
                CodecError::StringDecodingError(_),
            )),
    {
        let ghost v = args@;
        let MessageArgs { arg_scheme, args } = args;
        let mut deq_args: Vec<Vec<u8>> = args;
        match arg_scheme {
            ArgSchemeValue::Raw => {},
            other => {
                return Err(CodecError::Error(concat2("Wrong arg scheme ", other.debug_text().as_str())));
            },
        }
        let ghost a = deq_args@;
        let first: Option<Vec<u8>> = take_front(&mut deq_args);
        let endpoint: String = match bytes_to_string(first) {
            Ok(s) => s,
            Err(e) => return Err(CodecError::StringDecodingError(e)),
        };
        let second: Option<Vec<u8>> = take_front(&mut deq_args);
        let header: String = match bytes_to_string(second) {
            Ok(s) => s,
            Err(e) => return Err(CodecError::StringDecodingError(e)),
        };
        let third: Option<Vec<u8>> = take_front(&mut deq_args);
        let body: Vec<u8> = match third {
            Some(b) => b,
            None => Vec::new(),
        };
        assert(v.args == crate::messages::args::bytes_of_args(a));
        Ok(RawMessage::new(endpoint, header, body))
    }

    fn try_into_args(self) -> (r: Result<MessageArgs, CodecError>)
        ensures
            r matches Ok(m) && m@.arg_scheme == ArgScheme::Raw && m@.args == args_of_raw(self@),
    {
        let ghost v = self@;
        let endpoint: Vec<u8> = string_bytes(&self.endpoint);
        let header: Vec<u8> = string_bytes(&self.header);
        let mut args: Vec<Vec<u8>> = Vec::new();
        args.push(endpoint);
        args.push(header);
        args.push(self.body);
        let m = MessageArgs::new(ArgSchemeValue::Raw, args);
        assert(m@.args =~= args_of_raw(v));
        Ok(m)
    }
}

/// Turning a raw message into arguments and back gives it back.
pub proof fn lemma_raw_roundtrip(m: RawMessageView)
    ensures
        raw_of_args(MessageArgsView { arg_scheme: ArgScheme::Raw, args: args_of_raw(m) }) == Some(m),
{
    lemma_utf8_roundtrip(m.endpoint);
    lemma_utf8_roundtrip(m.header);
}

} // verus!

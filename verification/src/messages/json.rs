//! JSON messages: a method name, and headers and a body that are JSON objects.
use crate::errors::CodecError;
use crate::frames::headers::{ArgScheme, ArgSchemeValue};
use crate::messages::args::{MessageArgs, MessageArgsView, MessageWithArgs};
use crate::messages::raw::{bytes_to_string, is_text, nth_arg, text_of, wrong_scheme_message};
use crate::text::{concat2, concat4, string_bytes, utf8_bytes};
use serde_json::Value;
use vstd::prelude::*;

verus! {

#[verifier::external_type_specification]
#[verifier::external_body]
#[verifier::reject_recursive_types(K)]
#[verifier::reject_recursive_types(V)]
pub struct ExJsonMap<K, V>(serde_json::Map<K, V>);

#[verifier::external_type_specification]
#[verifier::external_body]
pub struct ExJsonValue(Value);

#[verifier::external_type_specification]
#[verifier::external_body]
pub struct ExJsonError(serde_json::Error);

/// The JSON object that bytes are the text of, if they are one.
pub uninterp spec fn json_object_of(bytes: Seq<u8>) -> Option<serde_json::Map<String, Value>>;

/// Whether bytes are the JSON text of an object.
pub open spec fn json_object_parses(bytes: Seq<u8>) -> bool {
    json_object_of(bytes) is Some
}

/// Parses JSON text into an object.
///
/// Calls `serde_json::from_slice::<serde_json::Map<String, Value>>`, whose result depends on
/// the bytes alone; the contract names it `json_object_of` of the bytes.
#[verifier::external_body]
fn json_from_slice(bytes: &[u8]) -> (r: Result<serde_json::Map<String, Value>, serde_json::Error>)
    ensures
        r is Ok <==> json_object_of(bytes@) is Some,
        r matches Ok(m) ==> json_object_of(bytes@) == Some(m),
{
    serde_json::from_slice(bytes)
}

/// The compact JSON text of an object.
pub uninterp spec fn json_text(m: serde_json::Map<String, Value>) -> Seq<char>;

/// Renders a JSON object as compact JSON text.
///
/// Calls `serde_json::to_string`, whose text depends on the object alone
/// (named `json_text`), and which succeeds: it writes into a `Vec`, which
/// never fails, every key of the object is a string, and the `Serialize`
/// impls of `Value` and `Number` report no error.
#[verifier::external_body]
fn json_to_string(value: &serde_json::Map<String, Value>) -> (r: Result<String, serde_json::Error>)
    ensures
        r is Ok,
        r matches Ok(s) ==> s@ == json_text(*value),
{
    serde_json::to_string(value)
}

/// The message of a JSON error.
///
/// Calls `<serde_json::Error as ToString>::to_string`; nothing is claimed of the text.
#[verifier::external_body]
fn json_error_text(e: &serde_json::Error) -> (s: String) {
    e.to_string()
}

/// A JSON message.
#[derive(Debug)]
pub struct JsonMessage {
    /// arg1
    method_name: String,
    /// arg2
    headers: serde_json::Map<String, Value>,
    /// arg3
    body: serde_json::Map<String, Value>,
}

/// The bytes of an optional argument; an absent one has none.
pub open spec fn arg_or_empty(a: Option<Seq<u8>>) -> Seq<u8> {
    match a {
        Some(b) => b,
        None => Seq::empty(),
    }
}

/// Whether arguments carry a JSON message: JSON arguments whose method name
/// is text and whose header and body arguments are JSON objects.
pub open spec fn json_args_ok(scheme: ArgScheme, args: Seq<Seq<u8>>) -> bool {
    &&& scheme == ArgScheme::Json
    &&& is_text(nth_arg(args, 0))
    &&& json_object_parses(arg_or_empty(nth_arg(args, 1)))
    &&& json_object_parses(arg_or_empty(nth_arg(args, 2)))
}

/// The JSON object in an optional argument (an absent one is empty text).
fn bytes_to_json(arg: Option<Vec<u8>>) -> (r: Result<serde_json::Map<String, Value>, CodecError>)
    ensures
        r is Ok <==> json_object_parses(
            arg_or_empty(
                match arg {
                    Some(b) => Some(b@),
                    None => None,
                },
            ),
        ),
        r matches Ok(m) ==> json_object_of(
            arg_or_empty(
                match arg {
                    Some(b) => Some(b@),
                    None => None,
                },
            ),
        ) == Some(m),
{
    let arg: Vec<u8> = match arg {
        Some(b) => b,
        None => Vec::new(),
    };
    match json_from_slice(arg.as_slice()) {
        Ok(m) => Ok(m),
        Err(e) => Err(CodecError::Error(json_error_text(&e))),
    }
}

fn take_front(args: &mut Vec<Vec<u8>>) -> (r: Option<Vec<u8>>)
    ensures
        old(args)@.len() == 0 ==> r is None && final(args)@ == old(args)@,
        old(args)@.len() > 0 ==> r == Some(old(args)@[0]) && final(args)@ == old(args)@.drop_first(),
{
    if args.len() == 0 {
        None
    } else {
        let a: Vec<u8> = args.remove(0);
        assert(args@ =~= old(args)@.drop_first());
        Some(a)
    }
}

impl JsonMessage {
    /// The method name.
    pub closed spec fn spec_method_name(&self) -> Seq<char> {
        self.method_name@
    }

    /// The headers object.
    pub closed spec fn spec_headers(&self) -> serde_json::Map<String, Value> {
        self.headers
    }

    /// The body object.
    pub closed spec fn spec_body(&self) -> serde_json::Map<String, Value> {
        self.body
    }

    /// A JSON message.
    pub fn new(method_name: String, headers: serde_json::Map<String, Value>, body: serde_json::Map<String, Value>) -> (m: JsonMessage)
        ensures
            m.spec_method_name() == method_name@,
            m.spec_headers() == headers,
            m.spec_body() == body,
    {
        JsonMessage { method_name, headers, body }
    }

    /// The method name (arg1).
    pub fn method_name(&self) -> (s: &String)
        ensures
            s@ == self.spec_method_name(),
    {
        &self.method_name
    }

    /// The headers (arg2).
    pub fn headers(&self) -> (h: &serde_json::Map<String, Value>)
        ensures
            *h == self.spec_headers(),
    {
        &self.headers
    }

    /// The body (arg3).
    pub fn body(&self) -> (b: &serde_json::Map<String, Value>)
        ensures
            *b == self.spec_body(),
    {
        &self.body
    }

    /// A description of the message: its method name and the debug
    /// renderings of its headers and body.
    pub fn to_string(&self) -> (s: String)
        ensures
            s@ == json_description(self.spec_method_name(), json_debug(self.spec_headers()), json_debug(self.spec_body())),
    {
        let headers: String = map_debug_text(&self.headers);
        let body: String = map_debug_text(&self.body);
        let mut s: String = concat4("Method name: '", self.method_name.as_str(), "', Headers: '", headers.as_str());
        s.append("', Body: '");
        s.append(body.as_str());
        s.append("'");
        assert(s@ == json_description(self.spec_method_name(), headers@, body@));
        s
    }
}

impl MessageWithArgs for JsonMessage {
    open spec fn scheme_spec() -> ArgScheme {
        ArgScheme::Json
    }

    open spec fn carried_by(args: MessageArgsView) -> bool {
        json_args_ok(args.arg_scheme, args.args)
    }

    open spec fn decodes(args: MessageArgsView, message: JsonMessage) -> bool {
        message.spec_method_name() == text_of(nth_arg(args.args, 0))
    }

    open spec fn encodes(&self, args: MessageArgsView) -> bool {
        &&& args.arg_scheme == ArgScheme::Json
        &&& args.args.len() == 3
        &&& args.args[0] == utf8_bytes(self.spec_method_name())
    }

    open spec fn encodable(&self) -> bool {
        true
    }

    fn args_scheme() -> (s: ArgSchemeValue) {
        ArgSchemeValue::Json
    }

    fn try_from_args(args: MessageArgs) -> (r: Result<JsonMessage, CodecError>)
        ensures
            r is Ok <==> json_args_ok(args@.arg_scheme, args@.args),
            r matches Ok(m) ==> m.spec_method_name() == text_of(nth_arg(args@.args, 0)),
            r matches Ok(m) ==> json_object_of(arg_or_empty(nth_arg(args@.args, 1))) == Some(m.spec_headers())
                && json_object_of(arg_or_empty(nth_arg(args@.args, 2))) == Some(m.spec_body()),
            args@.arg_scheme != ArgScheme::Json ==> (r matches Err(CodecError::Error(e)) && e@
                == wrong_scheme_message(args@.arg_scheme)),
    {
        let ghost v = args@;
        let MessageArgs { arg_scheme, args } = args;
        let mut deq_args: Vec<Vec<u8>> = args;
        match arg_scheme {
            ArgSchemeValue::Json => {},
            other => {
                return Err(CodecError::Error(concat2("Wrong arg scheme ", other.debug_text().as_str())));
            },
        }
        let ghost a = deq_args@;
        assert(v.args == crate::messages::args::bytes_of_args(a));
        let first: Option<Vec<u8>> = take_front(&mut deq_args);
        let method_name: String = match bytes_to_string(first) {
            Ok(s) => s,
            Err(e) => return Err(CodecError::StringDecodingError(e)),
        };
        let second: Option<Vec<u8>> = take_front(&mut deq_args);
        let headers: serde_json::Map<String, Value> = bytes_to_json(second)?;
        let third: Option<Vec<u8>> = take_front(&mut deq_args);
        let body: serde_json::Map<String, Value> = bytes_to_json(third)?;
        Ok(JsonMessage::new(method_name, headers, body))
    }

    fn try_into_args(self) -> (r: Result<MessageArgs, CodecError>)
        ensures
            r is Ok,
            r matches Ok(m) ==> m@.arg_scheme == ArgScheme::Json && m@.args.len() == 3 && m@.args[0]
                == utf8_bytes(self.spec_method_name()) && m@.args[1] == utf8_bytes(json_text(self.spec_headers()))
                && m@.args[2] == utf8_bytes(json_text(self.spec_body())),
    {
        let arg_scheme: ArgSchemeValue = JsonMessage::args_scheme();
        let method: Vec<u8> = string_bytes(&self.method_name);
        let headers: String = match json_to_string(&self.headers) {
            Ok(s) => s,
            Err(e) => return Err(CodecError::Error(json_error_text(&e))),
        };
        let body: String = match json_to_string(&self.body) {
            Ok(s) => s,
            Err(e) => return Err(CodecError::Error(json_error_text(&e))),
        };
        let mut args: Vec<Vec<u8>> = Vec::new();
        args.push(method);
        args.push(string_bytes(&headers));
        args.push(string_bytes(&body));
        Ok(MessageArgs::new(arg_scheme, args))
    }
}

/// The description of a JSON message with method name `name`, whose
/// headers and body render as `headers` and `body`.
pub open spec fn json_description(name: Seq<char>, headers: Seq<char>, body: Seq<char>) -> Seq<char> {
    "Method name: '"@ + name + "', Headers: '"@ + headers + "', Body: '"@ + body + "'"@
}

/// The debug rendering of a JSON object.
pub uninterp spec fn json_debug(m: serde_json::Map<String, Value>) -> Seq<char>;

/// Renders a JSON object with its `Debug` formatting (std's `format!` with
/// serde_json's `Debug`), which depends on the object alone; the contract
/// names it `json_debug` of the object.
#[verifier::external_body]
fn map_debug_text(m: &serde_json::Map<String, Value>) -> (s: String)
    ensures
        s@ == json_debug(*m),
{
    format!("{:?}", m)
}

} // verus!

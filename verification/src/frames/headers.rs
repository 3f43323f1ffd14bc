//! Names of transport headers and their values.
use crate::errors::ParseError;
use crate::text::owned;
use vstd::prelude::*;

verus! {

/// Keys of the transport headers carried by call frames.
#[derive(Debug, Clone, Copy, PartialEq, Eq, Hash, Structural)]
pub enum TransportHeaderKey {
    ArgScheme,
    ClaimAtStart,
    ClaimAtFinish,
    CallerName,
    RetryFlags,
    SpeculativeExecution,
    FailureDomain,
    ShardKey,
}

/// The wire name of a transport header key.
pub open spec fn transport_key_text(k: TransportHeaderKey) -> Seq<char> {
    match k {
        TransportHeaderKey::ArgScheme => "as"@,
        TransportHeaderKey::ClaimAtStart => "cas"@,
        TransportHeaderKey::ClaimAtFinish => "caf"@,
        TransportHeaderKey::CallerName => "cn"@,
        TransportHeaderKey::RetryFlags => "re"@,
        TransportHeaderKey::SpeculativeExecution => "se"@,
        TransportHeaderKey::FailureDomain => "fd"@,
        TransportHeaderKey::ShardKey => "sk"@,
    }
}

impl TransportHeaderKey {
    /// The wire name of the key.
    pub fn to_string(&self) -> (s: String)
        ensures
            s@ == transport_key_text(*self),
    {
        match self {
            TransportHeaderKey::ArgScheme => owned("as"),
            TransportHeaderKey::ClaimAtStart => owned("cas"),
            TransportHeaderKey::ClaimAtFinish => owned("caf"),
            TransportHeaderKey::CallerName => owned("cn"),
            TransportHeaderKey::RetryFlags => owned("re"),
            TransportHeaderKey::SpeculativeExecution => owned("se"),
            TransportHeaderKey::FailureDomain => owned("fd"),
            TransportHeaderKey::ShardKey => owned("sk"),
        }
    }
}

/// The encoding of a call's arguments (the value of the `as` header).
#[derive(Debug, Clone, PartialEq, Eq)]
pub enum ArgSchemeValue {
    Raw,
    Json,
    Http,
    Thrift,
    StreamingThrift,
    Custom(String),
}

/// An argument scheme, with the text of a custom one.
pub enum ArgScheme {
    Raw,
    Json,
    Http,
    Thrift,
    StreamingThrift,
    Custom(Seq<char>),
}

impl View for ArgSchemeValue {
    type V = ArgScheme;

    open spec fn view(&self) -> ArgScheme {
        match self {
            ArgSchemeValue::Raw => ArgScheme::Raw,
            ArgSchemeValue::Json => ArgScheme::Json,
            ArgSchemeValue::Http => ArgScheme::Http,
            ArgSchemeValue::Thrift => ArgScheme::Thrift,
            ArgSchemeValue::StreamingThrift => ArgScheme::StreamingThrift,
            ArgSchemeValue::Custom(s) => ArgScheme::Custom(s@),
        }
    }
}

/// The wire text of an argument scheme.
pub open spec fn arg_scheme_text(v: ArgScheme) -> Seq<char> {
    match v {
        ArgScheme::Raw => "raw"@,
        ArgScheme::Json => "json"@,
        ArgScheme::Http => "http"@,
        ArgScheme::Thrift => "thrift"@,
        ArgScheme::StreamingThrift => "sthrift"@,
        ArgScheme::Custom(s) => s,
    }
}

/// The scheme named by `s`; custom schemes are never parsed.
pub open spec fn parse_arg_scheme(s: Seq<char>) -> Option<ArgScheme> {
    if s == "raw"@ {
        Some(ArgScheme::Raw)
    } else if s == "json"@ {
        Some(ArgScheme::Json)
    } else if s == "http"@ {
        Some(ArgScheme::Http)
    } else if s == "thrift"@ {
        Some(ArgScheme::Thrift)
    } else if s == "sthrift"@ {
        Some(ArgScheme::StreamingThrift)
    } else {
        None
    }
}

/// A scheme other than a custom one is read back from its wire text.
pub proof fn lemma_parse_scheme_text(scheme: ArgScheme)
    requires
        !(scheme is Custom),
    ensures
        parse_arg_scheme(arg_scheme_text(scheme)) == Some(scheme),
{
    reveal_strlit("raw");
    reveal_strlit("json");
    reveal_strlit("http");
    reveal_strlit("thrift");
    reveal_strlit("sthrift");
    assert("json"@.len() != "raw"@.len());
    assert("http"@.len() != "raw"@.len());
    assert("http"@[0] != "json"@[0]);
    assert("thrift"@.len() != "raw"@.len());
    assert("thrift"@.len() != "json"@.len());
    assert("thrift"@.len() != "http"@.len());
    assert("sthrift"@.len() != "raw"@.len());
    assert("sthrift"@.len() != "json"@.len());
    assert("sthrift"@.len() != "http"@.len());
    assert("sthrift"@.len() != "thrift"@.len());
}

impl ArgSchemeValue {
    /// The wire text of the scheme.
    pub fn to_string(&self) -> (s: String)
        ensures
            s@ == arg_scheme_text(self@),
    {
        match self {
            ArgSchemeValue::Raw => owned("raw"),
            ArgSchemeValue::Json => owned("json"),
            ArgSchemeValue::Http => owned("http"),
            ArgSchemeValue::Thrift => owned("thrift"),
            ArgSchemeValue::StreamingThrift => owned("sthrift"),
            ArgSchemeValue::Custom(s) => s.clone(),
        }
    }

    /// Parses the wire text of a scheme. Custom schemes are not parsed.
    pub fn from_str(s: &String) -> (r: Result<ArgSchemeValue, ParseError>)
        ensures
            r matches Ok(v) ==> parse_arg_scheme(s@) == Some(v@),
            r is Err ==> parse_arg_scheme(s@) is None,
            r matches Err(e) ==> e == ParseError::VariantNotFound,
    {
        if s.eq(&owned("raw")) {
            Ok(ArgSchemeValue::Raw)
        } else if s.eq(&owned("json")) {
            Ok(ArgSchemeValue::Json)
        } else if s.eq(&owned("http")) {
            Ok(ArgSchemeValue::Http)
        } else if s.eq(&owned("thrift")) {
            Ok(ArgSchemeValue::Thrift)
        } else if s.eq(&owned("sthrift")) {
            Ok(ArgSchemeValue::StreamingThrift)
        } else {
            Err(ParseError::VariantNotFound)
        }
    }

    /// Whether two schemes are the same.
    pub fn same_as(&self, other: &ArgSchemeValue) -> (b: bool)
        ensures
            b == (self@ == other@),
    {
        match (self, other) {
            (ArgSchemeValue::Raw, ArgSchemeValue::Raw) => true,
            (ArgSchemeValue::Json, ArgSchemeValue::Json) => true,
            (ArgSchemeValue::Http, ArgSchemeValue::Http) => true,
            (ArgSchemeValue::Thrift, ArgSchemeValue::Thrift) => true,
            (ArgSchemeValue::StreamingThrift, ArgSchemeValue::StreamingThrift) => true,
            (ArgSchemeValue::Custom(a), ArgSchemeValue::Custom(b)) => a.eq(b),
            _ => false,
        }
    }

    /// A copy of the scheme.
    pub fn duplicate(&self) -> (r: ArgSchemeValue)
        ensures
            r@ == self@,
    {
        match self {
            ArgSchemeValue::Raw => ArgSchemeValue::Raw,
            ArgSchemeValue::Json => ArgSchemeValue::Json,
            ArgSchemeValue::Http => ArgSchemeValue::Http,
            ArgSchemeValue::Thrift => ArgSchemeValue::Thrift,
            ArgSchemeValue::StreamingThrift => ArgSchemeValue::StreamingThrift,
            ArgSchemeValue::Custom(s) => ArgSchemeValue::Custom(s.clone()),
        }
    }
}

/// Values of the retry flags header.
#[derive(Debug, Clone, Copy, PartialEq, Eq, Structural)]
pub enum RetryFlagValue {
    NoRetry,
    RetryOnConnectionError,
    RetryOnTimeout,
}

/// The wire text of a retry flag.
pub open spec fn retry_flag_text(v: RetryFlagValue) -> Seq<char> {
    match v {
        RetryFlagValue::NoRetry => "n"@,
        RetryFlagValue::RetryOnConnectionError => "c"@,
        RetryFlagValue::RetryOnTimeout => "t"@,
    }
}

impl RetryFlagValue {
    /// The wire text of the flag.
    pub fn to_string(&self) -> (s: String)
        ensures
            s@ == retry_flag_text(*self),
    {
        match self {
            RetryFlagValue::NoRetry => owned("n"),
            RetryFlagValue::RetryOnConnectionError => owned("c"),
            RetryFlagValue::RetryOnTimeout => owned("t"),
        }
    }
}

/// Keys of the headers of init frames.
#[derive(Debug, Clone, Copy, PartialEq, Eq, Structural)]
pub enum InitHeaderKey {
    HostPort,
    ProcessName,
    TChannelLanguage,
    TChannelLanguageVersion,
    TChannelVersion,
}

/// The wire name of an init header key.
pub open spec fn init_key_text(k: InitHeaderKey) -> Seq<char> {
    match k {
        InitHeaderKey::HostPort => "host_port"@,
        InitHeaderKey::ProcessName => "process_name"@,
        InitHeaderKey::TChannelLanguage => "tchannel_language"@,
        InitHeaderKey::TChannelLanguageVersion => "tchannel_language_version"@,
        InitHeaderKey::TChannelVersion => "tchannel_version"@,
    }
}

/// Different init header keys have different wire names, so a key is read
/// back from its name.
pub proof fn lemma_init_key_text(a: InitHeaderKey, b: InitHeaderKey)
    ensures
        init_key_text(a) == init_key_text(b) ==> a == b,
{
    reveal_strlit("host_port");
    reveal_strlit("process_name");
    reveal_strlit("tchannel_language");
    reveal_strlit("tchannel_language_version");
    reveal_strlit("tchannel_version");
    assert("host_port"@.len() != "process_name"@.len());
    assert("host_port"@.len() != "tchannel_language"@.len());
    assert("host_port"@.len() != "tchannel_language_version"@.len());
    assert("host_port"@.len() != "tchannel_version"@.len());
    assert("process_name"@.len() != "tchannel_language"@.len());
    assert("process_name"@.len() != "tchannel_language_version"@.len());
    assert("process_name"@[0] != "tchannel_version"@[0]);
    assert("tchannel_language"@.len() != "tchannel_language_version"@.len());
    assert("tchannel_language"@.len() != "tchannel_version"@.len());
    assert("tchannel_language_version"@.len() != "tchannel_version"@.len());
}

impl InitHeaderKey {
    /// The wire name of the key.
    pub fn to_string(&self) -> (s: String)
        ensures
            s@ == init_key_text(*self),
    {
        match self {
            InitHeaderKey::HostPort => owned("host_port"),
            InitHeaderKey::ProcessName => owned("process_name"),
            InitHeaderKey::TChannelLanguage => owned("tchannel_language"),
            InitHeaderKey::TChannelLanguageVersion => owned("tchannel_language_version"),
            InitHeaderKey::TChannelVersion => owned("tchannel_version"),
        }
    }

    /// Parses the wire name of an init header key.
    pub fn from_str(s: &String) -> (r: Result<InitHeaderKey, ParseError>)
        ensures
            r matches Ok(k) ==> init_key_text(k) == s@,
            r is Err ==> forall|k: InitHeaderKey| init_key_text(k) != s@,
    {
        if s.eq(&owned("host_port")) {
            Ok(InitHeaderKey::HostPort)
        } else if s.eq(&owned("process_name")) {
            Ok(InitHeaderKey::ProcessName)
        } else if s.eq(&owned("tchannel_language")) {
            Ok(InitHeaderKey::TChannelLanguage)
        } else if s.eq(&owned("tchannel_language_version")) {
            Ok(InitHeaderKey::TChannelLanguageVersion)
        } else if s.eq(&owned("tchannel_version")) {
            Ok(InitHeaderKey::TChannelVersion)
        } else {
            Err(ParseError::VariantNotFound)
        }
    }
}

} // verus!

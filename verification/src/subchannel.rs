//! Subchannels: the request handlers of one service, by endpoint name.
use crate::errors::{CodecError, HandlerError, TChannelError};
use crate::handler::{
    answer_code, HandlerResult, MessageArgsHandler, MessageArgsResponse, RequestHandler, RequestHandlerAdapter, TResult,
};
use crate::fragmentation::{request_frames, RequestFragmenter};
use crate::frames::headers::arg_scheme_text;
use crate::frames::TFrame;
use crate::messages::args::{MessageArgs, MessageArgsView, MessageWithArgs, ResponseCode};
use crate::name_map::{has_key, lemma_insert_distinct, lemma_remove_absent, lookup, remove_entry, NameMap};
use crate::text::{concat3, owned, string_from_utf8};
use vstd::prelude::*;
use vstd::utf8::*;
use vstd::std_specs::convert::FromSpec;

verus! {

/// The message of the error for registering a second handler under `endpoint`.
pub open spec fn already_registered_message(endpoint: Seq<char>) -> Seq<char> {
    "Handler already registered for '"@ + endpoint + "'"@
}

/// The message of the error for unregistering an endpoint without handler.
pub open spec fn missing_handler_message(endpoint: Seq<char>) -> Seq<char> {
    "Handler '"@ + endpoint + "' is missing."@
}

/// The message of the error for a request to an endpoint without handler.
pub open spec fn no_handler_message(endpoint: Seq<char>) -> Seq<char> {
    "No handler with name '"@ + endpoint + "'."@
}

/// The names of the entries, in order.
pub open spec fn names<T>(es: Seq<(Seq<char>, T)>) -> Seq<Seq<char>> {
    es.map_values(|e: (Seq<char>, T)| e.0)
}

/// What reading the endpoint name of a request with arguments `args` gives:
/// the first argument decoded as UTF-8.
pub open spec fn endpoint_read(args: Seq<Seq<u8>>, r: Result<String, CodecError>) -> bool {
    if args.len() == 0 {
        r matches Err(CodecError::Error(m)) && m@ == "Missing arg1/endpoint name"@
    } else if valid_utf8(args[0]) {
        r matches Ok(s) && s@ == decode_utf8(args[0])
    } else {
        r matches Err(CodecError::StringDecodingError(_))
    }
}

/// The endpoint a request with arguments `args` is addressed to, if its
/// first argument is a UTF-8 name.
pub open spec fn endpoint_of(args: Seq<Seq<u8>>) -> Option<Seq<char>> {
    if args.len() > 0 && valid_utf8(args[0]) {
        Some(decode_utf8(args[0]))
    } else {
        None
    }
}

/// The handlers of one service, registered by endpoint name.
#[derive(Debug)]
pub struct SubChannel<H> {
    service_name: String,
    handlers: NameMap<H>,
}

impl<H> SubChannel<H> {
    /// The service name.
    pub closed spec fn service(&self) -> Seq<char> {
        self.service_name@
    }

    /// The registered handlers, by endpoint, in order of registration.
    pub closed spec fn handlers(&self) -> Seq<(Seq<char>, H)> {
        self.handlers@
    }

    /// A subchannel of service `service_name`, without handlers.
    pub fn new(service_name: String) -> (s: Self)
        ensures
            s.service() == service_name@,
            s.handlers() == Seq::<(Seq<char>, H)>::empty(),
    {
        SubChannel { service_name, handlers: NameMap::new() }
    }

    /// The service name.
    pub fn service_name(&self) -> (s: &String)
        ensures
            s@ == self.service(),
    {
        &self.service_name
    }

    /// Registers `request_handler` under `endpoint`, unless a handler is
    /// registered there already.
    pub fn register_handler(&mut self, endpoint: String, request_handler: H) -> (r: TResult<()>)
        ensures
            final(self).service() == old(self).service(),
            has_key(old(self).handlers(), endpoint@) ==> {
                &&& r matches Err(TChannelError::Error(m)) && m@ == already_registered_message(endpoint@)
                &&& final(self).handlers() == old(self).handlers()
            },
            !has_key(old(self).handlers(), endpoint@) ==> {
                &&& r is Ok
                &&& final(self).handlers() == old(self).handlers().push((endpoint@, request_handler))
                &&& lookup(final(self).handlers(), endpoint@) == Some(request_handler)
            },
    {
        if self.handlers.contains_key(&endpoint) {
            return Err(TChannelError::Error(concat3("Handler already registered for '", endpoint.as_str(), "'")));
        }
        proof {
            lemma_insert_distinct(self.handlers@, endpoint@, request_handler);
        }
        self.handlers.insert(endpoint, request_handler);
        Ok(())
    }

    /// Registers a handler of messages under `endpoint`, unless a handler is
    /// registered there already.
    pub fn register<HANDLER: RequestHandler>(&mut self, endpoint: String, request_handler: HANDLER) -> (r: TResult<
        (),
    >) where H: From<RequestHandlerAdapter<HANDLER>>
        ensures
            final(self).service() == old(self).service(),
            has_key(old(self).handlers(), endpoint@) ==> {
                &&& r matches Err(TChannelError::Error(m)) && m@ == already_registered_message(endpoint@)
                &&& final(self).handlers() == old(self).handlers()
            },
            !has_key(old(self).handlers(), endpoint@) ==> {
                &&& r is Ok
                &&& final(self).handlers().drop_last() == old(self).handlers()
                &&& names(final(self).handlers()) == names(old(self).handlers()).push(endpoint@)
                &&& exists|a: RequestHandlerAdapter<HANDLER>|
                    #![trigger a.handler()]
                    a.handler() == request_handler && (H::obeys_from_spec() ==> lookup(
                        final(self).handlers(),
                        endpoint@,
                    ) == Some(H::from_spec(a)))
            },
    {
        let adapter: RequestHandlerAdapter<HANDLER> = RequestHandlerAdapter::new(request_handler);
        let ghost a = adapter;
        let h: H = H::from(adapter);
        let r = self.register_handler(endpoint, h);
        proof {
            if r is Ok {
                assert(a.handler() == request_handler);
            }
            let hs = final(self).handlers();
            if r is Ok {
                assert(hs.drop_last() =~= old(self).handlers());
                assert(names(hs) =~= names(old(self).handlers()).push(endpoint@));
            }
        }
        r
    }

    /// Unregisters the handler of `endpoint`; the handler is dropped.
    pub fn unregister(&mut self, endpoint: &String) -> (r: TResult<()>)
        ensures
            final(self).service() == old(self).service(),
            final(self).handlers() == remove_entry(old(self).handlers(), endpoint@),
            lookup(final(self).handlers(), endpoint@) is None,
            r is Ok <==> has_key(old(self).handlers(), endpoint@),
            r matches Err(e) ==> e matches TChannelError::Error(m) && m@ == missing_handler_message(endpoint@),
    {
        let removed = self.handlers.remove(endpoint);
        proof {
            lemma_remove_absent(old(self).handlers@, endpoint@);
        }
        match removed {
            Some(_) => Ok(()),
            None => Err(TChannelError::Error(concat3("Handler '", endpoint.as_str(), "' is missing."))),
        }
    }

    /// The handler registered under `endpoint`.
    pub fn get_handler(&self, endpoint: &String) -> (r: TResult<&H>)
        ensures
            match lookup(self.handlers(), endpoint@) {
                Some(h) => r matches Ok(x) && *x == h,
                None => r matches Err(TChannelError::Error(m)) && m@ == no_handler_message(endpoint@),
            },
    {
        match self.handlers.get(endpoint) {
            Some(handler) => Ok(handler),
            None => Err(TChannelError::Error(concat3("No handler with name '", endpoint.as_str(), "'."))),
        }
    }

    /// The endpoint name a request is addressed to: its first argument.
    pub fn read_endpoint_name(request: &MessageArgs) -> (r: Result<String, CodecError>)
        ensures
            endpoint_read(request@.args, r),
    {
        if request.args.len() == 0 {
            return Err(CodecError::Error(owned("Missing arg1/endpoint name")));
        }
        let first: Vec<u8> = request.args[0].clone();
        match string_from_utf8(first) {
            Ok(name) => Ok(name),
            Err(e) => Err(CodecError::StringDecodingError(e)),
        }
    }

    /// The handler a request is addressed to.
    pub fn route(&self, request: &MessageArgs) -> (r: TResult<&H>)
        ensures
            match endpoint_of(request@.args) {
                None => r matches Err(TChannelError::CodecError(e)) && endpoint_read(request@.args, Err(e)),
                Some(name) => match lookup(self.handlers(), name) {
                    Some(h) => r matches Ok(x) && *x == h,
                    None => r matches Err(TChannelError::Error(m)) && m@ == no_handler_message(name),
                },
            },
    {
        let endpoint: String = match Self::read_endpoint_name(request) {
            Ok(e) => e,
            Err(e) => return Err(TChannelError::CodecError(e)),
        };
        self.get_handler(&endpoint)
    }

    /// Lets the handler a request is addressed to answer it.
    pub fn handle(&mut self, request: MessageArgs) -> (r: MessageArgsResponse) where H: MessageArgsHandler
        ensures
            final(self).service() == old(self).service(),
            names(final(self).handlers()) == names(old(self).handlers()),
            match endpoint_of(request@.args) {
                None => r matches Err(TChannelError::CodecError(e)) && endpoint_read(request@.args, Err(e)),
                Some(name) => match lookup(old(self).handlers(), name) {
                    Some(h) => h.answers(request@, r),
                    None => r matches Err(TChannelError::Error(m)) && m@ == no_handler_message(name),
                },
            },
    {
        let endpoint: String = match Self::read_endpoint_name(&request) {
            Ok(e) => e,
            Err(e) => return Err(TChannelError::CodecError(e)),
        };
        let ghost before = self.handlers@;
        match self.handlers.get_mut(&endpoint) {
            Some(handler) => {
                let r = handler.handle(request);
                proof {
                    assert(names(self.handlers@) =~= names(before));
                }
                r
            },
            None => Err(TChannelError::Error(concat3("No handler with name '", endpoint.as_str(), "'."))),
        }
    }
}

impl<H> SubChannel<H> {
    /// The frames of a request of this service carrying `request`.
    pub fn create_frames<REQ: MessageWithArgs>(&self, request: REQ) -> (r: TResult<Vec<TFrame>>)
        ensures
            r matches Err(e) ==> e is CodecError,
            !request.encodable() ==> r is Err,
            request.encodable() ==> exists|q: Seq<Seq<u8>>|
                request.encodes(MessageArgsView { arg_scheme: REQ::scheme_spec(), args: q })
                    && request_frames(self.service(), arg_scheme_text(REQ::scheme_spec()), q, r),
    {
        let message_args: MessageArgs = match request.try_into_args() {
            Ok(a) => a,
            Err(e) => return Err(TChannelError::CodecError(e)),
        };
        let ghost q = message_args@.args;
        let fragmenter = RequestFragmenter::new(self.service_name.clone(), message_args);
        let r = fragmenter.create_frames();
        assert(request_frames(self.service(), arg_scheme_text(REQ::scheme_spec()), q, r));
        r
    }
}

/// What a sent request is answered with, given the response: the response
/// message, the error message it was answered with, or the failure that
/// kept it from an answer.
pub open spec fn received<RES>(response: TResult<(ResponseCode, RES)>) -> HandlerResult<RES> {
    match response {
        Ok((ResponseCode::Success, m)) => Ok(m),
        Ok((ResponseCode::Error, m)) => Err(HandlerError::MessageError(m)),
        Err(e) => Err(HandlerError::InternalError(e)),
    }
}

/// What a sent request is answered with: a response message, the error
/// message it was answered with, or the failure that kept it from an answer.
pub fn handler_result<RES>(response: TResult<(ResponseCode, RES)>) -> (r: HandlerResult<RES>)
    ensures
        r == received(response),
{
    match response {
        Ok((code, response)) => match code {
            ResponseCode::Success => Ok(response),
            ResponseCode::Error => Err(HandlerError::MessageError(response)),
        },
        Err(err) => Err(HandlerError::InternalError(err)),
    }
}

/// A handler's answer reaches the caller as it was given: the code a message
/// is sent back with is received as a message, and the code an error
/// message is sent back with is received as an error message.
pub proof fn lemma_answer_received<MSG, RES>(answer: HandlerResult<MSG>, code: ResponseCode, response: RES)
    requires
        answer_code(answer) == Some(code),
    ensures
        answer is Ok ==> received(Ok::<(ResponseCode, RES), TChannelError>((code, response))) == Ok::<
            RES,
            HandlerError<RES>,
        >(response),
        answer matches Err(HandlerError::MessageError(_)) ==> received(
            Ok::<(ResponseCode, RES), TChannelError>((code, response)),
        ) == Err::<RES, HandlerError<RES>>(HandlerError::MessageError(response)),
{
}

} // verus!

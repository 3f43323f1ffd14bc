//! Request handlers and the conversion of their results into responses.
use crate::errors::{CodecError, HandlerError, TChannelError};
use crate::frames::headers::ArgScheme;
use crate::messages::args::{MessageArgs, MessageArgsView, MessageWithArgs, ResponseCode};
use vstd::prelude::*;

verus! {

/// What a handler answers: a message, or an error.
pub type HandlerResult<MES> = Result<MES, HandlerError<MES>>;

/// General result of the library.
pub type TResult<T> = Result<T, TChannelError>;

/// A response as arguments, with its code.
pub type MessageArgsResponse = TResult<(ResponseCode, MessageArgs)>;

/// Trait for handling requests.
///
/// Handler can be registered under an `endpoint` name on a subchannel.
pub trait RequestHandler {
    type REQ: MessageWithArgs;
    type RES: MessageWithArgs;

    /// Whether `answer` is an answer this handler gives to `request`; a
    /// handler that states nothing of its answers allows every one.
    open spec fn answers(&self, request: Self::REQ, answer: HandlerResult<Self::RES>) -> bool {
        true
    }

    fn handle(&mut self, request: Self::REQ) -> (r: HandlerResult<Self::RES>)
        ensures
            old(self).answers(request, r),
    ;
}

/// What the conversion of a handler's answer gives, by its kind: a message
/// or an error message is answered with its arguments (code `Success` or
/// `Error`) when it can be turned into arguments, and fails with a codec
/// error when not; other errors fail the request.
pub open spec fn converted<MSG: MessageWithArgs>(msg_res: HandlerResult<MSG>, r: MessageArgsResponse) -> bool {
    match msg_res {
        Ok(m) => if m.encodable() {
            r is Ok
        } else {
            r matches Err(TChannelError::CodecError(_))
        },
        Err(HandlerError::MessageError(m)) => if m.encodable() {
            r is Ok
        } else {
            r matches Err(TChannelError::CodecError(_))
        },
        Err(HandlerError::Error(m)) => r == Err::<(ResponseCode, MessageArgs), TChannelError>(TChannelError::Error(m)),
        Err(HandlerError::RegistrationError(m)) => r == Err::<(ResponseCode, MessageArgs), TChannelError>(
            TChannelError::Error(m),
        ),
        Err(HandlerError::InternalError(e)) => r == Err::<(ResponseCode, MessageArgs), TChannelError>(e),
    }
}

/// The code a handler's answer is sent back with, when it is sent back: a
/// message with `Success`, an error message with `Error`.
pub open spec fn answer_code<MSG>(msg_res: HandlerResult<MSG>) -> Option<ResponseCode> {
    match msg_res {
        Ok(_) => Some(ResponseCode::Success),
        Err(HandlerError::MessageError(_)) => Some(ResponseCode::Error),
        _ => None,
    }
}

/// Whether `args` are the arguments of the message a handler answered
/// with, or of the error message it answered with.
pub open spec fn answer_encoded_by<MSG: MessageWithArgs>(msg_res: HandlerResult<MSG>, args: MessageArgsView) -> bool {
    match msg_res {
        Ok(m) => m.encodes(args),
        Err(HandlerError::MessageError(m)) => m.encodes(args),
        _ => false,
    }
}

/// Whether `r` is the response a handler's answer converts into: what
/// `convert` gives for it.
pub open spec fn answered<MSG: MessageWithArgs>(answer: HandlerResult<MSG>, r: MessageArgsResponse) -> bool {
    &&& converted(answer, r)
    &&& r matches Ok((code, args)) ==> answer_code(answer) == Some(code) && args@.arg_scheme
        == MSG::scheme_spec() && answer_encoded_by(answer, args@)
}

/// Converts a handler's answer into a response.
pub fn convert<MSG: MessageWithArgs>(msg_res: HandlerResult<MSG>) -> (r: MessageArgsResponse)
    ensures
        converted(msg_res, r),
        r matches Ok((code, args)) ==> answer_code(msg_res) == Some(code) && args@.arg_scheme
            == MSG::scheme_spec() && answer_encoded_by(msg_res, args@),
{
    match msg_res {
        Ok(message) => match message.try_into_args() {
            Ok(args) => Ok((ResponseCode::Success, args)),
            Err(e) => Err(TChannelError::CodecError(e)),
        },
        Err(err) => match err {
            HandlerError::MessageError(message) => match message.try_into_args() {
                Ok(args) => Ok((ResponseCode::Error, args)),
                Err(e) => Err(TChannelError::CodecError(e)),
            },
            HandlerError::Error(message) => Err(TChannelError::Error(message)),
            HandlerError::RegistrationError(message) => Err(TChannelError::Error(message)),
            HandlerError::InternalError(err) => Err(err),
        },
    }
}

/// Handlers of requests given as arguments, answering with arguments.
pub trait MessageArgsHandler {
    /// Whether `r` is a response this handler gives to a request with
    /// arguments `request`; a handler that states nothing of its responses
    /// allows every one.
    open spec fn answers(&self, request: MessageArgsView, r: MessageArgsResponse) -> bool {
        true
    }

    fn handle(&mut self, request: MessageArgs) -> (r: MessageArgsResponse)
        ensures
            old(self).answers(request@, r),
    ;
}

/// What the adapter of `handler` responds to a request with arguments
/// `request`: a codec error when they carry no request, and otherwise what
/// an answer the handler allows for the decoded request converts into.
pub open spec fn adapter_answers<HANDLER: RequestHandler>(
    handler: HANDLER,
    request: MessageArgsView,
    r: MessageArgsResponse,
) -> bool {
    (!HANDLER::REQ::carried_by(request) ==> (r matches Err(TChannelError::CodecError(_)))) && (r matches Ok(
        (code, args),
    ) ==> args@.arg_scheme == HANDLER::RES::scheme_spec()) && (HANDLER::REQ::carried_by(request) ==> exists|
        req: HANDLER::REQ,
        answer: HandlerResult<HANDLER::RES>,
    |
        #![trigger handler.answers(req, answer)]
        HANDLER::REQ::decodes(request, req) && handler.answers(req, answer) && answered(answer, r))
}

/// Adapts a handler of messages to a handler of arguments.
#[derive(Debug)]
pub struct RequestHandlerAdapter<HANDLER> {
    handler: HANDLER,
}

impl<HANDLER: RequestHandler> RequestHandlerAdapter<HANDLER> {
    /// An adapter of `handler`.
    pub fn new(handler: HANDLER) -> (a: Self)
        ensures
            a.handler() == handler,
    {
        RequestHandlerAdapter { handler }
    }

    /// The adapted handler.
    pub closed spec fn handler(&self) -> HANDLER {
        self.handler
    }

    /// Reads the request message from its arguments, lets the handler
    /// answer it, and converts the answer into a response.
    pub fn handle(&mut self, request_args: MessageArgs) -> (r: MessageArgsResponse)
        ensures
            !HANDLER::REQ::carried_by(request_args@) ==> r matches Err(TChannelError::CodecError(_)),
            r matches Ok((code, args)) ==> args@.arg_scheme == HANDLER::RES::scheme_spec(),
            HANDLER::REQ::carried_by(request_args@) ==> exists|
                request: HANDLER::REQ,
                answer: HandlerResult<HANDLER::RES>,
            |
                #![trigger old(self).handler().answers(request, answer)]
                HANDLER::REQ::decodes(request_args@, request) && old(self).handler().answers(request, answer)
                    && answered(answer, r),
    {
        let request: HANDLER::REQ = match HANDLER::REQ::try_from_args(request_args) {
            Ok(r) => r,
            Err(e) => return Err(TChannelError::CodecError(e)),
        };
        let ghost decoded = request;
        let answer: HandlerResult<HANDLER::RES> = self.handler.handle(request);
        let r = convert(answer);
        assert(answered(answer, r));
        assert(old(self).handler().answers(decoded, answer));
        r
    }
}

impl<HANDLER: RequestHandler> MessageArgsHandler for RequestHandlerAdapter<HANDLER> {
    open spec fn answers(&self, request: MessageArgsView, r: MessageArgsResponse) -> bool {
        adapter_answers(self.handler(), request, r)
    }

    fn handle(&mut self, request: MessageArgs) -> (r: MessageArgsResponse) {
        RequestHandlerAdapter::<HANDLER>::handle(self, request)
    }
}

} // verus!

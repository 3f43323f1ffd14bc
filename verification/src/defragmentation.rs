//! Reassembling the arguments of a message from its frames.
//!
//! The first argument of every frame continues the last argument gathered so
//! far; the other arguments of a frame start new ones.
use crate::errors::{CodecError, TChannelError};
use crate::frames::headers::{
    arg_scheme_text, lemma_parse_scheme_text, parse_arg_scheme, ArgScheme, ArgSchemeValue, TransportHeaderKey,
};
use crate::frames::payloads::{
    args_normal, call_args_fit, flags_contain, headers_fit, headers_text, lemma_call_continue_roundtrip,
    lemma_call_request_roundtrip, lemma_call_response_roundtrip, parse_call_continue, parse_call_request,
    parse_call_response, reports, request_fields_fit, ser_call_request, ser_call_response, ser_request_fields,
    ser_response_fields, CallArgs, CallArgsView, CallContinue, CallContinueView, CallRequest,
    CallRequestFields, CallRequestView, CallResponse, CallResponseFields, CallResponseView, ChecksumType,
    CodecResult, Flags, Headers, RequestFieldsView, ResponseFieldsView,
};
use crate::frames::{frame_type_name, TFrameId, Type};
use crate::fragmentation::{
    call_headers, continuation_fills, lemma_request_fields_len, lemma_response_fields_len, continuation_limit, fill, fill_call_args, fill_flags, fill_frame, fills_fit,
    lemma_fill_progress, lemma_message_fills, message_fills, payload_limit_spec, queue_measure, request_fields_spec,
    response_fields_spec,
    Fill, FrameEnd,
};
use crate::handler::TResult;
use crate::messages::args::{bytes_of_args, MessageArgs, MessageWithArgs, ResponseCode};
use crate::name_map::{has_key, insert_entry, key_index, keys_distinct, lemma_insert_distinct, lemma_insert_other, lemma_key_index, lookup};
use crate::text::{bytes_debug, bytes_debug_text, concat2, concat4, owned};
use crate::wire::{copy_range, put_slice};
use vstd::prelude::*;

verus! {

/// The bytes of a frame argument; an absent one has none.
pub open spec fn bytes_of(a: Option<Seq<u8>>) -> Seq<u8> {
    match a {
        Some(b) => b,
        None => Seq::empty(),
    }
}

/// Gathered arguments after each of `xs` starts a new argument.
pub open spec fn push_all(acc: Seq<Seq<u8>>, xs: Seq<Option<Seq<u8>>>) -> Seq<Seq<u8>> {
    acc + xs.map_values(|a: Option<Seq<u8>>| bytes_of(a))
}

/// Gathered arguments after the first argument of a frame: its bytes are
/// added to the last argument when there is one, or start the first.
/// An absent first argument only marks that the last argument ended with
/// the frame before; in a first frame it is an empty first argument.
pub open spec fn first_step(acc: Seq<Seq<u8>>, x: Option<Seq<u8>>) -> Seq<Seq<u8>> {
    match x {
        Some(b) => if acc.len() > 0 {
            acc.update(acc.len() - 1, acc.last() + b)
        } else {
            acc.push(b)
        },
        None => if acc.len() > 0 {
            acc
        } else {
            acc.push(Seq::empty())
        },
    }
}

/// Gathered arguments after the arguments of one more frame.
pub open spec fn defrag_add(acc: Seq<Seq<u8>>, xs: Seq<Option<Seq<u8>>>) -> Seq<Seq<u8>> {
    if xs.len() == 0 {
        acc
    } else {
        push_all(first_step(acc, xs[0]), xs.drop_first())
    }
}

/// Gathered arguments after the arguments of all `frames`, in order.
pub open spec fn defrag_all(acc: Seq<Seq<u8>>, frames: Seq<Seq<Option<Seq<u8>>>>) -> Seq<Seq<u8>>
    decreases frames.len(),
{
    if frames.len() == 0 {
        acc
    } else {
        defrag_all(defrag_add(acc, frames[0]), frames.drop_first())
    }
}

/// The arguments of a frame, as bytes.
pub open spec fn opt_args_view(args: Seq<Option<Vec<u8>>>) -> Seq<Option<Seq<u8>>> {
    args.map_values(|a: Option<Vec<u8>>| match a {
        Some(b) => Some(b@),
        None => None,
    })
}

/// Arguments gathered from the frames of a message.
#[derive(Debug, Default)]
pub struct ArgsDefragmenter {
    args: Vec<Vec<u8>>,
}

impl View for ArgsDefragmenter {
    type V = Seq<Seq<u8>>;

    closed spec fn view(&self) -> Seq<Seq<u8>> {
        bytes_of_args(self.args@)
    }
}

impl ArgsDefragmenter {
    /// Nothing gathered yet.
    pub fn new() -> (d: ArgsDefragmenter)
        ensures
            d@ == Seq::<Seq<u8>>::empty(),
    {
        let d = ArgsDefragmenter { args: Vec::new() };
        assert(d@ =~= Seq::<Seq<u8>>::empty());
        d
    }

    /// Adds the arguments of one frame.
    pub fn add(&mut self, frame_args: Vec<Option<Vec<u8>>>)
        ensures
            final(self)@ == defrag_add(old(self)@, opt_args_view(frame_args@)),
    {
        let mut frame_args = frame_args;
        if frame_args.len() == 0 {
            return;
        }
        let ghost xs = opt_args_view(frame_args@);
        let first: Option<Vec<u8>> = frame_args.remove(0);
        assert(opt_args_view(frame_args@) =~= xs.drop_first());
        self.add_first_arg(first);
        self.add_remaining_args(frame_args);
    }

    fn add_first_arg(&mut self, frame_arg: Option<Vec<u8>>)
        ensures
            final(self)@ == first_step(
                old(self)@,
                match frame_arg {
                    Some(b) => Some(b@),
                    None => None,
                },
            ),
    {
        match frame_arg {
            Some(frame_arg_bytes) => match self.args.pop() {
                Some(previous_incomplete_arg) => {
                    let mut previous_incomplete_arg = previous_incomplete_arg;
                    put_slice(&mut previous_incomplete_arg, frame_arg_bytes.as_slice());
                    self.args.push(previous_incomplete_arg);
                    assert(self@ =~= first_step(old(self)@, Some(frame_arg_bytes@)));
                },
                None => {
                    self.args.push(frame_arg_bytes);
                    assert(self@ =~= first_step(old(self)@, Some(frame_arg_bytes@)));
                },
            },
            // according to protocol specs an empty arg at the beginning means the previous arg
            // ended at the end of previous frame
            None => {
                if self.args.len() == 0 {
                    self.args.push(Vec::new());
                }
                assert(self@ =~= first_step(old(self)@, None));
            },
        }
    }

    fn add_remaining_args(&mut self, frame_args: Vec<Option<Vec<u8>>>)
        ensures
            final(self)@ == push_all(old(self)@, opt_args_view(frame_args@)),
    {
        let ghost xs = opt_args_view(frame_args@);
        let mut i: usize = 0;
        let ghost all = frame_args@;
        while i < frame_args.len()
            invariant
                i <= frame_args@.len(),
                frame_args@ == all,
                xs == opt_args_view(all),
                self@ == push_all(old(self)@, xs.take(i as int)),
            decreases frame_args@.len() - i,
        {
            let ghost prev = self@;
            match &frame_args[i] {
                None => {
                    assert(xs[i as int] == None::<Seq<u8>>);
                    let e: Vec<u8> = Vec::new();
                    let ghost before_args = self.args@;
                    self.args.push(e);
                    assert(bytes_of_args(self.args@) =~= bytes_of_args(before_args).push(e@));
                },
                Some(fragment) => {
                    assert(xs[i as int] == Some(fragment@));
                    let c: Vec<u8> = copy_range(fragment.as_slice(), 0, fragment.len());
                    let ghost before_args = self.args@;
                    self.args.push(c);
                    assert(bytes_of_args(self.args@) =~= bytes_of_args(before_args).push(c@));
                    assert(c@ =~= fragment@);
                },
            }
            assert(self@ =~= prev.push(bytes_of(xs[i as int])));
            assert(push_all(old(self)@, xs.take(i + 1)) =~= push_all(old(self)@, xs.take(i as int)).push(
                bytes_of(xs[i as int]),
            ));
            i = i + 1;
        }
        assert(xs.take(i as int) =~= xs);
    }

    /// The gathered arguments.
    pub fn args(&mut self) -> (r: Vec<Vec<u8>>)
        ensures
            bytes_of_args(r@) == old(self)@,
            final(self)@ == Seq::<Seq<u8>>::empty(),
    {
        let mut r: Vec<Vec<u8>> = Vec::new();
        std::mem::swap(&mut r, &mut self.args);
        assert(self@ =~= Seq::<Seq<u8>>::empty());
        r
    }
}

// ---------------------------------------------------------------------------
// Reassembly undoes fragmentation

/// The arguments `acc` gathered so far, with `rest` still to come, where the
/// first of `rest` continues the last of `acc`.
pub open spec fn joined(acc: Seq<Seq<u8>>, rest: Seq<Seq<u8>>) -> Seq<Seq<u8>> {
    if rest.len() == 0 {
        acc
    } else {
        acc.drop_last() + seq![acc.last() + rest[0]] + rest.drop_first()
    }
}

/// The arguments of each fill.
pub open spec fn fills_args(fs: Seq<Fill>) -> Seq<Seq<Option<Seq<u8>>>> {
    fs.map_values(|f: Fill| f.args)
}

proof fn lemma_push_all_front(acc: Seq<Seq<u8>>, x: Option<Seq<u8>>, xs: Seq<Option<Seq<u8>>>)
    ensures
        push_all(acc, seq![x] + xs) == push_all(acc.push(bytes_of(x)), xs),
{
    assert(push_all(acc, seq![x] + xs) =~= push_all(acc.push(bytes_of(x)), xs));
}

/// A fill leaves arguments exactly when it does not end exhausted.
proof fn lemma_fill_end_rest(q: Seq<Seq<u8>>, limit: int)
    ensures
        (fill(q, limit).end is Exhausted) == (fill(q, limit).rest.len() == 0),
    decreases q.len(),
{
    if q.len() > 0 {
        let a = q[0];
        let l = limit - 2;
        if l < 0 {
        } else if a.len() == 0 {
            lemma_fill_end_rest(q.drop_first(), l);
        } else if a.len() > l {
        } else if a.len() == l {
        } else {
            lemma_fill_end_rest(q.drop_first(), l - a.len());
        }
    }
}

proof fn lemma_push_all_len(acc: Seq<Seq<u8>>, xs: Seq<Option<Seq<u8>>>)
    ensures
        push_all(acc, xs).len() == acc.len() + xs.len(),
{
}

/// Placing fresh arguments into a frame and gathering them back again gives
/// them back, with the last one placed continued by what is left.
pub proof fn lemma_fill_fresh(acc: Seq<Seq<u8>>, q: Seq<Seq<u8>>, limit: int)
    requires
        acc.len() > 0 || limit >= 2,
    ensures
        fill(q, limit).rest.len() > 0 ==> push_all(acc, fill(q, limit).args).len() > 0,
        joined(push_all(acc, fill(q, limit).args), fill(q, limit).rest) == acc + q,
    decreases q.len(),
{
    let f = fill(q, limit);
    if q.len() == 0 {
        assert(push_all(acc, f.args) =~= acc);
        assert(acc + q =~= acc);
    } else {
        let a = q[0];
        let l = limit - 2;
        let t = q.drop_first();
        assert(q =~= seq![a] + t);
        if l < 0 {
            assert(push_all(acc, f.args) =~= acc);
            assert(acc.last() + Seq::<u8>::empty() =~= acc.last());
            assert(joined(acc, f.rest) =~= acc + q);
        } else if a.len() == 0 {
            let g = fill(t, l);
            assert(a =~= Seq::<u8>::empty());
            assert(f.args == seq![None::<Seq<u8>>] + g.args);
            lemma_fill_fresh(acc.push(a), t, l);
            lemma_push_all_front(acc, None, g.args);
            lemma_push_all_len(acc.push(a), g.args);
            assert(acc.push(a) + t =~= acc + q);
        } else if a.len() > l {
            let x = if l == 0 { None } else { Some(a.take(l)) };
            assert(bytes_of(x) =~= a.take(l));
            assert(push_all(acc, f.args) =~= acc.push(a.take(l)));
            assert(a.take(l) + a.skip(l) =~= a);
            assert(joined(acc.push(a.take(l)), f.rest) =~= acc + q);
        } else if a.len() == l {
            assert(push_all(acc, f.args) =~= acc.push(a));
            assert(a + Seq::<u8>::empty() =~= a);
            assert(joined(acc.push(a), f.rest) =~= acc + q);
        } else {
            let g = fill(t, l - a.len());
            assert(f.args == seq![Some(a)] + g.args);
            lemma_fill_fresh(acc.push(a), t, l - a.len());
            lemma_push_all_front(acc, Some(a), g.args);
            lemma_push_all_len(acc.push(a), g.args);
            assert(acc.push(a) + t =~= acc + q);
        }
    }
}

/// Placing arguments into a frame whose first argument continues the last
/// one gathered, and gathering them back, keeps what they join into.
proof fn lemma_fill_continuing(acc: Seq<Seq<u8>>, q: Seq<Seq<u8>>, limit: int)
    requires
        acc.len() > 0,
        q.len() > 0,
        limit >= 3,
    ensures
        defrag_add(acc, fill(q, limit).args).len() > 0,
        joined(defrag_add(acc, fill(q, limit).args), fill(q, limit).rest) == joined(acc, q),
{
    let f = fill(q, limit);
    let a = q[0];
    let l = limit - 2;
    let t = q.drop_first();
    assert(q =~= seq![a] + t);
    let last = acc.last();
    if a.len() == 0 {
        let g = fill(t, l);
        assert(f.args =~= seq![None::<Seq<u8>>] + g.args);
        assert((seq![None::<Seq<u8>>] + g.args)[0] == None::<Seq<u8>>);
        assert((seq![None::<Seq<u8>>] + g.args).drop_first() =~= g.args);
        assert(defrag_add(acc, f.args) == push_all(acc, g.args));
        lemma_fill_fresh(acc, t, l);
        lemma_push_all_len(acc, g.args);
        assert(last + a =~= last);
        assert(joined(acc, q) =~= acc + t);
    } else if a.len() > l {
        assert(f.args =~= seq![Some(a.take(l))]);
        assert(defrag_add(acc, f.args) =~= acc.update(acc.len() - 1, last + a.take(l)));
        assert(last + a.take(l) + a.skip(l) =~= last + a);
        assert(joined(defrag_add(acc, f.args), f.rest) =~= joined(acc, q));
    } else if a.len() == l {
        assert(f.args =~= seq![Some(a)]);
        assert(defrag_add(acc, f.args) =~= acc.update(acc.len() - 1, last + a));
        assert(last + a + Seq::<u8>::empty() =~= last + a);
        assert(joined(defrag_add(acc, f.args), f.rest) =~= joined(acc, q));
    } else {
        let g = fill(t, l - a.len());
        let acc2 = acc.update(acc.len() - 1, last + a);
        assert(f.args =~= seq![Some(a)] + g.args);
        assert((seq![Some(a)] + g.args)[0] == Some(a));
        assert((seq![Some(a)] + g.args).drop_first() =~= g.args);
        assert(defrag_add(acc, f.args) == push_all(acc2, g.args));
        lemma_fill_fresh(acc2, t, l - a.len());
        lemma_push_all_len(acc2, g.args);
        assert(acc2 + t =~= joined(acc, q));
    }
}

proof fn lemma_defrag_all_front(acc: Seq<Seq<u8>>, x: Seq<Option<Seq<u8>>>, xs: Seq<Seq<Option<Seq<u8>>>>)
    ensures
        defrag_all(acc, seq![x] + xs) == defrag_all(defrag_add(acc, x), xs),
{
    assert((seq![x] + xs).drop_first() =~= xs);
}

/// Gathering the arguments of the continuation frames completes what the
/// gathered arguments and the queue join into.
proof fn lemma_continuations(acc: Seq<Seq<u8>>, q: Seq<Seq<u8>>)
    requires
        acc.len() > 0,
    ensures
        defrag_all(acc, fills_args(continuation_fills(q))) == joined(acc, q),
    decreases queue_measure(q),
{
    let cf = continuation_fills(q);
    if q.len() == 0 {
        assert(fills_args(cf) =~= Seq::<Seq<Option<Seq<u8>>>>::empty());
    } else {
        let f = fill(q, continuation_limit());
        lemma_fill_progress(q, continuation_limit());
        let rest_fills = continuation_fills(f.rest);
        assert(cf == seq![f] + rest_fills);
        lemma_fill_continuing(acc, q, continuation_limit());
        assert(fills_args(cf) =~= seq![f.args] + fills_args(rest_fills));
        lemma_defrag_all_front(acc, f.args, fills_args(rest_fills));
        lemma_continuations(defrag_add(acc, f.args), f.rest);
        if f.rest.len() == 0 {
            assert(joined(defrag_add(acc, f.args), f.rest) == defrag_add(acc, f.args));
        }
    }
}

/// Reassembling the arguments of the frames that fragmentation makes gives
/// the message's arguments back, as long as the first frame has room for an
/// argument's length.
pub proof fn lemma_defragment_fragment(q: Seq<Seq<u8>>, first_limit: int)
    requires
        first_limit >= 2,
    ensures
        defrag_all(Seq::empty(), fills_args(message_fills(q, first_limit))) == q,
{
    let fs = message_fills(q, first_limit);
    let f = fill(q, first_limit);
    let rest_fills = continuation_fills(f.rest);
    assert(fs == seq![f] + rest_fills);
    lemma_fill_fresh(Seq::empty(), q, first_limit);
    assert(Seq::<Seq<u8>>::empty() + q =~= q);
    let acc = defrag_add(Seq::empty(), f.args);
    assert(acc == push_all(Seq::empty(), f.args)) by {
        if f.args.len() > 0 {
            match f.args[0] {
                Some(b) => {},
                None => {},
            }
            assert(push_all(Seq::empty(), f.args) =~= push_all(
                first_step(Seq::empty(), f.args[0]),
                f.args.drop_first(),
            ));
        } else {
            assert(push_all(Seq::empty(), f.args) =~= Seq::<Seq<u8>>::empty());
        }
    }
    assert(fills_args(fs) =~= seq![f.args] + fills_args(rest_fills));
    lemma_defrag_all_front(Seq::empty(), f.args, fills_args(rest_fills));
    if f.rest.len() > 0 {
        lemma_continuations(acc, f.rest);
    } else {
        assert(rest_fills.len() == 0);
        assert(fills_args(rest_fills) =~= Seq::<Seq<Option<Seq<u8>>>>::empty());
    }
}

// ---------------------------------------------------------------------------
// Reading the frames of a message

/// Fields of a call frame that carry transport headers.
pub trait CallFields {
    /// The transport headers.
    spec fn spec_headers(&self) -> Headers;

    /// The transport headers.
    fn headers(&self) -> (h: &Headers)
        ensures
            *h == self.spec_headers(),
    ;
}

impl CallFields for CallRequestFields {
    open spec fn spec_headers(&self) -> Headers {
        self.headers
    }

    fn headers(&self) -> (h: &Headers) {
        &self.headers
    }
}

impl CallFields for CallResponseFields {
    open spec fn spec_headers(&self) -> Headers {
        self.headers
    }

    fn headers(&self) -> (h: &Headers) {
        &self.headers
    }
}

/// The scheme named by the `as` header of `h`, or why there is none.
pub open spec fn scheme_of_headers(h: Seq<(Seq<char>, String)>) -> Option<Option<ArgScheme>> {
    match lookup(h, "as"@) {
        None => None,
        Some(v) => Some(parse_arg_scheme(v@)),
    }
}

/// The argument scheme named by the fields' `as` header.
pub fn get_args_scheme<FIELDS: CallFields>(fields: &FIELDS) -> (r: CodecResult<ArgSchemeValue>)
    ensures
        match scheme_of_headers(fields.spec_headers()@) {
            None => r matches Err(CodecError::Error(m)) && m@ == "Missing arg schema arg"@,
            Some(None) => r == Err::<ArgSchemeValue, CodecError>(CodecError::ParseError(crate::errors::ParseError::VariantNotFound)),
            Some(Some(v)) => r matches Ok(s) && s@ == v,
        },
{
    let headers: &Headers = fields.headers();
    let key: String = TransportHeaderKey::ArgScheme.to_string();
    proof {
        reveal_strlit("as");
    }
    match headers.get(&key) {
        Some(scheme) => match ArgSchemeValue::from_str(scheme) {
            Ok(v) => Ok(v),
            Err(e) => Err(CodecError::ParseError(e)),
        },
        None => Err(CodecError::Error(owned("Missing arg schema arg"))),
    }
}

/// Checks that call fields name an expected argument scheme.
#[derive(Debug)]
pub struct ArgSchemeChecker {
    arg_scheme: ArgSchemeValue,
}

/// The message of the error for an argument scheme other than the expected one.
pub open spec fn scheme_mismatch_message(expected: ArgScheme, got: ArgScheme) -> Seq<char> {
    "Expected "@ + arg_scheme_text(expected) + " got "@ + arg_scheme_text(got)
}

impl ArgSchemeChecker {
    /// The expected scheme.
    pub closed spec fn expected(&self) -> ArgScheme {
        self.arg_scheme@
    }

    /// A checker expecting `arg_scheme`.
    pub fn new(arg_scheme: ArgSchemeValue) -> (c: ArgSchemeChecker)
        ensures
            c.expected() == arg_scheme@,
    {
        ArgSchemeChecker { arg_scheme }
    }

    /// The scheme the fields name, if it is the expected one.
    pub fn check<FIELDS: CallFields>(&self, fields: &FIELDS) -> (r: CodecResult<ArgSchemeValue>)
        ensures
            match scheme_of_headers(fields.spec_headers()@) {
                None => r matches Err(CodecError::Error(m)) && m@ == "Missing arg schema arg"@,
                Some(None) => r == Err::<ArgSchemeValue, CodecError>(CodecError::ParseError(crate::errors::ParseError::VariantNotFound)),
                Some(Some(v)) => if v == self.expected() {
                    r matches Ok(s) && s@ == v
                } else {
                    r matches Err(CodecError::Error(m)) && m@ == scheme_mismatch_message(self.expected(), v)
                },
            },
    {
        let arg_scheme: ArgSchemeValue = get_args_scheme(fields)?;
        if !arg_scheme.same_as(&self.arg_scheme) {
            return Err(
                CodecError::Error(
                    concat4(
                        "Expected ",
                        self.arg_scheme.to_string().as_str(),
                        " got ",
                        arg_scheme.to_string().as_str(),
                    ),
                ),
            );
        }
        Ok(arg_scheme)
    }
}

/// The arguments of a frame, when its checksum is of a supported kind (only
/// frames without checksum are); otherwise the kind of checksum.
pub fn verify_args(call_args: CallArgs) -> (r: Result<Vec<Option<Vec<u8>>>, ChecksumType>)
    ensures
        call_args.checksum_type == ChecksumType::NoChecksum ==> (r matches Ok(a) && opt_args_view(a@)
            == call_args@.args),
        call_args.checksum_type != ChecksumType::NoChecksum ==> r == Err::<Vec<Option<Vec<u8>>>, ChecksumType>(
            call_args.checksum_type,
        ),
{
    match call_args.checksum_type {
        ChecksumType::NoChecksum => {
            let args: Vec<Option<Vec<u8>>> = call_args.args;
            assert(opt_args_view(args@) =~= call_args@.args);
            Ok(args)
        },
        other => Err(other),
    }
}

/// The message of the error for a first frame of another type than expected.
pub open spec fn wrong_frame_message(expected: Type, got: Type) -> Seq<char> {
    "Expected '"@ + frame_type_name(expected) + "' got '"@ + frame_type_name(got) + "'"@
}

fn wrong_frame(expected: Type, got: Type) -> (e: TChannelError)
    ensures
        e matches TChannelError::Error(m) && m@ == wrong_frame_message(expected, got),
{
    let mut m: String = concat2("Expected '", expected.name());
    m.append("' got '");
    m.append(got.name());
    m.append("'");
    TChannelError::Error(m)
}

/// Whether `r` decodes the payload `p` as `parse` says, with codec errors
/// wrapped as TChannel errors.
pub open spec fn decoded_payload<T, V>(r: Result<T, TChannelError>, p: Result<(V, int), crate::frames::payloads::DecodeError>, view: spec_fn(T) -> V) -> bool {
    match p {
        Ok((v, _)) => r matches Ok(t) && view(t) == v,
        Err(d) => r matches Err(TChannelError::CodecError(e)) && reports(e, d),
    }
}

/// The first frame of a response: a call response frame, decoded.
pub fn begin_response(frame_id: Option<TFrameId>) -> (r: Result<CallResponse, TChannelError>)
    ensures
        match frame_id {
            None => r matches Err(TChannelError::Error(m)) && m@ == "Received no response"@,
            Some(f) => if f.frame.frame_type == Type::CallResponse {
                decoded_payload(r, parse_call_response(f.frame.payload@, 0), |c: CallResponse| c@)
            } else {
                r matches Err(TChannelError::Error(m)) && m@ == wrong_frame_message(Type::CallResponse, f.frame.frame_type)
            },
        },
{
    match frame_id {
        Some(frame_id) => {
            let mut frame = frame_id.frame;
            if frame.frame_type == Type::CallResponse {
                match CallResponse::decode(frame.payload_mut()) {
                    Ok(c) => Ok(c),
                    Err(e) => Err(TChannelError::CodecError(e)),
                }
            } else {
                Err(wrong_frame(Type::CallResponse, frame.frame_type))
            }
        },
        None => Err(TChannelError::Error(owned("Received no response"))),
    }
}

/// The first frame of a request: a call request frame, decoded.
pub fn begin_request(frame_id: Option<TFrameId>) -> (r: Result<CallRequest, TChannelError>)
    ensures
        match frame_id {
            None => r matches Err(TChannelError::Error(m)) && m@ == "Received no response"@,
            Some(f) => if f.frame.frame_type == Type::CallRequest {
                decoded_payload(r, parse_call_request(f.frame.payload@, 0), |c: CallRequest| c@)
            } else {
                r matches Err(TChannelError::Error(m)) && m@ == wrong_frame_message(Type::CallRequest, f.frame.frame_type)
            },
        },
{
    match frame_id {
        Some(frame_id) => {
            let mut frame = frame_id.frame;
            if frame.frame_type == Type::CallRequest {
                match CallRequest::decode(frame.payload_mut()) {
                    Ok(c) => Ok(c),
                    Err(e) => Err(TChannelError::CodecError(e)),
                }
            } else {
                Err(wrong_frame(Type::CallRequest, frame.frame_type))
            }
        },
        None => Err(TChannelError::Error(owned("Received no response"))),
    }
}

/// The debug rendering of a frame: its type's name and its payload as a
/// byte string.
pub open spec fn frame_debug(f: crate::frames::FrameView) -> Seq<char> {
    "TFrame { frame_type: "@ + frame_type_name(f.frame_type) + ", payload: "@ + bytes_debug(f.payload) + " }"@
}

/// Renders a frame for error messages.
fn frame_debug_text(frame: &crate::frames::TFrame) -> (s: String)
    ensures
        s@ == frame_debug(frame@),
{
    let payload: String = bytes_debug_text(&frame.payload);
    let mut s: String = concat4("TFrame { frame_type: ", frame.frame_type.name(), ", payload: ", payload.as_str());
    s.append(" }");
    s
}

/// What a frame read while waiting for continuations is.
pub enum Continuation {
    /// The frame stream ended.
    Ended,
    /// A continuation frame, decoded.
    Frame(CallContinue),
}

/// Reads a frame that should continue a message.
pub fn continuation(frame_id: Option<TFrameId>) -> (r: Result<Continuation, TChannelError>)
    ensures
        match frame_id {
            None => r matches Ok(Continuation::Ended),
            Some(f) => match f.frame.frame_type {
                Type::CallResponseContinue | Type::CallRequestContinue => decoded_payload(
                    r,
                    parse_call_continue(f.frame.payload@, 0),
                    |c: Continuation| match c {
                        Continuation::Frame(c) => c@,
                        Continuation::Ended => arbitrary(),
                    },
                ) && !(r matches Ok(Continuation::Ended)),
                Type::Error => r matches Err(TChannelError::Error(m)) && m@ == "Transport error: "@
                    + frame_debug(f.frame@),
                t => r matches Err(TChannelError::Error(m)) && m@ == "Unexpected frame: "@ + frame_type_name(t),
            },
        },
{
    match frame_id {
        None => Ok(Continuation::Ended),
        Some(frame_id) => {
            let mut frame = frame_id.frame;
            match frame.frame_type {
                Type::CallResponseContinue | Type::CallRequestContinue => {
                    match CallContinue::decode(frame.payload_mut()) {
                        Ok(c) => Ok(Continuation::Frame(c)),
                        Err(e) => Err(TChannelError::CodecError(e)),
                    }
                },
                Type::Error => {
                    Err(TChannelError::Error(concat2("Transport error: ", frame_debug_text(&frame).as_str())))
                },
                t => Err(TChannelError::Error(concat2("Unexpected frame: ", t.name()))),
            }
        },
    }
}

// ---------------------------------------------------------------------------
// Reading a message frame by frame

/// The scheme call fields with headers `h` are accepted with: the one their
/// `as` header names, which must be `expected` when one is expected.
pub open spec fn scheme_accepted(expected: Option<ArgScheme>, h: Seq<(Seq<char>, String)>) -> Option<ArgScheme> {
    match scheme_of_headers(h) {
        Some(Some(v)) => match expected {
            Some(e) => if v == e {
                Some(v)
            } else {
                None
            },
            None => Some(v),
        },
        _ => None,
    }
}

/// Whether `r` is the outcome of checking the scheme of call fields with
/// headers `h`, against `expected` when one is expected.
pub open spec fn scheme_checked(expected: Option<ArgScheme>, h: Seq<(Seq<char>, String)>, r: CodecResult<
    ArgSchemeValue,
>) -> bool {
    match scheme_of_headers(h) {
        None => r matches Err(CodecError::Error(m)) && m@ == "Missing arg schema arg"@,
        Some(None) => r == Err::<ArgSchemeValue, CodecError>(
            CodecError::ParseError(crate::errors::ParseError::VariantNotFound),
        ),
        Some(Some(v)) => match expected {
            Some(e) => if v == e {
                r matches Ok(s) && s@ == v
            } else {
                r matches Err(CodecError::Error(m)) && m@ == scheme_mismatch_message(e, v)
            },
            None => r matches Ok(s) && s@ == v,
        },
    }
}

/// Where reading the frames of a message stands after a frame.
#[derive(Debug)]
pub enum ReadProgress<FIELDS> {
    /// More frames of the message are to come.
    Reading,
    /// The message is complete: its fields and its arguments.
    Complete(FIELDS, MessageArgs),
    /// A frame carries a checksum of a kind that is not supported.
    UnsupportedChecksum(ChecksumType),
}

/// Reads the frames of one message as they arrive: the first frame brings
/// the fields and the argument scheme, the following ones continue the
/// arguments until a frame says no more follow.
#[derive(Debug)]
pub struct Defragmenter<FIELDS> {
    expected_scheme: Option<ArgSchemeValue>,
    started: Option<(FIELDS, ArgSchemeValue)>,
    args_defragmenter: ArgsDefragmenter,
}

/// Whether `r` completes a message whose first frame brought `started`
/// with arguments `args`, leaving `after` ready for another message.
pub open spec fn completes<FIELDS>(
    started: Option<(FIELDS, ArgScheme)>,
    args: Seq<Seq<u8>>,
    r: TResult<ReadProgress<FIELDS>>,
    after: Defragmenter<FIELDS>,
) -> bool {
    &&& started matches Some((fields, scheme)) && r matches Ok(ReadProgress::Complete(f, m)) && f == fields
        && m@.arg_scheme == scheme && m@.args == args
    &&& after.started() is None
    &&& after.gathered() == Seq::<Seq<u8>>::empty()
}

/// What reading the first frame of a message, with `flags`, `fields` and
/// arguments `call_args`, gives from `before` (`r`) and leaves (`after`).
pub open spec fn first_read<FIELDS: CallFields>(
    before: Defragmenter<FIELDS>,
    flags: Flags,
    fields: FIELDS,
    call_args: CallArgsView,
    r: TResult<ReadProgress<FIELDS>>,
    after: Defragmenter<FIELDS>,
) -> bool {
    &&& after.expected() == before.expected()
    &&& if call_args.checksum_type != ChecksumType::NoChecksum {
        &&& r matches Ok(ReadProgress::UnsupportedChecksum(t)) && t == call_args.checksum_type
        &&& after.started() == before.started()
        &&& after.gathered() == before.gathered()
    } else {
        let acc = defrag_add(before.gathered(), call_args.args);
        match scheme_accepted(before.expected(), fields.spec_headers()@) {
            None => r matches Err(TChannelError::CodecError(e)) && scheme_checked(
                before.expected(),
                fields.spec_headers()@,
                Err(e),
            ),
            Some(s) => if flags_contain(flags, Flags::MORE_FRAGMENTS_FOLLOW) {
                &&& r matches Ok(ReadProgress::Reading)
                &&& after.started() == Some((fields, s))
                &&& after.gathered() == acc
            } else {
                completes(Some((fields, s)), acc, r, after)
            },
        }
    }
}

/// What reading a following frame of a message (`None` once the frames
/// end) gives from `before` (`r`) and leaves (`after`). A frame that is
/// refused, or whose checksum is not supported, adds nothing to what was
/// gathered.
pub open spec fn next_read<FIELDS>(
    before: Defragmenter<FIELDS>,
    frame: Option<TFrameId>,
    r: TResult<ReadProgress<FIELDS>>,
    after: Defragmenter<FIELDS>,
) -> bool {
    &&& after.expected() == before.expected()
    &&& (r is Err || r matches Ok(ReadProgress::UnsupportedChecksum(_))) ==> {
        &&& after.started() == before.started()
        &&& after.gathered() == before.gathered()
    }
    &&& match frame {
        None => completes(before.started(), before.gathered(), r, after),
        Some(f) => match f.frame.frame_type {
            Type::CallResponseContinue | Type::CallRequestContinue => match parse_call_continue(
                f.frame.payload@,
                0,
            ) {
                Err(d) => r matches Err(TChannelError::CodecError(e)) && reports(e, d),
                Ok((c, _)) => if c.args.checksum_type != ChecksumType::NoChecksum {
                    r matches Ok(ReadProgress::UnsupportedChecksum(t)) && t == c.args.checksum_type
                } else if flags_contain(c.flags, Flags::MORE_FRAGMENTS_FOLLOW) {
                    &&& r matches Ok(ReadProgress::Reading)
                    &&& after.started() == before.started()
                    &&& after.gathered() == defrag_add(before.gathered(), c.args.args)
                } else {
                    completes(before.started(), defrag_add(before.gathered(), c.args.args), r, after)
                },
            },
            Type::Error => r matches Err(TChannelError::Error(m)) && m@ == "Transport error: "@
                + frame_debug(f.frame@),
            t => r matches Err(TChannelError::Error(m)) && m@ == "Unexpected frame: "@ + frame_type_name(t),
        },
    }
}

impl<FIELDS> Defragmenter<FIELDS> {
    /// The scheme the arguments must be encoded with, if one is expected.
    pub closed spec fn expected(&self) -> Option<ArgScheme> {
        match self.expected_scheme {
            Some(v) => Some(v@),
            None => None,
        }
    }

    /// The fields and scheme the first frame brought, once it was read.
    pub closed spec fn started(&self) -> Option<(FIELDS, ArgScheme)> {
        match self.started {
            Some((f, s)) => Some((f, s@)),
            None => None,
        }
    }

    /// The arguments gathered so far.
    pub closed spec fn gathered(&self) -> Seq<Seq<u8>> {
        self.args_defragmenter@
    }
}

impl<FIELDS: CallFields> Defragmenter<FIELDS> {
    /// A reader of a message's frames, accepting any argument scheme or only
    /// `expected_scheme`.
    pub fn new(expected_scheme: Option<ArgSchemeValue>) -> (d: Self)
        ensures
            d.expected() == (match expected_scheme {
                Some(v) => Some(v@),
                None => None::<ArgScheme>,
            }),
            d.started() is None,
            d.gathered() == Seq::<Seq<u8>>::empty(),
    {
        Defragmenter { expected_scheme, started: None, args_defragmenter: ArgsDefragmenter::new() }
    }

    /// Whether the first frame of the message was read.
    pub fn is_started(&self) -> (b: bool)
        ensures
            b == self.started() is Some,
    {
        self.started.is_some()
    }

    fn check_scheme(&self, fields: &FIELDS) -> (r: CodecResult<ArgSchemeValue>)
        ensures
            scheme_checked(self.expected(), fields.spec_headers()@, r),
    {
        match &self.expected_scheme {
            Some(expected) => {
                let checker = ArgSchemeChecker::new(expected.duplicate());
                checker.check(fields)
            },
            None => get_args_scheme(fields),
        }
    }

    fn complete(&mut self) -> (r: TResult<ReadProgress<FIELDS>>)
        requires
            old(self).started() is Some,
        ensures
            completes(old(self).started(), old(self).gathered(), r, *final(self)),
            final(self).expected() == old(self).expected(),
    {
        let started = self.started.take();
        match started {
            Some((fields, scheme)) => {
                let args: Vec<Vec<u8>> = self.args_defragmenter.args();
                Ok(ReadProgress::Complete(fields, MessageArgs::new(scheme, args)))
            },
            None => Ok(ReadProgress::Reading),
        }
    }

    /// Reads the first frame of a message: its flags, fields and arguments.
    pub fn read_first(&mut self, flags: Flags, fields: FIELDS, call_args: CallArgs) -> (r: TResult<
        ReadProgress<FIELDS>,
    >)
        requires
            old(self).started() is None,
        ensures
            first_read(*old(self), flags, fields, call_args@, r, *final(self)),
    {
        let frame_args: Vec<Option<Vec<u8>>> = match verify_args(call_args) {
            Ok(a) => a,
            Err(t) => return Ok(ReadProgress::UnsupportedChecksum(t)),
        };
        self.args_defragmenter.add(frame_args);
        let scheme: ArgSchemeValue = match self.check_scheme(&fields) {
            Ok(s) => s,
            Err(e) => return Err(TChannelError::CodecError(e)),
        };
        self.started = Some((fields, scheme));
        if flags.contains(Flags::MORE_FRAGMENTS_FOLLOW) {
            Ok(ReadProgress::Reading)
        } else {
            self.complete()
        }
    }

    /// Reads a following frame of the message; `None` when the frames end.
    pub fn read_next(&mut self, frame: Option<TFrameId>) -> (r: TResult<ReadProgress<FIELDS>>)
        requires
            old(self).started() is Some,
        ensures
            next_read(*old(self), frame, r, *final(self)),
    {
        match continuation(frame)? {
            Continuation::Ended => self.complete(),
            Continuation::Frame(c) => {
                let frame_args: Vec<Option<Vec<u8>>> = match verify_args(c.args) {
                    Ok(a) => a,
                    Err(t) => return Ok(ReadProgress::UnsupportedChecksum(t)),
                };
                self.args_defragmenter.add(frame_args);
                if c.flags.contains(Flags::MORE_FRAGMENTS_FOLLOW) {
                    Ok(ReadProgress::Reading)
                } else {
                    self.complete()
                }
            },
        }
    }
}

/// What reading a frame of a response (`None` once the frames end) gives
/// from `before` (`r`) and leaves (`after`): the first frame must be a call
/// response, the following ones continuations.
pub open spec fn response_step(
    before: Defragmenter<CallResponseFields>,
    frame: Option<TFrameId>,
    r: TResult<ReadProgress<CallResponseFields>>,
    after: Defragmenter<CallResponseFields>,
) -> bool {
    &&& before.started() is None ==> match frame {
        None => r matches Err(TChannelError::Error(m)) && m@ == "Received no response"@,
        Some(f) => if f.frame.frame_type == Type::CallResponse {
            match parse_call_response(f.frame.payload@, 0) {
                Err(d) => r matches Err(TChannelError::CodecError(e)) && reports(e, d),
                Ok((c, _)) => exists|fields: CallResponseFields|
                    fields@ == c.fields && first_read(before, c.flags, fields, c.args, r, after),
            }
        } else {
            r matches Err(TChannelError::Error(m)) && m@ == wrong_frame_message(Type::CallResponse, f.frame.frame_type)
        },
    }
    &&& before.started() is Some ==> next_read(before, frame, r, after)
}

/// What reading a frame of a request (`None` once the frames end) gives
/// from `before` (`r`) and leaves (`after`): the first frame must be a call
/// request, the following ones continuations.
pub open spec fn request_step(
    before: Defragmenter<CallRequestFields>,
    frame: Option<TFrameId>,
    r: TResult<ReadProgress<CallRequestFields>>,
    after: Defragmenter<CallRequestFields>,
) -> bool {
    &&& before.started() is None ==> match frame {
        None => r matches Err(TChannelError::Error(m)) && m@ == "Received no response"@,
        Some(f) => if f.frame.frame_type == Type::CallRequest {
            match parse_call_request(f.frame.payload@, 0) {
                Err(d) => r matches Err(TChannelError::CodecError(e)) && reports(e, d),
                Ok((c, _)) => exists|fields: CallRequestFields|
                    fields@ == c.fields && first_read(before, c.flags, fields, c.args, r, after),
            }
        } else {
            r matches Err(TChannelError::Error(m)) && m@ == wrong_frame_message(Type::CallRequest, f.frame.frame_type)
        },
    }
    &&& before.started() is Some ==> next_read(before, frame, r, after)
}

/// Reads the frames of a call response as they arrive.
#[derive(Debug)]
pub struct ResponseDefragmenter {
    defragmenter: Defragmenter<CallResponseFields>,
}

impl ResponseDefragmenter {
    /// Where reading stands.
    pub closed spec fn state(&self) -> Defragmenter<CallResponseFields> {
        self.defragmenter
    }

    /// A reader of a response in any argument scheme.
    pub fn new() -> (d: Self)
        ensures
            d.state().expected() is None,
            d.state().started() is None,
            d.state().gathered() == Seq::<Seq<u8>>::empty(),
    {
        ResponseDefragmenter { defragmenter: Defragmenter::new(None) }
    }

    /// A reader of a response carrying a message of type `MSG`.
    pub fn for_message<MSG: MessageWithArgs>() -> (d: Self)
        ensures
            d.state().expected() == Some(MSG::scheme_spec()),
            d.state().started() is None,
            d.state().gathered() == Seq::<Seq<u8>>::empty(),
    {
        ResponseDefragmenter { defragmenter: Defragmenter::new(Some(MSG::args_scheme())) }
    }

    /// Reads the next frame of the response; `None` when the frames end.
    pub fn read_response(&mut self, frame: Option<TFrameId>) -> (r: TResult<ReadProgress<CallResponseFields>>)
        ensures
            response_step(old(self).state(), frame, r, final(self).state()),
    {
        if self.defragmenter.is_started() {
            return self.defragmenter.read_next(frame);
        }
        let response: CallResponse = begin_response(frame)?;
        let CallResponse { flags, fields, args } = response;
        self.defragmenter.read_first(flags, fields, args)
    }
}

/// Reads the frames of a call request as they arrive.
#[derive(Debug)]
pub struct RequestDefragmenter {
    defragmenter: Defragmenter<CallRequestFields>,
}

impl RequestDefragmenter {
    /// Where reading stands.
    pub closed spec fn state(&self) -> Defragmenter<CallRequestFields> {
        self.defragmenter
    }

    /// A reader of a request in any argument scheme.
    pub fn new() -> (d: Self)
        ensures
            d.state().expected() is None,
            d.state().started() is None,
            d.state().gathered() == Seq::<Seq<u8>>::empty(),
    {
        RequestDefragmenter { defragmenter: Defragmenter::new(None) }
    }

    /// A reader of a request carrying a message of type `MSG`.
    pub fn for_message<MSG: MessageWithArgs>() -> (d: Self)
        ensures
            d.state().expected() == Some(MSG::scheme_spec()),
            d.state().started() is None,
            d.state().gathered() == Seq::<Seq<u8>>::empty(),
    {
        RequestDefragmenter { defragmenter: Defragmenter::new(Some(MSG::args_scheme())) }
    }

    /// Reads the next frame of the request; `None` when the frames end.
    pub fn read_request(&mut self, frame: Option<TFrameId>) -> (r: TResult<ReadProgress<CallRequestFields>>)
        ensures
            request_step(old(self).state(), frame, r, final(self).state()),
    {
        if self.defragmenter.is_started() {
            return self.defragmenter.read_next(frame);
        }
        let request: CallRequest = begin_request(frame)?;
        let CallRequest { flags, fields, args } = request;
        self.defragmenter.read_first(flags, fields, args)
    }
}

/// The message of type `MSG` a completed response carries, with the
/// response's code.
pub fn response_message<MSG: MessageWithArgs>(fields: CallResponseFields, args: MessageArgs) -> (r: TResult<
    (ResponseCode, MSG),
>)
    ensures
        r is Ok <==> MSG::carried_by(args@),
        r matches Ok((code, m)) ==> code == fields.code && MSG::decodes(args@, m),
        r matches Err(e) ==> e is CodecError,
{
    match MSG::try_from_args(args) {
        Ok(msg) => Ok((fields.code, msg)),
        Err(e) => Err(TChannelError::CodecError(e)),
    }
}

/// The message of type `MSG` a completed request carries.
pub fn request_message<MSG: MessageWithArgs>(args: MessageArgs) -> (r: TResult<MSG>)
    ensures
        r is Ok <==> MSG::carried_by(args@),
        r matches Ok(m) ==> MSG::decodes(args@, m),
        r matches Err(e) ==> e is CodecError,
{
    match MSG::try_from_args(args) {
        Ok(msg) => Ok(msg),
        Err(e) => Err(TChannelError::CodecError(e)),
    }
}

// ---------------------------------------------------------------------------
// Reading the frames of a request gives it back

/// The header value under `k`, looked up on the entries or on their text.
proof fn lemma_lookup_text(es: Seq<(Seq<char>, String)>, k: Seq<char>)
    requires
        keys_distinct(headers_text(es)),
    ensures
        lookup(es, k) matches Some(v) ==> lookup(headers_text(es), k) == Some(v@),
        lookup(es, k) is None ==> lookup(headers_text(es), k) is None,
{
    let t = headers_text(es);
    assert(forall|i: int| 0 <= i < es.len() ==> #[trigger] t[i].0 == es[i].0);
    assert(keys_distinct(es)) by {
        assert forall|i: int, j: int| 0 <= i < es.len() && 0 <= j < es.len() && i != j implies es[i].0
            != es[j].0 by {
            assert(t[i].0 != t[j].0);
        }
    }
    if has_key(es, k) {
        let i = key_index(es, k);
        assert(es[i].0 == k);
        lemma_key_index(es, i);
        assert(t[i].0 == k);
        lemma_key_index(t, i);
    } else {
        if has_key(t, k) {
            let j = key_index(t, k);
            assert(t[j].0 == k);
            assert(es[j].0 == k);
        }
    }
}

/// The call headers name the scheme under `as`, with distinct keys.
proof fn lemma_call_headers(scheme: Seq<char>, service: Seq<char>)
    ensures
        keys_distinct(call_headers(scheme, service)),
        lookup(call_headers(scheme, service), "as"@) == Some(scheme),
{
    reveal_strlit("as");
    reveal_strlit("cn");
    let e: Seq<(Seq<char>, Seq<char>)> = Seq::empty();
    let h1 = insert_entry(e, "as"@, scheme);
    lemma_insert_distinct(e, "as"@, scheme);
    lemma_insert_distinct(h1, "cn"@, service);
    assert("as"@[0] != "cn"@[0]);
    assert("as"@ != "cn"@);
    lemma_insert_other(h1, "cn"@, service, "as"@);
}

/// Gathering the arguments of one more frame at the end.
proof fn lemma_defrag_all_snoc(acc: Seq<Seq<u8>>, frames: Seq<Seq<Option<Seq<u8>>>>, x: Seq<Option<Seq<u8>>>)
    ensures
        defrag_all(acc, frames.push(x)) == defrag_add(defrag_all(acc, frames), x),
    decreases frames.len(),
{
    let fx = frames.push(x);
    if frames.len() == 0 {
        assert(fx[0] == x);
        assert(fx.drop_first() =~= Seq::<Seq<Option<Seq<u8>>>>::empty());
        assert(defrag_all(defrag_add(acc, x), fx.drop_first()) == defrag_add(acc, x));
    } else {
        assert(fx[0] == frames[0]);
        assert(fx.drop_first() =~= frames.drop_first().push(x));
        lemma_defrag_all_snoc(defrag_add(acc, frames[0]), frames.drop_first(), x);
    }
}

/// The frames a request is split into decode into the request's fields and
/// the flags and arguments of each fill: a call request first, then
/// continuations.
pub proof fn lemma_request_frames_decode(fields: RequestFieldsView, q: Seq<Seq<u8>>)
    requires
        request_fields_fit(fields),
        keys_distinct(fields.headers),
        fills_fit(message_fills(q, payload_limit_spec(ser_request_fields(fields).len() as int) - 1)),
    ensures
        ({
            let fs = message_fills(q, payload_limit_spec(ser_request_fields(fields).len() as int) - 1);
            let bytes = ser_request_fields(fields);
            &&& parse_call_request(fill_frame(fs, 0, bytes, Type::CallRequest, Type::CallRequestContinue).payload, 0)
                matches Ok((c, _)) && c == (CallRequestView {
                flags: fill_flags(fs[0]),
                fields,
                args: fill_call_args(fs[0]),
            })
            &&& forall|k: int|
                1 <= k < fs.len() ==> (parse_call_continue(
                    #[trigger] fill_frame(fs, k, bytes, Type::CallRequest, Type::CallRequestContinue).payload,
                    0,
                ) matches Ok((c, _)) && c == (CallContinueView { flags: fill_flags(fs[k]), args: fill_call_args(fs[k]) }))
        }),
{
    let first_limit = payload_limit_spec(ser_request_fields(fields).len() as int) - 1;
    let fs = message_fills(q, first_limit);
    let bytes = ser_request_fields(fields);
    lemma_message_fills(q, first_limit);
    let c0 = CallRequestView { flags: fill_flags(fs[0]), fields, args: fill_call_args(fs[0]) };
    assert(call_args_fit(fill_call_args(fs[0])));
    assert(args_normal(fs[0].args));
    lemma_call_request_roundtrip(c0);
    assert(fill_frame(fs, 0, bytes, Type::CallRequest, Type::CallRequestContinue).payload =~= ser_call_request(c0));
    assert forall|k: int| 1 <= k < fs.len() implies (parse_call_continue(
        #[trigger] fill_frame(fs, k, bytes, Type::CallRequest, Type::CallRequestContinue).payload,
        0,
    ) matches Ok((c, _)) && c == (CallContinueView { flags: fill_flags(fs[k]), args: fill_call_args(fs[k]) })) by {
        let ck = CallContinueView { flags: fill_flags(fs[k]), args: fill_call_args(fs[k]) };
        assert(call_args_fit(fill_call_args(fs[k])));
        assert(args_normal(fs[k].args));
        lemma_call_continue_roundtrip(ck);
    }
}

/// Whether `frames` are, in order, the frames a request from `service`
/// with arguments `q` encoded by `scheme` is split into.
pub open spec fn request_fragments(service: Seq<char>, scheme: ArgScheme, q: Seq<Seq<u8>>, frames: Seq<TFrameId>) -> bool {
    let fields = request_fields_spec(arg_scheme_text(scheme), service);
    let fs = message_fills(q, payload_limit_spec(ser_request_fields(fields).len() as int) - 1);
    &&& request_fields_fit(fields)
    &&& fills_fit(fs)
    &&& frames.len() == fs.len()
    &&& forall|k: int|
        0 <= k < fs.len() ==> #[trigger] frames[k].frame@ == fill_frame(
            fs,
            k,
            ser_request_fields(fields),
            Type::CallRequest,
            Type::CallRequestContinue,
        )
}

/// Whether reading `frames` one after another goes from `states[k]` to
/// `states[k + 1]` with `results[k]`.
pub open spec fn request_run(
    frames: Seq<TFrameId>,
    states: Seq<Defragmenter<CallRequestFields>>,
    results: Seq<TResult<ReadProgress<CallRequestFields>>>,
) -> bool {
    &&& states.len() == frames.len() + 1
    &&& results.len() == frames.len()
    &&& forall|k: int|
        0 <= k < frames.len() ==> #[trigger] request_step(states[k], Some(frames[k]), results[k], states[k + 1])
}

/// Call request fields from `service` with the scheme's headers are
/// accepted with that scheme.
proof fn lemma_fields_scheme(fe: CallRequestFields, service: Seq<char>, scheme: ArgScheme, expected: Option<ArgScheme>)
    requires
        !(scheme is Custom),
        fe@ == request_fields_spec(arg_scheme_text(scheme), service),
        expected is None || expected == Some(scheme),
    ensures
        scheme_accepted(expected, fe.spec_headers()@) == Some(scheme),
{
    let text = arg_scheme_text(scheme);
    lemma_call_headers(text, service);
    assert(headers_text(fe.headers@) == call_headers(text, service));
    lemma_lookup_text(fe.headers@, "as"@);
    lemma_parse_scheme_text(scheme);
}

/// A first frame of a request, decoded to `c`, is read into its fields and
/// the scheme its headers name.
proof fn lemma_first_step(
    before: Defragmenter<CallRequestFields>,
    frame: TFrameId,
    r: TResult<ReadProgress<CallRequestFields>>,
    after: Defragmenter<CallRequestFields>,
    c: CallRequestView,
    service: Seq<char>,
    scheme: ArgScheme,
)
    requires
        request_step(before, Some(frame), r, after),
        before.started() is None,
        frame.frame.frame_type == Type::CallRequest,
        parse_call_request(frame.frame.payload@, 0) matches Ok((c2, _)) && c2 == c,
        c.fields == request_fields_spec(arg_scheme_text(scheme), service),
        c.args.checksum_type == ChecksumType::NoChecksum,
        !(scheme is Custom),
        before.expected() is None || before.expected() == Some(scheme),
    ensures
        after.expected() == before.expected(),
        flags_contain(c.flags, Flags::MORE_FRAGMENTS_FOLLOW) ==> {
            &&& r matches Ok(ReadProgress::Reading)
            &&& after.started() matches Some((f, s)) && f@ == c.fields && s == scheme
            &&& after.gathered() == defrag_add(before.gathered(), c.args.args)
        },
        !flags_contain(c.flags, Flags::MORE_FRAGMENTS_FOLLOW) ==> (r matches Ok(ReadProgress::Complete(f, m))
            && f@ == c.fields && m@.arg_scheme == scheme && m@.args == defrag_add(before.gathered(), c.args.args)),
{
    let fe = choose|fe: CallRequestFields| fe@ == c.fields && first_read(before, c.flags, fe, c.args, r, after);
    lemma_fields_scheme(fe, service, scheme, before.expected());
}

/// A continuation of a request, decoded to `c`, adds its arguments, and
/// completes the request unless more frames follow.
proof fn lemma_next_step(
    before: Defragmenter<CallRequestFields>,
    frame: TFrameId,
    r: TResult<ReadProgress<CallRequestFields>>,
    after: Defragmenter<CallRequestFields>,
    c: CallContinueView,
)
    requires
        request_step(before, Some(frame), r, after),
        before.started() is Some,
        frame.frame.frame_type == Type::CallRequestContinue,
        parse_call_continue(frame.frame.payload@, 0) matches Ok((c2, _)) && c2 == c,
        c.args.checksum_type == ChecksumType::NoChecksum,
    ensures
        after.expected() == before.expected(),
        flags_contain(c.flags, Flags::MORE_FRAGMENTS_FOLLOW) ==> {
            &&& r matches Ok(ReadProgress::Reading)
            &&& after.started() == before.started()
            &&& after.gathered() == defrag_add(before.gathered(), c.args.args)
        },
        !flags_contain(c.flags, Flags::MORE_FRAGMENTS_FOLLOW) ==> completes(
            before.started(),
            defrag_add(before.gathered(), c.args.args),
            r,
            after,
        ),
{
}

/// The `k`-th of the frames a request is split into: its type, and what it
/// decodes into.
proof fn lemma_fragment_frame(service: Seq<char>, scheme: ArgScheme, q: Seq<Seq<u8>>, frames: Seq<TFrameId>, k: int)
    requires
        request_fragments(service, scheme, q, frames),
        0 <= k < frames.len(),
    ensures
        ({
            let fields = request_fields_spec(arg_scheme_text(scheme), service);
            let fs = message_fills(q, payload_limit_spec(ser_request_fields(fields).len() as int) - 1);
            &&& k == 0 ==> frames[k].frame.frame_type == Type::CallRequest
            &&& k == 0 ==> (parse_call_request(frames[k].frame.payload@, 0) matches Ok((c, _)) && c == (
            CallRequestView { flags: fill_flags(fs[0]), fields, args: fill_call_args(fs[0]) }))
            &&& k > 0 ==> frames[k].frame.frame_type == Type::CallRequestContinue
            &&& k > 0 ==> (parse_call_continue(frames[k].frame.payload@, 0) matches Ok((c, _)) && c == (
            CallContinueView { flags: fill_flags(fs[k]), args: fill_call_args(fs[k]) }))
            &&& flags_contain(fill_flags(fs[k]), Flags::MORE_FRAGMENTS_FOLLOW) <==> k < frames.len() - 1
        }),
{
    let fields = request_fields_spec(arg_scheme_text(scheme), service);
    let bytes = ser_request_fields(fields);
    let first_limit = payload_limit_spec(bytes.len() as int) - 1;
    let fs = message_fills(q, first_limit);
    lemma_message_fills(q, first_limit);
    lemma_call_headers(arg_scheme_text(scheme), service);
    lemma_request_frames_decode(fields, q);
    assert(frames[k].frame@ == fill_frame(fs, k, bytes, Type::CallRequest, Type::CallRequestContinue));
    assert(frames[k].frame@.payload == frames[k].frame.payload@);
}

proof fn lemma_read_prefix(
    service: Seq<char>,
    scheme: ArgScheme,
    q: Seq<Seq<u8>>,
    frames: Seq<TFrameId>,
    states: Seq<Defragmenter<CallRequestFields>>,
    results: Seq<TResult<ReadProgress<CallRequestFields>>>,
    j: int,
)
    requires
        !(scheme is Custom),
        request_fragments(service, scheme, q, frames),
        request_run(frames, states, results),
        states[0].started() is None,
        states[0].gathered() == Seq::<Seq<u8>>::empty(),
        states[0].expected() is None || states[0].expected() == Some(scheme),
        1 <= j < frames.len(),
    ensures
        ({
            let fields = request_fields_spec(arg_scheme_text(scheme), service);
            let fs = message_fills(q, payload_limit_spec(ser_request_fields(fields).len() as int) - 1);
            &&& states[j].started() matches Some((f, s)) && f@ == fields && s == scheme
            &&& states[j].gathered() == defrag_all(Seq::empty(), fills_args(fs).take(j))
            &&& states[j].expected() == states[0].expected()
            &&& forall|k: int| 0 <= k < j ==> (#[trigger] results[k]) matches Ok(ReadProgress::Reading)
        }),
    decreases j,
{
    let fields = request_fields_spec(arg_scheme_text(scheme), service);
    let fs = message_fills(q, payload_limit_spec(ser_request_fields(fields).len() as int) - 1);
    let e: Seq<Seq<u8>> = Seq::empty();
    let i = j - 1;
    lemma_fragment_frame(service, scheme, q, frames, i);
    assert(request_step(states[i], Some(frames[i]), results[i], states[i + 1]));
    assert(fills_args(fs).take(j) =~= fills_args(fs).take(i).push(fs[i].args));
    lemma_defrag_all_snoc(e, fills_args(fs).take(i), fs[i].args);
    if j == 1 {
        let c0 = CallRequestView { flags: fill_flags(fs[0]), fields, args: fill_call_args(fs[0]) };
        lemma_first_step(states[0], frames[0], results[0], states[1], c0, service, scheme);
        assert(fills_args(fs).take(0) =~= Seq::<Seq<Option<Seq<u8>>>>::empty());
    } else {
        lemma_read_prefix(service, scheme, q, frames, states, results, i);
        let ci = CallContinueView { flags: fill_flags(fs[i]), args: fill_call_args(fs[i]) };
        lemma_next_step(states[i], frames[i], results[i], states[j], ci);
    }
}

/// Reading the frames a request was split into, one after another from a
/// fresh reader, reads on through all but the last frame and completes on
/// the last with the request's fields, scheme and arguments, as long as
/// the scheme is not a custom one.
pub proof fn lemma_read_request_fragments(
    service: Seq<char>,
    scheme: ArgScheme,
    q: Seq<Seq<u8>>,
    frames: Seq<TFrameId>,
    states: Seq<Defragmenter<CallRequestFields>>,
    results: Seq<TResult<ReadProgress<CallRequestFields>>>,
)
    requires
        !(scheme is Custom),
        request_fragments(service, scheme, q, frames),
        request_run(frames, states, results),
        states[0].started() is None,
        states[0].gathered() == Seq::<Seq<u8>>::empty(),
        states[0].expected() is None || states[0].expected() == Some(scheme),
    ensures
        forall|k: int| 0 <= k < frames.len() - 1 ==> (#[trigger] results[k]) matches Ok(ReadProgress::Reading),
        results.last() matches Ok(ReadProgress::Complete(f, m)) && f@ == request_fields_spec(
            arg_scheme_text(scheme),
            service,
        ) && m@.arg_scheme == scheme && m@.args == q,
{
    let fields = request_fields_spec(arg_scheme_text(scheme), service);
    let first_limit = payload_limit_spec(ser_request_fields(fields).len() as int) - 1;
    let fs = message_fills(q, first_limit);
    let n = frames.len() as int;
    let last = n - 1;
    let e: Seq<Seq<u8>> = Seq::empty();
    {
        let h: Seq<(Seq<char>, Seq<char>)> = Seq::empty();
        lemma_insert_distinct(h, "as"@, arg_scheme_text(scheme));
        lemma_insert_distinct(insert_entry(h, "as"@, arg_scheme_text(scheme)), "cn"@, service);
        lemma_request_fields_len(fields);
    }
    lemma_defragment_fragment(q, first_limit);
    lemma_fragment_frame(service, scheme, q, frames, last);
    assert(request_step(states[last], Some(frames[last]), results[last], states[last + 1]));
    assert(fills_args(fs).take(n) =~= fills_args(fs).take(last).push(fs[last].args));
    assert(fills_args(fs).take(n) =~= fills_args(fs));
    lemma_defrag_all_snoc(e, fills_args(fs).take(last), fs[last].args);
    if n == 1 {
        let c0 = CallRequestView { flags: fill_flags(fs[0]), fields, args: fill_call_args(fs[0]) };
        lemma_first_step(states[0], frames[0], results[0], states[1], c0, service, scheme);
        assert(fills_args(fs).take(0) =~= Seq::<Seq<Option<Seq<u8>>>>::empty());
    } else {
        lemma_read_prefix(service, scheme, q, frames, states, results, last);
        let cl = CallContinueView { flags: fill_flags(fs[last]), args: fill_call_args(fs[last]) };
        lemma_next_step(states[last], frames[last], results[last], states[n], cl);
    }
}

// ---------------------------------------------------------------------------
// Reading the frames of a response gives it back

/// The frames a response is split into decode into the response's fields
/// and the flags and arguments of each fill: a call response first, then
/// continuations.
pub proof fn lemma_response_frames_decode(fields: ResponseFieldsView, q: Seq<Seq<u8>>)
    requires
        headers_fit(fields.headers, true),
        keys_distinct(fields.headers),
        fills_fit(message_fills(q, payload_limit_spec(ser_response_fields(fields).len() as int) - 1)),
    ensures
        ({
            let fs = message_fills(q, payload_limit_spec(ser_response_fields(fields).len() as int) - 1);
            let bytes = ser_response_fields(fields);
            &&& parse_call_response(fill_frame(fs, 0, bytes, Type::CallResponse, Type::CallResponseContinue).payload, 0)
                matches Ok((c, _)) && c == (CallResponseView {
                flags: fill_flags(fs[0]),
                fields,
                args: fill_call_args(fs[0]),
            })
            &&& forall|k: int|
                1 <= k < fs.len() ==> (parse_call_continue(
                    #[trigger] fill_frame(fs, k, bytes, Type::CallResponse, Type::CallResponseContinue).payload,
                    0,
                ) matches Ok((c, _)) && c == (CallContinueView { flags: fill_flags(fs[k]), args: fill_call_args(fs[k]) }))
        }),
{
    let first_limit = payload_limit_spec(ser_response_fields(fields).len() as int) - 1;
    let fs = message_fills(q, first_limit);
    let bytes = ser_response_fields(fields);
    lemma_message_fills(q, first_limit);
    let c0 = CallResponseView { flags: fill_flags(fs[0]), fields, args: fill_call_args(fs[0]) };
    assert(call_args_fit(fill_call_args(fs[0])));
    assert(args_normal(fs[0].args));
    lemma_call_response_roundtrip(c0);
    assert(fill_frame(fs, 0, bytes, Type::CallResponse, Type::CallResponseContinue).payload =~= ser_call_response(c0));
    assert forall|k: int| 1 <= k < fs.len() implies (parse_call_continue(
        #[trigger] fill_frame(fs, k, bytes, Type::CallResponse, Type::CallResponseContinue).payload,
        0,
    ) matches Ok((c, _)) && c == (CallContinueView { flags: fill_flags(fs[k]), args: fill_call_args(fs[k]) })) by {
        let ck = CallContinueView { flags: fill_flags(fs[k]), args: fill_call_args(fs[k]) };
        assert(call_args_fit(fill_call_args(fs[k])));
        assert(args_normal(fs[k].args));
        lemma_call_continue_roundtrip(ck);
    }
}

/// Whether `frames` are, in order, the frames a response with `code` from
/// `service`, with arguments `q` encoded by `scheme`, is split into.
pub open spec fn response_fragments(
    code: ResponseCode,
    service: Seq<char>,
    scheme: ArgScheme,
    q: Seq<Seq<u8>>,
    frames: Seq<TFrameId>,
) -> bool {
    let fields = response_fields_spec(code, arg_scheme_text(scheme), service);
    let fs = message_fills(q, payload_limit_spec(ser_response_fields(fields).len() as int) - 1);
    &&& headers_fit(fields.headers, true)
    &&& fills_fit(fs)
    &&& frames.len() == fs.len()
    &&& forall|k: int|
        0 <= k < fs.len() ==> #[trigger] frames[k].frame@ == fill_frame(
            fs,
            k,
            ser_response_fields(fields),
            Type::CallResponse,
            Type::CallResponseContinue,
        )
}

/// Whether reading `frames` one after another goes from `states[k]` to
/// `states[k + 1]` with `results[k]`.
pub open spec fn response_run(
    frames: Seq<TFrameId>,
    states: Seq<Defragmenter<CallResponseFields>>,
    results: Seq<TResult<ReadProgress<CallResponseFields>>>,
) -> bool {
    &&& states.len() == frames.len() + 1
    &&& results.len() == frames.len()
    &&& forall|k: int|
        0 <= k < frames.len() ==> #[trigger] response_step(states[k], Some(frames[k]), results[k], states[k + 1])
}

/// Call response fields with the scheme's headers are accepted with that scheme.
proof fn lemma_response_fields_scheme(
    fe: CallResponseFields,
    code: ResponseCode,
    service: Seq<char>,
    scheme: ArgScheme,
    expected: Option<ArgScheme>,
)
    requires
        !(scheme is Custom),
        fe@ == response_fields_spec(code, arg_scheme_text(scheme), service),
        expected is None || expected == Some(scheme),
    ensures
        scheme_accepted(expected, fe.spec_headers()@) == Some(scheme),
{
    let text = arg_scheme_text(scheme);
    lemma_call_headers(text, service);
    assert(headers_text(fe.headers@) == call_headers(text, service));
    lemma_lookup_text(fe.headers@, "as"@);
    lemma_parse_scheme_text(scheme);
}

proof fn lemma_response_first_step(
    before: Defragmenter<CallResponseFields>,
    frame: TFrameId,
    r: TResult<ReadProgress<CallResponseFields>>,
    after: Defragmenter<CallResponseFields>,
    c: CallResponseView,
    code: ResponseCode,
    service: Seq<char>,
    scheme: ArgScheme,
)
    requires
        response_step(before, Some(frame), r, after),
        before.started() is None,
        frame.frame.frame_type == Type::CallResponse,
        parse_call_response(frame.frame.payload@, 0) matches Ok((c2, _)) && c2 == c,
        c.fields == response_fields_spec(code, arg_scheme_text(scheme), service),
        c.args.checksum_type == ChecksumType::NoChecksum,
        !(scheme is Custom),
        before.expected() is None || before.expected() == Some(scheme),
    ensures
        after.expected() == before.expected(),
        flags_contain(c.flags, Flags::MORE_FRAGMENTS_FOLLOW) ==> {
            &&& r matches Ok(ReadProgress::Reading)
            &&& after.started() matches Some((f, s)) && f@ == c.fields && s == scheme
            &&& after.gathered() == defrag_add(before.gathered(), c.args.args)
        },
        !flags_contain(c.flags, Flags::MORE_FRAGMENTS_FOLLOW) ==> (r matches Ok(ReadProgress::Complete(f, m))
            && f@ == c.fields && m@.arg_scheme == scheme && m@.args == defrag_add(before.gathered(), c.args.args)),
{
    let fe = choose|fe: CallResponseFields| fe@ == c.fields && first_read(before, c.flags, fe, c.args, r, after);
    lemma_response_fields_scheme(fe, code, service, scheme, before.expected());
}

proof fn lemma_response_next_step(
    before: Defragmenter<CallResponseFields>,
    frame: TFrameId,
    r: TResult<ReadProgress<CallResponseFields>>,
    after: Defragmenter<CallResponseFields>,
    c: CallContinueView,
)
    requires
        response_step(before, Some(frame), r, after),
        before.started() is Some,
        frame.frame.frame_type == Type::CallResponseContinue,
        parse_call_continue(frame.frame.payload@, 0) matches Ok((c2, _)) && c2 == c,
        c.args.checksum_type == ChecksumType::NoChecksum,
    ensures
        after.expected() == before.expected(),
        flags_contain(c.flags, Flags::MORE_FRAGMENTS_FOLLOW) ==> {
            &&& r matches Ok(ReadProgress::Reading)
            &&& after.started() == before.started()
            &&& after.gathered() == defrag_add(before.gathered(), c.args.args)
        },
        !flags_contain(c.flags, Flags::MORE_FRAGMENTS_FOLLOW) ==> completes(
            before.started(),
            defrag_add(before.gathered(), c.args.args),
            r,
            after,
        ),
{
}

proof fn lemma_response_fragment_frame(
    code: ResponseCode,
    service: Seq<char>,
    scheme: ArgScheme,
    q: Seq<Seq<u8>>,
    frames: Seq<TFrameId>,
    k: int,
)
    requires
        response_fragments(code, service, scheme, q, frames),
        0 <= k < frames.len(),
    ensures
        ({
            let fields = response_fields_spec(code, arg_scheme_text(scheme), service);
            let fs = message_fills(q, payload_limit_spec(ser_response_fields(fields).len() as int) - 1);
            &&& k == 0 ==> frames[k].frame.frame_type == Type::CallResponse
            &&& k == 0 ==> (parse_call_response(frames[k].frame.payload@, 0) matches Ok((c, _)) && c == (
            CallResponseView { flags: fill_flags(fs[0]), fields, args: fill_call_args(fs[0]) }))
            &&& k > 0 ==> frames[k].frame.frame_type == Type::CallResponseContinue
            &&& k > 0 ==> (parse_call_continue(frames[k].frame.payload@, 0) matches Ok((c, _)) && c == (
            CallContinueView { flags: fill_flags(fs[k]), args: fill_call_args(fs[k]) }))
            &&& flags_contain(fill_flags(fs[k]), Flags::MORE_FRAGMENTS_FOLLOW) <==> k < frames.len() - 1
        }),
{
    let fields = response_fields_spec(code, arg_scheme_text(scheme), service);
    let bytes = ser_response_fields(fields);
    let first_limit = payload_limit_spec(bytes.len() as int) - 1;
    let fs = message_fills(q, first_limit);
    lemma_message_fills(q, first_limit);
    lemma_call_headers(arg_scheme_text(scheme), service);
    lemma_response_frames_decode(fields, q);
    assert(frames[k].frame@ == fill_frame(fs, k, bytes, Type::CallResponse, Type::CallResponseContinue));
    assert(frames[k].frame@.payload == frames[k].frame.payload@);
}

proof fn lemma_response_read_prefix(
    code: ResponseCode,
    service: Seq<char>,
    scheme: ArgScheme,
    q: Seq<Seq<u8>>,
    frames: Seq<TFrameId>,
    states: Seq<Defragmenter<CallResponseFields>>,
    results: Seq<TResult<ReadProgress<CallResponseFields>>>,
    j: int,
)
    requires
        !(scheme is Custom),
        response_fragments(code, service, scheme, q, frames),
        response_run(frames, states, results),
        states[0].started() is None,
        states[0].gathered() == Seq::<Seq<u8>>::empty(),
        states[0].expected() is None || states[0].expected() == Some(scheme),
        1 <= j < frames.len(),
    ensures
        ({
            let fields = response_fields_spec(code, arg_scheme_text(scheme), service);
            let fs = message_fills(q, payload_limit_spec(ser_response_fields(fields).len() as int) - 1);
            &&& states[j].started() matches Some((f, s)) && f@ == fields && s == scheme
            &&& states[j].gathered() == defrag_all(Seq::empty(), fills_args(fs).take(j))
            &&& states[j].expected() == states[0].expected()
            &&& forall|k: int| 0 <= k < j ==> (#[trigger] results[k]) matches Ok(ReadProgress::Reading)
        }),
    decreases j,
{
    let fields = response_fields_spec(code, arg_scheme_text(scheme), service);
    let fs = message_fills(q, payload_limit_spec(ser_response_fields(fields).len() as int) - 1);
    let e: Seq<Seq<u8>> = Seq::empty();
    let i = j - 1;
    lemma_response_fragment_frame(code, service, scheme, q, frames, i);
    assert(response_step(states[i], Some(frames[i]), results[i], states[i + 1]));
    assert(fills_args(fs).take(j) =~= fills_args(fs).take(i).push(fs[i].args));
    lemma_defrag_all_snoc(e, fills_args(fs).take(i), fs[i].args);
    if j == 1 {
        let c0 = CallResponseView { flags: fill_flags(fs[0]), fields, args: fill_call_args(fs[0]) };
        lemma_response_first_step(states[0], frames[0], results[0], states[1], c0, code, service, scheme);
        assert(fills_args(fs).take(0) =~= Seq::<Seq<Option<Seq<u8>>>>::empty());
    } else {
        lemma_response_read_prefix(code, service, scheme, q, frames, states, results, i);
        let ci = CallContinueView { flags: fill_flags(fs[i]), args: fill_call_args(fs[i]) };
        lemma_response_next_step(states[i], frames[i], results[i], states[j], ci);
    }
}

/// Reading the frames a response was split into, one after another from a
/// fresh reader, reads on through all but the last frame and completes on
/// the last with the response's fields (its code among them), scheme and
/// arguments, as long as the scheme is not a custom one.
pub proof fn lemma_read_response_fragments(
    code: ResponseCode,
    service: Seq<char>,
    scheme: ArgScheme,
    q: Seq<Seq<u8>>,
    frames: Seq<TFrameId>,
    states: Seq<Defragmenter<CallResponseFields>>,
    results: Seq<TResult<ReadProgress<CallResponseFields>>>,
)
    requires
        !(scheme is Custom),
        response_fragments(code, service, scheme, q, frames),
        response_run(frames, states, results),
        states[0].started() is None,
        states[0].gathered() == Seq::<Seq<u8>>::empty(),
        states[0].expected() is None || states[0].expected() == Some(scheme),
    ensures
        forall|k: int| 0 <= k < frames.len() - 1 ==> (#[trigger] results[k]) matches Ok(ReadProgress::Reading),
        results.last() matches Ok(ReadProgress::Complete(f, m)) && f@ == response_fields_spec(
            code,
            arg_scheme_text(scheme),
            service,
        ) && m@.arg_scheme == scheme && m@.args == q,
{
    let fields = response_fields_spec(code, arg_scheme_text(scheme), service);
    let first_limit = payload_limit_spec(ser_response_fields(fields).len() as int) - 1;
    let fs = message_fills(q, first_limit);
    let n = frames.len() as int;
    let last = n - 1;
    let e: Seq<Seq<u8>> = Seq::empty();
    {
        let h: Seq<(Seq<char>, Seq<char>)> = Seq::empty();
        lemma_insert_distinct(h, "as"@, arg_scheme_text(scheme));
        lemma_insert_distinct(insert_entry(h, "as"@, arg_scheme_text(scheme)), "cn"@, service);
        lemma_response_fields_len(fields);
    }
    lemma_defragment_fragment(q, first_limit);
    lemma_response_fragment_frame(code, service, scheme, q, frames, last);
    assert(response_step(states[last], Some(frames[last]), results[last], states[last + 1]));
    assert(fills_args(fs).take(n) =~= fills_args(fs).take(last).push(fs[last].args));
    assert(fills_args(fs).take(n) =~= fills_args(fs));
    lemma_defrag_all_snoc(e, fills_args(fs).take(last), fs[last].args);
    if n == 1 {
        let c0 = CallResponseView { flags: fill_flags(fs[0]), fields, args: fill_call_args(fs[0]) };
        lemma_response_first_step(states[0], frames[0], results[0], states[1], c0, code, service, scheme);
        assert(fills_args(fs).take(0) =~= Seq::<Seq<Option<Seq<u8>>>>::empty());
    } else {
        lemma_response_read_prefix(code, service, scheme, q, frames, states, results, last);
        let cl = CallContinueView { flags: fill_flags(fs[last]), args: fill_call_args(fs[last]) };
        lemma_response_next_step(states[last], frames[last], results[last], states[n], cl);
    }
}

} // verus!

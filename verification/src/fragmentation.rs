//! Splitting the arguments of a message into frames.
//!
//! Arguments are placed into frames in order; an argument that does not fit
//! what is left of a frame is split, and its rest opens the next frame. When
//! an argument ends a frame exactly, or the next argument's length no longer
//! fits, the next frame opens with an empty argument that closes the last
//! one placed.
use crate::errors::{CodecError, TChannelError};
use crate::frames::headers::{
    arg_scheme_text, transport_key_text, ArgSchemeValue, TransportHeaderKey,
};
use crate::frames::payloads::{
    call_args_error_message, call_args_fit, flag_bits, headers_error_message, headers_fit, request_fields_error_message, headers_text, len_limit, request_fields_fit, ser_call_args,
    ser_call_continue, ser_headers, ser_len, ser_pairs, ser_request_fields, ser_response_fields,
    ser_string, ser_with_fields, string_fits, args_normal, ser_arg, ser_arg_list, CallArgs, CallArgsView, CallContinue,
    CallContinueView, CallRequestFields, CallResponseFields, CallWithFieldsEncoded, ChecksumType,
    Flags, Headers, RequestFieldsView, ResponseCode, ResponseFieldsView, TraceFlags, Tracing,
    ARG_LEN_LEN,
};
use crate::defragmentation::{joined, lemma_fill_fresh, push_all};
use crate::frames::{FrameView, TFrame, Type, FRAME_HEADER_LENGTH, FRAME_MAX_LENGTH};
use crate::messages::args::MessageArgs;
use crate::wire::lemma_be_lens;
use crate::name_map::{insert_entry, keys_distinct, lemma_insert_distinct, NameMap};
use vstd::prelude::*;

verus! {

/// How much of an argument went into a frame.
#[derive(Debug, Clone, Copy, PartialEq, Eq, Structural)]
pub enum FragmentationStatus {
    /// Completely stored in frame.
    Complete,
    /// Completely stored in frame with maxed frame capacity.
    CompleteAtTheEnd,
    /// Partially stored in frame.
    Incomplete,
}

/// How the filling of a frame ended.
pub enum FrameEnd {
    /// No argument is left.
    Exhausted,
    /// An argument was split; its rest waits for the next frame.
    Split,
    /// An argument filled the frame exactly; an empty argument waits for the
    /// next frame, to close it.
    Exact,
    /// No room was left for the length of the next argument, which waits
    /// whole for the next frame, after an empty argument that closes the
    /// last one placed.
    Deferred,
}

/// The arguments of one frame and what is left for the next ones.
pub struct Fill {
    pub args: Seq<Option<Seq<u8>>>,
    pub rest: Seq<Seq<u8>>,
    pub end: FrameEnd,
}

/// Fills a frame with room `limit` from the queue of arguments `q`. Each
/// argument costs its two-byte length plus its bytes, and goes in only when
/// its length fits; an empty argument is stored as absent.
pub open spec fn fill(q: Seq<Seq<u8>>, limit: int) -> Fill
    decreases q.len(),
{
    if q.len() == 0 {
        Fill { args: Seq::empty(), rest: Seq::empty(), end: FrameEnd::Exhausted }
    } else {
        let a = q[0];
        let l = limit - 2;
        if l < 0 {
            Fill { args: Seq::empty(), rest: seq![Seq::<u8>::empty()] + q, end: FrameEnd::Deferred }
        } else if a.len() == 0 {
            let f = fill(q.drop_first(), l);
            Fill { args: seq![None::<Seq<u8>>] + f.args, rest: f.rest, end: f.end }
        } else if a.len() > l {
            Fill {
                args: seq![if l == 0 { None } else { Some(a.take(l)) }],
                rest: seq![a.skip(l)] + q.drop_first(),
                end: FrameEnd::Split,
            }
        } else if a.len() == l {
            Fill {
                args: seq![Some(a)],
                rest: seq![Seq::<u8>::empty()] + q.drop_first(),
                end: FrameEnd::Exact,
            }
        } else {
            let f = fill(q.drop_first(), l - a.len());
            Fill { args: seq![Some(a)] + f.args, rest: f.rest, end: f.end }
        }
    }
}

/// Below zero, the room of a frame matters no more.
pub proof fn lemma_fill_negative(q: Seq<Seq<u8>>, a: int, b: int)
    requires
        a < 0,
        b < 0,
    ensures
        fill(q, a) == fill(q, b),
    decreases q.len(),
{
    if q.len() > 0 {
        lemma_fill_negative(q.drop_first(), a - 2, b - 2);
    }
}

/// The bytes of each queued argument.
pub open spec fn queue_view(q: Seq<Vec<u8>>) -> Seq<Seq<u8>> {
    q.map_values(|a: Vec<u8>| a@)
}

/// The arguments of a frame, as bytes.
pub open spec fn frame_args_view(args: Seq<Option<Vec<u8>>>) -> Seq<Option<Seq<u8>>> {
    args.map_values(|a: Option<Vec<u8>>| match a {
        Some(b) => Some(b@),
        None => None,
    })
}

/// The arguments of a message waiting to be placed into frames.
#[derive(Debug)]
pub struct ArgsFragmenter {
    args: std::collections::VecDeque<Vec<u8>>,
}

impl View for ArgsFragmenter {
    type V = Seq<Seq<u8>>;

    closed spec fn view(&self) -> Seq<Seq<u8>> {
        queue_view(self.args@)
    }
}

impl ArgsFragmenter {
    /// A fragmenter holding `args`, in order.
    pub fn new(args: Vec<Vec<u8>>) -> (f: Self)
        ensures
            f@ == queue_view(args@),
    {
        let mut queue: std::collections::VecDeque<Vec<u8>> = std::collections::VecDeque::new();
        let ghost all = args@;
        let mut args = args;
        while args.len() > 0
            invariant
                args@ == all.take(args@.len() as int),
                queue@ == all.skip(args@.len() as int),
                args@.len() <= all.len(),
            decreases args@.len(),
        {
            let a = args.pop().unwrap();
            queue.push_front(a);
            assert(queue@ =~= all.skip(args@.len() as int));
            assert(args@ =~= all.take(args@.len() as int));
        }
        assert(all.skip(0) =~= all);
        ArgsFragmenter { args: queue }
    }

    /// Whether no argument is left.
    pub fn is_empty(&self) -> (b: bool)
        ensures
            b == (self@.len() == 0),
    {
        self.args.len() == 0
    }

    /// Places as much of the next argument as fits into `payload_limit`
    /// bytes (what is left once its length is in). The part that fits is
    /// taken off `arg`; with no room at all, nothing is placed.
    pub fn next_arg_fragment(arg: &mut Vec<u8>, payload_limit: i64) -> (r: (
        FragmentationStatus,
        Option<Vec<u8>>,
    ))
        ensures
            payload_limit < 0 ==> {
                &&& r.0 == FragmentationStatus::Incomplete
                &&& r.1 is None
                &&& final(arg)@ == old(arg)@
            },
            old(arg)@.len() == 0 && payload_limit >= 0 ==> {
                &&& r.0 == FragmentationStatus::Complete
                &&& r.1 matches Some(b) && b@.len() == 0
                &&& final(arg)@ == old(arg)@
            },
            old(arg)@.len() > 0 && payload_limit >= 0 && old(arg)@.len() > payload_limit ==> {
                &&& r.0 == FragmentationStatus::Incomplete
                &&& r.1 matches Some(b) && b@ == old(arg)@.take(payload_limit as int)
                &&& final(arg)@ == old(arg)@.skip(payload_limit as int)
            },
            old(arg)@.len() > 0 && payload_limit >= 0 && old(arg)@.len() <= payload_limit ==> {
                &&& r.0 == (if old(arg)@.len() == payload_limit {
                    FragmentationStatus::CompleteAtTheEnd
                } else {
                    FragmentationStatus::Complete
                })
                &&& r.1 matches Some(b) && b@ == old(arg)@
                &&& final(arg)@.len() == 0
            },
    {
        let src_remaining: usize = arg.len();
        if payload_limit < 0 {
            (FragmentationStatus::Incomplete, None)
        } else if src_remaining == 0 {
            (FragmentationStatus::Complete, Some(Vec::new()))
        } else if src_remaining as u64 > payload_limit as u64 {
            let mut fragment: Vec<u8> = arg.split_off(payload_limit as usize);
            std::mem::swap(arg, &mut fragment);
            (FragmentationStatus::Incomplete, Some(fragment))
        } else {
            let mut arg_bytes: Vec<u8> = Vec::new();
            std::mem::swap(arg, &mut arg_bytes);
            if src_remaining as u64 == payload_limit as u64 {
                (FragmentationStatus::CompleteAtTheEnd, Some(arg_bytes))
            } else {
                (FragmentationStatus::Complete, Some(arg_bytes))
            }
        }
    }

    /// Takes the arguments that fit a frame with `payload_limit` bytes of room.
    /// An argument whose length does not fit waits for the next frame, which
    /// then opens with an empty argument that closes the last one placed.
    pub fn next_frame_args_vec(&mut self, payload_limit: i64) -> (r: Vec<Option<Vec<u8>>>)
        ensures
            frame_args_view(r@) == fill(old(self)@, payload_limit as int).args,
            final(self)@ == fill(old(self)@, payload_limit as int).rest,
            payload_limit >= 2 ==> joined(push_all(Seq::empty(), frame_args_view(r@)), final(self)@)
                == old(self)@,
    {
        proof {
            if payload_limit >= 2 {
                lemma_fill_fresh(Seq::empty(), self@, payload_limit as int);
                assert(Seq::<Seq<u8>>::empty() + self@ =~= self@);
            }
        }
        let mut frame_args: Vec<Option<Vec<u8>>> = Vec::with_capacity(3);
        let ghost total = fill(self@, payload_limit as int);
        proof {
            if payload_limit < 0 {
                lemma_fill_negative(self@, payload_limit as int, -2);
            }
        }
        let mut payload_limit: i64 = if payload_limit < 0 { -2 } else { payload_limit };
        assert(frame_args_view(frame_args@) =~= Seq::<Option<Seq<u8>>>::empty());
        loop
            invariant_except_break
                -2 <= payload_limit,
                fill(self@, payload_limit as int).rest == total.rest,
                frame_args_view(frame_args@) + fill(self@, payload_limit as int).args == total.args,
            ensures
                frame_args_view(frame_args@) == total.args,
                self@ == total.rest,
            decreases self@.len(),
        {
            let ghost q = self@;
            let popped: Option<Vec<u8>> = self.args.pop_front();
            let mut arg: Vec<u8> = match popped {
                Some(a) => a,
                None => {
                    assert(frame_args_view(frame_args@) + Seq::<Option<Seq<u8>>>::empty() =~= frame_args_view(frame_args@));
                    break;
                },
            };
            assert(self@ =~= q.drop_first());
            let ghost old_limit = payload_limit as int;
            payload_limit = if payload_limit >= 0 { payload_limit - ARG_LEN_LEN as i64 } else { -2 };
            proof {
                if old_limit - 2 < 0 {
                    lemma_fill_negative(q.drop_first(), old_limit - 2 - q[0].len(), payload_limit as int - q[0].len());
                    lemma_fill_negative(q.drop_first(), old_limit - 2, payload_limit as int);
                }
            }
            let ghost before = frame_args_view(frame_args@);
            let (status, frame_arg_opt) = Self::next_arg_fragment(&mut arg, payload_limit);
            match frame_arg_opt {
                Some(frame_arg) => {
                    if frame_arg.len() == 0 {
                        frame_args.push(None);
                    } else {
                        payload_limit = payload_limit - frame_arg.len() as i64;
                        frame_args.push(Some(frame_arg));
                    }
                },
                None => {},
            }
            match status {
                FragmentationStatus::Incomplete => {
                    self.args.push_front(arg);
                    if payload_limit < 0 {
                        self.args.push_front(Vec::new());
                    }
                    proof {
                        assert(frame_args_view(frame_args@) + Seq::<Option<Seq<u8>>>::empty() =~= frame_args_view(frame_args@));
                        assert(self@ =~= fill(q, old_limit).rest);
                        assert(frame_args_view(frame_args@) =~= before + fill(q, old_limit).args);
                    }
                    break;
                },
                FragmentationStatus::CompleteAtTheEnd => {
                    self.args.push_front(Vec::new());
                    proof {
                        assert(self@ =~= fill(q, old_limit).rest);
                        assert(frame_args_view(frame_args@) =~= before + fill(q, old_limit).args);
                    }
                    break;
                },
                FragmentationStatus::Complete => {
                    proof {
                        assert(frame_args_view(frame_args@) + fill(self@, payload_limit as int).args =~= before
                            + fill(q, old_limit).args);
                    }
                },
            }
        }
        frame_args
    }
}

/// The bytes taken by a checksum of the given type: its type code and, but
/// for no checksum, four bytes of value.
pub open spec fn checksum_len_spec(t: ChecksumType) -> int {
    if t == ChecksumType::NoChecksum {
        1
    } else {
        5
    }
}

/// The bytes taken by a checksum of the given type.
pub fn checksum_len(checksum_type: ChecksumType) -> (n: usize)
    ensures
        n == checksum_len_spec(checksum_type),
{
    match checksum_type {
        ChecksumType::NoChecksum => 1,
        _ => 5,
    }
}

/// The bytes of all queued arguments.
pub open spec fn total_bytes(q: Seq<Seq<u8>>) -> nat
    decreases q.len(),
{
    if q.len() == 0 {
        0
    } else {
        q[0].len() + total_bytes(q.drop_first())
    }
}

/// What is left to place: twice the bytes, plus three per argument.
pub open spec fn queue_measure(q: Seq<Seq<u8>>) -> nat {
    2 * total_bytes(q) + 3 * q.len()
}

pub proof fn lemma_total_bytes_front(a: Seq<u8>, q: Seq<Seq<u8>>)
    ensures
        total_bytes(seq![a] + q) == a.len() + total_bytes(q),
{
    assert((seq![a] + q).drop_first() =~= q);
}

/// Filling a frame adds at most one empty argument to what is left, adds
/// nothing when there is room for an argument's length, and strictly lessens
/// it when there is room for two.
pub proof fn lemma_fill_progress(q: Seq<Seq<u8>>, limit: int)
    ensures
        queue_measure(fill(q, limit).rest) <= queue_measure(q) + 3,
        limit >= 2 ==> queue_measure(fill(q, limit).rest) <= queue_measure(q),
        q.len() > 0 && limit >= 4 ==> queue_measure(fill(q, limit).rest) < queue_measure(q),
    decreases q.len(),
{
    if q.len() > 0 {
        let a = q[0];
        let l = limit - 2;
        let t = q.drop_first();
        assert(q =~= seq![a] + t);
        lemma_total_bytes_front(a, t);
        if l < 0 {
            lemma_total_bytes_front(Seq::<u8>::empty(), q);
        } else if a.len() == 0 {
            lemma_fill_progress(t, l);
        } else if a.len() > l {
            lemma_total_bytes_front(a.skip(l), t);
        } else if a.len() == l {
            lemma_total_bytes_front(Seq::<u8>::empty(), t);
        } else {
            lemma_fill_progress(t, l - a.len());
        }
    }
}

/// Room for arguments in a continuation frame.
pub open spec fn continuation_limit() -> int {
    65516
}

/// The fills of the continuation frames that place queue `q`.
pub open spec fn continuation_fills(q: Seq<Seq<u8>>) -> Seq<Fill>
    decreases queue_measure(q),
{
    if q.len() == 0 {
        Seq::empty()
    } else {
        proof {
            lemma_fill_progress(q, continuation_limit());
        }
        seq![fill(q, continuation_limit())] + continuation_fills(fill(q, continuation_limit()).rest)
    }
}

/// The fills of all frames of a message whose arguments are `q`, when its
/// first frame has `first_limit` bytes of room.
pub open spec fn message_fills(q: Seq<Seq<u8>>, first_limit: int) -> Seq<Fill> {
    seq![fill(q, first_limit)] + continuation_fills(fill(q, first_limit).rest)
}

/// A fill stores no argument as present but empty.
pub proof fn lemma_fill_normal(q: Seq<Seq<u8>>, limit: int)
    ensures
        args_normal(fill(q, limit).args),
    decreases q.len(),
{
    if q.len() > 0 {
        let a = q[0];
        let l = limit - 2;
        if l < 0 {
        } else if a.len() == 0 {
            let g = fill(q.drop_first(), l);
            lemma_fill_normal(q.drop_first(), l);
            let xs = seq![None::<Seq<u8>>] + g.args;
            assert forall|i: int| 0 <= i < xs.len() implies (#[trigger] xs[i] matches Some(b) ==> b.len() > 0) by {
                if i > 0 {
                    assert(xs[i] == g.args[i - 1]);
                }
            }
        } else if a.len() > l {
        } else if a.len() == l {
        } else {
            let g = fill(q.drop_first(), l - a.len());
            lemma_fill_normal(q.drop_first(), l - a.len());
            let xs = seq![Some(a)] + g.args;
            assert forall|i: int| 0 <= i < xs.len() implies (#[trigger] xs[i] matches Some(b) ==> b.len() > 0) by {
                if i > 0 {
                    assert(xs[i] == g.args[i - 1]);
                }
            }
        }
    }
}

/// The fills of continuation frames: each stores no argument as present but
/// empty, each after the first places what the one before left, and a
/// fill is followed by another exactly when it leaves arguments.
#[verifier::rlimit(60)]
pub proof fn lemma_continuation_fills(q: Seq<Seq<u8>>)
    ensures
        (continuation_fills(q).len() == 0) == (q.len() == 0),
        q.len() > 0 ==> continuation_fills(q)[0] == fill(q, continuation_limit()),
        forall|k: int| 0 <= k < continuation_fills(q).len() ==> args_normal(#[trigger] continuation_fills(q)[k].args),
        forall|k: int|
            0 <= k < continuation_fills(q).len() ==> ((k + 1 < continuation_fills(q).len()) <==> ((
            #[trigger] continuation_fills(q)[k]).rest.len() > 0)),
        forall|k: int|
            0 <= k < continuation_fills(q).len() - 1 ==> continuation_fills(q)[k + 1] == fill(
                (#[trigger] continuation_fills(q)[k]).rest,
                continuation_limit(),
            ),
    decreases queue_measure(q),
{
    if q.len() > 0 {
        let f = fill(q, continuation_limit());
        lemma_fill_progress(q, continuation_limit());
        lemma_fill_normal(q, continuation_limit());
        lemma_continuation_fills(f.rest);
        let cf = continuation_fills(q);
        let tail = continuation_fills(f.rest);
        assert(cf == seq![f] + tail);
        assert forall|k: int| 0 <= k < cf.len() implies args_normal(#[trigger] cf[k].args) by {
            if k > 0 {
                assert(cf[k] == tail[k - 1]);
            }
        }
        assert forall|k: int| 0 <= k < cf.len() implies ((k + 1 < cf.len()) <==> ((#[trigger] cf[k]).rest.len() > 0)) by {
            if k > 0 {
                assert(cf[k] == tail[k - 1]);
            }
        }
        assert forall|k: int| 0 <= k < cf.len() - 1 implies cf[k + 1] == fill(
            (#[trigger] cf[k]).rest,
            continuation_limit(),
        ) by {
            if k > 0 {
                assert(cf[k] == tail[k - 1]);
                assert(cf[k + 1] == tail[k]);
            }
        }
    }
}

/// The fills of all frames of a message: each stores no argument as present
/// but empty, and a frame is followed by another exactly when its fill
/// leaves arguments.
#[verifier::rlimit(60)]
pub proof fn lemma_message_fills(q: Seq<Seq<u8>>, first_limit: int)
    ensures
        message_fills(q, first_limit).len() >= 1,
        message_fills(q, first_limit)[0] == fill(q, first_limit),
        forall|k: int|
            0 <= k < message_fills(q, first_limit).len() ==> args_normal(
                #[trigger] message_fills(q, first_limit)[k].args,
            ),
        forall|k: int|
            0 <= k < message_fills(q, first_limit).len() ==> ((k + 1 < message_fills(q, first_limit).len()) <==> ((
            #[trigger] message_fills(q, first_limit)[k]).rest.len() > 0)),
{
    let f = fill(q, first_limit);
    let fs = message_fills(q, first_limit);
    let tail = continuation_fills(f.rest);
    lemma_fill_normal(q, first_limit);
    lemma_continuation_fills(f.rest);
    assert(fs[0] == f);
    assert forall|k: int| 0 <= k < fs.len() implies args_normal(#[trigger] fs[k].args) by {
        if k > 0 {
            assert(fs[k] == tail[k - 1]);
        }
    }
    assert forall|k: int| 0 <= k < fs.len() implies ((k + 1 < fs.len()) <==> ((#[trigger] fs[k]).rest.len() > 0)) by {
        if k > 0 {
            assert(fs[k] == tail[k - 1]);
        }
    }
}

/// Each continuation of a message places what the frame before it left.
#[verifier::rlimit(80)]
#[verifier::spinoff_prover]
pub proof fn lemma_message_fills_chain(q: Seq<Seq<u8>>, first_limit: int)
    ensures
        message_fills(q, first_limit)[0] == fill(q, first_limit),
        forall|k: int|
            1 <= k < message_fills(q, first_limit).len() ==> #[trigger] message_fills(q, first_limit)[k] == fill(
                message_fills(q, first_limit)[k - 1].rest,
                continuation_limit(),
            ),
{
    let f = fill(q, first_limit);
    let fs = message_fills(q, first_limit);
    let tail = continuation_fills(f.rest);
    lemma_continuation_fills(f.rest);
    assert(fs == seq![f] + tail);
    assert(fs[0] == f);
    if tail.len() > 0 {
        assert(f.rest.len() > 0);
        assert(tail[0] == fill(f.rest, continuation_limit()));
    }
    assert forall|k: int| 1 <= k < fs.len() implies #[trigger] fs[k] == fill(fs[k - 1].rest, continuation_limit()) by {
        assert(fs[k] == tail[k - 1]);
        if k > 1 {
            assert(fs[k - 1] == tail[k - 2]);
        }
    }
}

proof fn lemma_arg_list_front(x: Option<Seq<u8>>, xs: Seq<Option<Seq<u8>>>)
    ensures
        ser_arg_list(seq![x] + xs).len() == ser_arg(x).len() + ser_arg_list(xs).len(),
    decreases xs.len(),
{
    let ys = seq![x] + xs;
    if xs.len() == 0 {
        assert(ys.drop_last() =~= Seq::<Option<Seq<u8>>>::empty());
        assert(ys.last() == x);
        assert(ser_arg_list(ys) == ser_arg_list(ys.drop_last()) + ser_arg(ys.last()));
        assert(ser_arg_list(ys.drop_last()).len() == 0);
        assert(ser_arg_list(xs).len() == 0);
    } else {
        assert(ys.drop_last() =~= seq![x] + xs.drop_last());
        assert(ys.last() == xs.last());
        lemma_arg_list_front(x, xs.drop_last());
        assert(ser_arg_list(ys) == ser_arg_list(ys.drop_last()) + ser_arg(ys.last()));
        assert(ser_arg_list(xs) == ser_arg_list(xs.drop_last()) + ser_arg(xs.last()));
    }
}

/// The arguments a fill stores take at most its room.
pub proof fn lemma_fill_cost(q: Seq<Seq<u8>>, limit: int)
    ensures
        ser_arg_list(fill(q, limit).args).len() <= if limit < 0 {
            0
        } else {
            limit
        },
    decreases q.len(),
{
    lemma_be_lens(0, 0, 0);
    if q.len() == 0 {
    } else {
        let a = q[0];
        let l = limit - 2;
        let t = q.drop_first();
        if l < 0 {
        } else if a.len() == 0 {
            let g = fill(t, l);
            lemma_fill_cost(t, l);
            lemma_arg_list_front(None, g.args);
        } else if a.len() > l {
            let x: Option<Seq<u8>> = if l == 0 { None } else { Some(a.take(l)) };
            lemma_be_lens(l as u16, 0, 0);
            lemma_arg_list_front(x, Seq::empty());
            assert(seq![x] + Seq::<Option<Seq<u8>>>::empty() =~= seq![x]);
        } else if a.len() == l {
            lemma_be_lens(l as u16, 0, 0);
            lemma_arg_list_front(Some(a), Seq::empty());
            assert(seq![Some(a)] + Seq::<Option<Seq<u8>>>::empty() =~= seq![Some(a)]);
        } else {
            let g = fill(t, l - a.len());
            lemma_fill_cost(t, l - a.len());
            lemma_be_lens(a.len() as u16, 0, 0);
            lemma_arg_list_front(Some(a), g.args);
        }
    }
}

/// What the `k`-th fill of a message places, and with how much room: the
/// message's arguments in the first frame, what the fill before left in
/// each continuation.
pub open spec fn fill_input(q: Seq<Seq<u8>>, first_limit: int, k: int) -> (Seq<Seq<u8>>, int) {
    if k == 0 {
        (q, first_limit)
    } else {
        (message_fills(q, first_limit)[k - 1].rest, continuation_limit())
    }
}

/// Every frame a message is split into fits the largest frame length, as
/// long as its fields leave room in the first frame.
#[verifier::rlimit(80)]
pub proof fn lemma_frame_sizes(q: Seq<Seq<u8>>, fields: Seq<u8>, first_type: Type, continuation_type: Type)
    requires
        fields.len() <= 65516,
    ensures
        forall|k: int|
            0 <= k < message_fills(q, payload_limit_spec(fields.len() as int) - 1).len() ==> #[trigger] fill_frame(
                message_fills(q, payload_limit_spec(fields.len() as int) - 1),
                k,
                fields,
                first_type,
                continuation_type,
            ).payload.len() + FRAME_HEADER_LENGTH <= FRAME_MAX_LENGTH,
{
    let first_limit = payload_limit_spec(fields.len() as int) - 1;
    let fs = message_fills(q, first_limit);
    lemma_message_fills_chain(q, first_limit);
    assert forall|k: int| 0 <= k < fs.len() implies #[trigger] fill_frame(fs, k, fields, first_type, continuation_type).payload.len()
        + FRAME_HEADER_LENGTH <= FRAME_MAX_LENGTH by {
        let (qk, lk) = fill_input(q, first_limit, k);
        assert(fs[k] == fill(qk, lk));
        lemma_fill_cost(qk, lk);
        let ca = fill_call_args(fs[k]);
        assert(ser_call_args(ca).len() == 1 + ser_arg_list(fs[k].args).len());
        if k > 0 {
            let c = CallContinueView { flags: fill_flags(fs[k]), args: ca };
            assert(ser_call_continue(c).len() == 1 + ser_call_args(ca).len());
        }
    }
}

/// The flags of the frame that a fill makes.
pub open spec fn fill_flags(f: Fill) -> Flags {
    if f.rest.len() == 0 {
        Flags::NONE
    } else {
        Flags::MORE_FRAGMENTS_FOLLOW
    }
}

/// Checksum and arguments of the frame that a fill makes.
pub open spec fn fill_call_args(f: Fill) -> CallArgsView {
    CallArgsView { checksum_type: ChecksumType::NoChecksum, checksum: None, args: f.args }
}

/// The frame that the `k`-th fill makes: the first carries the encoded
/// fields, the others are continuations.
pub open spec fn fill_frame(fs: Seq<Fill>, k: int, fields: Seq<u8>, first_type: Type, continuation_type: Type) -> FrameView {
    if k == 0 {
        FrameView {
            frame_type: first_type,
            payload: ser_with_fields(fill_flags(fs[0]), fields, fill_call_args(fs[0])),
        }
    } else {
        FrameView {
            frame_type: continuation_type,
            payload: ser_call_continue(CallContinueView { flags: fill_flags(fs[k]), args: fill_call_args(fs[k]) }),
        }
    }
}

/// The message of the error for the first frame whose arguments cannot be
/// encoded.
pub open spec fn fills_error_message(fs: Seq<Fill>) -> Seq<char>
    decreases fs.len(),
{
    if fs.len() == 0 {
        Seq::empty()
    } else if !call_args_fit(fill_call_args(fs[0])) {
        call_args_error_message(fill_call_args(fs[0]))
    } else {
        fills_error_message(fs.drop_first())
    }
}

/// Frames whose arguments can be encoded do not decide the error.
proof fn lemma_fills_error_skip(fs: Seq<Fill>, k: int)
    requires
        0 <= k <= fs.len(),
        forall|j: int| 0 <= j < k ==> call_args_fit(fill_call_args(#[trigger] fs[j])),
    ensures
        fills_error_message(fs) == fills_error_message(fs.skip(k)),
    decreases k,
{
    if k > 0 {
        let t = fs.drop_first();
        assert(call_args_fit(fill_call_args(fs[0])));
        assert forall|j: int| 0 <= j < k - 1 implies call_args_fit(fill_call_args(#[trigger] t[j])) by {
            assert(t[j] == fs[j + 1]);
        }
        lemma_fills_error_skip(t, k - 1);
        assert(t.skip(k - 1) =~= fs.skip(k));
    } else {
        assert(fs.skip(0) =~= fs);
    }
}

/// Whether every frame's arguments can be encoded.
pub open spec fn fills_fit(fs: Seq<Fill>) -> bool {
    forall|k: int| 0 <= k < fs.len() ==> call_args_fit(fill_call_args(#[trigger] fs[k]))
}

/// Room left in the first frame once the fields are in: a frame's largest
/// size, less its header, its flags byte and the fields.
pub open spec fn payload_limit_spec(fields_len: int) -> int {
    65534 - 16 - 1 - fields_len
}

/// Room left in a frame once its fields are in.
pub fn calculate_payload_limit(fields_len: usize) -> (n: usize)
    requires
        fields_len <= 65517,
    ensures
        n == payload_limit_spec(fields_len as int),
{
    //64KiB max frame size - header size -1 (flag) - serialized fields size
    FRAME_MAX_LENGTH as usize - FRAME_HEADER_LENGTH as usize - 1 - fields_len
}

/// Tracing information of outgoing calls: all zero.
pub fn create_tracing() -> (t: Tracing)
    ensures
        t == (Tracing { span_id: 0, parent_id: 0, trace_id: 0, trace_flags: TraceFlags::NONE }),
{
    Tracing::new(0, 0, 0, TraceFlags::NONE)
}

/// The checksum of frame arguments; only the absence of a checksum is supported.
pub fn calculate_checksum(_args: &Vec<Option<Vec<u8>>>, csum_type: ChecksumType) -> (c: Option<u32>)
    requires
        csum_type == ChecksumType::NoChecksum,
    ensures
        c is None,
{
    None
}

/// Splits the arguments of a message into frames.
#[derive(Debug)]
pub struct Fragmenter {
    service_name: String,
    arg_scheme: ArgSchemeValue,
    args_fragmenter: ArgsFragmenter,
}

/// The transport headers of a call from `service` with arguments encoded by `scheme`.
pub open spec fn call_headers(scheme: Seq<char>, service: Seq<char>) -> Seq<(Seq<char>, Seq<char>)> {
    insert_entry(insert_entry(Seq::empty(), "as"@, scheme), "cn"@, service)
}

impl Fragmenter {
    /// The service name.
    pub closed spec fn service(&self) -> Seq<char> {
        self.service_name@
    }

    /// The argument scheme.
    pub closed spec fn scheme(&self) -> Seq<char> {
        arg_scheme_text(self.arg_scheme@)
    }

    /// The arguments waiting to be placed.
    pub closed spec fn queue(&self) -> Seq<Seq<u8>> {
        self.args_fragmenter@
    }

    /// A fragmenter for the arguments of `args`, sent from `service_name`.
    pub fn new(service_name: String, args: MessageArgs) -> (f: Fragmenter)
        ensures
            f.service() == service_name@,
            f.scheme() == arg_scheme_text(args.arg_scheme@),
            f.queue() == args@.args,
    {
        let f = Fragmenter {
            service_name,
            arg_scheme: args.arg_scheme,
            args_fragmenter: ArgsFragmenter::new(args.args),
        };
        assert(queue_view(args.args@) =~= args@.args);
        f
    }

    /// The transport headers of the call: its argument scheme and caller name.
    pub fn create_headers(&self) -> (h: Headers)
        ensures
            headers_text(h@) == call_headers(self.scheme(), self.service()),
            keys_distinct(h@),
            h@.len() <= 2,
    {
        let mut headers: Headers = NameMap::new();
        assert(headers_text(headers@) =~= Seq::<(Seq<char>, Seq<char>)>::empty());
        let k1: String = TransportHeaderKey::ArgScheme.to_string();
        let v1: String = self.arg_scheme.to_string();
        proof {
            lemma_text_insert(headers@, k1, v1);
        }
        headers.insert(k1, v1);
        let k2: String = TransportHeaderKey::CallerName.to_string();
        let v2: String = self.service_name.clone();
        proof {
            lemma_text_insert(headers@, k2, v2);
        }
        headers.insert(k2, v2);
        headers
    }

    /// Whether the frame being made is followed by more.
    fn current_frame_flag(&self) -> (f: Flags)
        ensures
            f == (if self.queue().len() == 0 { Flags::NONE } else { Flags::MORE_FRAGMENTS_FOLLOW }),
    {
        if self.args_fragmenter.is_empty() {
            Flags::NONE
        } else {
            Flags::MORE_FRAGMENTS_FOLLOW
        }
    }

    fn next_frame_args_vec(&mut self, payload_limit: usize, checksum_type: ChecksumType) -> (r: Vec<
        Option<Vec<u8>>,
    >)
        requires
            payload_limit <= 65536,
        ensures
            frame_args_view(r@) == fill(old(self).queue(), payload_limit - checksum_len_spec(checksum_type)).args,
            final(self).queue() == fill(old(self).queue(), payload_limit - checksum_len_spec(checksum_type)).rest,
            final(self).service() == old(self).service(),
            final(self).scheme() == old(self).scheme(),
    {
        let remaining_limit: i64 = payload_limit as i64 - checksum_len(checksum_type) as i64;
        self.args_fragmenter.next_frame_args_vec(remaining_limit)
    }

    /// The checksum and arguments of the next frame.
    fn next_frame_args(&mut self, payload_limit: usize) -> (r: CallArgs)
        requires
            payload_limit <= 65536,
        ensures
            r@ == fill_call_args(fill(old(self).queue(), payload_limit - 1)),
            final(self).queue() == fill(old(self).queue(), payload_limit - 1).rest,
            final(self).service() == old(self).service(),
            final(self).scheme() == old(self).scheme(),
    {
        let checksum_type: ChecksumType = ChecksumType::NoChecksum;
        let frame_args: Vec<Option<Vec<u8>>> = self.next_frame_args_vec(payload_limit, checksum_type);
        let checksum: Option<u32> = calculate_checksum(&frame_args, checksum_type);
        let r = CallArgs::new(checksum_type, checksum, frame_args);
        assert(r@.args == frame_args_view(frame_args@));
        r
    }

    /// The frames of the message: the first, of type `first_type`, carries
    /// the encoded `fields`; continuations of type `continuation_type` carry
    /// what did not fit. All but the last frame say that more follow.
    #[verifier::loop_isolation(false)]
    pub fn create_frames(self, fields_bytes: Vec<u8>, first_type: Type, continuation_type: Type) -> (r:
        Result<Vec<TFrame>, TChannelError>)
        requires
            fields_bytes@.len() <= 65517,
        ensures
            ({
                let fs = message_fills(self.queue(), payload_limit_spec(fields_bytes@.len() as int) - 1);
                &&& r is Ok <==> fills_fit(fs)
                &&& r matches Err(e) ==> e matches TChannelError::CodecError(CodecError::Error(m)) && m@
                    == fills_error_message(fs)
                &&& r matches Ok(frames) ==> {
                    &&& frames@.len() == fs.len()
                    &&& forall|k: int| 0 <= k < fs.len() ==> #[trigger] frames@[k]@ == fill_frame(
                        fs,
                        k,
                        fields_bytes@,
                        first_type,
                        continuation_type,
                    )
                }
            }),
    {
        let ghost q0 = self.queue();
        let mut this = self;
        let ghost fields = fields_bytes@;
        let ghost first_limit = payload_limit_spec(fields_bytes@.len() as int) - 1;
        let ghost fs = message_fills(q0, first_limit);
        let payload_limit: usize = calculate_payload_limit(fields_bytes.len());
        let frame_args: CallArgs = this.next_frame_args(payload_limit);
        let flag: Flags = this.current_frame_flag();
        let mut frames: Vec<TFrame> = Vec::new();
        let call_request = CallWithFieldsEncoded::new(flag, fields_bytes, frame_args);
        assert(fs[0] == fill(q0, first_limit));
        let first_payload: Vec<u8> = match call_request.encode_bytes() {
            Ok(b) => b,
            Err(e) => {
                assert(!call_args_fit(fill_call_args(fs[0])));
                assert(call_request.args@ == fill_call_args(fs[0]));
                return Err(TChannelError::CodecError(e));
            },
        };
        frames.push(TFrame::new(first_type, first_payload));
        proof {
            assert(fs.skip(1) =~= continuation_fills(fs[0].rest));
        }
        let mut k: usize = 1;
        while !this.args_fragmenter.is_empty()
            invariant
                1 <= k <= fs.len(),
                frames@.len() == k,
                fs == message_fills(q0, first_limit),
                continuation_fills(this.queue()) == fs.skip(k as int),
                forall|j: int| 0 <= j < k ==> #[trigger] frames@[j]@ == fill_frame(
                    fs,
                    j,
                    fields,
                    first_type,
                    continuation_type,
                ),
                forall|j: int| 0 <= j < k ==> call_args_fit(fill_call_args(#[trigger] fs[j])),
            decreases queue_measure(this.queue()),
        {
            let ghost q = this.queue();
            proof {
                lemma_fill_progress(q, continuation_limit());
                assert(q.len() > 0);
                assert(continuation_fills(q) == seq![fill(q, continuation_limit())] + continuation_fills(
                    fill(q, continuation_limit()).rest,
                ));
                let sk = fs.skip(k as int);
                assert(sk[0] == fill(q, continuation_limit()));
                assert(k < fs.len());
                assert(sk[0] == fs[k as int]);
                assert(fs[k as int] == fill(q, continuation_limit()));
                assert(sk.drop_first() =~= continuation_fills(fill(q, continuation_limit()).rest));
                assert(fs.skip(k + 1) =~= sk.drop_first());
            }
            let payload_limit: usize = calculate_payload_limit(0);
            let frame_args: CallArgs = this.next_frame_args(payload_limit);
            let flag: Flags = this.current_frame_flag();
            let call_continue = CallContinue::new(flag, frame_args);
            let payload: Vec<u8> = match call_continue.encode_bytes() {
                Ok(b) => b,
                Err(e) => {
                    assert(call_continue.args@ == fill_call_args(fs[k as int]));
                    assert(!call_args_fit(fill_call_args(fs[k as int])));
                    assert(!fills_fit(fs));
                    proof {
                        lemma_fills_error_skip(fs, k as int);
                        assert(fs.skip(k as int)[0] == fs[k as int]);
                    }
                    return Err(TChannelError::CodecError(e));
                },
            };
            frames.push(TFrame::new(continuation_type, payload));
            k = frames.len();
        }
        proof {
            assert(continuation_fills(this.queue()).len() == 0);
            assert(k == fs.len());
        }
        Ok(frames)
    }
}

proof fn lemma_text_insert(es: Seq<(Seq<char>, String)>, k: String, v: String)
    requires
        keys_distinct(es),
    ensures
        headers_text(insert_entry(es, k@, v)) == insert_entry(headers_text(es), k@, v@),
{
    crate::frames::payloads::lemma_headers_text_insert(es, k, v);
}

/// The fields of a call request sent from `service` with arguments encoded
/// by `scheme`: a ttl of a minute, no tracing, and the call headers.
pub open spec fn request_fields_spec(scheme: Seq<char>, service: Seq<char>) -> RequestFieldsView {
    RequestFieldsView {
        ttl: 60000,
        tracing: Tracing { span_id: 0, parent_id: 0, trace_id: 0, trace_flags: TraceFlags::NONE },
        service,
        headers: call_headers(scheme, service),
    }
}

/// The fields of a call response with code `code`, sent from `service` with
/// arguments encoded by `scheme`.
pub open spec fn response_fields_spec(code: ResponseCode, scheme: Seq<char>, service: Seq<char>) -> ResponseFieldsView {
    ResponseFieldsView {
        code,
        tracing: Tracing { span_id: 0, parent_id: 0, trace_id: 0, trace_flags: TraceFlags::NONE },
        headers: call_headers(scheme, service),
    }
}

/// A small string that fits takes at most 256 bytes.
proof fn lemma_small_string_len(v: Seq<char>)
    requires
        string_fits(v, true),
    ensures
        ser_string(v, true).len() <= 256,
{
}

/// Small header entries that fit take at most 512 bytes each.
proof fn lemma_small_pairs_len(es: Seq<(Seq<char>, Seq<char>)>)
    requires
        forall|i: int| 0 <= i < es.len() ==> string_fits(#[trigger] es[i].0, true) && string_fits(es[i].1, true),
    ensures
        ser_pairs(es, true).len() <= 512 * es.len(),
    decreases es.len(),
{
    if es.len() > 0 {
        let t = es.drop_last();
        assert forall|i: int| 0 <= i < t.len() implies string_fits(#[trigger] t[i].0, true) && string_fits(t[i].1, true) by {
            assert(t[i] == es[i]);
        }
        lemma_small_pairs_len(t);
        assert(string_fits(es[es.len() - 1].0, true));
        lemma_small_string_len(es.last().0);
        lemma_small_string_len(es.last().1);
    }
}

/// Fields with at most two headers, all fitting, take at most 1310 bytes.
pub proof fn lemma_request_fields_len(f: RequestFieldsView)
    requires
        request_fields_fit(f),
        f.headers.len() <= 2,
    ensures
        ser_request_fields(f).len() <= 1310,
{
    lemma_small_string_len(f.service);
    lemma_small_pairs_len(f.headers);
}

/// Response fields with at most two headers, all fitting, take at most 1051 bytes.
pub proof fn lemma_response_fields_len(f: ResponseFieldsView)
    requires
        headers_fit(f.headers, true),
        f.headers.len() <= 2,
    ensures
        ser_response_fields(f).len() <= 1051,
{
    lemma_small_pairs_len(f.headers);
}

/// Whether `r` is the outcome of splitting a request from `service`, with
/// arguments `q` encoded by `scheme`, into frames: the frames of the fills
/// of `q`, when the fields and every frame's arguments can be encoded, and
/// otherwise the error that says which cannot.
pub open spec fn request_frames(service: Seq<char>, scheme: Seq<char>, q: Seq<Seq<u8>>, r: Result<
    Vec<TFrame>,
    TChannelError,
>) -> bool {
    let fields = request_fields_spec(scheme, service);
    let fs = message_fills(q, payload_limit_spec(ser_request_fields(fields).len() as int) - 1);
    &&& r is Ok <==> request_fields_fit(fields) && fills_fit(fs)
    &&& r matches Err(e) ==> e matches TChannelError::CodecError(CodecError::Error(m)) && m@ == if !request_fields_fit(
        fields,
    ) {
        request_fields_error_message(fields)
    } else {
        fills_error_message(fs)
    }
    &&& r matches Ok(frames) ==> {
        &&& frames@.len() == fs.len()
        &&& forall|k: int|
            0 <= k < fs.len() ==> #[trigger] frames@[k]@ == fill_frame(
                fs,
                k,
                ser_request_fields(fields),
                Type::CallRequest,
                Type::CallRequestContinue,
            )
    }
}

/// Every frame a request is split into fits the largest frame length.
pub proof fn lemma_request_frame_sizes(service: Seq<char>, scheme: Seq<char>, q: Seq<Seq<u8>>, r: Result<
    Vec<TFrame>,
    TChannelError,
>)
    requires
        request_frames(service, scheme, q, r),
    ensures
        r matches Ok(frames) ==> forall|k: int|
            0 <= k < frames@.len() ==> #[trigger] frames@[k]@.payload.len() + FRAME_HEADER_LENGTH <= FRAME_MAX_LENGTH,
{
    let fields = request_fields_spec(scheme, service);
    if r is Ok {
        let e: Seq<(Seq<char>, Seq<char>)> = Seq::empty();
        lemma_insert_distinct(e, "as"@, scheme);
        lemma_insert_distinct(insert_entry(e, "as"@, scheme), "cn"@, service);
        lemma_request_fields_len(fields);
        lemma_frame_sizes(q, ser_request_fields(fields), Type::CallRequest, Type::CallRequestContinue);
    }
}

/// What a fill places and leaves, counted: no more arguments than it was
/// given, at most one more left (the closing empty argument), and, with
/// room for an argument's length, at least one placed and no more left.
/// No placed piece is longer than the room.
proof fn lemma_fill_counts(q: Seq<Seq<u8>>, limit: int)
    ensures
        fill(q, limit).args.len() <= q.len(),
        fill(q, limit).rest.len() <= q.len() + 1,
        limit >= 2 && q.len() > 0 ==> fill(q, limit).args.len() >= 1 && fill(q, limit).rest.len() <= q.len(),
        forall|i: int|
            0 <= i < fill(q, limit).args.len() ==> (#[trigger] fill(q, limit).args[i] matches Some(b) ==> b.len()
                <= limit),
    decreases q.len(),
{
    if q.len() > 0 {
        let f = fill(q, limit);
        let a = q[0];
        let l = limit - 2;
        let t = q.drop_first();
        if l < 0 {
        } else if a.len() == 0 {
            let g = fill(t, l);
            lemma_fill_counts(t, l);
            assert forall|i: int| 0 <= i < f.args.len() implies (#[trigger] f.args[i] matches Some(b) ==> b.len()
                <= limit) by {
                if i > 0 {
                    assert(f.args[i] == g.args[i - 1]);
                }
            }
        } else if a.len() > l {
        } else if a.len() == l {
        } else {
            let g = fill(t, l - a.len());
            lemma_fill_counts(t, l - a.len());
            assert forall|i: int| 0 <= i < f.args.len() implies (#[trigger] f.args[i] matches Some(b) ==> b.len()
                <= limit) by {
                if i > 0 {
                    assert(f.args[i] == g.args[i - 1]);
                }
            }
        }
    }
}

/// Each fill of a message of one to three arguments places one to three
/// arguments from one to three queued ones, with room of at least two.
proof fn lemma_fill_inputs(q: Seq<Seq<u8>>, first_limit: int, k: int)
    requires
        1 <= q.len() <= 3,
        2 <= first_limit <= continuation_limit(),
        0 <= k < message_fills(q, first_limit).len(),
    ensures
        1 <= fill_input(q, first_limit, k).0.len() <= 3,
        2 <= fill_input(q, first_limit, k).1 <= continuation_limit(),
        message_fills(q, first_limit)[k] == fill(fill_input(q, first_limit, k).0, fill_input(q, first_limit, k).1),
    decreases k,
{
    let fs = message_fills(q, first_limit);
    lemma_message_fills(q, first_limit);
    lemma_message_fills_chain(q, first_limit);
    if k > 0 {
        lemma_fill_inputs(q, first_limit, k - 1);
        let (qp, lp) = fill_input(q, first_limit, k - 1);
        lemma_fill_counts(qp, lp);
        assert(fs[k - 1].rest.len() > 0);
        assert(fs[k] == fill(fs[k - 1].rest, continuation_limit()));
    }
}

/// Every frame of a message of one to three arguments can be encoded, as
/// long as its first frame has room for an argument's length.
pub proof fn lemma_message_fills_fit(q: Seq<Seq<u8>>, first_limit: int)
    requires
        1 <= q.len() <= 3,
        2 <= first_limit <= continuation_limit(),
    ensures
        fills_fit(message_fills(q, first_limit)),
{
    let fs = message_fills(q, first_limit);
    assert forall|k: int| 0 <= k < fs.len() implies call_args_fit(fill_call_args(#[trigger] fs[k])) by {
        lemma_fill_inputs(q, first_limit, k);
        let (qk, lk) = fill_input(q, first_limit, k);
        lemma_fill_counts(qk, lk);
        let args = fs[k].args;
        assert forall|i: int| 0 <= i < args.len() implies (#[trigger] args[i] matches Some(b) ==> b.len()
            <= 65535) by {
            assert(args[i] == fill(qk, lk).args[i]);
        }
    }
}

/// A request of one to three arguments whose fields can be encoded is
/// always split into frames.
pub proof fn lemma_request_frames_ok(service: Seq<char>, scheme: Seq<char>, q: Seq<Seq<u8>>, r: Result<
    Vec<TFrame>,
    TChannelError,
>)
    requires
        request_frames(service, scheme, q, r),
        request_fields_fit(request_fields_spec(scheme, service)),
        1 <= q.len() <= 3,
    ensures
        r is Ok,
{
    let fields = request_fields_spec(scheme, service);
    let e: Seq<(Seq<char>, Seq<char>)> = Seq::empty();
    lemma_insert_distinct(e, "as"@, scheme);
    lemma_insert_distinct(insert_entry(e, "as"@, scheme), "cn"@, service);
    lemma_request_fields_len(fields);
    lemma_message_fills_fit(q, payload_limit_spec(ser_request_fields(fields).len() as int) - 1);
}

/// A response of one to three arguments whose headers can be encoded is
/// always split into frames.
pub proof fn lemma_response_frames_ok(
    code: ResponseCode,
    service: Seq<char>,
    scheme: Seq<char>,
    q: Seq<Seq<u8>>,
    r: Result<Vec<TFrame>, TChannelError>,
)
    requires
        response_frames_of(code, service, scheme, q, r),
        headers_fit(response_fields_spec(code, scheme, service).headers, true),
        1 <= q.len() <= 3,
    ensures
        r is Ok,
{
    let fields = response_fields_spec(code, scheme, service);
    let e: Seq<(Seq<char>, Seq<char>)> = Seq::empty();
    lemma_insert_distinct(e, "as"@, scheme);
    lemma_insert_distinct(insert_entry(e, "as"@, scheme), "cn"@, service);
    lemma_response_fields_len(fields);
    lemma_message_fills_fit(q, payload_limit_spec(ser_response_fields(fields).len() as int) - 1);
}

/// Splits the arguments of a call request into frames.
#[derive(Debug)]
pub struct RequestFragmenter {
    fragmenter: Fragmenter,
}

impl RequestFragmenter {
    /// The service name.
    pub closed spec fn service(&self) -> Seq<char> {
        self.fragmenter.service()
    }

    /// The argument scheme.
    pub closed spec fn scheme(&self) -> Seq<char> {
        self.fragmenter.scheme()
    }

    /// The arguments to send.
    pub closed spec fn queue(&self) -> Seq<Seq<u8>> {
        self.fragmenter.queue()
    }

    /// A fragmenter for a request from `service_name` with arguments `args`.
    pub fn new(service_name: String, args: MessageArgs) -> (f: RequestFragmenter)
        ensures
            f.service() == service_name@,
            f.scheme() == arg_scheme_text(args.arg_scheme@),
            f.queue() == args@.args,
    {
        let fragmenter = Fragmenter::new(service_name, args);
        RequestFragmenter { fragmenter }
    }

    /// The frames of the request: a call request frame, then continuations.
    pub fn create_frames(self) -> (r: Result<Vec<TFrame>, TChannelError>)
        ensures
            request_frames(self.service(), self.scheme(), self.queue(), r),
    {
        let fields: CallRequestFields = self.create_fields();
        let fields_bytes: Vec<u8> = match fields.encode_bytes() {
            Ok(b) => b,
            Err(e) => return Err(TChannelError::CodecError(e)),
        };
        proof {
            lemma_request_fields_len(fields@);
        }
        self.fragmenter.create_frames(fields_bytes, Type::CallRequest, Type::CallRequestContinue)
    }

    fn create_fields(&self) -> (f: CallRequestFields)
        ensures
            f@ == request_fields_spec(self.scheme(), self.service()),
            f@.headers.len() <= 2,
    {
        let tracing: Tracing = create_tracing();
        let headers: Headers = self.create_headers();
        CallRequestFields::new(60_000, tracing, self.fragmenter.service_name.clone(), headers)
    }

    fn create_headers(&self) -> (h: Headers)
        ensures
            headers_text(h@) == call_headers(self.scheme(), self.service()),
            h@.len() <= 2,
    {
        self.fragmenter.create_headers()
    }
}

/// The message of the error for a response whose fields or frames cannot
/// be encoded.
pub open spec fn response_error_message(fields: ResponseFieldsView, fs: Seq<Fill>) -> Seq<char> {
    if !headers_fit(fields.headers, true) {
        headers_error_message(fields.headers, true)
    } else {
        fills_error_message(fs)
    }
}

/// Whether `r` is the outcome of splitting a response with `code` from
/// `service`, with arguments `q` encoded by `scheme`, into frames: the
/// frames of the fills of `q`, when the headers and every frame's arguments
/// can be encoded, and otherwise the error that says which cannot.
pub open spec fn response_frames_of(code: ResponseCode, service: Seq<char>, scheme: Seq<char>, q: Seq<Seq<u8>>, r: Result<
    Vec<TFrame>,
    TChannelError,
>) -> bool {
    let fields = response_fields_spec(code, scheme, service);
    let fs = message_fills(q, payload_limit_spec(ser_response_fields(fields).len() as int) - 1);
    &&& r is Ok <==> headers_fit(fields.headers, true) && fills_fit(fs)
    &&& r matches Err(e) ==> e matches TChannelError::CodecError(CodecError::Error(m)) && m@ == response_error_message(
        fields,
        fs,
    )
    &&& r matches Ok(frames) ==> {
        &&& frames@.len() == fs.len()
        &&& forall|k: int|
            0 <= k < fs.len() ==> #[trigger] frames@[k]@ == fill_frame(
                fs,
                k,
                ser_response_fields(fields),
                Type::CallResponse,
                Type::CallResponseContinue,
            )
    }
}

/// Every frame a response is split into fits the largest frame length.
pub proof fn lemma_response_frame_sizes(
    code: ResponseCode,
    service: Seq<char>,
    scheme: Seq<char>,
    q: Seq<Seq<u8>>,
    r: Result<Vec<TFrame>, TChannelError>,
)
    requires
        response_frames_of(code, service, scheme, q, r),
    ensures
        r matches Ok(frames) ==> forall|k: int|
            0 <= k < frames@.len() ==> #[trigger] frames@[k]@.payload.len() + FRAME_HEADER_LENGTH <= FRAME_MAX_LENGTH,
{
    let fields = response_fields_spec(code, scheme, service);
    if r is Ok {
        let e: Seq<(Seq<char>, Seq<char>)> = Seq::empty();
        lemma_insert_distinct(e, "as"@, scheme);
        lemma_insert_distinct(insert_entry(e, "as"@, scheme), "cn"@, service);
        lemma_response_fields_len(fields);
        lemma_frame_sizes(q, ser_response_fields(fields), Type::CallResponse, Type::CallResponseContinue);
    }
}

/// Splits the arguments of a call response into frames.
#[derive(Debug)]
pub struct ResponseFragmenter {
    fragmenter: Fragmenter,
    response_code: ResponseCode,
}

impl ResponseFragmenter {
    /// The service name.
    pub closed spec fn service(&self) -> Seq<char> {
        self.fragmenter.service()
    }

    /// The argument scheme.
    pub closed spec fn scheme(&self) -> Seq<char> {
        arg_scheme_text(self.fragmenter.arg_scheme@)
    }

    /// The arguments to send.
    pub closed spec fn queue(&self) -> Seq<Seq<u8>> {
        self.fragmenter.queue()
    }

    /// The response code.
    pub closed spec fn code(&self) -> ResponseCode {
        self.response_code
    }

    /// A fragmenter for a response from `service_name` with code
    /// `response_code` and arguments `args`.
    pub fn new(service_name: &String, response_code: ResponseCode, args: MessageArgs) -> (f: ResponseFragmenter)
        ensures
            f.service() == service_name@,
            f.scheme() == arg_scheme_text(args.arg_scheme@),
            f.queue() == args@.args,
            f.code() == response_code,
    {
        ResponseFragmenter { fragmenter: Fragmenter::new(service_name.clone(), args), response_code }
    }

    /// The frames of the response: a call response frame, then continuations.
    pub fn create_frames(self) -> (r: Result<Vec<TFrame>, TChannelError>)
        ensures
            response_frames_of(self.code(), self.service(), self.scheme(), self.queue(), r),
    {
        let fields: CallResponseFields = self.create_response_fields();
        let mut bytes: Vec<u8> = Vec::new();
        match fields.encode(&mut bytes) {
            Ok(()) => {},
            Err(e) => return Err(TChannelError::CodecError(e)),
        }
        proof {
            lemma_response_fields_len(fields@);
        }
        self.fragmenter.create_frames(bytes, Type::CallResponse, Type::CallResponseContinue)
    }

    fn create_response_fields(&self) -> (f: CallResponseFields)
        ensures
            f@ == response_fields_spec(self.code(), self.scheme(), self.service()),
            f@.headers.len() <= 2,
    {
        let tracing: Tracing = create_tracing();
        let headers: Headers = self.create_headers();
        CallResponseFields::new(self.response_code, tracing, headers)
    }

    fn create_headers(&self) -> (h: Headers)
        ensures
            headers_text(h@) == call_headers(self.scheme(), self.service()),
            h@.len() <= 2,
    {
        self.fragmenter.create_headers()
    }
}

} // verus!

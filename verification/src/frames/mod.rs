//! Frames: the unit of transport, and their codec.
pub mod headers;
pub mod payloads;

use crate::errors::CodecError;
use crate::text::{concat2, decimal, decimal_text, owned};
use crate::wire::{be16, be32, copy_range, get_u16, get_u32, lemma_read16, lemma_read32, put_slice, put_u16, put_u32, put_u8, read16, read32};
use vstd::prelude::*;

verus! {

/// Length of a frame's header: size, type, a reserved byte, id and eight reserved bytes.
pub const FRAME_HEADER_LENGTH: u16 = 16;

/// Largest size of a whole frame.
pub const FRAME_MAX_LENGTH: u16 = 65534;

/// The value of reserved bytes.
pub const ZERO: u8 = 0;

/// Kinds of frames.
#[derive(Debug, Clone, Copy, PartialEq, Eq, Structural)]
pub enum Type {
    /// First message on every connection must be init.
    InitRequest,
    /// Remote response to init req.
    InitResponse,
    /// RPC method request.
    CallRequest,
    /// RPC method response.
    CallResponse,
    /// RPC request continuation fragment.
    CallRequestContinue,
    /// RPC response continuation fragment.
    CallResponseContinue,
    /// Cancel an outstanding call req / forward req (no body).
    Cancel,
    /// Claim / cancel a redundant request.
    Claim,
    /// Protocol level ping req (no body).
    PingRequest,
    /// Ping res (no body).
    PingResponse,
    /// Protocol level error.
    Error,
}

/// The wire code of a frame type.
pub open spec fn type_code(t: Type) -> u8 {
    match t {
        Type::InitRequest => 0x01,
        Type::InitResponse => 0x02,
        Type::CallRequest => 0x03,
        Type::CallResponse => 0x04,
        Type::CallRequestContinue => 0x13,
        Type::CallResponseContinue => 0x14,
        Type::Cancel => 0xc0,
        Type::Claim => 0xc1,
        Type::PingRequest => 0xd0,
        Type::PingResponse => 0xd1,
        Type::Error => 0xff,
    }
}

/// The frame type with wire code `b`.
pub open spec fn type_of_code(b: u8) -> Option<Type> {
    if b == 0x01 {
        Some(Type::InitRequest)
    } else if b == 0x02 {
        Some(Type::InitResponse)
    } else if b == 0x03 {
        Some(Type::CallRequest)
    } else if b == 0x04 {
        Some(Type::CallResponse)
    } else if b == 0x13 {
        Some(Type::CallRequestContinue)
    } else if b == 0x14 {
        Some(Type::CallResponseContinue)
    } else if b == 0xc0 {
        Some(Type::Cancel)
    } else if b == 0xc1 {
        Some(Type::Claim)
    } else if b == 0xd0 {
        Some(Type::PingRequest)
    } else if b == 0xd1 {
        Some(Type::PingResponse)
    } else if b == 0xff {
        Some(Type::Error)
    } else {
        None
    }
}

/// The name of a frame type.
pub open spec fn frame_type_name(t: Type) -> Seq<char> {
    match t {
        Type::InitRequest => "InitRequest"@,
        Type::InitResponse => "InitResponse"@,
        Type::CallRequest => "CallRequest"@,
        Type::CallResponse => "CallResponse"@,
        Type::CallRequestContinue => "CallRequestContinue"@,
        Type::CallResponseContinue => "CallResponseContinue"@,
        Type::Cancel => "Cancel"@,
        Type::Claim => "Claim"@,
        Type::PingRequest => "PingRequest"@,
        Type::PingResponse => "PingResponse"@,
        Type::Error => "Error"@,
    }
}

/// Every type's code gives the type back.
pub proof fn lemma_type_code(t: Type)
    ensures
        type_of_code(type_code(t)) == Some(t),
{
}

impl Type {
    /// The wire code of the type.
    pub fn to_u8(&self) -> (b: u8)
        ensures
            b == type_code(*self),
    {
        match self {
            Type::InitRequest => 0x01,
            Type::InitResponse => 0x02,
            Type::CallRequest => 0x03,
            Type::CallResponse => 0x04,
            Type::CallRequestContinue => 0x13,
            Type::CallResponseContinue => 0x14,
            Type::Cancel => 0xc0,
            Type::Claim => 0xc1,
            Type::PingRequest => 0xd0,
            Type::PingResponse => 0xd1,
            Type::Error => 0xff,
        }
    }

    /// The type with wire code `b`.
    pub fn from_u8(b: u8) -> (t: Option<Type>)
        ensures
            t == type_of_code(b),
    {
        if b == 0x01 {
            Some(Type::InitRequest)
        } else if b == 0x02 {
            Some(Type::InitResponse)
        } else if b == 0x03 {
            Some(Type::CallRequest)
        } else if b == 0x04 {
            Some(Type::CallResponse)
        } else if b == 0x13 {
            Some(Type::CallRequestContinue)
        } else if b == 0x14 {
            Some(Type::CallResponseContinue)
        } else if b == 0xc0 {
            Some(Type::Cancel)
        } else if b == 0xc1 {
            Some(Type::Claim)
        } else if b == 0xd0 {
            Some(Type::PingRequest)
        } else if b == 0xd1 {
            Some(Type::PingResponse)
        } else if b == 0xff {
            Some(Type::Error)
        } else {
            None
        }
    }

    /// The name of the type.
    pub fn name(&self) -> (s: &'static str)
        ensures
            s@ == frame_type_name(*self),
    {
        match self {
            Type::InitRequest => "InitRequest",
            Type::InitResponse => "InitResponse",
            Type::CallRequest => "CallRequest",
            Type::CallResponse => "CallResponse",
            Type::CallRequestContinue => "CallRequestContinue",
            Type::CallResponseContinue => "CallResponseContinue",
            Type::Cancel => "Cancel",
            Type::Claim => "Claim",
            Type::PingRequest => "PingRequest",
            Type::PingResponse => "PingResponse",
            Type::Error => "Error",
        }
    }
}

/// A frame: its type and its payload.
#[derive(Debug, Clone, PartialEq, Eq)]
pub struct TFrame {
    pub frame_type: Type,
    pub payload: Vec<u8>,
}

/// A frame's type and payload.
pub struct FrameView {
    pub frame_type: Type,
    pub payload: Seq<u8>,
}

impl View for TFrame {
    type V = FrameView;

    open spec fn view(&self) -> FrameView {
        FrameView { frame_type: self.frame_type, payload: self.payload@ }
    }
}

impl TFrame {
    /// A frame of type `frame_type` carrying `payload`.
    pub fn new(frame_type: Type, payload: Vec<u8>) -> (f: TFrame)
        ensures
            f@ == (FrameView { frame_type, payload: payload@ }),
    {
        TFrame { frame_type, payload }
    }

    /// The frame's type.
    pub fn frame_type(&self) -> (t: &Type)
        ensures
            *t == self.frame_type,
    {
        &self.frame_type
    }

    /// The frame's payload.
    pub fn payload(&self) -> (p: &Vec<u8>)
        ensures
            p@ == self@.payload,
    {
        &self.payload
    }

    /// The frame's payload, mutable.
    pub fn payload_mut(&mut self) -> (p: &mut Vec<u8>)
        ensures
            *p == old(self).payload,
            final(self).frame_type == old(self).frame_type,
            final(self)@.payload == final(p)@,
    {
        &mut self.payload
    }

    /// The payload's length in bytes.
    pub fn size(&self) -> (n: usize)
        ensures
            n == self@.payload.len(),
    {
        self.payload.len()
    }
}

/// A frame together with the id of the message it belongs to.
#[derive(Debug, Clone, PartialEq, Eq)]
pub struct TFrameId {
    pub id: u32,
    pub frame: TFrame,
}

impl TFrameId {
    /// The frame `frame` of message `id`.
    pub fn new(id: u32, frame: TFrame) -> (f: TFrameId)
        ensures
            f.id == id,
            f.frame == frame,
    {
        TFrameId { id, frame }
    }

    /// The message id.
    pub fn id(&self) -> (r: &u32)
        ensures
            *r == self.id,
    {
        &self.id
    }

    /// The frame.
    pub fn frame(&self) -> (f: &TFrame)
        ensures
            *f == self.frame,
    {
        &self.frame
    }

    /// The frame, mutable.
    pub fn frame_mut(&mut self) -> (f: &mut TFrame)
        ensures
            *f == old(self).frame,
            final(self).frame == *final(f),
            final(self).id == old(self).id,
    {
        &mut self.frame
    }
}

/// Eight reserved zero bytes.
pub open spec fn zeros8() -> Seq<u8> {
    seq![0u8, 0u8, 0u8, 0u8, 0u8, 0u8, 0u8, 0u8]
}

/// The bytes of frame `f` of message `id`: the size (header included), the
/// type code, a reserved byte, the id, eight reserved bytes, then the payload.
pub open spec fn frame_bytes(id: u32, f: FrameView) -> Seq<u8> {
    be16((f.payload.len() + 16) as u16) + seq![type_code(f.frame_type), 0u8] + be32(id) + zeros8()
        + f.payload
}

/// What the decoder makes of the start of a buffer.
pub enum FrameDecoding {
    /// Not all of the frame has arrived yet.
    Buffering,
    /// A frame of message `id` occupying the first `size` bytes.
    Frame { id: u32, frame: FrameView, size: int },
    /// The size field is smaller than a frame header.
    TooShort,
    /// The type code is not a known frame type.
    UnknownType(u8),
}

/// How the decoder reads the start of buffer `s`.
pub open spec fn frame_decoding(s: Seq<u8>) -> FrameDecoding {
    if s.len() < 2 {
        FrameDecoding::Buffering
    } else if read16(s, 0) > s.len() {
        FrameDecoding::Buffering
    } else if read16(s, 0) < 16 {
        FrameDecoding::TooShort
    } else if type_of_code(s[2]) is None {
        FrameDecoding::UnknownType(s[2])
    } else {
        FrameDecoding::Frame {
            id: read32(s, 4),
            frame: FrameView {
                frame_type: type_of_code(s[2]).unwrap(),
                payload: s.subrange(16, read16(s, 0) as int),
            },
            size: read16(s, 0) as int,
        }
    }
}

/// The message of the error for a frame type code that is not known.
pub open spec fn unknown_type_message(b: u8) -> Seq<char> {
    "Unknown frame type "@ + decimal(b as u64)
}

/// Encoder and decoder of frames on a byte stream.
#[derive(Debug, Default)]
pub struct TFrameIdCodec {}

/// Removes the first `n` bytes of `src`.
fn advance(src: &mut Vec<u8>, n: usize)
    requires
        n <= old(src)@.len(),
    ensures
        final(src)@ == old(src)@.skip(n as int),
{
    let mut rest: Vec<u8> = src.split_off(n);
    std::mem::swap(src, &mut rest);
}

impl TFrameIdCodec {
    /// Appends the bytes of frame `item` to `dst`.
    pub fn encode(&mut self, item: TFrameId, dst: &mut Vec<u8>) -> (r: Result<(), CodecError>)
        requires
            item.frame@.payload.len() + FRAME_HEADER_LENGTH <= u16::MAX,
        ensures
            r is Ok,
            final(dst)@ == old(dst)@ + frame_bytes(item.id, item.frame@),
    {
        let frame: &TFrame = item.frame();
        let len: u16 = frame.size() as u16 + FRAME_HEADER_LENGTH;
        dst.reserve(len as usize);
        put_u16(dst, len);
        put_u8(dst, frame.frame_type().to_u8());
        put_u8(dst, ZERO);
        put_u32(dst, *item.id());
        let mut i: usize = 0;
        let ghost mid = dst@;
        while i < 8
            invariant
                i <= 8,
                dst@ == mid + Seq::new(i as nat, |j: int| 0u8),
            decreases 8 - i,
        {
            put_u8(dst, ZERO);
            i = i + 1;
            assert(dst@ =~= mid + Seq::new(i as nat, |j: int| 0u8));
        }
        assert(Seq::new(8, |j: int| 0u8) =~= zeros8());
        put_slice(dst, frame.payload().as_slice());
        assert(dst@ =~= old(dst)@ + frame_bytes(item.id, item.frame@));
        Ok(())
    }

    /// Whether `src` does not yet hold a whole frame (then capacity for the
    /// rest is reserved).
    fn is_buffering(src: &mut Vec<u8>) -> (b: bool)
        ensures
            final(src)@ == old(src)@,
            b == (old(src)@.len() < 2 || read16(old(src)@, 0) > old(src)@.len()),
    {
        if src.len() < 2 {
            src.reserve(2 - src.len());
            return true;
        }
        let size: usize = get_u16(src.as_slice(), 0) as usize;
        if size > src.len() {
            src.reserve(size + 2);
            return true;
        }
        false
    }

    /// Takes the next frame off the front of `src`, if all of it has arrived.
    pub fn decode(&mut self, src: &mut Vec<u8>) -> (r: Result<Option<TFrameId>, CodecError>)
        ensures
            match frame_decoding(old(src)@) {
                FrameDecoding::Buffering => r == Ok::<Option<TFrameId>, CodecError>(None)
                    && final(src)@ == old(src)@,
                FrameDecoding::Frame { id, frame, size } => {
                    &&& r matches Ok(Some(f))
                    &&& f.id == id
                    &&& f.frame@ == frame
                    &&& final(src)@ == old(src)@.skip(size)
                },
                FrameDecoding::TooShort => {
                    &&& r matches Err(CodecError::Error(m))
                    &&& m@ == "Frame too short"@
                    &&& final(src)@ == old(src)@.skip(2)
                },
                FrameDecoding::UnknownType(b) => {
                    &&& r matches Err(CodecError::Error(m))
                    &&& m@ == unknown_type_message(b)
                    &&& final(src)@ == old(src)@.skip(3)
                },
            },
    {
        if Self::is_buffering(src) {
            return Ok(None);
        }
        let ghost s = src@;
        let size: u16 = get_u16(src.as_slice(), 0);
        if size < FRAME_HEADER_LENGTH {
            advance(src, 2);
            return Err(CodecError::Error(owned("Frame too short")));
        }
        let frame_type_byte: u8 = src[2];
        let frame_type: Type = match Type::from_u8(frame_type_byte) {
            Some(t) => t,
            None => {
                advance(src, 3);
                return Err(
                    CodecError::Error(
                        concat2("Unknown frame type ", decimal_text(frame_type_byte as u64).as_str()),
                    ),
                );
            },
        };
        let id: u32 = get_u32(src.as_slice(), 4);
        let payload: Vec<u8> = copy_range(src.as_slice(), 16, (size - FRAME_HEADER_LENGTH) as usize);
        advance(src, size as usize);
        let frame = TFrame { frame_type, payload };
        Ok(Some(TFrameId { id, frame }))
    }
}

/// Decoding the bytes of a frame, followed by anything, gives the frame back
/// and consumes exactly its bytes.
pub proof fn lemma_frame_roundtrip(id: u32, f: FrameView, rest: Seq<u8>)
    requires
        f.payload.len() + 16 <= u16::MAX,
    ensures
        frame_decoding(frame_bytes(id, f) + rest) == (FrameDecoding::Frame {
            id,
            frame: f,
            size: f.payload.len() + 16int,
        }),
{
    let size = (f.payload.len() + 16) as u16;
    let b = frame_bytes(id, f);
    let s = b + rest;
    assert(b.len() == f.payload.len() + 16);
    assert(s.subrange(0, 2) =~= be16(size));
    lemma_read16(s, 0, size);
    assert(s[2] == type_code(f.frame_type));
    lemma_type_code(f.frame_type);
    assert(s.subrange(4, 8) =~= be32(id));
    lemma_read32(s, 4, id);
    assert(s.subrange(16, size as int) =~= f.payload);
}

} // verus!

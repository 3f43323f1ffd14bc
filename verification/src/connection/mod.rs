//! Connections: the checks of the init handshake and of pings, and the
//! dispatch of incoming frames to the pending message they belong to.
pub mod pool;

use crate::errors::{CodecError, ConnectionError};
use crate::frames::payloads::{
    error_msg_view, parse_error_msg, parse_init, reports, ErrorMsg, Init, PROTOCOL_VERSION,
};
use crate::frames::{FrameView, TFrameId, Type};
use crate::text::{concat3, decimal, decimal_text};
use std::collections::HashMap;
use vstd::prelude::*;

verus! {

/// Result of connection operations.
pub type ConnectionResult<T> = Result<T, ConnectionError>;

/// The message of the error for a peer speaking another protocol version.
pub open spec fn version_message(version: u16) -> Seq<char> {
    "Unsupported protocol version: "@ + decimal(version as u64) + " "@
}

/// Whether `r` is the outcome of decoding the error payload `payload` of
/// message `id`: the error it carries, with the id.
pub open spec fn error_reply(id: u32, payload: Seq<u8>, r: ConnectionResult<()>) -> bool {
    match parse_error_msg(payload, 0) {
        Err(d) => r matches Err(ConnectionError::FrameError(e)) && reports(e, d),
        Ok((m, _)) => r matches Err(ConnectionError::MessageErrorId(e, i)) && error_msg_view(e) == m && i == id,
    }
}

/// What checking the frame `f` of message `id`, which should be an init
/// frame of type `expected`, gives: success for an init payload of the
/// protocol's version, the error a peer answered with, or a failure.
pub open spec fn init_checked(expected: Type, id: u32, f: FrameView, r: ConnectionResult<()>) -> bool {
    if f.frame_type == expected {
        match parse_init(f.payload, 0) {
            Err(d) => r matches Err(ConnectionError::FrameError(e)) && reports(e, d),
            Ok((init, _)) => if init.version == PROTOCOL_VERSION {
                r is Ok
            } else {
                r matches Err(ConnectionError::Error(m)) && m@ == version_message(init.version)
            },
        }
    } else if f.frame_type == Type::Error {
        error_reply(id, f.payload, r)
    } else {
        r matches Err(ConnectionError::UnexpectedResponseError(t)) && t == f.frame_type
    }
}

/// Checks the init frame of a handshake, expected of type `expected`.
pub fn check_init(expected: Type, frame_id: TFrameId) -> (r: ConnectionResult<()>)
    ensures
        init_checked(expected, frame_id.id, frame_id.frame@, r),
{
    let id: u32 = frame_id.id;
    let mut frame = frame_id.frame;
    if frame.frame_type == expected {
        let init: Init = match Init::decode(frame.payload_mut()) {
            Ok(i) => i,
            Err(e) => return Err(ConnectionError::FrameError(e)),
        };
        if init.version == PROTOCOL_VERSION {
            Ok(())
        } else {
            Err(
                ConnectionError::Error(
                    concat3("Unsupported protocol version: ", decimal_text(init.version as u64).as_str(), " "),
                ),
            )
        }
    } else if frame.frame_type == Type::Error {
        error_reply_of(id, frame.payload_mut())
    } else {
        Err(ConnectionError::UnexpectedResponseError(frame.frame_type))
    }
}

/// Decodes the error payload of a reply to message `id`.
pub fn error_reply_of(id: u32, payload: &mut Vec<u8>) -> (r: ConnectionResult<()>)
    ensures
        error_reply(id, old(payload)@, r),
{
    match ErrorMsg::decode(payload) {
        Ok(error) => Err(ConnectionError::MessageErrorId(error, id)),
        Err(e) => Err(ConnectionError::FrameError(e)),
    }
}

/// The message of the error for registering a message id twice.
pub open spec fn duplicated_id_message(id: u32) -> Seq<char> {
    "Duplicated id: "@ + decimal(id as u64) + "."@
}

/// The message of the error for a first frame of a message already pending.
pub open spec fn sender_exists_message(id: u32) -> Seq<char> {
    "Sender for id "@ + decimal(id as u64) + " exists"@
}

/// The message of the error for a frame of a message that is not pending.
pub open spec fn id_not_found_message(id: u32) -> Seq<char> {
    "Id "@ + decimal(id as u64) + " not found"@
}

/// Pending message ids, each mapped to the sender of the frames of that
/// message (of type `S`).
#[derive(Debug)]
pub struct FramesDispatcher<S> {
    senders: HashMap<u32, S>,
    buffer_size: usize,
}

impl<S> FramesDispatcher<S> {
    /// The pending message ids and their senders.
    pub closed spec fn senders(&self) -> Map<u32, S> {
        self.senders@
    }

    /// The capacity of the channels made for new messages.
    pub closed spec fn spec_buffer_size(&self) -> usize {
        self.buffer_size
    }

    /// A dispatcher without pending messages.
    pub fn new(buffer_size: usize) -> (d: Self)
        ensures
            d.senders() == Map::<u32, S>::empty(),
            d.spec_buffer_size() == buffer_size,
    {
        FramesDispatcher { senders: HashMap::new(), buffer_size }
    }

    /// The capacity of the channels made for new messages.
    pub fn buffer_size(&self) -> (n: usize)
        ensures
            n == self.spec_buffer_size(),
    {
        self.buffer_size
    }

    /// Where a frame of message `id` goes: the sender of that message, or
    /// none when the frame starts a new message.
    pub fn dispatch(&self, id: u32) -> (r: Option<&S>)
        ensures
            self.senders().contains_key(id) ==> (r matches Some(s) && *s == self.senders()[id]),
            !self.senders().contains_key(id) ==> r is None,
    {
        broadcast use vstd::std_specs::hash::group_hash_axioms;

        self.senders.get(&id)
    }

    /// Forgets message `id`, returning its sender.
    pub fn deregister(&mut self, id: &u32) -> (r: Option<S>)
        ensures
            final(self).senders() == old(self).senders().remove(*id),
            final(self).spec_buffer_size() == old(self).spec_buffer_size(),
            old(self).senders().contains_key(*id) ==> r == Some(old(self).senders()[*id]),
            !old(self).senders().contains_key(*id) ==> r is None,
    {
        broadcast use vstd::std_specs::hash::group_hash_axioms;

        self.senders.remove(id)
    }

    /// Registers message `id` with the sender of its frames, unless the id
    /// is pending already.
    pub fn register(&mut self, id: u32, sender: S) -> (r: ConnectionResult<()>)
        ensures
            final(self).spec_buffer_size() == old(self).spec_buffer_size(),
            old(self).senders().contains_key(id) ==> {
                &&& r matches Err(ConnectionError::Error(m)) && m@ == duplicated_id_message(id)
                &&& final(self).senders() == old(self).senders()
            },
            !old(self).senders().contains_key(id) ==> {
                &&& r is Ok
                &&& final(self).senders() == old(self).senders().insert(id, sender)
            },
    {
        broadcast use vstd::std_specs::hash::group_hash_axioms;

        if self.senders.contains_key(&id) {
            return Err(ConnectionError::Error(concat3("Duplicated id: ", decimal_text(id as u64).as_str(), ".")));
        }
        self.senders.insert(id, sender);
        Ok(())
    }

    /// Registers the first frame's message `id` with the sender of its
    /// frames, unless the id is pending already.
    pub fn dispatch_first(&mut self, id: u32, sender: S) -> (r: ConnectionResult<()>)
        ensures
            final(self).spec_buffer_size() == old(self).spec_buffer_size(),
            old(self).senders().contains_key(id) ==> {
                &&& r matches Err(ConnectionError::Error(m)) && m@ == sender_exists_message(id)
                &&& final(self).senders() == old(self).senders()
            },
            !old(self).senders().contains_key(id) ==> {
                &&& r is Ok
                &&& final(self).senders() == old(self).senders().insert(id, sender)
            },
    {
        broadcast use vstd::std_specs::hash::group_hash_axioms;

        if self.senders.contains_key(&id) {
            return Err(ConnectionError::Error(concat3("Sender for id ", decimal_text(id as u64).as_str(), " exists")));
        }
        self.senders.insert(id, sender);
        Ok(())
    }

    /// The sender of the frames of message `id`, which must be pending.
    pub fn dispatch_following(&self, id: u32) -> (r: ConnectionResult<&S>)
        ensures
            self.senders().contains_key(id) ==> (r matches Ok(s) && *s == self.senders()[id]),
            !self.senders().contains_key(id) ==> (r matches Err(ConnectionError::Error(m)) && m@
                == id_not_found_message(id)),
    {
        broadcast use vstd::std_specs::hash::group_hash_axioms;

        match self.senders.get(&id) {
            Some(sender) => Ok(sender),
            None => Err(ConnectionError::Error(concat3("Id ", decimal_text(id as u64).as_str(), " not found"))),
        }
    }
}

} // verus!

//! The channel: the subchannels of each service, and the handle of the
//! server task once it is started.
use crate::errors::TChannelError;
use crate::handler::TResult;
use crate::name_map::{has_key, insert_entry, lemma_insert_distinct, lemma_insert_other, lookup, NameMap};
use crate::subchannel::{names, SubChannel};
use crate::text::{concat3, owned};
use vstd::prelude::*;

verus! {

/// The message of the error for a request to a service without subchannel.
pub open spec fn no_subchannel_message(service: Seq<char>) -> Seq<char> {
    "Failed to find subchannel '"@ + service + "'"@
}

/// TChannel protocol: keeps the handle of the started server task (`J`) and
/// the created subchannels, whose handlers are of type `H`.
#[derive(Debug)]
pub struct TChannel<H, J> {
    subchannels: NameMap<SubChannel<H>>,
    server_handle: Option<J>,
}

impl<H, J> TChannel<H, J> {
    /// The subchannels, by service name, in order of creation.
    pub closed spec fn subchannels(&self) -> Seq<(Seq<char>, SubChannel<H>)> {
        self.subchannels@
    }

    /// The handle of the running server task, if one was started.
    pub closed spec fn server(&self) -> Option<J> {
        self.server_handle
    }

    /// A channel without subchannels and without server.
    pub fn new() -> (c: Self)
        ensures
            c.subchannels() == Seq::<(Seq<char>, SubChannel<H>)>::empty(),
            c.server() is None,
    {
        TChannel { subchannels: NameMap::new(), server_handle: None }
    }

    /// Whether the server task was started and not shut down since.
    pub fn server_started(&self) -> (b: bool)
        ensures
            b == self.server() is Some,
    {
        self.server_handle.is_some()
    }

    /// Starts the server task with `spawn`, unless it is running already.
    pub fn start_server<F: FnOnce() -> J>(&mut self, spawn: F) -> (r: TResult<()>)
        requires
            spawn.requires(()),
        ensures
            final(self).subchannels() == old(self).subchannels(),
            old(self).server() is None ==> {
                &&& r is Ok
                &&& final(self).server() matches Some(j) && spawn.ensures((), j)
            },
            old(self).server() is Some ==> {
                &&& r matches Err(TChannelError::Error(m)) && m@ == "Server already started"@
                &&& final(self).server() == old(self).server()
            },
    {
        if self.server_handle.is_none() {
            let handle: J = spawn();
            self.server_handle = Some(handle);
        } else {
            return Err(TChannelError::Error(owned("Server already started")));
        }
        Ok(())
    }

    /// Stops the server task, if it runs, by handing its handle to `stop`.
    pub fn shutdown_server<F: FnOnce(J)>(&mut self, stop: F) -> (r: TResult<()>)
        requires
            forall|j: J| stop.requires((j,)),
        ensures
            r is Ok,
            final(self).server() is None,
            final(self).subchannels() == old(self).subchannels(),
    {
        match self.server_handle.take() {
            Some(handle) => stop(handle),
            None => {},
        }
        Ok(())
    }

    /// The subchannel of `service_name`, created if there is none yet.
    pub fn subchannel(&mut self, service_name: &String) -> (s: &mut SubChannel<H>)
        ensures
            has_key(old(self).subchannels(), service_name@) ==> lookup(old(self).subchannels(), service_name@)
                == Some(*s),
            !has_key(old(self).subchannels(), service_name@) ==> {
                &&& s.service() == service_name@
                &&& s.handlers() == Seq::<(Seq<char>, H)>::empty()
            },
            names(final(self).subchannels()) == if has_key(old(self).subchannels(), service_name@) {
                names(old(self).subchannels())
            } else {
                names(old(self).subchannels()).push(service_name@)
            },
            lookup(final(self).subchannels(), service_name@) == Some(*final(s)),
            forall|k: Seq<char>|
                k != service_name@ ==> lookup(final(self).subchannels(), k) == lookup(
                    old(self).subchannels(),
                    k,
                ),
            final(self).server() == old(self).server(),
    {
        if !self.subchannels.contains_key(service_name) {
            let fresh: SubChannel<H> = SubChannel::new(service_name.clone());
            proof {
                let es = self.subchannels@;
                lemma_insert_distinct(es, service_name@, fresh);
                assert forall|k: Seq<char>| k != service_name@ implies lookup(
                    insert_entry(es, service_name@, fresh),
                    k,
                ) == lookup(es, k) by {
                    lemma_insert_other(es, service_name@, fresh, k);
                }
            }
            self.subchannels.insert(service_name.clone(), fresh);
        }
        self.subchannels.get_mut(service_name).unwrap()
    }

    /// The subchannel of `service`.
    pub fn get_subchannel(&self, service: &String) -> (r: TResult<&SubChannel<H>>)
        ensures
            match lookup(self.subchannels(), service@) {
                Some(s) => r matches Ok(x) && *x == s,
                None => r matches Err(TChannelError::Error(m)) && m@ == no_subchannel_message(service@),
            },
    {
        match self.subchannels.get(service) {
            Some(s) => Ok(s),
            None => Err(TChannelError::Error(concat3("Failed to find subchannel '", service.as_str(), "'"))),
        }
    }
}

} // verus!

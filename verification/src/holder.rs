//! The holder side of the protocol: the instance that currently knows the
//! session id (or knows its absence) and answers every query with it.
//!
//! `IdSender` keeps the mutable current value and decides, for each message
//! the transport hands up, what to broadcast back. The unverified shell owns
//! the bus subscription, feeds accepted messages to `react`, and posts
//! whatever `react` returns; after `update` it rebinds its handler so later
//! queries see the new value.
use vstd::prelude::*;

verus! {

use crate::SessionId;
use crate::codec::Message;

/// The state of a live holder: the value it answers queries with. The value
/// may be absent — `Response(None)` tells requesters that no session
/// currently exists, which is different from nobody answering.
/// What a holder whose current value is `v` broadcasts back for one inbound
/// message: a query, and nothing but a query, draws a `Response` carrying
/// `v`.
pub open spec fn holder_reaction(v: Option<SessionId>, message: Message) -> Option<Message> {
    if message is Query {
        Some(Message::Response(v))
    } else {
        None
    }
}

pub struct IdSender {
    id: Option<SessionId>,
}

impl IdSender {
    /// The value this holder currently answers with.
    pub closed spec fn current(&self) -> Option<SessionId> {
        self.id
    }

    /// A holder that will answer every query with `id`.
    pub fn new(id: Option<SessionId>) -> (r: Self)
        ensures
            r.current() == id,
    {
        IdSender { id }
    }

    /// Change the value future queries are answered with. Responses already
    /// sent are unaffected.
    pub fn update(&mut self, id: Option<SessionId>)
        ensures
            final(self).current() == id,
    {
        self.id = id;
    }

    /// The holder's answer to one inbound message: a query, and nothing but
    /// a query, draws exactly one `Response` carrying the current value.
    pub fn react(&self, message: &Message) -> (r: Option<Message>)
        ensures
            r == holder_reaction(self.current(), *message),
    {
        match message {
            Message::Query => Some(Message::Response(self.id)),
            Message::Response(_) => None,
        }
    }
}

} // verus!

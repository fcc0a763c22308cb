//! The requester side of the protocol: ask once, then wait for whichever of
//! an answer or a timeout is delivered first.
//!
//! The unverified shell opens a transport, broadcasts one `Query`, and arms a
//! one-shot timer. Both triggers funnel into a single `Passthrough` event:
//! the timer yields `TimedOut`, and each inbound message goes through
//! `response_event`, which forwards answers and ignores everything else. The
//! state machine above (`crate::source`) consumes the first event and
//! discards the rest.
use vstd::prelude::*;

verus! {

use crate::SessionId;
use crate::codec::Message;

/// The two triggers that can end a requester's wait: an answer carrying the
/// (possibly absent) session id, or the timer firing first.
#[derive(Clone, Copy, Debug, PartialEq, Eq, Structural)]
pub enum Passthrough {
    Id(Option<SessionId>),
    TimedOut,
}

impl Passthrough {
    /// Whether this event is the timer firing rather than an answer.
    pub fn timed_out(&self) -> (r: bool)
        ensures
            r == (*self is TimedOut),
    {
        match self {
            Passthrough::TimedOut => true,
            Passthrough::Id(_) => false,
        }
    }
}

/// The requester's view of one inbound message: an answer becomes the `Id`
/// event, and a query — its own or another requester's — produces nothing.
pub open spec fn requester_event(message: Message) -> Option<Passthrough> {
    match message {
        Message::Response(id) => Some(Passthrough::Id(id)),
        Message::Query => None,
    }
}

/// Map one inbound message to the event forwarded to the state machine.
pub fn response_event(message: &Message) -> (r: Option<Passthrough>)
    ensures
        r == requester_event(*message),
{
    match message {
        Message::Response(id) => Some(Passthrough::Id(*id)),
        Message::Query => None,
    }
}

} // verus!

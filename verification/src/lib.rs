//! A small cross-tab session-sharing protocol: several independent instances
//! of one application agree on a shared session id over a same-origin
//! broadcast bus. Holders answer queries with the current id; a requester
//! asks once and either learns the id or gives up after a bounded wait.
//!
//! This crate holds the verified core: the wire codec, the origin filter of
//! the transport, the holder's reaction to inbound messages, the requester's
//! event mapping, and the terminal state machine of the client-facing source.
//! Opening the bus, posting payloads, timers and rendering are left to the
//! unverified shell around the crate.
use vstd::prelude::*;

pub mod codec;
pub mod holder;
pub mod requester;
pub mod source;
pub mod transport;

verus! {

/// Opaque 64-bit identifier shared across instances; the protocol never
/// interprets its internal structure.
pub type SessionId = u64;

/// The protocol agrees end to end. Whenever a query travels the bus within
/// one origin and reaches a live holder whose current value is `v`, the
/// holder answers with exactly `Response(v)`; and whenever that answer
/// travels back the same way and is the first event a still-trying source
/// sees, the source settles on `v` — terminally, whatever `v` is.
pub proof fn lemma_protocol_agreement<R>(
    v: Option<SessionId>,
    origin: Seq<u8>,
    s: source::Inner<R>,
)
    requires
        s is Trying,
    ensures
        transport::accept_spec(origin, origin, codec::enc_spec(codec::Message::Query)) == Some(
            codec::Message::Query,
        ),
        holder::holder_reaction(v, codec::Message::Query) == Some(codec::Message::Response(v)),
        transport::accept_spec(origin, origin, codec::enc_spec(codec::Message::Response(v)))
            == Some(codec::Message::Response(v)),
        requester::requester_event(codec::Message::Response(v)) == Some(
            requester::Passthrough::Id(v),
        ),
        source::step(s, requester::Passthrough::Id(v)).resolved_id() == v,
        source::step(s, requester::Passthrough::Id(v)).is_terminal(),
{
    codec::lemma_round_trip(codec::Message::Query);
    codec::lemma_round_trip(codec::Message::Response(v));
}

} // verus!

//! The inbound boundary of a bus subscription.
//!
//! Every raw event the bus delivers carries the origin of its sender and an
//! opaque payload. `accept` decides what, if anything, reaches the handler
//! above: payloads from a foreign origin are dropped silently, payloads that
//! do not decode are dropped silently, and only a well-formed message from
//! the process's own origin is handed on. The errors of the outbound side
//! (opening the bus, producing a payload, posting it) are named here; the
//! unverified shell that owns the bus handle maps its failures onto them.
use vstd::prelude::*;

verus! {

use crate::codec::Message;
use crate::codec::dec_spec;
use crate::codec::decode;

/// What can go wrong on the outbound side of the transport. Inbound traffic
/// never raises an error: malformed or foreign payloads are expected on a
/// shared bus and are dropped instead.
#[derive(Clone, Copy, Debug, PartialEq, Eq, Structural)]
pub enum Error {
    /// The bus could not be opened in this environment.
    ChannelCreationFailed,
    /// A payload could not be produced for an outgoing message.
    SerializationFailed,
    /// The bus rejected an outgoing send.
    PostFailed,
}

/// Whether two byte strings are equal.
pub fn bytes_eq(a: &[u8], b: &[u8]) -> (r: bool)
    ensures
        r == (a@ == b@),
{
    if a.len() != b.len() {
        return false;
    }
    let mut i: usize = 0;
    while i < a.len()
        invariant
            0 <= i <= a@.len(),
            a@.len() == b@.len(),
            forall|j: int| 0 <= j < i ==> a@[j] == b@[j],
        decreases a@.len() - i,
    {
        if a[i] != b[i] {
            return false;
        }
        i = i + 1;
    }
    proof {
        assert(a@ =~= b@);
    }
    true
}

/// The message an inbound event hands to the handler, if any: the decoded
/// payload when the event's origin is the process's own origin and the
/// payload is a well-formed encoding, and nothing otherwise.
pub open spec fn accept_spec(self_origin: Seq<u8>, event_origin: Seq<u8>, payload: Seq<u8>) -> Option<Message> {
    if event_origin == self_origin {
        dec_spec(payload)
    } else {
        None
    }
}

/// Filter one raw inbound event. Returns the decoded message exactly when
/// the event comes from this process's own origin and its payload is a
/// well-formed encoding; everything else is dropped before any handler runs.
pub fn accept(self_origin: &[u8], event_origin: &[u8], payload: &[u8]) -> (r: Option<Message>)
    ensures
        r == accept_spec(self_origin@, event_origin@, payload@),
{
    if bytes_eq(event_origin, self_origin) {
        decode(payload)
    } else {
        None
    }
}

/// A well-formed message tagged with a foreign origin never reaches a
/// handler: the transport accepts nothing from an origin other than the
/// process's own.
pub proof fn lemma_origin_filtering(self_origin: Seq<u8>, event_origin: Seq<u8>, payload: Seq<u8>)
    requires
        event_origin != self_origin,
    ensures
        accept_spec(self_origin, event_origin, payload) is None,
{
}

} // verus!

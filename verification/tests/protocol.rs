use session_sharer::codec::{decode, encode, Message};
use session_sharer::holder::IdSender;
use session_sharer::requester::{response_event, Passthrough};
use session_sharer::source::Source;
use session_sharer::transport::{accept, bytes_eq, Error};

const ORIGIN: &[u8] = b"https://app.example";
const FOREIGN: &[u8] = b"https://evil.example";

/// Deliver one raw bus event to a holder and collect what it broadcasts back.
fn holder_receives(holder: &IdSender, event_origin: &[u8], payload: &[u8]) -> Option<Vec<u8>> {
    let message = accept(ORIGIN, event_origin, payload)?;
    let reply = holder.react(&message)?;
    Some(encode(&reply))
}

/// Deliver one raw bus event to a requester and collect the forwarded event.
fn requester_receives(event_origin: &[u8], payload: &[u8]) -> Option<Passthrough> {
    let message = accept(ORIGIN, event_origin, payload)?;
    response_event(&message)
}

#[test]
fn foreign_origin_dropped() {
    // a well-formed message from a foreign origin reaches no handler
    let payload = encode(&Message::Response(Some(42)));
    assert_eq!(accept(ORIGIN, FOREIGN, &payload), None);
}

#[test]
fn same_origin_accepted() {
    let payload = encode(&Message::Query);
    assert_eq!(accept(ORIGIN, ORIGIN, &payload), Some(Message::Query));
}

#[test]
fn same_origin_junk_dropped() {
    assert_eq!(accept(ORIGIN, ORIGIN, b"unrelated traffic"), None);
}

#[test]
fn bytes_eq_basics() {
    assert!(bytes_eq(ORIGIN, ORIGIN));
    assert!(!bytes_eq(ORIGIN, FOREIGN));
    assert!(!bytes_eq(b"a", b"ab"));
    assert!(bytes_eq(b"", b""));
}

#[test]
fn holder_answers_query() {
    let holder = IdSender::new(Some(7));
    assert_eq!(
        holder.react(&Message::Query),
        Some(Message::Response(Some(7)))
    );
}

#[test]
fn holder_answers_query_with_absent_id() {
    let holder = IdSender::new(None);
    assert_eq!(holder.react(&Message::Query), Some(Message::Response(None)));
}

#[test]
fn holder_ignores_responses() {
    let holder = IdSender::new(Some(7));
    assert_eq!(holder.react(&Message::Response(Some(9))), None);
}

#[test]
fn holder_update_changes_answer() {
    let mut holder = IdSender::new(Some(1));
    holder.update(Some(2));
    assert_eq!(
        holder.react(&Message::Query),
        Some(Message::Response(Some(2)))
    );
}

#[test]
fn response_event_forwards_answers() {
    assert_eq!(
        response_event(&Message::Response(Some(3))),
        Some(Passthrough::Id(Some(3)))
    );
    assert_eq!(
        response_event(&Message::Response(None)),
        Some(Passthrough::Id(None))
    );
}

#[test]
fn response_event_ignores_queries() {
    assert_eq!(response_event(&Message::Query), None);
}

#[test]
fn timed_out_flag() {
    assert!(Passthrough::TimedOut.timed_out());
    assert!(!Passthrough::Id(Some(1)).timed_out());
    assert!(!Passthrough::Id(None).timed_out());
}

#[test]
fn happy_path() {
    // a holder set to Some(42) is live; the requester's answer arrives before
    // its timeout, so the source resolves to Some(42)
    let holder = IdSender::new(Some(42));
    let mut source: Source<()> = Source::new(());
    assert!(source.is_trying());
    assert_eq!(source.session_id(), None);

    let query = encode(&Message::Query);
    let reply = holder_receives(&holder, ORIGIN, &query).expect("holder answers");
    let event = requester_receives(ORIGIN, &reply).expect("answer forwarded");
    source.update(event);

    assert!(!source.is_trying());
    assert!(!source.gave_up());
    assert_eq!(source.session_id(), Some(42));
}

#[test]
fn no_holder_times_out() {
    // nobody answers; the timer fires and the source gives up
    let mut source: Source<()> = Source::new(());
    source.update(Passthrough::TimedOut);
    assert!(source.gave_up());
    assert_eq!(source.session_id(), None);
    // a later event must not revive it
    source.update(Passthrough::Id(Some(5)));
    assert!(source.gave_up());
    assert_eq!(source.session_id(), None);
}

#[test]
fn late_response_ignored() {
    // the timer fires first; an answer for the same request arrives afterward
    let holder = IdSender::new(Some(42));
    let mut source: Source<()> = Source::new(());
    source.update(Passthrough::TimedOut);

    let query = encode(&Message::Query);
    let reply = holder_receives(&holder, ORIGIN, &query).expect("holder answers");
    let late = requester_receives(ORIGIN, &reply).expect("answer forwarded");
    source.update(late);

    assert!(source.gave_up());
    assert_eq!(source.session_id(), None);
}

#[test]
fn live_update() {
    // a requester created after the holder's update observes the new value
    let mut holder = IdSender::new(Some(1));

    let mut early: Source<()> = Source::new(());
    let query = encode(&Message::Query);
    let reply = holder_receives(&holder, ORIGIN, &query).expect("holder answers");
    early.update(requester_receives(ORIGIN, &reply).expect("answer forwarded"));
    assert_eq!(early.session_id(), Some(1));

    holder.update(Some(2));

    let mut late: Source<()> = Source::new(());
    let reply = holder_receives(&holder, ORIGIN, &query).expect("holder answers");
    late.update(requester_receives(ORIGIN, &reply).expect("answer forwarded"));
    assert_eq!(late.session_id(), Some(2));

    // the already-terminal source is unaffected by the update
    assert_eq!(early.session_id(), Some(1));
}

#[test]
fn single_transition() {
    // whatever is delivered after the first transition leaves the state as is
    let mut source: Source<()> = Source::new(());
    source.update(Passthrough::Id(None));
    assert_eq!(source.session_id(), None);
    source.update(Passthrough::Id(Some(9)));
    source.update(Passthrough::TimedOut);
    source.update(Passthrough::Id(Some(10)));
    assert_eq!(source.session_id(), None);

    let mut resolved: Source<()> = Source::new(());
    resolved.update(Passthrough::Id(Some(9)));
    resolved.update(Passthrough::TimedOut);
    resolved.update(Passthrough::Id(Some(10)));
    assert_eq!(resolved.session_id(), Some(9));
}

#[test]
fn error_variants_distinct() {
    assert_ne!(Error::ChannelCreationFailed, Error::SerializationFailed);
    assert_ne!(Error::SerializationFailed, Error::PostFailed);
    assert_ne!(Error::PostFailed, Error::ChannelCreationFailed);
}

use session_sharer::codec::{decode, encode, Message};

#[test]
fn encode_query_exact() {
    assert_eq!(encode(&Message::Query), b"\"Query\"".to_vec());
}

#[test]
fn encode_response_none_exact() {
    assert_eq!(encode(&Message::Response(None)), b"{\"Response\":null}".to_vec());
}

#[test]
fn encode_response_some_exact() {
    assert_eq!(encode(&Message::Response(Some(42))), b"{\"Response\":42}".to_vec());
}

#[test]
fn encode_response_zero_exact() {
    assert_eq!(encode(&Message::Response(Some(0))), b"{\"Response\":0}".to_vec());
}

#[test]
fn encode_response_max_exact() {
    assert_eq!(
        encode(&Message::Response(Some(u64::MAX))),
        b"{\"Response\":18446744073709551615}".to_vec()
    );
}

#[test]
fn round_trip_query() {
    let m = Message::Query;
    assert_eq!(decode(&encode(&m)), Some(m));
}

#[test]
fn round_trip_response_none() {
    let m = Message::Response(None);
    assert_eq!(decode(&encode(&m)), Some(m));
}

#[test]
fn round_trip_response_some() {
    let m = Message::Response(Some(42));
    assert_eq!(decode(&encode(&m)), Some(m));
}

#[test]
fn round_trip_response_zero() {
    let m = Message::Response(Some(0));
    assert_eq!(decode(&encode(&m)), Some(m));
}

#[test]
fn round_trip_response_max() {
    let m = Message::Response(Some(u64::MAX));
    assert_eq!(decode(&encode(&m)), Some(m));
}

#[test]
fn decode_literal_query() {
    assert_eq!(decode(b"\"Query\""), Some(Message::Query));
}

#[test]
fn decode_literal_response() {
    assert_eq!(decode(b"{\"Response\":7}"), Some(Message::Response(Some(7))));
}

#[test]
fn decode_rejects_empty() {
    assert_eq!(decode(b""), None);
}

#[test]
fn decode_rejects_bare_word() {
    assert_eq!(decode(b"Query"), None);
}

#[test]
fn decode_rejects_unknown_tag() {
    assert_eq!(decode(b"{\"Other\":1}"), None);
}

#[test]
fn decode_rejects_missing_value() {
    assert_eq!(decode(b"{\"Response\":}"), None);
}

#[test]
fn decode_rejects_leading_zero() {
    assert_eq!(decode(b"{\"Response\":042}"), None);
}

#[test]
fn decode_rejects_inner_space() {
    assert_eq!(decode(b"{\"Response\": 42}"), None);
}

#[test]
fn decode_rejects_non_digit() {
    assert_eq!(decode(b"{\"Response\":12a}"), None);
}

#[test]
fn decode_rejects_negative() {
    assert_eq!(decode(b"{\"Response\":-1}"), None);
}

#[test]
fn decode_rejects_too_large() {
    // one past the largest session id
    assert_eq!(decode(b"{\"Response\":18446744073709551616}"), None);
}

#[test]
fn decode_rejects_trailing_byte() {
    assert_eq!(decode(b"{\"Response\":null}x"), None);
}

#[test]
fn decode_rejects_truncated() {
    assert_eq!(decode(b"{\"Response\":null"), None);
}

//! The wire envelope and its codec.
//!
//! Messages travel over the shared bus as a JSON-compatible tagged union:
//! a query is the string `"Query"`, an answer is the object
//! `{"Response":<id>}` where `<id>` is a decimal number or `null`.
//! `encode` produces exactly this form; `decode` accepts exactly the
//! encodings and rejects everything else, so unrelated traffic on the bus is
//! dropped at the boundary.
use vstd::prelude::*;

verus! {

use crate::SessionId;

/// The wire envelope. `Response(None)` is a valid answer meaning "no session
/// currently exists", distinct from nobody answering at all.
#[derive(Clone, Copy, Debug, PartialEq, Eq, Structural)]
pub enum Message {
    Query,
    Response(Option<SessionId>),
}

/// The decimal digits of `n`, most significant first, as ASCII bytes.
pub open spec fn dec_digits(n: nat) -> Seq<u8>
    decreases n,
{
    if n < 10 {
        seq![(48 + n) as u8]
    } else {
        dec_digits(n / 10).push((48 + n % 10) as u8)
    }
}

/// The numeric value of a digit string, most significant digit first.
pub open spec fn digits_val(s: Seq<u8>) -> int
    decreases s.len(),
{
    if s.len() == 0 {
        0
    } else {
        digits_val(s.drop_last()) * 10 + (s.last() - 48)
    }
}

pub open spec fn is_digit(b: u8) -> bool {
    48 <= b <= 57
}

pub open spec fn is_digits(s: Seq<u8>) -> bool {
    forall|i: int| 0 <= i < s.len() ==> is_digit(#[trigger] s[i])
}

/// A canonical decimal number: non-empty, digits only, no leading zero.
pub open spec fn is_canonical_digits(s: Seq<u8>) -> bool {
    &&& s.len() > 0
    &&& is_digits(s)
    &&& (s.len() == 1 || s[0] != 48)
}

/// The bytes of `"Query"`.
pub open spec fn query_enc() -> Seq<u8> {
    seq![34u8, 81, 117, 101, 114, 121, 34]
}

/// The bytes of `{"Response":`.
pub open spec fn resp_prefix() -> Seq<u8> {
    seq![123u8, 34, 82, 101, 115, 112, 111, 110, 115, 101, 34, 58]
}

/// The bytes of `null`.
pub open spec fn null_enc() -> Seq<u8> {
    seq![110u8, 117, 108, 108]
}

/// The unique encoding of a message.
pub open spec fn enc_spec(m: Message) -> Seq<u8> {
    match m {
        Message::Query => query_enc(),
        Message::Response(None) => resp_prefix() + null_enc() + seq![125u8],
        Message::Response(Some(id)) => resp_prefix() + dec_digits(id as nat) + seq![125u8],
    }
}

/// The unique message a byte string encodes, if it encodes one.
pub open spec fn dec_spec(data: Seq<u8>) -> Option<Message> {
    if exists|m: Message| enc_spec(m) == data {
        Some(choose|m: Message| enc_spec(m) == data)
    } else {
        None
    }
}

/// The digits of a number are a canonical digit string, and a one-digit
/// string exactly when the number is below ten.
pub proof fn lemma_dec_digits_shape(n: nat)
    ensures
        dec_digits(n).len() >= 1,
        is_canonical_digits(dec_digits(n)),
        n >= 1 ==> dec_digits(n)[0] != 48,
        n < 10 ==> dec_digits(n).len() == 1,
    decreases n,
{
    if n < 10 {
        assert(dec_digits(n) == seq![(48 + n) as u8]);
    } else {
        lemma_dec_digits_shape(n / 10);
        let s0 = dec_digits(n / 10);
        let s = dec_digits(n);
        assert(s == s0.push((48 + n % 10) as u8));
        assert forall|i: int| 0 <= i < s.len() implies is_digit(#[trigger] s[i]) by {
            if i < s0.len() {
                assert(is_digit(s0[i]));
            }
        }
        assert(n / 10 >= 1);
        assert(s[0] == s0[0]);
    }
}

/// The value of a digit string is never negative.
pub proof fn lemma_digits_val_nonneg(s: Seq<u8>)
    requires
        is_digits(s),
    ensures
        digits_val(s) >= 0,
    decreases s.len(),
{
    if s.len() > 0 {
        assert forall|i: int| 0 <= i < s.drop_last().len() implies is_digit(
            #[trigger] s.drop_last()[i],
        ) by {
            assert(is_digit(s[i]));
        }
        lemma_digits_val_nonneg(s.drop_last());
        assert(is_digit(s.last()));
    }
}

/// Reading the digits of a number back gives the number.
pub proof fn lemma_val_of_dec(n: nat)
    ensures
        digits_val(dec_digits(n)) == n,
    decreases n,
{
    if n < 10 {
        let s = dec_digits(n);
        assert(s == seq![(48 + n) as u8]);
        assert(s.drop_last() =~= Seq::<u8>::empty());
        assert(digits_val(Seq::<u8>::empty()) == 0);
    } else {
        lemma_val_of_dec(n / 10);
        let s0 = dec_digits(n / 10);
        let s = dec_digits(n);
        assert(s == s0.push((48 + n % 10) as u8));
        assert(s.drop_last() =~= s0);
        vstd::arithmetic::div_mod::lemma_fundamental_div_mod(n as int, 10);
    }
}

/// A canonical digit string is the digit string of its own value: values and
/// canonical digit strings are in one-to-one correspondence.
pub proof fn lemma_dec_of_val(s: Seq<u8>)
    requires
        is_canonical_digits(s),
    ensures
        digits_val(s) >= 0,
        s.len() > 1 ==> digits_val(s) >= 10,
        s[0] != 48 ==> digits_val(s) >= 1,
        dec_digits(digits_val(s) as nat) == s,
    decreases s.len(),
{
    lemma_digits_val_nonneg(s);
    if s.len() == 1 {
        let v = digits_val(s);
        assert(s.drop_last() =~= Seq::<u8>::empty());
        assert(digits_val(Seq::<u8>::empty()) == 0);
        assert(v == s.last() - 48);
        assert(is_digit(s[0]));
        assert(dec_digits(v as nat) == seq![(48 + v as nat) as u8]);
        assert(dec_digits(v as nat) =~= s);
    } else {
        let s0 = s.drop_last();
        assert forall|i: int| 0 <= i < s0.len() implies is_digit(#[trigger] s0[i]) by {
            assert(is_digit(s[i]));
        }
        assert(s0[0] == s[0]);
        assert(is_canonical_digits(s0));
        lemma_dec_of_val(s0);
        let v0 = digits_val(s0);
        assert(v0 >= 1);
        assert(is_digit(s.last()));
        let d = s.last() - 48;
        let v = digits_val(s);
        assert(v == v0 * 10 + d);
        assert(v >= 10);
        vstd::arithmetic::div_mod::lemma_fundamental_div_mod_converse(v, 10, v0, d);
        assert(v / 10 == v0 && v % 10 == d);
        assert(dec_digits(v as nat) == dec_digits((v as nat) / 10).push(
            (48 + (v as nat) % 10) as u8,
        ));
        assert((v as nat) / 10 == v0 as nat);
        assert(dec_digits(v as nat) =~= s);
    }
}

/// No two distinct messages share an encoding.
pub proof fn lemma_enc_injective(m1: Message, m2: Message)
    requires
        enc_spec(m1) == enc_spec(m2),
    ensures
        m1 == m2,
{
    let e1 = enc_spec(m1);
    let e2 = enc_spec(m2);
    match (m1, m2) {
        (Message::Query, Message::Query) => {},
        (Message::Response(x1), Message::Response(x2)) => {
            match (x1, x2) {
                (None, None) => {},
                (Some(a), Some(b)) => {
                    lemma_dec_digits_shape(a as nat);
                    lemma_dec_digits_shape(b as nat);
                    let da = dec_digits(a as nat);
                    let db = dec_digits(b as nat);
                    assert(e1.len() == 13 + da.len());
                    assert(e2.len() == 13 + db.len());
                    assert forall|i: int| 0 <= i < da.len() implies da[i] == db[i] by {
                        assert(e1[12 + i] == da[i]);
                        assert(e2[12 + i] == db[i]);
                    }
                    assert(da =~= db);
                    lemma_val_of_dec(a as nat);
                    lemma_val_of_dec(b as nat);
                },
                (None, Some(b)) => {
                    lemma_dec_digits_shape(b as nat);
                    assert(e1[12] == 110);
                    assert(e2[12] == dec_digits(b as nat)[0]);
                    assert(is_digit(dec_digits(b as nat)[0]));
                },
                (Some(a), None) => {
                    lemma_dec_digits_shape(a as nat);
                    assert(e2[12] == 110);
                    assert(e1[12] == dec_digits(a as nat)[0]);
                    assert(is_digit(dec_digits(a as nat)[0]));
                },
            }
        },
        (Message::Query, Message::Response(_)) => {
            assert(e1[0] == 34);
            assert(e2[0] == 123);
        },
        (Message::Response(_), Message::Query) => {
            assert(e2[0] == 34);
            assert(e1[0] == 123);
        },
    }
}

/// Decoding inverts encoding: every message comes back from its own wire
/// bytes unchanged.
pub proof fn lemma_round_trip(m: Message)
    ensures
        dec_spec(enc_spec(m)) == Some(m),
{
    assert(exists|m2: Message| enc_spec(m2) == enc_spec(m));
    let w = choose|m2: Message| enc_spec(m2) == enc_spec(m);
    lemma_enc_injective(w, m);
}

/// Encode a message into its wire bytes.
pub fn encode(message: &Message) -> (r: Vec<u8>)
    ensures
        r@ == enc_spec(*message),
{
    let mut out: Vec<u8> = Vec::new();
    match message {
        Message::Query => {
            out.push(34);
            out.push(81);
            out.push(117);
            out.push(101);
            out.push(114);
            out.push(121);
            out.push(34);
            proof {
                assert(out@ =~= query_enc());
            }
        },
        Message::Response(id) => {
            out.push(123);
            out.push(34);
            out.push(82);
            out.push(101);
            out.push(115);
            out.push(112);
            out.push(111);
            out.push(110);
            out.push(115);
            out.push(101);
            out.push(34);
            out.push(58);
            proof {
                assert(out@ =~= resp_prefix());
            }
            match id {
                None => {
                    out.push(110);
                    out.push(117);
                    out.push(108);
                    out.push(108);
                },
                Some(n) => {
                    push_digits(&mut out, *n);
                },
            }
            out.push(125);
            proof {
                assert(out@ =~= enc_spec(*message));
            }
        },
    }
    out
}

/// Append the decimal digits of `n` to `out`.
fn push_digits(out: &mut Vec<u8>, n: u64)
    ensures
        final(out)@ == old(out)@ + dec_digits(n as nat),
    decreases n,
{
    if n < 10 {
        out.push(48 + n as u8);
        proof {
            assert(out@ =~= old(out)@ + dec_digits(n as nat));
        }
    } else {
        push_digits(out, n / 10);
        out.push(48 + (n % 10) as u8);
        proof {
            assert(out@ =~= old(out)@ + dec_digits(n as nat));
        }
    }
}

/// The value of a digit string is at least the value of any of its prefixes.
proof fn lemma_digits_val_extend_ge(s: Seq<u8>, i: int)
    requires
        is_digits(s),
        0 <= i <= s.len(),
    ensures
        digits_val(s) >= digits_val(s.take(i)),
    decreases s.len() - i,
{
    if i == s.len() {
        assert(s.take(i) =~= s);
    } else {
        assert(s.take(i + 1).drop_last() =~= s.take(i));
        assert(s.take(i + 1).last() == s[i]);
        assert forall|j: int| 0 <= j < s.take(i).len() implies is_digit(
            #[trigger] s.take(i)[j],
        ) by {
            assert(is_digit(s[j]));
        }
        lemma_digits_val_nonneg(s.take(i));
        assert(is_digit(s[i]));
        assert(digits_val(s.take(i + 1)) >= digits_val(s.take(i)));
        lemma_digits_val_extend_ge(s, i + 1);
    }
}

/// Parse a canonical decimal number that fits a `SessionId`; reject anything
/// else.
fn parse_canonical(body: &[u8]) -> (r: Option<u64>)
    ensures
        match r {
            Some(v) => is_canonical_digits(body@) && digits_val(body@) == v as int,
            None => !(is_canonical_digits(body@) && digits_val(body@) <= u64::MAX as int),
        },
{
    let blen = body.len();
    if blen == 0 {
        return None;
    }
    if blen > 1 && body[0] == 48 {
        return None;
    }
    let mut i: usize = 0;
    let mut acc: u128 = 0;
    while i < blen
        invariant
            0 <= i <= blen,
            blen == body@.len(),
            is_digits(body@.take(i as int)),
            acc == digits_val(body@.take(i as int)),
            acc <= u64::MAX,
        decreases blen - i,
    {
        let b = body[i];
        if b < 48 || b > 57 {
            proof {
                assert(!is_digit(body@[i as int]));
            }
            return None;
        }
        let next: u128 = acc * 10 + (b - 48) as u128;
        proof {
            assert(body@.take(i as int + 1).drop_last() =~= body@.take(i as int));
            assert(body@.take(i as int + 1).last() == body@[i as int]);
            assert forall|j: int| 0 <= j < i + 1 implies is_digit(
                #[trigger] body@.take(i as int + 1)[j],
            ) by {
                if j < i {
                    assert(is_digit(body@.take(i as int)[j]));
                }
            }
            assert(next == digits_val(body@.take(i as int + 1)));
        }
        if next > u64::MAX as u128 {
            proof {
                if is_canonical_digits(body@) && digits_val(body@) <= u64::MAX as int {
                    lemma_digits_val_extend_ge(body@, i as int + 1);
                }
            }
            return None;
        }
        acc = next;
        i = i + 1;
    }
    proof {
        assert(body@.take(blen as int) =~= body@);
    }
    Some(acc as u64)
}

/// Decode wire bytes back into a message. Exactly the byte strings `encode`
/// produces decode successfully; unrelated traffic on the bus is rejected.
pub fn decode(data: &[u8]) -> (r: Option<Message>)
    ensures
        r == dec_spec(data@),
{
    let n = data.len();
    if n == 7 && data[0] == 34 && data[1] == 81 && data[2] == 117 && data[3] == 101 && data[4]
        == 114 && data[5] == 121 && data[6] == 34 {
        proof {
            assert(data@ =~= query_enc());
            lemma_round_trip(Message::Query);
        }
        return Some(Message::Query);
    }
    if n >= 14 && data[0] == 123 && data[1] == 34 && data[2] == 82 && data[3] == 101 && data[4]
        == 115 && data[5] == 112 && data[6] == 111 && data[7] == 110 && data[8] == 115 && data[9]
        == 101 && data[10] == 34 && data[11] == 58 && data[n - 1] == 125 {
        let body = &data[12..n - 1];
        proof {
            assert(data@ =~= resp_prefix() + body@ + seq![125u8]);
        }
        if body.len() == 4 && body[0] == 110 && body[1] == 117 && body[2] == 108 && body[3]
            == 108 {
            proof {
                assert(body@ =~= null_enc());
                lemma_round_trip(Message::Response(None));
            }
            return Some(Message::Response(None));
        }
        proof {
            assert(body@ != null_enc());
        }
        match parse_canonical(body) {
            Some(v) => {
                proof {
                    lemma_dec_of_val(body@);
                    assert(dec_digits(v as nat) == body@);
                    lemma_round_trip(Message::Response(Some(v)));
                }
                return Some(Message::Response(Some(v)));
            },
            None => {
                proof {
                    assert forall|m: Message| enc_spec(m) != data@ by {
                        lemma_no_match_body(data@, body@, m);
                    }
                }
                return None;
            },
        }
    }
    proof {
        assert forall|m: Message| enc_spec(m) != data@ by {
            lemma_no_match_shape(data@, m);
        }
    }
    None
}

/// Two byte strings framed as response bodies the same way are equal.
proof fn lemma_resp_frame(b1: Seq<u8>, b2: Seq<u8>)
    requires
        resp_prefix() + b1 + seq![125u8] == resp_prefix() + b2 + seq![125u8],
    ensures
        b1 == b2,
{
    let e1 = resp_prefix() + b1 + seq![125u8];
    let e2 = resp_prefix() + b2 + seq![125u8];
    assert(e1.len() == 13 + b1.len());
    assert(e2.len() == 13 + b2.len());
    assert forall|i: int| 0 <= i < b1.len() implies b1[i] == b2[i] by {
        assert(e1[12 + i] == b1[i]);
        assert(e2[12 + i] == b2[i]);
    }
    assert(b1 =~= b2);
}

/// A well-framed response whose body is neither `null` nor a parseable
/// canonical number encodes no message.
proof fn lemma_no_match_body(data: Seq<u8>, body: Seq<u8>, m: Message)
    requires
        data == resp_prefix() + body + seq![125u8],
        body != null_enc(),
        !(is_canonical_digits(body) && digits_val(body) <= u64::MAX as int),
    ensures
        enc_spec(m) != data,
{
    if enc_spec(m) == data {
        match m {
            Message::Query => {
                assert(query_enc()[0] == 34);
                assert(data[0] == 123);
            },
            Message::Response(None) => {
                lemma_resp_frame(null_enc(), body);
            },
            Message::Response(Some(k)) => {
                lemma_resp_frame(dec_digits(k as nat), body);
                lemma_dec_digits_shape(k as nat);
                lemma_val_of_dec(k as nat);
            },
        }
    }
}

/// A byte string that is not `"Query"` and lacks the response frame encodes
/// no message.
proof fn lemma_no_match_shape(data: Seq<u8>, m: Message)
    requires
        data != query_enc(),
        !(data.len() >= 14 && data[0] == 123 && data[1] == 34 && data[2] == 82 && data[3] == 101
            && data[4] == 115 && data[5] == 112 && data[6] == 111 && data[7] == 110 && data[8]
            == 115 && data[9] == 101 && data[10] == 34 && data[11] == 58 && data[data.len() - 1]
            == 125),
    ensures
        enc_spec(m) != data,
{
    if enc_spec(m) == data {
        match m {
            Message::Query => {},
            Message::Response(x) => {
                let body = match x {
                    None => null_enc(),
                    Some(k) => dec_digits(k as nat),
                };
                if x is Some {
                    lemma_dec_digits_shape(x->0 as nat);
                }
                assert(body.len() >= 1);
                assert(data.len() == 13 + body.len());
                assert(data[data.len() - 1] == 125);
                assert(data[0] == 123 && data[1] == 34 && data[2] == 82 && data[3] == 101
                    && data[4] == 115 && data[5] == 112 && data[6] == 111 && data[7] == 110
                    && data[8] == 115 && data[9] == 101 && data[10] == 34 && data[11] == 58);
            },
        }
    }
}

} // verus!

//! The signaling payload: a session description as base64 of its JSON text.
//!
//! The text is safe to carry as a JSON string value. Over HTTP it travels
//! between double quotes, as [`frame`] writes it and [`unframe`] reads it.

use vstd::prelude::*;
use vstd::utf8::{
    decode_utf8, encode_utf8, encode_utf8_decode_utf8, encode_utf8_valid_utf8, valid_utf8,
};
use crate::base64;
use crate::description::{lemma_parse_render, parse_description, render, DescriptionView};
use crate::description::SessionDescription;
use crate::error::SignalingError;
use crate::text::{chars_of, push_char, string_from_utf8};

verus! {

/// The payload text of a description.
pub open spec fn encode_spec(d: DescriptionView) -> Seq<char> {
    base64::encode_spec(encode_utf8(render(d)))
}

/// The description that a payload text holds: the text must be base64, the
/// bytes it encodes must be UTF-8, and that text must hold a description.
pub open spec fn decode_spec(text: Seq<char>) -> Option<DescriptionView> {
    match base64::decode_spec(text) {
        None => None,
        Some(bytes) => if valid_utf8(bytes) {
            parse_description(decode_utf8(bytes))
        } else {
            None
        },
    }
}

/// Decoding what was encoded gives the description back, for every
/// description.
pub proof fn lemma_round_trip(d: DescriptionView)
    ensures
        decode_spec(encode_spec(d)) == Some(d),
{
    let json = render(d);
    base64::lemma_decode_encode(encode_utf8(json));
    encode_utf8_valid_utf8(json);
    encode_utf8_decode_utf8(json);
    lemma_parse_render(d);
}

/// Encodes a description as payload text.
pub fn encode(description: &SessionDescription) -> (text: String)
    ensures
        text@ == encode_spec(description@),
{
    let json = description.to_json();
    base64::encode(json.as_str().as_bytes())
}

/// Decodes payload text. Fails with `MalformedSignalingPayload` exactly when
/// the text holds no description.
///
/// The text must be base64 with its padding and nothing else, not even
/// whitespace. What it encodes must be UTF-8 and a JSON object whose `type`
/// is `offer` or `answer` and whose `sdp` is a string. Other members are
/// passed over, but arrays and objects in them may nest no deeper than
/// [`MAX_DEPTH`](crate::json::MAX_DEPTH) levels: a text with deeper
/// nesting is refused, valid JSON or not.
pub fn decode(text: &str) -> (r: Result<SessionDescription, SignalingError>)
    ensures
        match r {
            Ok(d) => decode_spec(text@) == Some(d@),
            Err(e) => e == SignalingError::MalformedSignalingPayload && decode_spec(text@) is None,
        },
{
    match base64::decode(text) {
        None => Err(SignalingError::MalformedSignalingPayload),
        Some(bytes) => match string_from_utf8(bytes) {
            None => Err(SignalingError::MalformedSignalingPayload),
            Some(json) => {
                proof {
                    encode_utf8_decode_utf8(json@);
                }
                match SessionDescription::from_json(json.as_str()) {
                    None => Err(SignalingError::MalformedSignalingPayload),
                    Some(d) => Ok(d),
                }
            },
        },
    }
}

/// A payload between double quotes.
pub open spec fn frame_spec(payload: Seq<char>) -> Seq<char> {
    seq!['"'] + payload + seq!['"']
}

/// A text without its double quotes, wherever they stand.
pub open spec fn unframe_spec(body: Seq<char>) -> Seq<char> {
    body.filter(|c: char| c != '"')
}

/// Payload text holds no double quote.
pub proof fn lemma_payload_has_no_quote(bytes: Seq<u8>, i: int)
    requires
        0 <= i < base64::encode_spec(bytes).len(),
    ensures
        base64::encode_spec(bytes)[i] != '"',
    decreases bytes.len(),
{
    if bytes.len() >= 3 {
        if i >= 4 {
            lemma_payload_has_no_quote(bytes.subrange(3, bytes.len() as int), i - 4);
        }
    }
}

/// Unframing a framed text gives the text back, if it holds no double
/// quote.
pub proof fn lemma_unframe_frame(payload: Seq<char>)
    requires
        forall|i: int| 0 <= i < payload.len() ==> payload[i] != '"',
    ensures
        unframe_spec(frame_spec(payload)) == payload,
{
    let keep = |c: char| c != '"';
    let quote = seq!['"'];
    reveal_with_fuel(Seq::filter, 2);
    assert(quote.filter(keep) =~= Seq::<char>::empty()) by {
        assert(quote.drop_last() =~= Seq::<char>::empty());
    }
    lemma_filter_keeps_all(payload);
    Seq::filter_distributes_over_add(quote, payload, keep);
    Seq::filter_distributes_over_add(quote + payload, quote, keep);
    assert(unframe_spec(frame_spec(payload)) =~= payload);
}

proof fn lemma_filter_keeps_all(text: Seq<char>)
    requires
        forall|i: int| 0 <= i < text.len() ==> text[i] != '"',
    ensures
        text.filter(|c: char| c != '"') == text,
    decreases text.len(),
{
    reveal_with_fuel(Seq::filter, 1);
    if text.len() > 0 {
        lemma_filter_keeps_all(text.drop_last());
        assert(text.drop_last().push(text.last()) =~= text);
    }
}

/// Decoding the unframed frame of an encoded description gives the
/// description back.
pub proof fn lemma_framed_round_trip(d: DescriptionView)
    ensures
        decode_spec(unframe_spec(frame_spec(encode_spec(d)))) == Some(d),
{
    let payload = encode_spec(d);
    assert forall|i: int| 0 <= i < payload.len() implies payload[i] != '"' by {
        lemma_payload_has_no_quote(encode_utf8(render(d)), i);
    }
    lemma_unframe_frame(payload);
    lemma_round_trip(d);
}

/// Puts a payload between double quotes, as the body of a request or a
/// response carries it.
pub fn frame(payload: &str) -> (body: String)
    ensures
        body@ == frame_spec(payload@),
{
    let chars = chars_of(payload);
    let mut body = String::new();
    push_char(&mut body, '"');
    let mut i: usize = 0;
    while i < chars.len()
        invariant
            i <= chars.len(),
            body@ == seq!['"'] + chars@.subrange(0, i as int),
        decreases chars.len() - i,
    {
        push_char(&mut body, chars[i]);
        proof {
            assert(chars@.subrange(0, i + 1) =~= chars@.subrange(0, i as int).push(chars@[i as int]));
        }
        i = i + 1;
    }
    proof {
        assert(chars@.subrange(0, i as int) =~= chars@);
    }
    push_char(&mut body, '"');
    body
}

/// Removes every double quote from a body.
pub fn unframe(body: &str) -> (payload: String)
    ensures
        payload@ == unframe_spec(body@),
{
    let chars = chars_of(body);
    let mut payload = String::new();
    let mut i: usize = 0;
    proof {
        reveal_with_fuel(Seq::filter, 1);
        assert(chars@.subrange(0, 0) =~= Seq::<char>::empty());
    }
    while i < chars.len()
        invariant
            i <= chars.len(),
            payload@ == chars@.subrange(0, i as int).filter(|c: char| c != '"'),
        decreases chars.len() - i,
    {
        proof {
            reveal_with_fuel(Seq::filter, 1);
            let next = chars@.subrange(0, i + 1);
            assert(next.drop_last() =~= chars@.subrange(0, i as int));
            assert(next.last() == chars@[i as int]);
        }
        if chars[i] != '"' {
            push_char(&mut payload, chars[i]);
        }
        i = i + 1;
    }
    proof {
        assert(chars@.subrange(0, i as int) =~= chars@);
    }
    payload
}

} // verus!

use cyberdeck_client_web_sys::base64;
use cyberdeck_client_web_sys::codec::{decode, encode, frame, unframe};
use cyberdeck_client_web_sys::description::{SdpKind, SessionDescription};
use cyberdeck_client_web_sys::error::SignalingError;

#[test]
fn encode_offer_gives_known_text() {
    let d = SessionDescription::new(SdpKind::Offer, "v=0".to_string());
    // {"type":"offer","sdp":"v=0"}
    assert_eq!(encode(&d), "eyJ0eXBlIjoib2ZmZXIiLCJzZHAiOiJ2PTAifQ==");
}

#[test]
fn decode_known_text() {
    // {"type":"answer","sdp":"v=0\r\n"}
    let text = "eyJ0eXBlIjoiYW5zd2VyIiwic2RwIjoidj0wXHJcbiJ9";
    assert_eq!(decode(text), Ok(SessionDescription::new(SdpKind::Answer, "v=0\r\n".to_string())));
}

#[test]
fn decode_undoes_encode() {
    let bodies = [
        "",
        "v=0\r\no=- 1 2 IN IP4 127.0.0.1\r\n",
        "a=candidate:1 1 UDP 2130706431 192.0.2.1 3478 typ host\r\n",
        "\"quoted\" \\ \u{1} \u{e9}\u{1f600}",
    ];
    for body in bodies {
        let d = SessionDescription::new(SdpKind::Answer, body.to_string());
        assert_eq!(decode(&encode(&d)), Ok(d));
        let d = SessionDescription::new(SdpKind::Offer, body.to_string());
        assert_eq!(decode(&encode(&d)), Ok(d));
    }
}

#[test]
fn encoded_text_is_base64_of_the_json_bytes() {
    let d = SessionDescription::new(SdpKind::Offer, "caf\u{e9}".to_string());
    assert_eq!(encode(&d), base64::encode(d.to_json().as_bytes()));
    assert_eq!(base64::decode(&encode(&d)), Some(d.to_json().into_bytes()));
}

#[test]
fn malformed_offer_is_refused() {
    assert_eq!(decode("not-base64!!"), Err(SignalingError::MalformedSignalingPayload));
}

#[test]
fn base64_of_what_is_no_json_is_refused() {
    assert_eq!(decode(&base64::encode(b"hello")), Err(SignalingError::MalformedSignalingPayload));
    assert_eq!(decode(""), Err(SignalingError::MalformedSignalingPayload));
}

#[test]
fn base64_of_json_without_the_members_is_refused() {
    assert_eq!(
        decode(&base64::encode(b"{\"type\":\"offer\"}")),
        Err(SignalingError::MalformedSignalingPayload)
    );
    assert_eq!(
        decode(&base64::encode(b"{\"type\":\"rollback\",\"sdp\":\"\"}")),
        Err(SignalingError::MalformedSignalingPayload)
    );
}

#[test]
fn base64_of_bytes_that_are_no_utf8_is_refused() {
    assert_eq!(decode("/w=="), Err(SignalingError::MalformedSignalingPayload));
    let mut bytes = b"{\"type\":\"offer\",\"sdp\":\"".to_vec();
    bytes.push(0xc3);
    bytes.extend_from_slice(b"\"}");
    assert_eq!(decode(&base64::encode(&bytes)), Err(SignalingError::MalformedSignalingPayload));
}

#[test]
fn decode_reads_escapes_in_the_json() {
    let json = "{\"sdp\":\"\\u0041\\ud83d\\ude00\",\"type\":\"answer\"}";
    assert_eq!(
        decode(&base64::encode(json.as_bytes())),
        Ok(SessionDescription::new(SdpKind::Answer, "A\u{1f600}".to_string()))
    );
}

#[test]
fn frame_puts_quotes_around() {
    assert_eq!(frame("Zm9v"), "\"Zm9v\"");
    assert_eq!(frame(""), "\"\"");
}

#[test]
fn unframe_removes_every_quote() {
    assert_eq!(unframe("\"Zm9v\""), "Zm9v");
    assert_eq!(unframe("Zm9v"), "Zm9v");
    assert_eq!(unframe("\"Zm\"9v\"\""), "Zm9v");
    assert_eq!(unframe(""), "");
    assert_eq!(unframe("\"\""), "");
}

#[test]
fn unframe_undoes_frame_on_payload() {
    let d = SessionDescription::new(SdpKind::Offer, "v=0\r\n".to_string());
    let payload = encode(&d);
    assert_eq!(unframe(&frame(&payload)), payload);
    assert_eq!(decode(&unframe(&frame(&payload))), Ok(d));
}

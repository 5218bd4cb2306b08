use cyberdeck_client_web_sys::description::{SdpKind, SessionDescription};

fn offer(sdp: &str) -> SessionDescription {
    SessionDescription::new(SdpKind::Offer, sdp.to_string())
}

fn answer(sdp: &str) -> SessionDescription {
    SessionDescription::new(SdpKind::Answer, sdp.to_string())
}

#[test]
fn writes_an_offer() {
    assert_eq!(offer("v=0").to_json(), "{\"type\":\"offer\",\"sdp\":\"v=0\"}");
}

#[test]
fn writes_an_answer() {
    assert_eq!(answer("").to_json(), "{\"type\":\"answer\",\"sdp\":\"\"}");
}

#[test]
fn writes_escapes() {
    let d = offer("a\"b\\c\r\nd\te\u{8}f\u{c}g\u{1}h\u{1f}i/j\u{7f}k\u{e9}\u{1f600}");
    assert_eq!(
        d.to_json(),
        "{\"type\":\"offer\",\"sdp\":\"a\\\"b\\\\c\\r\\nd\\te\\bf\\fg\\u0001h\\u001fi/j\u{7f}k\u{e9}\u{1f600}\"}"
    );
}

#[test]
fn duplicate_is_equal() {
    let d = offer("v=0\r\n");
    assert_eq!(d.duplicate(), d);
}

#[test]
fn reads_what_it_writes() {
    let bodies = [
        "",
        "v=0\r\no=- 4294967296 2 IN IP4 127.0.0.1\r\ns=-\r\n",
        "quote \" backslash \\ slash / tab \t",
        "\u{0}\u{1}\u{2}\u{1e}\u{1f} \u{7f}\u{80}",
        "\u{e9}\u{4e2d}\u{6587}\u{1f600}\u{10ffff}",
        "\\u0041 \\n \\\\",
    ];
    for body in bodies {
        let d = offer(body);
        assert_eq!(SessionDescription::from_json(&d.to_json()), Some(d));
        let d = answer(body);
        assert_eq!(SessionDescription::from_json(&d.to_json()), Some(d));
    }
}

#[test]
fn reads_every_character_below_space() {
    let mut body = String::new();
    for v in 0..32u32 {
        body.push(char::from_u32(v).unwrap());
    }
    let d = offer(&body);
    assert_eq!(SessionDescription::from_json(&d.to_json()), Some(d));
}

#[test]
fn reads_members_in_any_order_and_with_whitespace() {
    let text = " \t\r\n{ \"sdp\" : \"v=0\" ,\n \"type\" : \"answer\" } \n";
    assert_eq!(SessionDescription::from_json(text), Some(answer("v=0")));
}

#[test]
fn reads_escapes() {
    let text = "{\"type\":\"offer\",\"sdp\":\"\\\"\\\\\\/\\b\\f\\n\\r\\t\\u0041\\u00e9\\u4E2d\"}";
    assert_eq!(
        SessionDescription::from_json(text),
        Some(offer("\"\\/\u{8}\u{c}\n\r\tA\u{e9}\u{4e2d}"))
    );
}

#[test]
fn reads_a_surrogate_pair_as_one_character() {
    let text = "{\"type\":\"offer\",\"sdp\":\"\\ud83d\\ude00\"}";
    assert_eq!(SessionDescription::from_json(text), Some(offer("\u{1f600}")));
    let text = "{\"type\":\"offer\",\"sdp\":\"\\uDBFF\\uDFFF\"}";
    assert_eq!(SessionDescription::from_json(text), Some(offer("\u{10ffff}")));
}

#[test]
fn refuses_a_surrogate_on_its_own() {
    assert_eq!(SessionDescription::from_json("{\"type\":\"offer\",\"sdp\":\"\\ud83d\"}"), None);
    assert_eq!(SessionDescription::from_json("{\"type\":\"offer\",\"sdp\":\"\\ude00\"}"), None);
    assert_eq!(
        SessionDescription::from_json("{\"type\":\"offer\",\"sdp\":\"\\ud83d\\u0041\"}"),
        None
    );
    assert_eq!(SessionDescription::from_json("{\"type\":\"offer\",\"sdp\":\"\\ud83dx\"}"), None);
}

#[test]
fn escaped_member_names_count() {
    let text = "{\"ty\\u0070e\":\"offer\",\"s\\u0064p\":\"x\"}";
    assert_eq!(SessionDescription::from_json(text), Some(offer("x")));
}

#[test]
fn skips_other_members() {
    let text = "{\"a\":null,\"b\":true,\"c\":false,\"d\":-12.5e+3,\"e\":[1,[2,{\"type\":\"answer\"}],\"x\"],\
                \"f\":{\"sdp\":\"inner\",\"g\":{}},\"h\":[],\"i\":0,\"type\":\"offer\",\"sdp\":\"outer\",\"j\":\"k\"}";
    assert_eq!(SessionDescription::from_json(text), Some(offer("outer")));
}

#[test]
fn the_last_of_equal_names_counts() {
    let text = "{\"type\":\"offer\",\"sdp\":\"one\",\"type\":\"answer\",\"sdp\":\"two\"}";
    assert_eq!(SessionDescription::from_json(text), Some(answer("two")));
    let text = "{\"type\":\"offer\",\"sdp\":\"one\",\"sdp\":2}";
    assert_eq!(SessionDescription::from_json(text), None);
    let text = "{\"type\":7,\"sdp\":\"one\",\"type\":\"offer\"}";
    assert_eq!(SessionDescription::from_json(text), Some(offer("one")));
}

#[test]
fn refuses_missing_members() {
    assert_eq!(SessionDescription::from_json("{}"), None);
    assert_eq!(SessionDescription::from_json("{\"type\":\"offer\"}"), None);
    assert_eq!(SessionDescription::from_json("{\"sdp\":\"v=0\"}"), None);
}

#[test]
fn refuses_members_of_the_wrong_kind() {
    assert_eq!(SessionDescription::from_json("{\"type\":\"offer\",\"sdp\":null}"), None);
    assert_eq!(SessionDescription::from_json("{\"type\":1,\"sdp\":\"v=0\"}"), None);
    assert_eq!(SessionDescription::from_json("{\"type\":\"pranswer\",\"sdp\":\"v=0\"}"), None);
    assert_eq!(SessionDescription::from_json("{\"type\":\"Offer\",\"sdp\":\"v=0\"}"), None);
    assert_eq!(SessionDescription::from_json("{\"type\":\"\",\"sdp\":\"v=0\"}"), None);
}

#[test]
fn refuses_what_is_no_object() {
    for text in ["", " ", "null", "\"offer\"", "[]", "12", "[{\"type\":\"offer\",\"sdp\":\"\"}]"] {
        assert_eq!(SessionDescription::from_json(text), None);
    }
}

#[test]
fn refuses_broken_documents() {
    let broken = [
        "{",
        "{\"type\":\"offer\",\"sdp\":\"v=0\"",
        "{\"type\":\"offer\",\"sdp\":\"v=0\"}}",
        "{\"type\":\"offer\",\"sdp\":\"v=0\"} x",
        "{\"type\":\"offer\",\"sdp\":\"v=0\",}",
        "{,\"type\":\"offer\",\"sdp\":\"v=0\"}",
        "{\"type\":\"offer\" \"sdp\":\"v=0\"}",
        "{\"type\" \"offer\",\"sdp\":\"v=0\"}",
        "{type:\"offer\",\"sdp\":\"v=0\"}",
        "{'type':'offer','sdp':'v=0'}",
        "{\"type\":\"offer\",\"sdp\":\"v=0}",
        "{\"type\":\"offer\",\"sdp\":\"v\n0\"}",
        "{\"type\":\"offer\",\"sdp\":\"\\x\"}",
        "{\"type\":\"offer\",\"sdp\":\"\\u12\"}",
        "{\"type\":\"offer\",\"sdp\":\"\\u12g4\"}",
        "{\"type\":\"offer\",\"sdp\":\"v=0\",\"n\":01}",
        "{\"type\":\"offer\",\"sdp\":\"v=0\",\"n\":1.}",
        "{\"type\":\"offer\",\"sdp\":\"v=0\",\"n\":.5}",
        "{\"type\":\"offer\",\"sdp\":\"v=0\",\"n\":-}",
        "{\"type\":\"offer\",\"sdp\":\"v=0\",\"n\":1e}",
        "{\"type\":\"offer\",\"sdp\":\"v=0\",\"n\":+1}",
        "{\"type\":\"offer\",\"sdp\":\"v=0\",\"n\":tru}",
        "{\"type\":\"offer\",\"sdp\":\"v=0\",\"n\":nul}",
        "{\"type\":\"offer\",\"sdp\":\"v=0\",\"n\":[1,]}",
        "{\"type\":\"offer\",\"sdp\":\"v=0\",\"n\":[1 2]}",
        "{\"type\":\"offer\",\"sdp\":\"v=0\",\"n\":[}",
        "{\"type\":\"offer\",\"sdp\":\"v=0\",\"n\":{\"a\"}}",
    ];
    for text in broken {
        assert_eq!(SessionDescription::from_json(text), None, "{}", text);
    }
}

#[test]
fn reads_numbers_of_every_form() {
    for n in ["0", "-0", "7", "10", "-12", "0.5", "3.25", "1e5", "1E5", "1e+5", "2.5e-10", "-0.0e0"] {
        let text = format!("{{\"n\":{},\"type\":\"offer\",\"sdp\":\"\"}}", n);
        assert_eq!(SessionDescription::from_json(&text), Some(offer("")), "{}", n);
    }
}

fn nested(levels: usize) -> String {
    let mut text = String::from("{\"type\":\"offer\",\"sdp\":\"\",\"n\":");
    for _ in 0..levels {
        text.push('[');
    }
    for _ in 0..levels {
        text.push(']');
    }
    text.push('}');
    text
}

#[test]
fn reads_nesting_up_to_the_limit() {
    assert_eq!(SessionDescription::from_json(&nested(1)), Some(offer("")));
    assert_eq!(SessionDescription::from_json(&nested(128)), Some(offer("")));
}

#[test]
fn refuses_nesting_beyond_the_limit() {
    assert_eq!(SessionDescription::from_json(&nested(129)), None);
    assert_eq!(SessionDescription::from_json(&nested(5000)), None);
}

#[test]
fn reads_a_document_with_many_members() {
    let mut text = String::from("{");
    for i in 0..20000 {
        text.push_str(&format!("\"m{}\":{},", i, i));
    }
    text.push_str("\"type\":\"answer\",\"sdp\":\"v=0\"}");
    assert_eq!(SessionDescription::from_json(&text), Some(answer("v=0")));
}

#[test]
fn kinds_have_names() {
    assert_eq!(SdpKind::Offer.name(), "offer");
    assert_eq!(SdpKind::Answer.name(), "answer");
    assert_eq!(SdpKind::from_name("offer"), Some(SdpKind::Offer));
    assert_eq!(SdpKind::from_name("answer"), Some(SdpKind::Answer));
    assert_eq!(SdpKind::from_name("pranswer"), None);
    assert_eq!(SdpKind::from_name("rollback"), None);
    assert_eq!(SdpKind::from_name(""), None);
    assert_eq!(SdpKind::from_name("OFFER"), None);
}

//! Session descriptions and their JSON form.
//!
//! A description is written as the object `{"type":"offer","sdp":"..."}`,
//! with `answer` in place of `offer` for an answer. It is read from any JSON
//! object whose last `type` member is the string `offer` or `answer` and
//! whose last `sdp` member is a string.

use vstd::prelude::*;
use vstd::string::*;
use crate::json::{
    escape, is_ws, lemma_escape_plain, lemma_parse_escaped, no_fields, parse_document,
    parse_member, parse_members, parse_object, parse_string, read_document, record, skip_ws,
    write_escaped, Fields, FieldsView, MAX_DEPTH,
};
use crate::text::{chars_of, same_text, word_at};

verus! {

/// Which side of the exchange a description comes from.
#[derive(Clone, Copy, Debug, PartialEq, Eq, Structural)]
pub enum SdpKind {
    Offer,
    Answer,
}

/// A session description: its kind and its body, which is opaque text.
#[derive(Clone, Debug, PartialEq, Eq)]
pub struct SessionDescription {
    pub kind: SdpKind,
    pub sdp: String,
}

/// A session description as plain values.
pub ghost struct DescriptionView {
    pub kind: SdpKind,
    pub sdp: Seq<char>,
}

impl View for SessionDescription {
    type V = DescriptionView;

    open spec fn view(&self) -> DescriptionView {
        DescriptionView { kind: self.kind, sdp: self.sdp@ }
    }
}

/// The word that names a kind in the `type` member.
pub open spec fn kind_text(kind: SdpKind) -> Seq<char> {
    match kind {
        SdpKind::Offer => "offer"@,
        SdpKind::Answer => "answer"@,
    }
}

/// The JSON text of a description.
pub open spec fn render(d: DescriptionView) -> Seq<char> {
    "{\"type\":\""@ + kind_text(d.kind) + "\",\"sdp\":\""@ + escape(d.sdp) + "\"}"@
}

/// The description that a document's fields make up, if both are there and
/// the kind is a known one.
pub open spec fn description_of(fields: FieldsView) -> Option<DescriptionView> {
    match (fields.kind, fields.sdp) {
        (Some(kind), Some(sdp)) => if kind == "offer"@ {
            Some(DescriptionView { kind: SdpKind::Offer, sdp })
        } else if kind == "answer"@ {
            Some(DescriptionView { kind: SdpKind::Answer, sdp })
        } else {
            None
        },
        _ => None,
    }
}

/// The description that a JSON text holds, if it holds one.
pub open spec fn parse_description(text: Seq<char>) -> Option<DescriptionView> {
    match parse_document(text) {
        Some(fields) => description_of(fields),
        None => None,
    }
}

proof fn lemma_words()
    ensures
        "type"@ == seq!['t', 'y', 'p', 'e'],
        "sdp"@ == seq!['s', 'd', 'p'],
        "offer"@ == seq!['o', 'f', 'f', 'e', 'r'],
        "answer"@ == seq!['a', 'n', 's', 'w', 'e', 'r'],
        "{\"type\":\""@ == seq!['{', '"', 't', 'y', 'p', 'e', '"', ':', '"'],
        "\",\"sdp\":\""@ == seq!['"', ',', '"', 's', 'd', 'p', '"', ':', '"'],
        "\"}"@ == seq!['"', '}'],
{
    reveal_strlit("type");
    reveal_strlit("sdp");
    reveal_strlit("offer");
    reveal_strlit("answer");
    reveal_strlit("{\"type\":\"");
    reveal_strlit("\",\"sdp\":\"");
    reveal_strlit("\"}");
    assert("type"@ =~= seq!['t', 'y', 'p', 'e']);
    assert("sdp"@ =~= seq!['s', 'd', 'p']);
    assert("offer"@ =~= seq!['o', 'f', 'f', 'e', 'r']);
    assert("answer"@ =~= seq!['a', 'n', 's', 'w', 'e', 'r']);
    assert("{\"type\":\""@ =~= seq!['{', '"', 't', 'y', 'p', 'e', '"', ':', '"']);
    assert("\",\"sdp\":\""@ =~= seq!['"', ',', '"', 's', 'd', 'p', '"', ':', '"']);
    assert("\"}"@ =~= seq!['"', '}']);
}

/// The two kinds have different names.
pub proof fn lemma_kind_names_differ()
    ensures
        kind_text(SdpKind::Offer) != kind_text(SdpKind::Answer),
{
    lemma_words();
    assert("offer"@.len() != "answer"@.len());
}

/// One member whose value is a string, as it stands in a text: the quoted
/// name from `i` on, a colon, and the quoted value, with no whitespace.
spec fn member_at(s: Seq<char>, i: int, name: Seq<char>, value: Seq<char>) -> bool {
    let n = escape(name).len() as int;
    let v = escape(value).len() as int;
    &&& 0 <= i
    &&& i + n + v + 5 < s.len()
    &&& s[i] == '"'
    &&& word_at(s, i + 1, escape(name))
    &&& s[i + 1 + n] == '"'
    &&& s[i + 2 + n] == ':'
    &&& s[i + 3 + n] == '"'
    &&& word_at(s, i + 4 + n, escape(value))
    &&& s[i + 4 + n + v] == '"'
}

/// The index behind a member that stands at `i`.
spec fn member_end(i: int, name: Seq<char>, value: Seq<char>) -> int {
    i + escape(name).len() + escape(value).len() + 5
}

/// Reading the members from a string member on records it and goes on with
/// what stands behind it: the end of the object, or the next member.
proof fn lemma_read_member(
    s: Seq<char>,
    i: int,
    name: Seq<char>,
    value: Seq<char>,
    depth: nat,
    acc: FieldsView,
)
    requires
        member_at(s, i, name, value),
    ensures
        ({
            let m = member_end(i, name, value);
            let next = record(acc, name, Some(value));
            &&& s[m] == '}' ==> parse_members(s, i, depth, acc) == Some((next, m + 1))
            &&& s[m] == ',' && !is_ws(s[m + 1]) && m + 1 < s.len() ==> parse_members(
                s,
                i,
                depth,
                acc,
            ) == parse_members(s, m + 1, depth, next)
        }),
{
    let n = escape(name).len() as int;
    let v = escape(value).len() as int;
    let m = member_end(i, name, value);
    lemma_parse_escaped(s, i + 1, name, seq![]);
    assert(seq![] + name =~= name);
    assert(parse_string(s, i + 1, seq![]) == Some((name, i + 2 + n)));
    lemma_parse_escaped(s, i + 4 + n, value, seq![]);
    assert(seq![] + value =~= value);
    assert(parse_string(s, i + 4 + n, seq![]) == Some((value, m)));
    assert(skip_ws(s, i + 2 + n) == i + 2 + n);
    assert(skip_ws(s, i + 3 + n) == i + 3 + n);
    assert(parse_member(s, i + 3 + n, depth) == Some((Some(value), m)));
    if s[m] == '}' {
        assert(skip_ws(s, m) == m);
    }
    if s[m] == ',' && !is_ws(s[m + 1]) && m + 1 < s.len() {
        assert(skip_ws(s, m) == m);
        assert(skip_ws(s, m + 1) == m + 1);
    }
}

/// Where the pieces of a written description stand in its text.
proof fn lemma_render_shape(d: DescriptionView)
    ensures
        ({
            let s = render(d);
            let k = kind_text(d.kind);
            let second = member_end(1, "type"@, k) + 1;
            let end = member_end(second, "sdp"@, d.sdp);
            &&& s[0] == '{'
            &&& member_at(s, 1, "type"@, k)
            &&& s[second - 1] == ','
            &&& member_at(s, second, "sdp"@, d.sdp)
            &&& s[end] == '}'
            &&& s.len() == end + 1
        }),
{
    lemma_words();
    let s = render(d);
    let a = "{\"type\":\""@;
    let k = kind_text(d.kind);
    let b = "\",\"sdp\":\""@;
    let e = escape(d.sdp);
    let c = "\"}"@;
    let kl = k.len() as int;
    let el = e.len() as int;
    let b0 = 9 + kl;
    let e0 = b0 + 9;
    lemma_escape_plain("type"@);
    lemma_escape_plain("sdp"@);
    lemma_escape_plain(k);
    assert(s.len() == e0 + el + 2);
    assert forall|t: int| 0 <= t < 9 implies s[t] == a[t] by {}
    assert forall|t: int| 0 <= t < kl implies s[9 + t] == k[t] by {}
    assert forall|t: int| 0 <= t < 9 implies s[b0 + t] == b[t] by {}
    assert forall|t: int| 0 <= t < el implies s[e0 + t] == e[t] by {}
    assert(s[e0 + el] == c[0]);
    assert(s[e0 + el + 1] == c[1]);
    assert(s.subrange(2, 6) =~= "type"@);
    assert(s.subrange(9, 9 + kl) =~= k);
    assert(s.subrange(b0 + 3, b0 + 6) =~= "sdp"@);
    assert(s.subrange(e0, e0 + el) =~= e);
}

/// Reading what was written gives the description back, for every
/// description.
pub proof fn lemma_parse_render(d: DescriptionView)
    ensures
        parse_description(render(d)) == Some(d),
{
    lemma_words();
    lemma_render_shape(d);
    let s = render(d);
    let k = kind_text(d.kind);
    let depth = MAX_DEPTH as nat;
    let second = member_end(1, "type"@, k) + 1;
    let end = member_end(second, "sdp"@, d.sdp);
    let first = record(no_fields(), "type"@, Some(k));
    let both = record(first, "sdp"@, Some(d.sdp));
    assert("type"@ != "sdp"@) by {
        assert("type"@.len() != "sdp"@.len());
    }
    lemma_kind_names_differ();
    assert(both == FieldsView { kind: Some(k), sdp: Some(d.sdp) });
    lemma_read_member(s, 1, "type"@, k, depth, no_fields());
    lemma_read_member(s, second, "sdp"@, d.sdp, depth, first);
    assert(parse_members(s, 1, depth, no_fields()) == Some((both, end + 1)));
    assert(skip_ws(s, 1) == 1);
    assert(parse_object(s, 1, depth) == Some((both, end + 1)));
    assert(skip_ws(s, 0) == 0);
    assert(skip_ws(s, end + 1) == end + 1);
    assert(parse_document(s) == Some(both));
}

impl SdpKind {
    /// The word that names this kind.
    pub fn name(&self) -> (text: String)
        ensures
            text@ == kind_text(*self),
    {
        match self {
            SdpKind::Offer => "offer".to_owned(),
            SdpKind::Answer => "answer".to_owned(),
        }
    }

    /// The kind that a word names, if it names one.
    pub fn from_name(name: &str) -> (r: Option<SdpKind>)
        ensures
            match r {
                Some(kind) => name@ == kind_text(kind),
                None => name@ != kind_text(SdpKind::Offer) && name@ != kind_text(SdpKind::Answer),
            },
    {
        if same_text(name, "offer") {
            Some(SdpKind::Offer)
        } else if same_text(name, "answer") {
            Some(SdpKind::Answer)
        } else {
            None
        }
    }
}

impl SessionDescription {
    /// A description of the given kind with the given body.
    pub fn new(kind: SdpKind, sdp: String) -> (d: SessionDescription)
        ensures
            d@ == (DescriptionView { kind, sdp: sdp@ }),
    {
        SessionDescription { kind, sdp }
    }

    /// A copy of this description.
    pub fn duplicate(&self) -> (d: SessionDescription)
        ensures
            d@ == self@,
    {
        SessionDescription { kind: self.kind, sdp: self.sdp.clone() }
    }

    /// Writes the description as JSON text.
    pub fn to_json(&self) -> (text: String)
        ensures
            text@ == render(self@),
    {
        let mut out = String::from_str("{\"type\":\"");
        out.append(self.kind.name().as_str());
        out.append("\",\"sdp\":\"");
        write_escaped(&mut out, self.sdp.as_str());
        out.append("\"}");
        out
    }

    /// Reads a description from JSON text; `None` when the text is not a
    /// JSON object or does not hold a usable `type` and `sdp`.
    pub fn from_json(text: &str) -> (r: Option<SessionDescription>)
        ensures
            match r {
                Some(d) => parse_description(text@) == Some(d@),
                None => parse_description(text@) is None,
            },
    {
        let chars = chars_of(text);
        match read_document(&chars) {
            None => None,
            Some(fields) => {
                let Fields { kind, sdp } = fields;
                match (kind, sdp) {
                    (Some(name), Some(sdp)) => match SdpKind::from_name(name.as_str()) {
                        Some(kind) => {
                            proof {
                                lemma_kind_names_differ();
                            }
                            Some(SessionDescription { kind, sdp })
                        },
                        None => None,
                    },
                    _ => None,
                }
            },
        }
    }
}

} // verus!

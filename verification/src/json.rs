//! The JSON grammar, as far as a session description needs it.
//!
//! A document is read as a sequence of characters. Strings are decoded to
//! their value; every other value is only checked against the grammar and
//! skipped. Arrays and objects may nest up to [`MAX_DEPTH`] levels.

use vstd::prelude::*;
use crate::text::{char_from_u32, chars_of, has_word, push_char, same_text, word_at};

verus! {

/// How deep arrays and objects may nest inside a document's members.
pub const MAX_DEPTH: usize = 128;

/// Space, tab, line feed and carriage return.
pub open spec fn is_ws(c: char) -> bool {
    c == ' ' || c == '\t' || c == '\n' || c == '\r'
}

/// The first index at or after `i` that does not hold whitespace.
pub open spec fn skip_ws(s: Seq<char>, i: int) -> int
    decreases s.len() - i,
{
    if 0 <= i < s.len() && is_ws(s[i]) {
        skip_ws(s, i + 1)
    } else {
        i
    }
}

/// True for the characters below U+0020.
pub open spec fn is_control(c: char) -> bool {
    c <= '\u{1f}'
}

/// True for the decimal digits.
pub open spec fn is_digit(c: char) -> bool {
    '0' <= c <= '9'
}

/// The first index at or after `i` that does not hold a decimal digit.
pub open spec fn skip_digits(s: Seq<char>, i: int) -> int
    decreases s.len() - i,
{
    if 0 <= i < s.len() && is_digit(s[i]) {
        skip_digits(s, i + 1)
    } else {
        i
    }
}

/// The value of a hexadecimal digit of either case.
pub open spec fn hex_value(c: char) -> Option<int> {
    if '0' <= c <= '9' {
        Some(c as int - 48)
    } else if 'a' <= c <= 'f' {
        Some(c as int - 97 + 10)
    } else if 'A' <= c <= 'F' {
        Some(c as int - 65 + 10)
    } else {
        None
    }
}

/// The number that the four hexadecimal digits at `i` spell.
pub open spec fn hex4(s: Seq<char>, i: int) -> Option<int> {
    if 0 <= i && i + 4 <= s.len() {
        match (hex_value(s[i]), hex_value(s[i + 1]), hex_value(s[i + 2]), hex_value(s[i + 3])) {
            (Some(a), Some(b), Some(c), Some(d)) => Some(a * 4096 + b * 256 + c * 16 + d),
            _ => None,
        }
    } else {
        None
    }
}

/// The character that the escape sequence behind a backslash stands for, and
/// the index behind the sequence; `i` is the index behind the backslash.
///
/// `\u` takes four hexadecimal digits. A high surrogate must be followed by
/// a `\u` escape with a low surrogate, and the pair stands for one character;
/// a surrogate on its own stands for no character and is refused.
pub open spec fn parse_escape(s: Seq<char>, i: int) -> Option<(char, int)> {
    if !(0 <= i < s.len()) {
        None
    } else if s[i] == '"' {
        Some(('"', i + 1))
    } else if s[i] == '\\' {
        Some(('\\', i + 1))
    } else if s[i] == '/' {
        Some(('/', i + 1))
    } else if s[i] == 'b' {
        Some(('\u{8}', i + 1))
    } else if s[i] == 'f' {
        Some(('\u{c}', i + 1))
    } else if s[i] == 'n' {
        Some(('\n', i + 1))
    } else if s[i] == 'r' {
        Some(('\r', i + 1))
    } else if s[i] == 't' {
        Some(('\t', i + 1))
    } else if s[i] == 'u' {
        match hex4(s, i + 1) {
            None => None,
            Some(hi) => if 0xD800 <= hi <= 0xDBFF {
                if i + 6 < s.len() && s[i + 5] == '\\' && s[i + 6] == 'u' {
                    match hex4(s, i + 7) {
                        None => None,
                        Some(lo) => if 0xDC00 <= lo <= 0xDFFF {
                            Some(
                                (
                                    ((0x10000 + (hi - 0xD800) * 0x400 + (lo - 0xDC00)) as u32)
                                        as char,
                                    i + 11,
                                ),
                            )
                        } else {
                            None
                        },
                    }
                } else {
                    None
                }
            } else if 0xDC00 <= hi <= 0xDFFF {
                None
            } else {
                Some(((hi as u32) as char, i + 5))
            },
        }
    } else {
        None
    }
}

/// The value of the string whose first character (behind the opening quote)
/// is at `i`, appended to `acc`, and the index behind the closing quote.
///
/// Control characters below U+0020 must be escaped.
pub open spec fn parse_string(s: Seq<char>, i: int, acc: Seq<char>) -> Option<(Seq<char>, int)>
    decreases s.len() - i,
{
    if !(0 <= i < s.len()) {
        None
    } else if s[i] == '"' {
        Some((acc, i + 1))
    } else if s[i] == '\\' {
        match parse_escape(s, i + 1) {
            None => None,
            Some((c, j)) => parse_string(s, j, acc.push(c)),
        }
    } else if is_control(s[i]) {
        None
    } else {
        parse_string(s, i + 1, acc.push(s[i]))
    }
}

/// The index behind the fraction that may start at `i`, or `None` if a point
/// there is not followed by a digit.
pub open spec fn parse_fraction(s: Seq<char>, i: int) -> Option<int> {
    if 0 <= i < s.len() && s[i] == '.' {
        if i + 1 < s.len() && is_digit(s[i + 1]) {
            Some(skip_digits(s, i + 1))
        } else {
            None
        }
    } else {
        Some(i)
    }
}

/// The index behind the exponent that may start at `i`, or `None` if an `e`
/// there is not followed by an optional sign and a digit.
pub open spec fn parse_exponent(s: Seq<char>, i: int) -> Option<int> {
    if 0 <= i < s.len() && (s[i] == 'e' || s[i] == 'E') {
        let j = if i + 1 < s.len() && (s[i + 1] == '+' || s[i + 1] == '-') {
            i + 2
        } else {
            i + 1
        };
        if j < s.len() && is_digit(s[j]) {
            Some(skip_digits(s, j))
        } else {
            None
        }
    } else {
        Some(i)
    }
}

/// The index behind the number that starts at `i`: an optional minus, then
/// `0` or a digit sequence without a leading zero, then an optional fraction
/// and an optional exponent.
pub open spec fn parse_number(s: Seq<char>, i: int) -> Option<int> {
    let j = if 0 <= i < s.len() && s[i] == '-' {
        i + 1
    } else {
        i
    };
    if 0 <= j < s.len() && is_digit(s[j]) {
        let k = if s[j] == '0' {
            j + 1
        } else {
            skip_digits(s, j)
        };
        match parse_fraction(s, k) {
            None => None,
            Some(m) => parse_exponent(s, m),
        }
    } else {
        None
    }
}

proof fn lemma_skip_digits_bounds(s: Seq<char>, i: int)
    requires
        0 <= i <= s.len(),
    ensures
        i <= skip_digits(s, i) <= s.len(),
    decreases s.len() - i,
{
    if i < s.len() && is_digit(s[i]) {
        lemma_skip_digits_bounds(s, i + 1);
    }
}

pub(crate) fn skip_whitespace(s: &Vec<char>, i: usize) -> (j: usize)
    requires
        i <= s.len(),
    ensures
        j == skip_ws(s@, i as int),
        i <= j <= s.len(),
{
    let mut j: usize = i;
    while j < s.len() && (s[j] == ' ' || s[j] == '\t' || s[j] == '\n' || s[j] == '\r')
        invariant
            i <= j <= s.len(),
            skip_ws(s@, i as int) == skip_ws(s@, j as int),
        decreases s.len() - j,
    {
        j = j + 1;
    }
    j
}

fn skip_digit_run(s: &Vec<char>, i: usize) -> (j: usize)
    requires
        i <= s.len(),
    ensures
        j == skip_digits(s@, i as int),
        i <= j <= s.len(),
{
    let mut j: usize = i;
    while j < s.len() && '0' <= s[j] && s[j] <= '9'
        invariant
            i <= j <= s.len(),
            skip_digits(s@, i as int) == skip_digits(s@, j as int),
        decreases s.len() - j,
    {
        j = j + 1;
    }
    j
}

fn hex_digit_value(c: char) -> (r: Option<u32>)
    ensures
        match r {
            Some(v) => hex_value(c) == Some(v as int) && v < 16,
            None => hex_value(c) is None,
        },
{
    if '0' <= c && c <= '9' {
        Some(c as u32 - 48)
    } else if 'a' <= c && c <= 'f' {
        Some(c as u32 - 97 + 10)
    } else if 'A' <= c && c <= 'F' {
        Some(c as u32 - 65 + 10)
    } else {
        None
    }
}

fn read_hex4(s: &Vec<char>, i: usize) -> (r: Option<u32>)
    requires
        i <= s.len(),
    ensures
        match r {
            Some(v) => hex4(s@, i as int) == Some(v as int) && v < 0x10000,
            None => hex4(s@, i as int) is None,
        },
{
    if s.len() - i < 4 {
        return None;
    }
    match (
        hex_digit_value(s[i]),
        hex_digit_value(s[i + 1]),
        hex_digit_value(s[i + 2]),
        hex_digit_value(s[i + 3]),
    ) {
        (Some(a), Some(b), Some(c), Some(d)) => Some(a * 4096 + b * 256 + c * 16 + d),
        _ => None,
    }
}

fn read_escape(s: &Vec<char>, i: usize) -> (r: Option<(char, usize)>)
    requires
        i <= s.len(),
    ensures
        match r {
            Some((c, j)) => parse_escape(s@, i as int) == Some((c, j as int)) && i < j <= s.len(),
            None => parse_escape(s@, i as int) is None,
        },
{
    if i >= s.len() {
        return None;
    }
    let c = s[i];
    if c == '"' {
        Some(('"', i + 1))
    } else if c == '\\' {
        Some(('\\', i + 1))
    } else if c == '/' {
        Some(('/', i + 1))
    } else if c == 'b' {
        Some(('\u{8}', i + 1))
    } else if c == 'f' {
        Some(('\u{c}', i + 1))
    } else if c == 'n' {
        Some(('\n', i + 1))
    } else if c == 'r' {
        Some(('\r', i + 1))
    } else if c == 't' {
        Some(('\t', i + 1))
    } else if c == 'u' {
        match read_hex4(s, i + 1) {
            None => None,
            Some(hi) => {
                if 0xD800 <= hi && hi <= 0xDBFF {
                    if s.len() - i > 6 && s[i + 5] == '\\' && s[i + 6] == 'u' {
                        match read_hex4(s, i + 7) {
                            None => None,
                            Some(lo) => {
                                if 0xDC00 <= lo && lo <= 0xDFFF {
                                    let v: u32 = 0x10000 + (hi - 0xD800) * 0x400 + (lo - 0xDC00);
                                    match char_from_u32(v) {
                                        Some(ch) => {
                                            proof {
                                                vstd::utf8::char_u32_cast(ch, v);
                                            }
                                            Some((ch, i + 11))
                                        },
                                        None => None,
                                    }
                                } else {
                                    None
                                }
                            },
                        }
                    } else {
                        None
                    }
                } else if 0xDC00 <= hi && hi <= 0xDFFF {
                    None
                } else {
                    match char_from_u32(hi) {
                        Some(ch) => {
                            proof {
                                vstd::utf8::char_u32_cast(ch, hi);
                            }
                            Some((ch, i + 5))
                        },
                        None => None,
                    }
                }
            },
        }
    } else {
        None
    }
}

/// Reads the string whose first character behind the opening quote is at
/// `i`.
pub(crate) fn read_string(s: &Vec<char>, i: usize) -> (r: Option<(String, usize)>)
    requires
        i <= s.len(),
    ensures
        match r {
            Some((v, j)) => parse_string(s@, i as int, seq![]) == Some((v@, j as int)) && i < j
                <= s.len(),
            None => parse_string(s@, i as int, seq![]) is None,
        },
{
    let mut out = String::new();
    let mut j: usize = i;
    loop
        invariant
            i <= j <= s.len(),
            parse_string(s@, i as int, seq![]) == parse_string(s@, j as int, out@),
        decreases s.len() - j,
    {
        if j >= s.len() {
            return None;
        }
        let c = s[j];
        if c == '"' {
            return Some((out, j + 1));
        } else if c == '\\' {
            match read_escape(s, j + 1) {
                None => {
                    return None;
                },
                Some((ch, k)) => {
                    push_char(&mut out, ch);
                    j = k;
                },
            }
        } else if c <= '\u{1f}' {
            return None;
        } else {
            push_char(&mut out, c);
            j = j + 1;
        }
    }
}

fn read_fraction(s: &Vec<char>, i: usize) -> (r: Option<usize>)
    requires
        i <= s.len(),
    ensures
        match r {
            Some(j) => parse_fraction(s@, i as int) == Some(j as int) && i <= j <= s.len(),
            None => parse_fraction(s@, i as int) is None,
        },
{
    if i < s.len() && s[i] == '.' {
        if s.len() - i > 1 && '0' <= s[i + 1] && s[i + 1] <= '9' {
            Some(skip_digit_run(s, i + 1))
        } else {
            None
        }
    } else {
        Some(i)
    }
}

fn read_exponent(s: &Vec<char>, i: usize) -> (r: Option<usize>)
    requires
        i <= s.len(),
    ensures
        match r {
            Some(j) => parse_exponent(s@, i as int) == Some(j as int) && i <= j <= s.len(),
            None => parse_exponent(s@, i as int) is None,
        },
{
    if i < s.len() && (s[i] == 'e' || s[i] == 'E') {
        let j: usize = if s.len() - i > 1 && (s[i + 1] == '+' || s[i + 1] == '-') {
            i + 2
        } else {
            i + 1
        };
        if j < s.len() && '0' <= s[j] && s[j] <= '9' {
            Some(skip_digit_run(s, j))
        } else {
            None
        }
    } else {
        Some(i)
    }
}

pub(crate) fn read_number(s: &Vec<char>, i: usize) -> (r: Option<usize>)
    requires
        i <= s.len(),
    ensures
        match r {
            Some(j) => parse_number(s@, i as int) == Some(j as int) && i < j <= s.len(),
            None => parse_number(s@, i as int) is None,
        },
{
    let j: usize = if i < s.len() && s[i] == '-' {
        i + 1
    } else {
        i
    };
    if j < s.len() && '0' <= s[j] && s[j] <= '9' {
        let k: usize = if s[j] == '0' {
            j + 1
        } else {
            proof {
                lemma_skip_digits_bounds(s@, j + 1);
            }
            skip_digit_run(s, j)
        };
        match read_fraction(s, k) {
            None => None,
            Some(m) => read_exponent(s, m),
        }
    } else {
        None
    }
}

/// The characters of an optional string.
pub open spec fn text_of(v: Option<String>) -> Option<Seq<char>> {
    match v {
        Some(t) => Some(t@),
        None => None,
    }
}

/// The two members of a document that a session description is read from.
/// A member is `None` while the document has not named it, and again once
/// the document has given it a value that is not a string.
pub struct Fields {
    pub kind: Option<String>,
    pub sdp: Option<String>,
}

/// What [`Fields`] holds, as plain values.
pub ghost struct FieldsView {
    pub kind: Option<Seq<char>>,
    pub sdp: Option<Seq<char>>,
}

impl View for Fields {
    type V = FieldsView;

    open spec fn view(&self) -> FieldsView {
        FieldsView { kind: text_of(self.kind), sdp: text_of(self.sdp) }
    }
}

/// The fields before any member was read.
pub open spec fn no_fields() -> FieldsView {
    FieldsView { kind: None, sdp: None }
}

/// The fields after one more member: a member named `type` or `sdp`
/// replaces what was read for that name before, and every other member
/// changes nothing.
pub open spec fn record(fields: FieldsView, key: Seq<char>, value: Option<Seq<char>>) -> FieldsView {
    if key == "type"@ {
        FieldsView { kind: value, sdp: fields.sdp }
    } else if key == "sdp"@ {
        FieldsView { kind: fields.kind, sdp: value }
    } else {
        fields
    }
}

/// The index behind the value that starts at `i`, if the text holds a JSON
/// value there that nests at most `depth` levels of arrays and objects.
pub open spec fn parse_value(s: Seq<char>, i: int, depth: nat) -> Option<int>
    decreases depth, s.len() - i, 0nat,
{
    if !(0 <= i < s.len()) {
        None
    } else if s[i] == '"' {
        match parse_string(s, i + 1, seq![]) {
            Some((_, j)) => Some(j),
            None => None,
        }
    } else if s[i] == '{' {
        if depth == 0 {
            None
        } else {
            match parse_object(s, i + 1, (depth - 1) as nat) {
                Some((_, j)) => Some(j),
                None => None,
            }
        }
    } else if s[i] == '[' {
        if depth == 0 {
            None
        } else {
            parse_array(s, i + 1, (depth - 1) as nat)
        }
    } else if s[i] == 't' {
        if word_at(s, i, "true"@) {
            Some(i + 4)
        } else {
            None
        }
    } else if s[i] == 'f' {
        if word_at(s, i, "false"@) {
            Some(i + 5)
        } else {
            None
        }
    } else if s[i] == 'n' {
        if word_at(s, i, "null"@) {
            Some(i + 4)
        } else {
            None
        }
    } else {
        parse_number(s, i)
    }
}

/// The index behind the array whose opening bracket stands just before
/// `i`.
///
/// Here and below, a comparison of two indices before a nested read only
/// makes it evident that reading ends: reading never moves backwards.
pub open spec fn parse_array(s: Seq<char>, i: int, depth: nat) -> Option<int>
    decreases depth, s.len() - i, 2nat,
{
    let j = skip_ws(s, i);
    if 0 <= j < s.len() && s[j] == ']' {
        Some(j + 1)
    } else if i <= j <= s.len() {
        parse_elements(s, j, depth)
    } else {
        None
    }
}

/// The index behind the array whose next element starts at `i`.
pub open spec fn parse_elements(s: Seq<char>, i: int, depth: nat) -> Option<int>
    decreases depth, s.len() - i, 1nat,
{
    match parse_value(s, i, depth) {
        None => None,
        Some(j) => {
            let k = skip_ws(s, j);
            if !(0 <= k < s.len()) {
                None
            } else if s[k] == ']' {
                Some(k + 1)
            } else if s[k] == ',' {
                let n = skip_ws(s, k + 1);
                if i < n <= s.len() {
                    parse_elements(s, n, depth)
                } else {
                    None
                }
            } else {
                None
            }
        },
    }
}

/// The value of a member, if it is a string, and the index behind it.
pub open spec fn parse_member(s: Seq<char>, i: int, depth: nat) -> Option<(Option<Seq<char>>, int)>
    decreases depth, s.len() - i, 1nat,
{
    if 0 <= i < s.len() && s[i] == '"' {
        match parse_string(s, i + 1, seq![]) {
            Some((v, j)) => Some((Some(v), j)),
            None => None,
        }
    } else {
        match parse_value(s, i, depth) {
            Some(j) => Some((None, j)),
            None => None,
        }
    }
}

/// The fields of the object whose opening brace stands just before `i`, and
/// the index behind its closing brace.
pub open spec fn parse_object(s: Seq<char>, i: int, depth: nat) -> Option<(FieldsView, int)>
    decreases depth, s.len() - i, 3nat,
{
    let j = skip_ws(s, i);
    if 0 <= j < s.len() && s[j] == '}' {
        Some((no_fields(), j + 1))
    } else if i <= j <= s.len() {
        parse_members(s, j, depth, no_fields())
    } else {
        None
    }
}

/// The fields of the object whose next member starts at `i`, recorded on top
/// of `acc`, and the index behind the closing brace.
pub open spec fn parse_members(s: Seq<char>, i: int, depth: nat, acc: FieldsView) -> Option<
    (FieldsView, int),
>
    decreases depth, s.len() - i, 2nat,
{
    if !(0 <= i < s.len() && s[i] == '"') {
        None
    } else {
        match parse_string(s, i + 1, seq![]) {
            None => None,
            Some((key, j)) => {
                let k = skip_ws(s, j);
                if !(0 <= k < s.len() && s[k] == ':') {
                    None
                } else {
                    let v = skip_ws(s, k + 1);
                    if !(i < v <= s.len()) {
                        None
                    } else {
                        match parse_member(s, v, depth) {
                            None => None,
                            Some((value, e)) => {
                                let m = skip_ws(s, e);
                                let next = record(acc, key, value);
                                if !(0 <= m < s.len()) {
                                    None
                                } else if s[m] == '}' {
                                    Some((next, m + 1))
                                } else if s[m] == ',' {
                                    let n = skip_ws(s, m + 1);
                                    if i < n <= s.len() {
                                        parse_members(s, n, depth, next)
                                    } else {
                                        None
                                    }
                                } else {
                                    None
                                }
                            },
                        }
                    }
                }
            },
        }
    }
}

/// The fields of a document: a single JSON object, with whitespace allowed
/// around it and nothing else.
pub open spec fn parse_document(s: Seq<char>) -> Option<FieldsView> {
    let i = skip_ws(s, 0);
    if 0 <= i < s.len() && s[i] == '{' {
        match parse_object(s, i + 1, MAX_DEPTH as nat) {
            None => None,
            Some((fields, j)) => if skip_ws(s, j) == s.len() {
                Some(fields)
            } else {
                None
            },
        }
    } else {
        None
    }
}

/// Whitespace is skipped forwards, and not beyond the end of the text.
pub proof fn lemma_skip_ws_bounds(s: Seq<char>, i: int)
    requires
        0 <= i <= s.len(),
    ensures
        i <= skip_ws(s, i) <= s.len(),
    decreases s.len() - i,
{
    if i < s.len() && is_ws(s[i]) {
        lemma_skip_ws_bounds(s, i + 1);
    }
}

/// A string ends behind where it starts, and inside the text.
pub proof fn lemma_string_bounds(s: Seq<char>, i: int, acc: Seq<char>)
    requires
        parse_string(s, i, acc) is Some,
    ensures
        ({
            let end = parse_string(s, i, acc)->0;
            i < end.1 <= s.len()
        }),
    decreases s.len() - i,
{
    if s[i] == '"' {
    } else if s[i] == '\\' {
        let (c, j) = parse_escape(s, i + 1)->0;
        lemma_string_bounds(s, j, acc.push(c));
    } else {
        lemma_string_bounds(s, i + 1, acc.push(s[i]));
    }
}

proof fn lemma_number_bounds(s: Seq<char>, i: int)
    requires
        parse_number(s, i) is Some,
    ensures
        i < parse_number(s, i)->0 <= s.len(),
{
    let j = if 0 <= i < s.len() && s[i] == '-' {
        i + 1
    } else {
        i
    };
    lemma_skip_digits_bounds(s, j + 1);
    let k = if s[j] == '0' {
        j + 1
    } else {
        skip_digits(s, j)
    };
    let m = parse_fraction(s, k)->0;
    if k < s.len() && s[k] == '.' {
        lemma_skip_digits_bounds(s, k + 2);
    }
    if m < s.len() && (s[m] == 'e' || s[m] == 'E') {
        let n = if m + 1 < s.len() && (s[m + 1] == '+' || s[m + 1] == '-') {
            m + 2
        } else {
            m + 1
        };
        lemma_skip_digits_bounds(s, n + 1);
    }
}

/// A value ends behind where it starts, and inside the text. So does what
/// a value is made of, which is why the comparisons of indices in the
/// grammar never refuse a text.
pub proof fn lemma_value_bounds(s: Seq<char>, i: int, depth: nat)
    requires
        parse_value(s, i, depth) is Some,
    ensures
        i < parse_value(s, i, depth)->0 <= s.len(),
    decreases depth, s.len() - i, 0nat,
{
    if s[i] == '"' {
        lemma_string_bounds(s, i + 1, seq![]);
    } else if s[i] == '{' {
        lemma_object_bounds(s, i + 1, (depth - 1) as nat);
    } else if s[i] == '[' {
        lemma_array_bounds(s, i + 1, (depth - 1) as nat);
    } else if s[i] == 't' || s[i] == 'f' || s[i] == 'n' {
        reveal_strlit("true");
        reveal_strlit("false");
        reveal_strlit("null");
    } else {
        lemma_number_bounds(s, i);
    }
}

proof fn lemma_array_bounds(s: Seq<char>, i: int, depth: nat)
    requires
        0 <= i <= s.len(),
        parse_array(s, i, depth) is Some,
    ensures
        i < parse_array(s, i, depth)->0 <= s.len(),
    decreases depth, s.len() - i, 2nat,
{
    let j = skip_ws(s, i);
    lemma_skip_ws_bounds(s, i);
    if j < s.len() && s[j] == ']' {
    } else {
        lemma_elements_bounds(s, j, depth);
    }
}

proof fn lemma_elements_bounds(s: Seq<char>, i: int, depth: nat)
    requires
        parse_elements(s, i, depth) is Some,
    ensures
        i < parse_elements(s, i, depth)->0 <= s.len(),
    decreases depth, s.len() - i, 1nat,
{
    lemma_value_bounds(s, i, depth);
    let j = parse_value(s, i, depth)->0;
    let k = skip_ws(s, j);
    lemma_skip_ws_bounds(s, j);
    if s[k] == ',' {
        let n = skip_ws(s, k + 1);
        lemma_elements_bounds(s, n, depth);
    }
}

proof fn lemma_member_bounds(s: Seq<char>, i: int, depth: nat)
    requires
        parse_member(s, i, depth) is Some,
    ensures
        ({
            let end = parse_member(s, i, depth)->0;
            i < end.1 <= s.len()
        }),
    decreases depth, s.len() - i, 1nat,
{
    if 0 <= i < s.len() && s[i] == '"' {
        lemma_string_bounds(s, i + 1, seq![]);
    } else {
        lemma_value_bounds(s, i, depth);
    }
}

proof fn lemma_object_bounds(s: Seq<char>, i: int, depth: nat)
    requires
        0 <= i <= s.len(),
        parse_object(s, i, depth) is Some,
    ensures
        ({
            let end = parse_object(s, i, depth)->0;
            i < end.1 <= s.len()
        }),
    decreases depth, s.len() - i, 3nat,
{
    let j = skip_ws(s, i);
    lemma_skip_ws_bounds(s, i);
    if j < s.len() && s[j] == '}' {
    } else {
        lemma_members_bounds(s, j, depth, no_fields());
    }
}

proof fn lemma_members_bounds(s: Seq<char>, i: int, depth: nat, acc: FieldsView)
    requires
        parse_members(s, i, depth, acc) is Some,
    ensures
        ({
            let end = parse_members(s, i, depth, acc)->0;
            i < end.1 <= s.len()
        }),
    decreases depth, s.len() - i, 2nat,
{
    lemma_string_bounds(s, i + 1, seq![]);
    let (key, j) = parse_string(s, i + 1, seq![])->0;
    let k = skip_ws(s, j);
    let v = skip_ws(s, k + 1);
    lemma_member_bounds(s, v, depth);
    let (value, e) = parse_member(s, v, depth)->0;
    let m = skip_ws(s, e);
    lemma_skip_ws_bounds(s, e);
    if s[m] == ',' {
        let n = skip_ws(s, m + 1);
        lemma_members_bounds(s, n, depth, record(acc, key, value));
    }
}

fn read_value(s: &Vec<char>, i: usize, depth: usize) -> (r: Option<usize>)
    requires
        i <= s.len(),
    ensures
        match r {
            Some(j) => parse_value(s@, i as int, depth as nat) == Some(j as int) && i < j
                <= s.len(),
            None => parse_value(s@, i as int, depth as nat) is None,
        },
    decreases depth, s.len() - i, 0nat,
{
    if i >= s.len() {
        return None;
    }
    let c = s[i];
    if c == '"' {
        match read_string(s, i + 1) {
            Some((_, j)) => Some(j),
            None => None,
        }
    } else if c == '{' {
        if depth == 0 {
            None
        } else {
            match read_object(s, i + 1, depth - 1) {
                Some((_, j)) => Some(j),
                None => None,
            }
        }
    } else if c == '[' {
        if depth == 0 {
            None
        } else {
            read_array(s, i + 1, depth - 1)
        }
    } else if c == 't' {
        if has_word(s, i, "true") {
            proof {
                reveal_strlit("true");
            }
            Some(i + 4)
        } else {
            None
        }
    } else if c == 'f' {
        if has_word(s, i, "false") {
            proof {
                reveal_strlit("false");
            }
            Some(i + 5)
        } else {
            None
        }
    } else if c == 'n' {
        if has_word(s, i, "null") {
            proof {
                reveal_strlit("null");
            }
            Some(i + 4)
        } else {
            None
        }
    } else {
        read_number(s, i)
    }
}

fn read_array(s: &Vec<char>, i: usize, depth: usize) -> (r: Option<usize>)
    requires
        i <= s.len(),
    ensures
        match r {
            Some(j) => parse_array(s@, i as int, depth as nat) == Some(j as int) && i < j
                <= s.len(),
            None => parse_array(s@, i as int, depth as nat) is None,
        },
    decreases depth, s.len() - i, 2nat,
{
    let first = skip_whitespace(s, i);
    if first < s.len() && s[first] == ']' {
        return Some(first + 1);
    }
    let mut at: usize = first;
    loop
        invariant
            i <= at <= s.len(),
            parse_array(s@, i as int, depth as nat) == parse_elements(
                s@,
                at as int,
                depth as nat,
            ),
        decreases s.len() - at,
    {
        match read_value(s, at, depth) {
            None => {
                return None;
            },
            Some(j) => {
                let k = skip_whitespace(s, j);
                if k >= s.len() {
                    return None;
                } else if s[k] == ']' {
                    return Some(k + 1);
                } else if s[k] == ',' {
                    at = skip_whitespace(s, k + 1);
                } else {
                    return None;
                }
            },
        }
    }
}

fn read_member(s: &Vec<char>, i: usize, depth: usize) -> (r: Option<(Option<String>, usize)>)
    requires
        i <= s.len(),
    ensures
        match r {
            Some((Some(v), j)) => parse_member(s@, i as int, depth as nat) == Some(
                (Some(v@), j as int),
            ) && i < j <= s.len(),
            Some((None, j)) => parse_member(s@, i as int, depth as nat) == Some(
                (None::<Seq<char>>, j as int),
            ) && i < j <= s.len(),
            None => parse_member(s@, i as int, depth as nat) is None,
        },
    decreases depth, s.len() - i, 1nat,
{
    if i < s.len() && s[i] == '"' {
        match read_string(s, i + 1) {
            Some((v, j)) => Some((Some(v), j)),
            None => None,
        }
    } else {
        match read_value(s, i, depth) {
            Some(j) => Some((None, j)),
            None => None,
        }
    }
}

fn read_object(s: &Vec<char>, i: usize, depth: usize) -> (r: Option<(Fields, usize)>)
    requires
        i <= s.len(),
    ensures
        match r {
            Some((fields, j)) => parse_object(s@, i as int, depth as nat) == Some(
                (fields@, j as int),
            ) && i < j <= s.len(),
            None => parse_object(s@, i as int, depth as nat) is None,
        },
    decreases depth, s.len() - i, 3nat,
{
    let mut fields = Fields { kind: None, sdp: None };
    let first = skip_whitespace(s, i);
    if first < s.len() && s[first] == '}' {
        return Some((fields, first + 1));
    }
    let mut at: usize = first;
    loop
        invariant
            i <= at <= s.len(),
            parse_object(s@, i as int, depth as nat) == parse_members(
                s@,
                at as int,
                depth as nat,
                fields@,
            ),
        decreases s.len() - at,
    {
        if at >= s.len() || s[at] != '"' {
            return None;
        }
        match read_string(s, at + 1) {
            None => {
                return None;
            },
            Some((key, j)) => {
                let k = skip_whitespace(s, j);
                if k >= s.len() || s[k] != ':' {
                    return None;
                }
                let v = skip_whitespace(s, k + 1);
                match read_member(s, v, depth) {
                    None => {
                        return None;
                    },
                    Some((value, e)) => {
                        let m = skip_whitespace(s, e);
                        let ghost before = fields@;
                        let ghost value_view = text_of(value);
                        if same_text(key.as_str(), "type") {
                            fields.kind = value;
                        } else if same_text(key.as_str(), "sdp") {
                            fields.sdp = value;
                        }
                        assert(fields@ == record(before, key@, value_view));
                        if m >= s.len() {
                            return None;
                        } else if s[m] == '}' {
                            return Some((fields, m + 1));
                        } else if s[m] == ',' {
                            at = skip_whitespace(s, m + 1);
                        } else {
                            return None;
                        }
                    },
                }
            },
        }
    }
}

/// Reads a document's fields.
pub fn read_document(s: &Vec<char>) -> (r: Option<Fields>)
    ensures
        match r {
            Some(fields) => parse_document(s@) == Some(fields@),
            None => parse_document(s@) is None,
        },
{
    let i = skip_whitespace(s, 0);
    if i < s.len() && s[i] == '{' {
        match read_object(s, i + 1, MAX_DEPTH) {
            None => None,
            Some((fields, j)) => {
                if skip_whitespace(s, j) == s.len() {
                    Some(fields)
                } else {
                    None
                }
            },
        }
    } else {
        None
    }
}

/// The lower-case hexadecimal digit for a value below sixteen.
pub open spec fn hex_digit(v: int) -> char {
    if v < 10 {
        ((48 + v) as u8) as char
    } else {
        ((87 + v) as u8) as char
    }
}

/// How one character is written inside a string: the quote and the
/// backslash behind a backslash, the control characters as `\b`, `\f`,
/// `\n`, `\r`, `\t` or `\u00XX`, and every other character as itself.
pub open spec fn escape_char(c: char) -> Seq<char> {
    if c == '"' {
        seq!['\\', '"']
    } else if c == '\\' {
        seq!['\\', '\\']
    } else if c == '\u{8}' {
        seq!['\\', 'b']
    } else if c == '\u{c}' {
        seq!['\\', 'f']
    } else if c == '\n' {
        seq!['\\', 'n']
    } else if c == '\r' {
        seq!['\\', 'r']
    } else if c == '\t' {
        seq!['\\', 't']
    } else if is_control(c) {
        seq!['\\', 'u', '0', '0', hex_digit(c as int / 16), hex_digit(c as int % 16)]
    } else {
        seq![c]
    }
}

/// How a string's value is written between its quotes.
pub open spec fn escape(v: Seq<char>) -> Seq<char>
    decreases v.len(),
{
    if v.len() == 0 {
        seq![]
    } else {
        escape_char(v[0]) + escape(v.drop_first())
    }
}

/// True for the characters that are written as themselves.
pub open spec fn is_plain(c: char) -> bool {
    c != '"' && c != '\\' && !is_control(c)
}

/// A value made of plain characters is written as itself.
pub proof fn lemma_escape_plain(v: Seq<char>)
    requires
        forall|i: int| 0 <= i < v.len() ==> is_plain(#[trigger] v[i]),
    ensures
        escape(v) == v,
    decreases v.len(),
{
    if v.len() > 0 {
        lemma_escape_plain(v.drop_first());
        assert(escape(v) =~= v);
    }
}

/// Reading a written value gives the value back: where the text holds
/// `escape(v)` from `i` on and a quote behind it, the string read at `i` is
/// `v`, and it ends behind that quote.
pub proof fn lemma_parse_escaped(s: Seq<char>, i: int, v: Seq<char>, acc: Seq<char>)
    requires
        word_at(s, i, escape(v)),
        i + escape(v).len() < s.len(),
        s[i + escape(v).len()] == '"',
    ensures
        parse_string(s, i, acc) == Some((acc + v, i + escape(v).len() + 1)),
    decreases v.len(),
{
    if v.len() == 0 {
        assert(acc + v =~= acc);
    } else {
        let c = v[0];
        let rest = v.drop_first();
        let ec = escape_char(c);
        let er = escape(rest);
        let whole = s.subrange(i, i + escape(v).len());
        assert(whole == ec + er);
        assert forall|t: int| 0 <= t < ec.len() implies s[i + t] == ec[t] by {
            assert(whole[t] == s[i + t]);
        }
        assert(s.subrange(i + ec.len(), i + ec.len() + er.len()) =~= er) by {
            assert forall|t: int| 0 <= t < er.len() implies s[i + ec.len() + t] == er[t] by {
                assert(whole[ec.len() + t] == s[i + ec.len() + t]);
            }
        }
        assert(acc.push(c) + rest =~= acc + v);
        lemma_parse_escaped(s, i + ec.len(), rest, acc.push(c));
        assert(s[i] == ec[0]);
        if is_plain(c) {
            assert(parse_string(s, i, acc) == parse_string(s, i + 1, acc.push(c)));
        } else {
            assert(s[i + 1] == ec[1]);
            if c == '"' || c == '\\' || c == '\u{8}' || c == '\u{c}' || c == '\n' || c == '\r'
                || c == '\t' {
                assert(parse_escape(s, i + 1) == Some((c, i + 2)));
            } else {
                assert(s[i + 2] == ec[2]);
                assert(s[i + 3] == ec[3]);
                assert(s[i + 4] == ec[4]);
                assert(s[i + 5] == ec[5]);
                let hi = c as int / 16;
                let lo = c as int % 16;
                crate::text::lemma_char_range(c);
                assert(hex_value(hex_digit(hi)) == Some(hi));
                assert(hex_value(hex_digit(lo)) == Some(lo));
                assert(hex4(s, i + 2) == Some(c as int));
                assert(((c as int) as u32) as char == c);
                assert(parse_escape(s, i + 1) == Some((c, i + 6)));
            }
        }
    }
}

fn hex_digit_char(v: u8) -> (c: char)
    requires
        v < 16,
    ensures
        c == hex_digit(v as int),
{
    if v < 10 {
        (48 + v) as char
    } else {
        (87 + v) as char
    }
}

fn push_escaped_char(out: &mut String, c: char)
    ensures
        final(out)@ == old(out)@ + escape_char(c),
{
    let ghost before = out@;
    if c == '"' {
        push_char(out, '\\');
        push_char(out, '"');
    } else if c == '\\' {
        push_char(out, '\\');
        push_char(out, '\\');
    } else if c == '\u{8}' {
        push_char(out, '\\');
        push_char(out, 'b');
    } else if c == '\u{c}' {
        push_char(out, '\\');
        push_char(out, 'f');
    } else if c == '\n' {
        push_char(out, '\\');
        push_char(out, 'n');
    } else if c == '\r' {
        push_char(out, '\\');
        push_char(out, 'r');
    } else if c == '\t' {
        push_char(out, '\\');
        push_char(out, 't');
    } else if c <= '\u{1f}' {
        let v: u8 = c as u8;
        push_char(out, '\\');
        push_char(out, 'u');
        push_char(out, '0');
        push_char(out, '0');
        push_char(out, hex_digit_char(v / 16));
        push_char(out, hex_digit_char(v % 16));
    } else {
        push_char(out, c);
    }
    assert(out@ =~= before + escape_char(c));
}

/// Appends a string's value as it is written between quotes.
pub fn write_escaped(out: &mut String, value: &str)
    ensures
        final(out)@ == old(out)@ + escape(value@),
{
    let chars = chars_of(value);
    let n: usize = chars.len();
    let mut i: usize = 0;
    proof {
        assert(chars@.subrange(0, n as int) =~= chars@);
    }
    while i < n
        invariant
            i <= n,
            n == chars@.len(),
            chars@ == value@,
            out@ + escape(chars@.subrange(i as int, n as int)) == old(out)@ + escape(value@),
        decreases n - i,
    {
        let ghost tail = chars@.subrange(i as int, n as int);
        let ghost before = out@;
        proof {
            assert(tail.drop_first() =~= chars@.subrange(i + 1, n as int));
        }
        push_escaped_char(out, chars[i]);
        proof {
            assert(out@ + escape(chars@.subrange(i + 1, n as int)) =~= before + escape(tail));
        }
        i = i + 1;
    }
    proof {
        assert(out@ + escape(chars@.subrange(n as int, n as int)) =~= out@);
    }
}

} // verus!

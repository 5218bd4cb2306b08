//! Base64 with the standard alphabet and mandatory padding.
//!
//! Every three bytes become four characters of `A-Z a-z 0-9 + /`; a final
//! group of one or two bytes is padded with `=`. Decoding accepts exactly the
//! texts that encoding can produce.

use vstd::prelude::*;
use crate::text::{chars_of, push_char};

verus! {

/// The character that stands for a six-bit value.
pub open spec fn sextet_char(v: int) -> char {
    if v < 26 {
        ((65 + v) as u8) as char
    } else if v < 52 {
        ((97 + (v - 26)) as u8) as char
    } else if v < 62 {
        ((48 + (v - 52)) as u8) as char
    } else if v == 62 {
        '+'
    } else {
        '/'
    }
}

/// The six-bit value that a character stands for, if it is in the alphabet.
pub open spec fn char_sextet(c: char) -> Option<int> {
    if 'A' <= c <= 'Z' {
        Some(c as int - 65)
    } else if 'a' <= c <= 'z' {
        Some(c as int - 97 + 26)
    } else if '0' <= c <= '9' {
        Some(c as int - 48 + 52)
    } else if c == '+' {
        Some(62)
    } else if c == '/' {
        Some(63)
    } else {
        None
    }
}

/// Four characters for three bytes.
pub open spec fn encode_group(b0: u8, b1: u8, b2: u8) -> Seq<char> {
    seq![
        sextet_char(b0 as int / 4),
        sextet_char((b0 as int % 4) * 16 + b1 as int / 16),
        sextet_char((b1 as int % 16) * 4 + b2 as int / 64),
        sextet_char(b2 as int % 64),
    ]
}

/// The text that encodes a byte sequence.
pub open spec fn encode_spec(bytes: Seq<u8>) -> Seq<char>
    decreases bytes.len(),
{
    if bytes.len() == 0 {
        seq![]
    } else if bytes.len() == 1 {
        seq![
            sextet_char(bytes[0] as int / 4),
            sextet_char((bytes[0] as int % 4) * 16),
            '=',
            '=',
        ]
    } else if bytes.len() == 2 {
        seq![
            sextet_char(bytes[0] as int / 4),
            sextet_char((bytes[0] as int % 4) * 16 + bytes[1] as int / 16),
            sextet_char((bytes[1] as int % 16) * 4),
            '=',
        ]
    } else {
        encode_group(bytes[0], bytes[1], bytes[2]) + encode_spec(
            bytes.subrange(3, bytes.len() as int),
        )
    }
}

/// The three bytes that four alphabet characters stand for.
pub open spec fn decode_group(q: Seq<char>) -> Option<Seq<u8>> {
    match (char_sextet(q[0]), char_sextet(q[1]), char_sextet(q[2]), char_sextet(q[3])) {
        (Some(a), Some(b), Some(c), Some(d)) => Some(
            seq![(a * 4 + b / 16) as u8, ((b % 16) * 16 + c / 4) as u8, ((c % 4) * 64 + d) as u8],
        ),
        _ => None,
    }
}

/// The bytes that the last four characters of a text stand for. Padding is
/// accepted only over bits that are zero.
pub open spec fn decode_tail(q: Seq<char>) -> Option<Seq<u8>> {
    if q[3] == '=' {
        if q[2] == '=' {
            match (char_sextet(q[0]), char_sextet(q[1])) {
                (Some(a), Some(b)) => if b % 16 == 0 {
                    Some(seq![(a * 4 + b / 16) as u8])
                } else {
                    None
                },
                _ => None,
            }
        } else {
            match (char_sextet(q[0]), char_sextet(q[1]), char_sextet(q[2])) {
                (Some(a), Some(b), Some(c)) => if c % 4 == 0 {
                    Some(seq![(a * 4 + b / 16) as u8, ((b % 16) * 16 + c / 4) as u8])
                } else {
                    None
                },
                _ => None,
            }
        }
    } else {
        decode_group(q)
    }
}

/// The bytes that a text encodes, or `None` if it is not the encoding of any
/// byte sequence.
pub open spec fn decode_spec(text: Seq<char>) -> Option<Seq<u8>>
    decreases text.len(),
{
    if text.len() == 0 {
        Some(seq![])
    } else if text.len() < 4 {
        None
    } else if text.len() == 4 {
        decode_tail(text)
    } else {
        match decode_group(text.subrange(0, 4)) {
            None => None,
            Some(head) => match decode_spec(text.subrange(4, text.len() as int)) {
                None => None,
                Some(rest) => Some(head + rest),
            },
        }
    }
}

/// A six-bit value survives the trip through its character, and its
/// character is never the padding.
pub proof fn lemma_sextet_round_trip(v: int)
    requires
        0 <= v < 64,
    ensures
        char_sextet(sextet_char(v)) == Some(v),
        sextet_char(v) != '=',
{
}

/// Encoded text is made of whole groups of four characters.
pub proof fn lemma_encode_len(bytes: Seq<u8>)
    ensures
        encode_spec(bytes).len() == 4 * ((bytes.len() + 2) / 3),
    decreases bytes.len(),
{
    if bytes.len() >= 3 {
        lemma_encode_len(bytes.subrange(3, bytes.len() as int));
    }
}

/// Only texts made of whole groups of four characters decode.
pub proof fn lemma_decode_len(text: Seq<char>)
    requires
        decode_spec(text) is Some,
    ensures
        text.len() % 4 == 0,
    decreases text.len(),
{
    if text.len() > 4 {
        lemma_decode_len(text.subrange(4, text.len() as int));
    }
}

/// Decoding undoes encoding, for every byte sequence.
pub proof fn lemma_decode_encode(bytes: Seq<u8>)
    ensures
        decode_spec(encode_spec(bytes)) == Some(bytes),
    decreases bytes.len(),
{
    let text = encode_spec(bytes);
    if bytes.len() == 0 {
        assert(bytes =~= seq![]);
    } else if bytes.len() == 1 {
        let b0 = bytes[0] as int;
        lemma_sextet_round_trip(b0 / 4);
        lemma_sextet_round_trip((b0 % 4) * 16);
        assert(decode_tail(text) == Some(seq![bytes[0]]));
        assert(bytes =~= seq![bytes[0]]);
    } else if bytes.len() == 2 {
        let b0 = bytes[0] as int;
        let b1 = bytes[1] as int;
        lemma_sextet_round_trip(b0 / 4);
        lemma_sextet_round_trip((b0 % 4) * 16 + b1 / 16);
        lemma_sextet_round_trip((b1 % 16) * 4);
        assert(decode_tail(text) == Some(seq![bytes[0], bytes[1]]));
        assert(bytes =~= seq![bytes[0], bytes[1]]);
    } else {
        let rest = bytes.subrange(3, bytes.len() as int);
        let head = encode_group(bytes[0], bytes[1], bytes[2]);
        lemma_group_round_trip(bytes[0], bytes[1], bytes[2]);
        lemma_decode_encode(rest);
        lemma_encode_len(rest);
        assert(text.subrange(0, 4) =~= head);
        assert(text.subrange(4, text.len() as int) =~= encode_spec(rest));
        if rest.len() == 0 {
            assert(text =~= head);
            assert(decode_tail(text) == decode_group(text));
            assert(bytes =~= seq![bytes[0], bytes[1], bytes[2]]);
        } else {
            assert(bytes =~= seq![bytes[0], bytes[1], bytes[2]] + rest);
        }
    }
}

/// A full group decodes to the three bytes it was made from.
pub proof fn lemma_group_round_trip(b0: u8, b1: u8, b2: u8)
    ensures
        decode_group(encode_group(b0, b1, b2)) == Some(seq![b0, b1, b2]),
        encode_group(b0, b1, b2)[3] != '=',
{
    let x0 = b0 as int;
    let x1 = b1 as int;
    let x2 = b2 as int;
    lemma_sextet_round_trip(x0 / 4);
    lemma_sextet_round_trip((x0 % 4) * 16 + x1 / 16);
    lemma_sextet_round_trip((x1 % 16) * 4 + x2 / 64);
    lemma_sextet_round_trip(x2 % 64);
    let q = encode_group(b0, b1, b2);
    let a = x0 / 4;
    let b = (x0 % 4) * 16 + x1 / 16;
    let c = (x1 % 16) * 4 + x2 / 64;
    let d = x2 % 64;
    assert(a * 4 + b / 16 == x0);
    assert((b % 16) * 16 + c / 4 == x1);
    assert((c % 4) * 64 + d == x2);
    assert(decode_group(q)->0 =~= seq![b0, b1, b2]);
}

fn sextet_to_char(v: u8) -> (c: char)
    requires
        v < 64,
    ensures
        c == sextet_char(v as int),
{
    if v < 26 {
        (65 + v) as char
    } else if v < 52 {
        (97 + (v - 26)) as char
    } else if v < 62 {
        (48 + (v - 52)) as char
    } else if v == 62 {
        '+'
    } else {
        '/'
    }
}

fn char_to_sextet(c: char) -> (r: Option<u8>)
    ensures
        match r {
            Some(v) => char_sextet(c) == Some(v as int) && v < 64,
            None => char_sextet(c) is None,
        },
{
    if 'A' <= c && c <= 'Z' {
        Some((c as u32 - 65) as u8)
    } else if 'a' <= c && c <= 'z' {
        Some((c as u32 - 97 + 26) as u8)
    } else if '0' <= c && c <= '9' {
        Some((c as u32 - 48 + 52) as u8)
    } else if c == '+' {
        Some(62)
    } else if c == '/' {
        Some(63)
    } else {
        None
    }
}

/// Encodes bytes as base64 text.
pub fn encode(bytes: &[u8]) -> (text: String)
    ensures
        text@ == encode_spec(bytes@),
{
    let n: usize = bytes.len();
    let mut text = String::new();
    let mut i: usize = 0;
    proof {
        assert(bytes@.subrange(0, n as int) =~= bytes@);
        assert(text@ + encode_spec(bytes@) =~= encode_spec(bytes@));
    }
    while n - i >= 3
        invariant
            i <= n,
            n == bytes@.len(),
            text@ + encode_spec(bytes@.subrange(i as int, n as int)) == encode_spec(bytes@),
        decreases n - i,
    {
        let b0: u8 = bytes[i];
        let b1: u8 = bytes[i + 1];
        let b2: u8 = bytes[i + 2];
        proof {
            let tail = bytes@.subrange(i as int, n as int);
            assert(tail.subrange(3, tail.len() as int) =~= bytes@.subrange(i + 3, n as int));
            assert(encode_spec(tail) == encode_group(b0, b1, b2) + encode_spec(
                bytes@.subrange(i + 3, n as int),
            ));
        }
        let ghost before = text@;
        push_char(&mut text, sextet_to_char(b0 / 4));
        push_char(&mut text, sextet_to_char((b0 % 4) * 16 + b1 / 16));
        push_char(&mut text, sextet_to_char((b1 % 16) * 4 + b2 / 64));
        push_char(&mut text, sextet_to_char(b2 % 64));
        proof {
            assert(text@ =~= before + encode_group(b0, b1, b2));
            assert(text@ + encode_spec(bytes@.subrange(i + 3, n as int)) =~= before + (
            encode_group(b0, b1, b2) + encode_spec(bytes@.subrange(i + 3, n as int))));
        }
        i = i + 3;
    }
    let ghost before = text@;
    let ghost tail = bytes@.subrange(i as int, n as int);
    if n - i == 1 {
        let b0: u8 = bytes[i];
        push_char(&mut text, sextet_to_char(b0 / 4));
        push_char(&mut text, sextet_to_char((b0 % 4) * 16));
        push_char(&mut text, '=');
        push_char(&mut text, '=');
        assert(text@ =~= before + encode_spec(tail));
    } else if n - i == 2 {
        let b0: u8 = bytes[i];
        let b1: u8 = bytes[i + 1];
        push_char(&mut text, sextet_to_char(b0 / 4));
        push_char(&mut text, sextet_to_char((b0 % 4) * 16 + b1 / 16));
        push_char(&mut text, sextet_to_char((b1 % 16) * 4));
        push_char(&mut text, '=');
        assert(text@ =~= before + encode_spec(tail));
    } else {
        assert(text@ =~= before + encode_spec(tail));
    }
    text
}

/// Decodes base64 text; `None` when the text is not the encoding of any byte
/// sequence.
pub fn decode(text: &str) -> (bytes: Option<Vec<u8>>)
    ensures
        match bytes {
            Some(b) => decode_spec(text@) == Some(b@),
            None => decode_spec(text@) is None,
        },
{
    let chars = chars_of(text);
    let n: usize = chars.len();
    if n % 4 != 0 {
        proof {
            if decode_spec(text@) is Some {
                lemma_decode_len(text@);
            }
        }
        return None;
    }
    let mut out: Vec<u8> = Vec::new();
    if n == 0 {
        assert(out@ =~= seq![]);
        return Some(out);
    }
    let mut i: usize = 0;
    proof {
        assert(chars@.subrange(0, n as int) =~= chars@);
        match decode_spec(chars@) {
            Some(rest) => {
                assert(out@ + rest =~= rest);
            },
            None => {},
        }
    }
    while n - i > 4
        invariant
            i <= n - 4,
            n == chars@.len(),
            n % 4 == 0,
            i % 4 == 0,
            chars@ == text@,
            decode_spec(text@) == match decode_spec(chars@.subrange(i as int, n as int)) {
                Some(rest) => Some(out@ + rest),
                None => None,
            },
        decreases n - i,
    {
        let ghost tail = chars@.subrange(i as int, n as int);
        proof {
            assert(tail.subrange(4, tail.len() as int) =~= chars@.subrange(i + 4, n as int));
        }
        let a = char_to_sextet(chars[i]);
        let b = char_to_sextet(chars[i + 1]);
        let c = char_to_sextet(chars[i + 2]);
        let d = char_to_sextet(chars[i + 3]);
        match (a, b, c, d) {
            (Some(a), Some(b), Some(c), Some(d)) => {
                let ghost before = out@;
                out.push(a * 4 + b / 16);
                out.push((b % 16) * 16 + c / 4);
                out.push((c % 4) * 64 + d);
                proof {
                    let head = decode_group(tail.subrange(0, 4))->0;
                    assert(out@ =~= before + head);
                    match decode_spec(chars@.subrange(i + 4, n as int)) {
                        Some(rest) => {
                            assert(out@ + rest =~= before + (head + rest));
                        },
                        None => {},
                    }
                }
            },
            _ => {
                assert(decode_group(tail.subrange(0, 4)) is None);
                return None;
            },
        }
        i = i + 4;
    }
    let ghost tail = chars@.subrange(i as int, n as int);
    let ghost before = out@;
    let c0 = chars[i];
    let c1 = chars[i + 1];
    let c2 = chars[i + 2];
    let c3 = chars[i + 3];
    assert(tail.len() == 4);
    if c3 == '=' {
        if c2 == '=' {
            match (char_to_sextet(c0), char_to_sextet(c1)) {
                (Some(a), Some(b)) => {
                    if b % 16 == 0 {
                        out.push(a * 4 + b / 16);
                        assert(out@ =~= before + decode_tail(tail)->0);
                        Some(out)
                    } else {
                        None
                    }
                },
                _ => None,
            }
        } else {
            match (char_to_sextet(c0), char_to_sextet(c1), char_to_sextet(c2)) {
                (Some(a), Some(b), Some(c)) => {
                    if c % 4 == 0 {
                        out.push(a * 4 + b / 16);
                        out.push((b % 16) * 16 + c / 4);
                        assert(out@ =~= before + decode_tail(tail)->0);
                        Some(out)
                    } else {
                        None
                    }
                },
                _ => None,
            }
        }
    } else {
        match (
            char_to_sextet(c0),
            char_to_sextet(c1),
            char_to_sextet(c2),
            char_to_sextet(c3),
        ) {
            (Some(a), Some(b), Some(c), Some(d)) => {
                out.push(a * 4 + b / 16);
                out.push((b % 16) * 16 + c / 4);
                out.push((c % 4) * 64 + d);
                assert(out@ =~= before + decode_tail(tail)->0);
                Some(out)
            },
            _ => None,
        }
    }
}

} // verus!

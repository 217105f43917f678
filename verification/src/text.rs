//! Text mode: UTF-8 text as the body of a string literal, and the body read
//! back.

use crate::digits::{
    digit_value, digits_value, hex_digits, lemma_digits_are_digits, lemma_digits_round_trip,
    push_digits,
};
use crate::strings::utf8_text;
use vstd::pervasive::unreached;
use vstd::prelude::*;
use vstd::string::StringSliceAdditionalSpecFns;
use vstd::utf8::{
    decode_utf8, decode_utf8_encode_utf8, encode_utf8, encode_utf8_decode_utf8, valid_utf8,
};

verus! {

/// Why bytes could not be formatted.
#[derive(Clone, Copy, Debug, PartialEq, Eq)]
pub enum FormatError {
    /// Text mode was asked for and the bytes are not well-formed UTF-8.
    InvalidTextEncoding,
}

/// How one character stands in the body of a string literal: tab, carriage
/// return, line feed, both quotes and the backslash as a backslash and one
/// more character; the other printable ASCII characters, space included,
/// as themselves; every other character as `\u{..}` around its code point in
/// lower-case hexadecimal.
pub open spec fn escaped_char(c: char) -> Seq<char> {
    if c == '\t' {
        seq!['\\', 't']
    } else if c == '\r' {
        seq!['\\', 'r']
    } else if c == '\n' {
        seq!['\\', 'n']
    } else if c == '\'' {
        seq!['\\', '\'']
    } else if c == '"' {
        seq!['\\', '"']
    } else if c == '\\' {
        seq!['\\', '\\']
    } else if ' ' <= c <= '~' {
        seq![c]
    } else {
        seq!['\\', 'u', '{'] + hex_digits(c as nat) + seq!['}']
    }
}

/// The body of the string literal for `text`: each character in its escaped
/// form, in order.
pub open spec fn escaped(text: Seq<char>) -> Seq<char> {
    text.flat_map(|c: char| escaped_char(c))
}

/// The literal body for bytes that are UTF-8: the escaped form of the text
/// that they encode.
pub open spec fn text_body(data: Seq<u8>) -> Seq<char>
    recommends
        valid_utf8(data),
{
    escaped(decode_utf8(data))
}

/// The character that a backslash and `letter` stand for, where the two make
/// a simple escape sequence.
pub open spec fn simple_escape(letter: char) -> Option<char> {
    if letter == 'n' {
        Some('\n')
    } else if letter == 't' {
        Some('\t')
    } else if letter == 'r' {
        Some('\r')
    } else if letter == 'a' {
        Some('\u{7}')
    } else if letter == 'b' {
        Some('\u{8}')
    } else if letter == 'f' {
        Some('\u{c}')
    } else if letter == 'v' {
        Some('\u{b}')
    } else if letter == '\'' || letter == '"' || letter == '\\' || letter == '?' {
        Some(letter)
    } else {
        None
    }
}

/// True of the numbers that are code points of characters: up to 0x10FFFF,
/// the surrogates left out.
pub open spec fn is_scalar_value(v: nat) -> bool {
    v <= 0x10FFFF && !(0xD800 <= v <= 0xDFFF)
}

/// How many hexadecimal digits `s` begins with.
pub open spec fn hex_run(s: Seq<char>) -> nat
    decreases s.len(),
{
    if s.len() > 0 && digit_value(s[0], 16) is Some {
        1 + hex_run(s.drop_first())
    } else {
        0
    }
}

/// The first element of a literal body: the character it denotes and the
/// number of characters it is written with. An element is a character other
/// than a double quote, a backslash or a line feed, standing for itself; a
/// simple escape sequence; or `\u{`, hexadecimal digits that make the code
/// point of a character, and `}`. `None` where `s` begins with none of
/// these.
pub open spec fn first_element(s: Seq<char>) -> Option<(char, nat)> {
    if s.len() == 0 || s[0] == '"' || s[0] == '\n' {
        None
    } else if s[0] != '\\' {
        Some((s[0], 1))
    } else if s.len() < 2 {
        None
    } else if s[1] != 'u' {
        match simple_escape(s[1]) {
            Some(c) => Some((c, 2)),
            None => None,
        }
    } else if s.len() < 3 || s[2] != '{' {
        None
    } else {
        let end = 3 + hex_run(s.skip(3)) as int;
        if end < s.len() && s[end] == '}' {
            match digits_value(s.subrange(3, end), 16) {
                Some(v) => if is_scalar_value(v) {
                    Some((v as char, (end + 1) as nat))
                } else {
                    None
                },
                None => None,
            }
        } else {
            None
        }
    }
}

/// The text that a literal body denotes: the characters of its elements, in
/// order. `None` if the body does not consist of elements from end to end.
pub open spec fn unescaped(body: Seq<char>) -> Option<Seq<char>>
    decreases body.len(),
{
    if body.len() == 0 {
        Some(Seq::empty())
    } else {
        match first_element(body) {
            Some((c, n)) => if 0 < n <= body.len() {
                match unescaped(body.skip(n as int)) {
                    Some(rest) => Some(seq![c] + rest),
                    None => None,
                }
            } else {
                None
            },
            None => None,
        }
    }
}

/// Digits followed by something that is no digit make a run of exactly their
/// own length.
proof fn lemma_hex_run_of_digits(run: Seq<char>, rest: Seq<char>)
    requires
        forall|i: int| 0 <= i < run.len() ==> digit_value(#[trigger] run[i], 16) is Some,
        rest.len() == 0 || digit_value(rest[0], 16) is None,
    ensures
        hex_run(run + rest) == run.len(),
    decreases run.len(),
{
    if run.len() == 0 {
        assert(run + rest =~= rest);
    } else {
        assert((run + rest)[0] == run[0]);
        assert((run + rest).drop_first() =~= run.drop_first() + rest);
        lemma_hex_run_of_digits(run.drop_first(), rest);
    }
}

/// The escaped form of a character is never empty, and a body that begins
/// with it begins with an element that denotes the character and is as long
/// as the form.
pub proof fn lemma_first_element_of_escaped(c: char, rest: Seq<char>)
    ensures
        escaped_char(c).len() >= 1,
        first_element(escaped_char(c) + rest) == Some((c, escaped_char(c).len())),
{
    let form = escaped_char(c);
    let body = form + rest;
    if form.len() <= 2 {
        assert(body[0] == form[0]);
        if form.len() == 2 {
            assert(body[1] == form[1]);
        }
    } else {
        let run = hex_digits(c as nat);
        lemma_digits_are_digits(c as nat, 16);
        lemma_digits_round_trip(c as nat, 16);
        assert(body[0] == '\\' && body[1] == 'u' && body[2] == '{');
        let tail = seq!['}'] + rest;
        assert(body.skip(3) =~= run + tail);
        assert(digit_value(tail[0], 16) is None);
        lemma_hex_run_of_digits(run, tail);
        let end = 3 + run.len() as int;
        assert(body[end] == '}');
        assert(body.subrange(3, end) =~= run);
        assert(is_scalar_value(c as nat));
        assert((c as nat) as char == c);
    }
}

/// The escaped form of a text is the escaped form of its first character and
/// then that of the others.
proof fn lemma_escaped_unfold(text: Seq<char>)
    requires
        text.len() >= 1,
    ensures
        escaped(text) == escaped_char(text[0]) + escaped(text.drop_first()),
{
    let f = |c: char| escaped_char(c);
    assert(text.map_values(f).drop_first() =~= text.drop_first().map_values(f));
}

/// Reading back the escaped form of any text gives the text again: no
/// character is lost, added or changed by escaping.
pub proof fn lemma_escape_round_trip(text: Seq<char>)
    ensures
        unescaped(escaped(text)) == Some(text),
    decreases text.len(),
{
    if text.len() == 0 {
        assert(escaped(text) =~= Seq::empty());
        assert(text =~= Seq::empty());
    } else {
        let form = escaped_char(text[0]);
        let rest = escaped(text.drop_first());
        lemma_escaped_unfold(text);
        lemma_first_element_of_escaped(text[0], rest);
        lemma_escape_round_trip(text.drop_first());
        assert((form + rest).skip(form.len() as int) =~= rest);
        assert(seq![text[0]] + text.drop_first() =~= text);
    }
}

/// The literal body made for well-formed UTF-8 denotes a text whose UTF-8
/// encoding is the very bytes it was made from.
pub proof fn lemma_text_round_trip(data: Seq<u8>)
    requires
        valid_utf8(data),
    ensures
        unescaped(text_body(data)) == Some(decode_utf8(data)),
        encode_utf8(decode_utf8(data)) == data,
{
    lemma_escape_round_trip(decode_utf8(data));
    decode_utf8_encode_utf8(data);
}

/// Appends the escaped form of `c` to `out`.
fn push_escaped(out: &mut String, c: char)
    ensures
        final(out)@ == old(out)@ + escaped_char(c),
{
    if c == '\t' {
        out.push('\\');
        out.push('t');
    } else if c == '\r' {
        out.push('\\');
        out.push('r');
    } else if c == '\n' {
        out.push('\\');
        out.push('n');
    } else if c == '\'' {
        out.push('\\');
        out.push('\'');
    } else if c == '"' {
        out.push('\\');
        out.push('"');
    } else if c == '\\' {
        out.push('\\');
        out.push('\\');
    } else if ' ' <= c && c <= '~' {
        out.push(c);
    } else {
        out.push('\\');
        out.push('u');
        out.push('{');
        push_digits(out, c as u32 as usize, 16);
        out.push('}');
    }
    assert(out@ =~= old(out)@ + escaped_char(c));
}

/// Escapes `text` for the body of a string literal.
pub fn escape_text(text: &str) -> (out: String)
    ensures
        out@ == escaped(text@),
{
    let mut out = String::new();
    assert(text@.take(0) =~= Seq::empty());
    for c in it: text.chars()
        invariant
            it.seq() == text@,
            out@ == escaped(text@.take(it.index())),
    {
        proof {
            text@.lemma_flat_map_take_append(|c: char| escaped_char(c), it.index());
        }
        push_escaped(&mut out, c);
    }
    assert(text@.take(text@.len() as int) =~= text@);
    out
}

/// The text of `data` where `data` is well-formed UTF-8, `None` where it is
/// not.
fn decode(data: &[u8]) -> (res: Option<&str>)
    ensures
        res is Some <==> valid_utf8(data@),
        res matches Some(text) ==> text@ == decode_utf8(data@),
{
    let res = utf8_text(data);
    proof {
        if let Some(text) = res {
            // the slice holds the encoding of its own characters
            assert(text.spec_bytes() == encode_utf8(text@));
            encode_utf8_decode_utf8(text@);
        }
    }
    res
}

/// Formats `data` as the body of a string literal, provided that it is
/// well-formed UTF-8; reports the bytes that are not.
pub fn try_format_as_text(data: &[u8]) -> (res: Result<String, FormatError>)
    ensures
        match res {
            Ok(out) => valid_utf8(data@) && out@ == text_body(data@),
            Err(e) => !valid_utf8(data@) && e == FormatError::InvalidTextEncoding,
        },
{
    match decode(data) {
        Some(text) => Ok(escape_text(text)),
        None => Err(FormatError::InvalidTextEncoding),
    }
}

/// Formats `data`, which is well-formed UTF-8, as the body of a string
/// literal.
pub fn format_as_text(data: &[u8]) -> (out: String)
    requires
        valid_utf8(data@),
    ensures
        out@ == text_body(data@),
{
    match decode(data) {
        Some(text) => escape_text(text),
        None => unreached(),
    }
}

} // verus!

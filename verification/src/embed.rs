//! From the bytes of a file to the source text that declares them.

use crate::binary::{binary_text, binary_value, format_as_binary, lemma_binary_round_trip};
use crate::declaration::{
    array_constant, array_declaration, array_includes, generate_src_for_array,
    generate_src_for_string, namespace_close, namespace_open, string_constant,
    string_declaration, LineEnding,
};
use crate::digits::{decimal_digits, digits_value, lemma_digits_round_trip};
use crate::text::{
    lemma_text_round_trip, text_body, try_format_as_text, unescaped, FormatError,
};
use vstd::prelude::*;
use vstd::utf8::{decode_utf8, encode_utf8, valid_utf8};

verus! {

/// What kind of constant the bytes become.
#[derive(Clone, Copy, Debug, PartialEq, Eq)]
pub enum Mode {
    /// An array of bytes.
    Binary,
    /// A string literal; the bytes must be UTF-8.
    Text,
}

impl Mode {
    /// The mode that a binary switch selects: binary where it is set, text
    /// where it is off or was not given.
    pub fn from_flag(binary: Option<bool>) -> (mode: Mode)
        ensures
            mode == (if binary == Some(true) {
                Mode::Binary
            } else {
                Mode::Text
            }),
    {
        match binary {
            Some(true) => Mode::Binary,
            _ => Mode::Text,
        }
    }
}

/// The source text that embeds `data` under the name `symbol`. In text mode
/// it is meant for data that is well-formed UTF-8.
pub open spec fn source_text(
    data: Seq<u8>,
    mode: Mode,
    symbol: Seq<char>,
    ns: Option<Seq<char>>,
    eol: LineEnding,
) -> Seq<char>
    recommends
        mode is Text ==> valid_utf8(data),
{
    match mode {
        Mode::Binary => array_declaration(binary_text(data), data.len(), symbol, ns, eol),
        Mode::Text => string_declaration(text_body(data), symbol, ns, eol),
    }
}

/// Generates the source text that embeds `data`. Binary mode takes any
/// bytes; text mode fails on bytes that are not well-formed UTF-8.
pub fn generate_src(
    data: &[u8],
    mode: Mode,
    symbol_name: &str,
    ns_name: Option<String>,
    line_ending: LineEnding,
) -> (res: Result<String, FormatError>)
    ensures
        match res {
            Ok(out) => {
                &&& mode is Text ==> valid_utf8(data@)
                &&& out@ == source_text(
                    data@,
                    mode,
                    symbol_name@,
                    ns_name.deep_view(),
                    line_ending,
                )
            },
            Err(e) => {
                &&& mode is Text
                &&& !valid_utf8(data@)
                &&& e == FormatError::InvalidTextEncoding
            },
        },
{
    match mode {
        Mode::Binary => {
            let formatted = format_as_binary(data);
            Ok(
                generate_src_for_array(
                    formatted.as_str(),
                    data.len(),
                    symbol_name,
                    ns_name,
                    line_ending,
                ),
            )
        },
        Mode::Text => {
            match try_format_as_text(data) {
                Ok(formatted) => Ok(
                    generate_src_for_string(formatted.as_str(), symbol_name, ns_name, line_ending),
                ),
                Err(e) => Err(e),
            }
        },
    }
}

/// The array declaration made for any bytes declares as many elements as
/// there are bytes, and its initialiser list denotes exactly those bytes.
pub proof fn lemma_array_source_round_trip(
    data: Seq<u8>,
    symbol: Seq<char>,
    ns: Option<Seq<char>>,
    eol: LineEnding,
)
    ensures
        source_text(data, Mode::Binary, symbol, ns, eol) == array_includes(eol) + namespace_open(ns)
            + array_constant(binary_text(data), data.len(), symbol) + namespace_close(ns)
            + eol.text(),
        digits_value(decimal_digits(data.len()), 10) == Some(data.len()),
        binary_value(binary_text(data)) == Some(data),
{
    lemma_digits_round_trip(data.len(), 10);
    lemma_binary_round_trip(data);
}

/// The string declaration made for well-formed UTF-8 holds a literal that
/// denotes a text whose UTF-8 encoding is exactly the bytes.
pub proof fn lemma_string_source_round_trip(
    data: Seq<u8>,
    symbol: Seq<char>,
    ns: Option<Seq<char>>,
    eol: LineEnding,
)
    requires
        valid_utf8(data),
    ensures
        source_text(data, Mode::Text, symbol, ns, eol) == namespace_open(ns) + string_constant(
            text_body(data),
            symbol,
        ) + namespace_close(ns) + eol.text(),
        unescaped(text_body(data)) == Some(decode_utf8(data)),
        encode_utf8(decode_utf8(data)) == data,
{
    lemma_text_round_trip(data);
}

} // verus!

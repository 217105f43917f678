//! The complete declaration: formatted contents wrapped in a constant, the
//! constant optionally wrapped in a namespace, includes in front where they
//! are needed, one line terminator at the end.

use crate::digits::{decimal_digits, push_digits};
use vstd::prelude::*;

verus! {

/// How a line of the generated source ends.
#[derive(Clone, Copy, Debug, PartialEq, Eq)]
pub enum LineEnding {
    /// A line feed alone.
    Lf,
    /// A carriage return and then a line feed.
    CrLf,
}

impl LineEnding {
    /// The characters of the terminator.
    pub open spec fn text(self) -> Seq<char> {
        match self {
            LineEnding::Lf => seq!['\n'],
            LineEnding::CrLf => seq!['\r', '\n'],
        }
    }

    /// The terminator as a string.
    pub fn as_str(self) -> (s: &'static str)
        ensures
            s@ == self.text(),
    {
        match self {
            LineEnding::Lf => {
                proof {
                    reveal_strlit("\n");
                }
                assert("\n"@ =~= seq!['\n']);
                "\n"
            },
            LineEnding::CrLf => {
                proof {
                    reveal_strlit("\r\n");
                }
                assert("\r\n"@ =~= seq!['\r', '\n']);
                "\r\n"
            },
        }
    }
}

/// What opens the namespace `ns`; nothing where there is none.
pub open spec fn namespace_open(ns: Option<Seq<char>>) -> Seq<char> {
    match ns {
        Some(name) => "namespace "@ + name + "{"@,
        None => Seq::empty(),
    }
}

/// What closes the namespace `ns`; nothing where there is none.
pub open spec fn namespace_close(ns: Option<Seq<char>>) -> Seq<char> {
    match ns {
        Some(_) => "}"@,
        None => Seq::empty(),
    }
}

/// The two directives that an array constant needs, each on a line of its own.
pub open spec fn array_includes(eol: LineEnding) -> Seq<char> {
    "#include <array>"@ + eol.text() + "#include <cstdint>"@ + eol.text()
}

/// The statement that declares `symbol` as an array of `len` bytes
/// initialised with `contents`.
pub open spec fn array_constant(contents: Seq<char>, len: nat, symbol: Seq<char>) -> Seq<char> {
    "constexpr std::array<std::uint8_t,"@ + decimal_digits(len) + "> "@ + symbol + "{"@ + contents
        + "};"@
}

/// The statement that declares `symbol` as a pointer to the string literal
/// whose body is `contents`.
pub open spec fn string_constant(contents: Seq<char>, symbol: Seq<char>) -> Seq<char> {
    "constexpr const char* "@ + symbol + " = \""@ + contents + "\";"@
}

/// The source text that declares a byte array: the includes, the constant
/// inside its namespace if it has one, and a final line terminator.
pub open spec fn array_declaration(
    contents: Seq<char>,
    len: nat,
    symbol: Seq<char>,
    ns: Option<Seq<char>>,
    eol: LineEnding,
) -> Seq<char> {
    array_includes(eol) + namespace_open(ns) + array_constant(contents, len, symbol)
        + namespace_close(ns) + eol.text()
}

/// The source text that declares a string constant: the constant inside its
/// namespace if it has one, and a final line terminator.
pub open spec fn string_declaration(
    contents: Seq<char>,
    symbol: Seq<char>,
    ns: Option<Seq<char>>,
    eol: LineEnding,
) -> Seq<char> {
    namespace_open(ns) + string_constant(contents, symbol) + namespace_close(ns) + eol.text()
}

/// A namespace, where one is given, opens right in front of the constant and
/// closes right behind it; where none is given, nothing stands around the
/// constant.
pub proof fn lemma_namespace_wraps_constant(
    contents: Seq<char>,
    len: nat,
    symbol: Seq<char>,
    ns: Option<Seq<char>>,
    eol: LineEnding,
)
    ensures
        match ns {
            Some(name) => {
                &&& array_declaration(contents, len, symbol, ns, eol) == array_includes(eol) + (
                "namespace "@ + name + "{"@) + array_constant(contents, len, symbol) + "}"@
                    + eol.text()
                &&& string_declaration(contents, symbol, ns, eol) == ("namespace "@ + name + "{"@)
                    + string_constant(contents, symbol) + "}"@ + eol.text()
            },
            None => {
                &&& array_declaration(contents, len, symbol, ns, eol) == array_includes(eol)
                    + array_constant(contents, len, symbol) + eol.text()
                &&& string_declaration(contents, symbol, ns, eol) == string_constant(
                    contents,
                    symbol,
                ) + eol.text()
            },
        },
{
    if ns is None {
        assert(array_includes(eol) + Seq::<char>::empty() =~= array_includes(eol));
        assert(Seq::<char>::empty() + string_constant(contents, symbol) =~= string_constant(
            contents,
            symbol,
        ));
        assert(array_constant(contents, len, symbol) + Seq::<char>::empty() =~= array_constant(
            contents,
            len,
            symbol,
        ));
        assert(string_constant(contents, symbol) + Seq::<char>::empty() =~= string_constant(
            contents,
            symbol,
        ));
    }
}

/// Appends the opening of the namespace, if there is one.
fn push_namespace_open(out: &mut String, ns_name: &Option<String>)
    ensures
        final(out)@ == old(out)@ + namespace_open(ns_name.deep_view()),
{
    match ns_name {
        Some(name) => {
            out.append("namespace ");
            out.append(name.as_str());
            out.append("{");
            assert(out@ =~= old(out)@ + namespace_open(ns_name.deep_view()));
        },
        None => {
            assert(out@ =~= old(out)@ + namespace_open(ns_name.deep_view()));
        },
    }
}

/// Appends the closing of the namespace, if there is one.
fn push_namespace_close(out: &mut String, ns_name: &Option<String>)
    ensures
        final(out)@ == old(out)@ + namespace_close(ns_name.deep_view()),
{
    match ns_name {
        Some(_) => {
            out.append("}");
        },
        None => {
            assert(out@ =~= old(out)@ + namespace_close(ns_name.deep_view()));
        },
    }
}

/// Declares a byte array named `symbol_name` with `array_len` elements and
/// the initialiser list `array_contents`.
pub fn generate_src_for_array(
    array_contents: &str,
    array_len: usize,
    symbol_name: &str,
    ns_name: Option<String>,
    line_ending: LineEnding,
) -> (out: String)
    ensures
        out@ == array_declaration(
            array_contents@,
            array_len as nat,
            symbol_name@,
            ns_name.deep_view(),
            line_ending,
        ),
{
    let eol = line_ending.as_str();
    let mut out = String::new();
    out.append("#include <array>");
    out.append(eol);
    out.append("#include <cstdint>");
    out.append(eol);
    assert(out@ =~= array_includes(line_ending));
    push_namespace_open(&mut out, &ns_name);
    let ghost before = out@;
    out.append("constexpr std::array<std::uint8_t,");
    push_digits(&mut out, array_len, 10);
    out.append("> ");
    out.append(symbol_name);
    out.append("{");
    out.append(array_contents);
    out.append("};");
    assert(out@ =~= before + array_constant(array_contents@, array_len as nat, symbol_name@));
    push_namespace_close(&mut out, &ns_name);
    out.append(eol);
    out
}

/// Declares a string constant named `symbol_name` whose literal has the body
/// `string_contents`.
pub fn generate_src_for_string(
    string_contents: &str,
    symbol_name: &str,
    ns_name: Option<String>,
    line_ending: LineEnding,
) -> (out: String)
    ensures
        out@ == string_declaration(
            string_contents@,
            symbol_name@,
            ns_name.deep_view(),
            line_ending,
        ),
{
    let mut out = String::new();
    push_namespace_open(&mut out, &ns_name);
    let ghost before = out@;
    out.append("constexpr const char* ");
    out.append(symbol_name);
    out.append(" = \"");
    out.append(string_contents);
    out.append("\";");
    assert(out@ =~= before + string_constant(string_contents@, symbol_name@));
    push_namespace_close(&mut out, &ns_name);
    out.append(line_ending.as_str());
    out
}

} // verus!

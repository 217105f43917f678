//! The name a constant gets when none is given: the name of the input file,
//! made into an identifier.

use vstd::prelude::*;

verus! {

/// True of the ASCII letters and digits.
pub open spec fn is_ascii_alphanumeric(c: char) -> bool {
    ('0' <= c <= '9') || ('a' <= c <= 'z') || ('A' <= c <= 'Z')
}

/// An ASCII letter or digit stays; any other character gives way to an
/// underscore.
pub open spec fn symbol_char(c: char) -> char {
    if is_ascii_alphanumeric(c) {
        c
    } else {
        '_'
    }
}

/// The symbol name for a file name: character by character, `symbol_char`.
pub open spec fn symbol_name_of(filename: Seq<char>) -> Seq<char> {
    filename.map_values(|c: char| symbol_char(c))
}

/// The symbol name for a file of the given name.
pub fn default_symbol_name(filename: &str) -> (name: String)
    ensures
        name@ == symbol_name_of(filename@),
{
    let mut name = String::new();
    for c in it: filename.chars()
        invariant
            it.seq() == filename@,
            name@ == symbol_name_of(filename@.take(it.index())),
    {
        let ghost before = name@;
        let keep = ('0' <= c && c <= '9') || ('a' <= c && c <= 'z') || ('A' <= c && c <= 'Z');
        if keep {
            name.push(c);
        } else {
            name.push('_');
        }
        assert(name@ =~= symbol_name_of(filename@.take(it.index() + 1)));
    }
    assert(filename@.take(filename@.len() as int) =~= filename@);
    name
}

} // verus!

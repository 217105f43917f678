//! The parts of `std`'s strings that the library builds text with and that
//! `vstd` leaves unspecified. Their contracts are taken on trust.

use vstd::prelude::*;
use vstd::string::StringSliceAdditionalSpecFns;
use vstd::utf8::valid_utf8;

verus! {

/// `String::push` appends the one character `ch` to the end of the string and
/// leaves what was there before in place.
pub assume_specification[ String::push ](s: &mut String, ch: char)
    ensures
        final(s)@ == old(s)@.push(ch),
;

/// `std::str::from_utf8` accepts exactly the byte strings that are well-formed
/// UTF-8, and the string slice it returns is those same bytes, unchanged.
#[verifier::external_body]
pub(crate) fn utf8_text(data: &[u8]) -> (res: Option<&str>)
    ensures
        res is Some <==> valid_utf8(data@),
        res matches Some(text) ==> text.spec_bytes() == data@,
{
    std::str::from_utf8(data).ok()
}

} // verus!

//! Binary mode: bytes as a list of hexadecimal literals, and the list read
//! back.

use crate::digits::{
    digit_value, digits_value, hex_digits, lemma_digits_are_digits, lemma_digits_round_trip,
    push_digits,
};
use vstd::prelude::*;

verus! {

/// The literal for one byte: `0x` and the byte in lower-case hexadecimal
/// without leading zeros.
pub open spec fn byte_literal(b: u8) -> Seq<char> {
    seq!['0', 'x'] + hex_digits(b as nat)
}

/// The literals of all bytes of `data` in order, with one comma between each
/// two neighbours and none at either end.
pub open spec fn binary_text(data: Seq<u8>) -> Seq<char>
    decreases data.len(),
{
    if data.len() == 0 {
        Seq::empty()
    } else if data.len() == 1 {
        byte_literal(data[0])
    } else {
        binary_text(data.drop_last()) + seq![','] + byte_literal(data.last())
    }
}

/// The stretches of `text` that lie between its commas, in order. A text
/// with `n` commas has `n + 1` of them, some perhaps empty.
pub open spec fn comma_separated(text: Seq<char>) -> Seq<Seq<char>>
    decreases text.len(),
{
    if text.len() == 0 {
        seq![Seq::empty()]
    } else {
        let before = comma_separated(text.drop_last());
        if text.last() == ',' {
            before.push(Seq::empty())
        } else {
            before.drop_last().push(before.last().push(text.last()))
        }
    }
}

/// The byte that a hexadecimal literal denotes: `0x` or `0X`, then at least
/// one hexadecimal digit, the value no more than 255. `None` for any other
/// text.
pub open spec fn byte_literal_value(literal: Seq<char>) -> Option<u8> {
    if literal.len() >= 2 && literal[0] == '0' && (literal[1] == 'x' || literal[1] == 'X') {
        match digits_value(literal.skip(2), 16) {
            Some(v) => if v <= u8::MAX {
                Some(v as u8)
            } else {
                None
            },
            None => None,
        }
    } else {
        None
    }
}

/// The bytes that an initialiser list denotes: no bytes for the empty text,
/// else the values of the literals that the commas separate. `None` if one of
/// them is not a byte literal.
pub open spec fn binary_value(text: Seq<char>) -> Option<Seq<u8>> {
    let items = comma_separated(text);
    if text.len() == 0 {
        Some(Seq::empty())
    } else if forall|i: int| 0 <= i < items.len() ==> byte_literal_value(#[trigger] items[i]) is Some {
        Some(Seq::new(items.len(), |i: int| byte_literal_value(items[i]).unwrap()))
    } else {
        None
    }
}

/// A byte literal reads back as its byte.
pub proof fn lemma_byte_literal_value(b: u8)
    ensures
        byte_literal_value(byte_literal(b)) == Some(b),
{
    lemma_digits_round_trip(b as nat, 16);
    assert(byte_literal(b).skip(2) =~= hex_digits(b as nat));
}

/// A byte literal holds no comma.
proof fn lemma_byte_literal_has_no_comma(b: u8)
    ensures
        forall|i: int| 0 <= i < byte_literal(b).len() ==> #[trigger] byte_literal(b)[i] != ',',
{
    lemma_digits_are_digits(b as nat, 16);
    assert forall|i: int| 0 <= i < byte_literal(b).len() implies #[trigger] byte_literal(b)[i]
        != ',' by {
        if i >= 2 {
            assert(byte_literal(b)[i] == hex_digits(b as nat)[i - 2]);
            assert(digit_value(hex_digits(b as nat)[i - 2], 16) is Some);
        }
    }
}

/// Text always has at least one stretch between commas.
proof fn lemma_comma_separated_is_not_empty(text: Seq<char>)
    ensures
        comma_separated(text).len() >= 1,
    decreases text.len(),
{
    if text.len() > 0 {
        lemma_comma_separated_is_not_empty(text.drop_last());
    }
}

/// Text without a comma, put behind other text, lengthens that text's last
/// stretch and makes no new one.
proof fn lemma_comma_separated_extend(text: Seq<char>, more: Seq<char>)
    requires
        forall|i: int| 0 <= i < more.len() ==> #[trigger] more[i] != ',',
    ensures
        comma_separated(text + more) == comma_separated(text).drop_last().push(
            comma_separated(text).last() + more,
        ),
    decreases more.len(),
{
    let items = comma_separated(text);
    lemma_comma_separated_is_not_empty(text);
    if more.len() == 0 {
        assert(text + more =~= text);
        assert(items.last() + more =~= items.last());
        assert(items.drop_last().push(items.last()) =~= items);
    } else {
        let shorter = more.drop_last();
        lemma_comma_separated_extend(text, shorter);
        assert((text + more).drop_last() =~= text + shorter);
        assert((text + more).last() == more.last());
        let before = comma_separated(text + shorter);
        assert(before.drop_last() =~= items.drop_last());
        assert(before.last().push(more.last()) =~= items.last() + more);
    }
}

/// The stretches between the commas of an initialiser list are the literals
/// of its bytes.
proof fn lemma_comma_separated_binary_text(data: Seq<u8>)
    requires
        data.len() >= 1,
    ensures
        comma_separated(binary_text(data)) == Seq::new(data.len(), |i: int| byte_literal(data[i])),
    decreases data.len(),
{
    let literal = byte_literal(data.last());
    let expected = Seq::new(data.len(), |i: int| byte_literal(data[i]));
    lemma_byte_literal_has_no_comma(data.last());
    if data.len() == 1 {
        lemma_comma_separated_extend(Seq::empty(), literal);
        assert(Seq::<char>::empty() + literal =~= literal);
        assert(comma_separated(Seq::empty()) =~= seq![Seq::<char>::empty()]);
        assert(comma_separated(literal) =~= expected);
    } else {
        let front = data.drop_last();
        lemma_comma_separated_binary_text(front);
        let listed = binary_text(front) + seq![','];
        assert(listed.drop_last() =~= binary_text(front));
        assert(comma_separated(listed) == comma_separated(binary_text(front)).push(Seq::empty()));
        lemma_comma_separated_extend(listed, literal);
        assert(Seq::<char>::empty() + literal =~= literal);
        assert(comma_separated(binary_text(data)) =~= expected);
    }
}

/// Reading back the list that was written for `data` gives `data` again,
/// whatever the bytes are.
pub proof fn lemma_binary_round_trip(data: Seq<u8>)
    ensures
        binary_value(binary_text(data)) == Some(data),
{
    if data.len() == 0 {
        assert(data =~= Seq::empty());
    } else {
        lemma_comma_separated_binary_text(data);
        lemma_binary_text_is_not_empty(data);
        let items = comma_separated(binary_text(data));
        assert forall|i: int| 0 <= i < items.len() implies byte_literal_value(#[trigger] items[i])
            == Some(data[i]) by {
            lemma_byte_literal_value(data[i]);
        }
        assert(Seq::new(items.len(), |i: int| byte_literal_value(items[i]).unwrap()) =~= data);
    }
}

/// The list for at least one byte is not the empty text.
proof fn lemma_binary_text_is_not_empty(data: Seq<u8>)
    requires
        data.len() >= 1,
    ensures
        binary_text(data).len() >= 1,
{
}

/// Formats `data` as the initialiser list of a byte array.
pub fn format_as_binary(data: &[u8]) -> (out: String)
    ensures
        out@ == binary_text(data@),
{
    let mut out = String::new();
    let mut i: usize = 0;
    while i < data.len()
        invariant
            i <= data.len(),
            out@ == binary_text(data@.take(i as int)),
        decreases data.len() - i,
    {
        let ghost before = out@;
        if i > 0 {
            out.push(',');
        }
        out.push('0');
        out.push('x');
        push_digits(&mut out, data[i] as usize, 16);
        proof {
            let taken = data@.take(i + 1);
            assert(taken.drop_last() =~= data@.take(i as int));
            assert(taken.last() == data[i as int]);
            if i > 0 {
                assert(out@ =~= before + seq![','] + byte_literal(data[i as int]));
            } else {
                assert(out@ =~= byte_literal(data[i as int]));
            }
        }
        i += 1;
    }
    assert(data@.take(i as int) =~= data@);
    out
}

} // verus!

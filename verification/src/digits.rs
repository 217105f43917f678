//! Numbers written out in positional notation, and read back.

use vstd::arithmetic::div_mod::{
    lemma_div_decreases, lemma_div_pos_is_pos, lemma_fundamental_div_mod, lemma_mod_bound,
    lemma_small_mod,
};
use vstd::prelude::*;

verus! {

/// The character that stands for the digit `d`: `0` to `9`, then `a` to `f`.
pub open spec fn digit_char(d: nat) -> char
    recommends
        d < 16,
{
    if d < 10 {
        ('0' as nat + d) as char
    } else {
        ('a' as nat + d - 10) as char
    }
}

/// The digit that `c` stands for in the given base, in either case of the
/// letters; `None` if `c` is no digit of that base.
pub open spec fn digit_value(c: char, base: nat) -> Option<nat> {
    let d = if '0' <= c <= '9' {
        c as nat - '0' as nat
    } else if 'a' <= c <= 'f' {
        c as nat - 'a' as nat + 10
    } else if 'A' <= c <= 'F' {
        c as nat - 'A' as nat + 10
    } else {
        base as int
    };
    if d < base {
        Some(d as nat)
    } else {
        None
    }
}

/// `n` written in the given base, most significant digit first, without
/// leading zeros; zero is the single digit `0`.
pub open spec fn digits(n: nat, base: nat) -> Seq<char>
    recommends
        2 <= base <= 16,
    decreases n,
    via digits_terminates
{
    if n < base || base < 2 {
        seq![digit_char(n)]
    } else {
        digits(n / base, base).push(digit_char(n % base))
    }
}

#[via_fn]
proof fn digits_terminates(n: nat, base: nat) {
    if n >= base && base >= 2 {
        lemma_div_decreases(n as int, base as int);
        lemma_div_pos_is_pos(n as int, base as int);
    }
}

/// `n` in lower-case hexadecimal.
pub open spec fn hex_digits(n: nat) -> Seq<char> {
    digits(n, 16)
}

/// `n` in decimal.
pub open spec fn decimal_digits(n: nat) -> Seq<char> {
    digits(n, 10)
}

/// The number that a run of digits denotes in the given base; `None` if the
/// run is empty or holds a character that is no digit of the base.
pub open spec fn digits_value(s: Seq<char>, base: nat) -> Option<nat>
    decreases s.len(),
{
    if s.len() == 0 {
        None
    } else {
        match digit_value(s.last(), base) {
            None => None,
            Some(d) => if s.len() == 1 {
                Some(d)
            } else {
                match digits_value(s.drop_last(), base) {
                    None => None,
                    Some(v) => Some(v * base + d),
                }
            },
        }
    }
}

/// Every digit character reads back as the digit it was written for.
pub proof fn lemma_digit_char_value(d: nat, base: nat)
    requires
        d < base <= 16,
    ensures
        digit_value(digit_char(d), base) == Some(d),
{
}

/// A number written out is never empty and holds nothing but digits of its
/// base.
pub proof fn lemma_digits_are_digits(n: nat, base: nat)
    requires
        2 <= base <= 16,
    ensures
        digits(n, base).len() >= 1,
        forall|i: int|
            0 <= i < digits(n, base).len() ==> digit_value(
                #[trigger] digits(n, base)[i],
                base,
            ) is Some,
    decreases n,
{
    if n < base {
        lemma_digit_char_value(n, base);
    } else {
        lemma_div_decreases(n as int, base as int);
        lemma_div_pos_is_pos(n as int, base as int);
        lemma_mod_bound(n as int, base as int);
        lemma_digits_are_digits(n / base, base);
        lemma_digit_char_value(n % base, base);
    }
}

/// Reading back what `digits` wrote gives the number again.
pub proof fn lemma_digits_round_trip(n: nat, base: nat)
    requires
        2 <= base <= 16,
    ensures
        digits_value(digits(n, base), base) == Some(n),
    decreases n,
{
    if n < base {
        lemma_digit_char_value(n, base);
    } else {
        let q = n / base;
        let r = n % base;
        lemma_div_decreases(n as int, base as int);
        lemma_div_pos_is_pos(n as int, base as int);
        lemma_mod_bound(n as int, base as int);
        lemma_fundamental_div_mod(n as int, base as int);
        lemma_digits_round_trip(q, base);
        lemma_digits_are_digits(q, base);
        lemma_digit_char_value(r, base);
        let s = digits(n, base);
        assert(s.drop_last() =~= digits(q, base));
        assert(s.last() == digit_char(r));
        assert(q * base + r == n) by (nonlinear_arith)
            requires
                n == base * q + r,
        ;
    }
}

/// The character for a digit below sixteen.
fn digit_to_char(d: u8) -> (c: char)
    requires
        d < 16,
    ensures
        c == digit_char(d as nat),
{
    if d < 10 {
        (48u8 + d) as char
    } else {
        (87u8 + d) as char
    }
}

/// Appends `n`, written in the given base, to `out`.
pub(crate) fn push_digits(out: &mut String, n: usize, base: usize)
    requires
        2 <= base <= 16,
    ensures
        final(out)@ == old(out)@ + digits(n as nat, base as nat),
    decreases n,
{
    proof {
        lemma_mod_bound(n as int, base as int);
    }
    if n >= base {
        proof {
            lemma_div_decreases(n as int, base as int);
        }
        push_digits(out, n / base, base);
    }
    let last = digit_to_char((n % base) as u8);
    out.push(last);
    proof {
        let written = digits(n as nat, base as nat);
        assert(last == digit_char((n as nat) % (base as nat)));
        if n >= base {
            assert(written == digits((n as nat) / (base as nat), base as nat).push(last));
        } else {
            lemma_small_mod(n as nat, base as nat);
        }
        assert(out@ =~= old(out)@ + written);
    }
}

} // verus!

//! Decimal writing: the text of a number, and what the integer rule reads
//! back from it.

use crate::grammar::spec_index;
use crate::tokens::{decimal_value, digit_run, digit_value, is_digit};
use vstd::prelude::*;

verus! {

/// The character that writes the digit `d`.
pub open spec fn digit_char(d: nat) -> char
    recommends
        d < 10,
{
    ('0' as nat + d) as char
}

/// The usual decimal writing of `n`: no sign, no leading zeros, `"0"` for 0.
pub open spec fn decimal_text(n: nat) -> Seq<char>
    decreases n,
{
    if n < 10 {
        seq![digit_char(n)]
    } else {
        decimal_text(n / 10).push(digit_char(n % 10))
    }
}

/// Whether every character of `s` is a decimal digit.
pub open spec fn all_digits(s: Seq<char>) -> bool {
    forall|i: int| 0 <= i < s.len() ==> is_digit(#[trigger] s[i])
}

/// Whether `s` is empty or begins with something other than a decimal digit,
/// so that a run of digits put before it ends where `s` begins.
pub open spec fn ends_digits(s: Seq<char>) -> bool {
    s.len() == 0 || !is_digit(s[0])
}

/// The decimal writing of a number is one digit or more, and writes that
/// number.
pub proof fn lemma_decimal_text(n: nat)
    ensures
        decimal_text(n).len() >= 1,
        all_digits(decimal_text(n)),
        decimal_value(decimal_text(n)) == n,
    decreases n,
{
    if n < 10 {
        let s = seq![digit_char(n)];
        assert(s.drop_last() =~= Seq::<char>::empty());
        assert(decimal_value(s.drop_last()) == 0);
        assert(digit_value(s.last()) == n);
    } else {
        lemma_decimal_text(n / 10);
        let front = decimal_text(n / 10);
        let s = front.push(digit_char(n % 10));
        assert(s.drop_last() =~= front);
        assert(digit_value(s.last()) == n % 10);
        assert forall|i: int| 0 <= i < s.len() implies is_digit(#[trigger] s[i]) by {
            if i < front.len() {
                assert(s[i] == front[i]);
            }
        }
    }
}

/// A run of digits in front of text that does not go on with a digit is
/// counted whole.
pub proof fn lemma_digit_run(digits: Seq<char>, tail: Seq<char>)
    requires
        all_digits(digits),
        ends_digits(tail),
    ensures
        digit_run(digits + tail) == digits.len(),
    decreases digits.len(),
{
    let s = digits + tail;
    if digits.len() == 0 {
        assert(s =~= tail);
    } else {
        assert(s[0] == digits[0]);
        let shorter = digits.skip(1);
        assert forall|i: int| 0 <= i < shorter.len() implies is_digit(#[trigger] shorter[i]) by {
            assert(shorter[i] == digits[i + 1]);
        }
        assert(s.skip(1) =~= shorter + tail);
        lemma_digit_run(shorter, tail);
    }
}

/// The integer rule reads any run of digits that writes a number of at most
/// eight bits, leading zeros included, and leaves what follows the run.
pub proof fn lemma_index_reads_digits(digits: Seq<char>, tail: Seq<char>)
    requires
        digits.len() >= 1,
        all_digits(digits),
        decimal_value(digits) <= u8::MAX,
        ends_digits(tail),
    ensures
        spec_index(digits + tail) == Some((tail, decimal_value(digits) as u8)),
{
    lemma_digit_run(digits, tail);
    let s = digits + tail;
    assert(s.take(digits.len() as int) =~= digits);
    assert(s.skip(digits.len() as int) =~= tail);
}

/// A run of digits that writes a number above 255 is not an integer of the
/// grammar, however it goes on.
pub proof fn lemma_index_rejects_large(digits: Seq<char>, tail: Seq<char>)
    requires
        all_digits(digits),
        decimal_value(digits) > u8::MAX,
        ends_digits(tail),
    ensures
        spec_index(digits + tail) is None,
{
    lemma_digit_run(digits, tail);
    assert((digits + tail).take(digits.len() as int) =~= digits);
}

/// For every `n` from 0 to 255, the integer rule reads `n` from its decimal
/// writing and consumes exactly the digits.
pub proof fn lemma_index_of_decimal_text(n: u8, tail: Seq<char>)
    requires
        ends_digits(tail),
    ensures
        spec_index(decimal_text(n as nat) + tail) == Some((tail, n)),
{
    lemma_decimal_text(n as nat);
    lemma_index_reads_digits(decimal_text(n as nat), tail);
}

} // verus!

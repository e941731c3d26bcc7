//! The grammar as mathematics: each rule is a function from the characters
//! that remain to the characters it leaves and the value it recognises, or to
//! `None` where the rule does not match.
//!
//! A choice between two rules is ordered: the second is consulted only where
//! the first does not match. An optional part that does not match leaves the
//! characters as they were and gives its default.

use crate::parser::{BitRange, BitSpec, Condition, Repeat, Word, WordRange};
use crate::tokens::{is_digit, leading_char, leading_decimal, leading_tag};
use vstd::prelude::*;

verus! {

/// `integer`: the longest run of decimal digits at the front, read as a
/// number, which must fit in eight bits.
pub open spec fn spec_index(s: Seq<char>) -> Option<(Seq<char>, u8)> {
    leading_decimal(s)
}

/// `single_bit = integer`.
pub open spec fn spec_single_bit(s: Seq<char>) -> Option<(Seq<char>, BitRange)> {
    match spec_index(s) {
        Some((rest, position)) => Some((rest, BitRange::Single(position))),
        None => None,
    }
}

/// `range = integer ".." integer`.
pub open spec fn spec_range(s: Seq<char>) -> Option<(Seq<char>, BitRange)> {
    match spec_index(s) {
        Some((after_low, low)) => match leading_tag(after_low, ".."@) {
            Some(after_dots) => match spec_index(after_dots) {
                Some((rest, high)) => Some((rest, BitRange::Range(low, high))),
                None => None,
            },
            None => None,
        },
        None => None,
    }
}

/// `bit_range = range | single_bit`, the range first.
pub open spec fn spec_bit_range(s: Seq<char>) -> Option<(Seq<char>, BitRange)> {
    match spec_range(s) {
        Some(found) => Some(found),
        None => spec_single_bit(s),
    }
}

/// `full_word = [integer] "[" [bit_range] "]"`. A missing index is 0, a
/// missing bit range is the whole word.
pub open spec fn spec_full_word(s: Seq<char>) -> Option<(Seq<char>, Word)> {
    let (after_index, index) = match spec_index(s) {
        Some(found) => found,
        None => (s, 0u8),
    };
    match leading_tag(after_index, "["@) {
        Some(inside) => {
            let (after_bits, bit_range) = match spec_bit_range(inside) {
                Some(found) => found,
                None => (inside, BitRange::WholeWord),
            };
            match leading_tag(after_bits, "]"@) {
                Some(rest) => Some((rest, Word { index, bit_range })),
                None => None,
            }
        },
        None => None,
    }
}

/// A bare `bit_range`, which stands for those bits of word 0.
pub open spec fn spec_bit_range_as_word(s: Seq<char>) -> Option<(Seq<char>, Word)> {
    match spec_bit_range(s) {
        Some((rest, bit_range)) => Some((rest, Word { index: 0, bit_range })),
        None => None,
    }
}

/// `word = full_word | bit_range_as_word`, the bracketed form first.
pub open spec fn spec_word(s: Seq<char>) -> Option<(Seq<char>, Word)> {
    match spec_full_word(s) {
        Some(found) => Some(found),
        None => spec_bit_range_as_word(s),
    }
}

/// `word_range = word [".." word]`.
pub open spec fn spec_word_range(s: Seq<char>) -> Option<(Seq<char>, WordRange)> {
    match spec_word(s) {
        Some((after_start, start)) => {
            let continued = match leading_tag(after_start, ".."@) {
                Some(after_dots) => spec_word(after_dots),
                None => None,
            };
            match continued {
                Some((rest, end)) => Some((rest, WordRange { start, end: Some(end) })),
                None => Some((after_start, WordRange { start, end: None })),
            }
        },
        None => None,
    }
}

/// `condition = "<=" | "<"`, the longer operator first.
pub open spec fn spec_condition(s: Seq<char>) -> Option<(Seq<char>, Condition)> {
    match leading_tag(s, "<="@) {
        Some(rest) => Some((rest, Condition::Lte)),
        None => match leading_tag(s, "<"@) {
            Some(rest) => Some((rest, Condition::Lt)),
            None => None,
        },
    }
}

/// `fixed_repeat = integer`.
pub open spec fn spec_fixed_repeat(s: Seq<char>) -> Option<(Seq<char>, Repeat)> {
    match leading_decimal(s) {
        Some((rest, count)) => Some((rest, Repeat::Fixed(count))),
        None => None,
    }
}

/// `variable_word = "(" word ")"`.
pub open spec fn spec_variable_word(s: Seq<char>) -> Option<(Seq<char>, Word)> {
    match leading_char(s, '(') {
        Some(inside) => match spec_word(inside) {
            Some((after_word, word)) => match leading_char(after_word, ')') {
                Some(rest) => Some((rest, word)),
                None => None,
            },
            None => None,
        },
        None => None,
    }
}

/// `variable_repeat = variable_word condition integer`.
pub open spec fn spec_variable_repeat(s: Seq<char>) -> Option<(Seq<char>, Repeat)> {
    match spec_variable_word(s) {
        Some((after_word, word)) => match spec_condition(after_word) {
            Some((after_condition, condition)) => match leading_decimal(after_condition) {
                Some((rest, limit)) => Some((rest, Repeat::Variable { word, condition, limit })),
                None => None,
            },
            None => None,
        },
        None => None,
    }
}

/// `repeat = ";" (variable_repeat | fixed_repeat)`, the variable form first.
pub open spec fn spec_repeat(s: Seq<char>) -> Option<(Seq<char>, Repeat)> {
    match leading_tag(s, ";"@) {
        Some(clause) => match spec_variable_repeat(clause) {
            Some(found) => Some(found),
            None => spec_fixed_repeat(clause),
        },
        None => None,
    }
}

/// `bit_spec = word_range [repeat]`. Without a repeat clause that matches,
/// the repeat is `Repeat::Absent` and the characters after the word range are
/// left.
pub open spec fn spec_bit_spec(s: Seq<char>) -> Option<(Seq<char>, BitSpec)> {
    match spec_word_range(s) {
        Some((after_span, span)) => match spec_repeat(after_span) {
            Some((rest, repeat)) => Some(
                (rest, BitSpec { start: span.start, end: span.end, repeat }),
            ),
            None => Some(
                (after_span, BitSpec { start: span.start, end: span.end, repeat: Repeat::Absent }),
            ),
        },
        None => None,
    }
}

/// Whether `c` is a hexadecimal digit, in either case.
pub open spec fn is_hex_digit(c: char) -> bool {
    is_digit(c) || 'a' <= c <= 'f' || 'A' <= c <= 'F'
}

/// Whether `c` is a binary digit.
pub open spec fn is_binary_digit(c: char) -> bool {
    c == '0' || c == '1'
}

/// Whether `body` is the body of a hexadecimal literal: nothing but
/// hexadecimal digits and `_`, and at least one digit.
pub open spec fn is_hex_body(body: Seq<char>) -> bool {
    &&& forall|i: int| 0 <= i < body.len() ==> is_hex_digit(#[trigger] body[i]) || body[i] == '_'
    &&& exists|i: int| 0 <= i < body.len() && is_hex_digit(#[trigger] body[i])
}

/// Whether `body` is the body of a binary literal: nothing but binary digits
/// and `_`, and at least one digit.
pub open spec fn is_binary_body(body: Seq<char>) -> bool {
    &&& forall|i: int|
        0 <= i < body.len() ==> is_binary_digit(#[trigger] body[i]) || body[i] == '_'
    &&& exists|i: int| 0 <= i < body.len() && is_binary_digit(#[trigger] body[i])
}

/// The characters after a literal's prefix, which is `lower` or `upper`.
pub open spec fn after_prefix(s: Seq<char>, lower: Seq<char>, upper: Seq<char>) -> Option<
    Seq<char>,
> {
    match leading_tag(s, lower) {
        Some(body) => Some(body),
        None => leading_tag(s, upper),
    }
}

/// `hex_literal`: `0x` or `0X`, then hexadecimal digits, at least one, and
/// `_` separators up to the end of the input. The value is the text after the
/// prefix and nothing remains.
pub open spec fn spec_hexadecimal(s: Seq<char>) -> Option<(Seq<char>, Seq<char>)> {
    match after_prefix(s, "0x"@, "0X"@) {
        Some(body) => if is_hex_body(body) {
            Some((Seq::empty(), body))
        } else {
            None
        },
        None => None,
    }
}

/// `binary_literal`: `0b` or `0B`, then binary digits, at least one, and `_`
/// separators up to the end of the input. The value is the text after the
/// prefix and nothing remains.
pub open spec fn spec_binary(s: Seq<char>) -> Option<(Seq<char>, Seq<char>)> {
    match after_prefix(s, "0b"@, "0B"@) {
        Some(body) => if is_binary_body(body) {
            Some((Seq::empty(), body))
        } else {
            None
        },
        None => None,
    }
}

/// `literal = hex_literal | binary_literal`.
pub open spec fn spec_literal(s: Seq<char>) -> Option<(Seq<char>, Seq<char>)> {
    match spec_hexadecimal(s) {
        Some(found) => Some(found),
        None => spec_binary(s),
    }
}

/// A range is preferred to a single bit: wherever the range rule matches,
/// the bit range is that range, and a single bit is found only where the
/// range rule does not match.
pub proof fn lemma_range_preferred(s: Seq<char>)
    ensures
        spec_range(s) is Some ==> spec_bit_range(s) == spec_range(s),
        spec_range(s) matches Some((_, bits)) ==> bits is Range,
        spec_bit_range(s) matches Some((_, bits)) ==> (bits is Single <==> spec_range(s) is None),
{
}

/// In every other choice of the grammar, too, the first alternative wins
/// wherever it matches, and the second decides wherever the first does not.
pub proof fn lemma_first_alternative_wins(s: Seq<char>)
    ensures
        spec_full_word(s) is Some ==> spec_word(s) == spec_full_word(s),
        spec_full_word(s) is None ==> spec_word(s) == spec_bit_range_as_word(s),
        leading_tag(s, "<="@) matches Some(rest) ==> spec_condition(s) == Some(
            (rest, Condition::Lte),
        ),
        leading_tag(s, ";"@) matches Some(clause) ==> {
            &&& spec_variable_repeat(clause) is Some ==> spec_repeat(s) == spec_variable_repeat(
                clause,
            )
            &&& spec_variable_repeat(clause) is None ==> spec_repeat(s) == spec_fixed_repeat(clause)
        },
        spec_hexadecimal(s) is Some ==> spec_literal(s) == spec_hexadecimal(s),
        spec_hexadecimal(s) is None ==> spec_literal(s) == spec_binary(s),
{
}

} // verus!

//! The data model and the executable parsers, one per grammar rule.
//!
//! Each parser takes the text that remains and returns the text it leaves
//! together with the value it recognised, or fails without having consumed
//! anything. What each one returns is fixed by the rule of the same name in
//! [`crate::grammar`].

use crate::grammar::{
    is_binary_body, is_binary_digit, is_hex_body, is_hex_digit, spec_binary, spec_bit_range,
    spec_bit_range_as_word, spec_bit_spec, spec_condition, spec_fixed_repeat, spec_full_word,
    spec_hexadecimal, spec_index, spec_literal, spec_range, spec_repeat, spec_single_bit,
    spec_variable_repeat, spec_variable_word, spec_word, spec_word_range,
};
use crate::progress::{
    is_proper_suffix, lemma_bit_range_consumes, lemma_bit_spec_consumes, lemma_condition_consumes,
    lemma_literal_is_whole_input, lemma_repeat_consumes, lemma_variable_repeat_consumes,
    lemma_word_consumes, lemma_word_range_consumes,
};
use crate::tokens::{integer, one_char, one_of, tag};
use crate::Error;
use vstd::prelude::*;

verus! {

/// The bits of a word that a description selects.
#[derive(Debug, PartialEq, Eq, Copy, Clone)]
pub enum BitRange {
    /// One bit, by position.
    Single(u8),
    /// The bits from the first position to the second, both included. The
    /// grammar does not ask that the first be the smaller.
    Range(u8, u8),
    /// Every bit of the word.
    WholeWord,
}

/// A word of the data, by index, and the bits selected in it.
#[derive(Debug, PartialEq, Eq, Copy, Clone)]
pub struct Word {
    /// Position of the word; 0 where the text names none.
    pub index: u8,
    /// The selected bits; the whole word where the text names none.
    pub bit_range: BitRange,
}

/// The comparison that bounds a variable repeat.
#[derive(Debug, PartialEq, Eq, Copy, Clone)]
pub enum Condition {
    /// Strictly less than the limit.
    Lt,
    /// Less than or equal to the limit.
    Lte,
}

/// How often the described span recurs.
#[derive(Debug, PartialEq, Eq, Copy, Clone)]
pub enum Repeat {
    /// The text has no repeat clause.
    Absent,
    /// A fixed number of repetitions.
    Fixed(u8),
    /// Repetition for as long as the value read from `word` stands in
    /// `condition` to `limit`.
    Variable { word: Word, condition: Condition, limit: u8 },
}

/// A start word and, where the text continues with `..`, an end word.
#[derive(Debug, PartialEq, Eq, Copy, Clone)]
pub struct WordRange {
    pub start: Word,
    pub end: Option<Word>,
}

/// A complete description: a span of words and its repeat.
#[derive(Debug, PartialEq, Eq, Copy, Clone)]
pub struct BitSpec {
    pub start: Word,
    pub end: Option<Word>,
    pub repeat: Repeat,
}

/// Whether an executable parser's outcome `r` is what the grammar rule gives:
/// the same value and the same remaining characters, or a failure where the
/// rule does not match.
pub open spec fn agrees<T>(r: Result<(&str, T), Error>, rule: Option<(Seq<char>, T)>) -> bool {
    match r {
        Ok((rest, value)) => rule == Some((rest@, value)),
        Err(_) => rule is None,
    }
}

/// Whether a parser that succeeded on `input` consumed at least one character
/// and left the rest of `input` as it was.
pub open spec fn makes_progress<T>(r: Result<(&str, T), Error>, input: Seq<char>) -> bool {
    r matches Ok((rest, _)) ==> is_proper_suffix(rest@, input)
}

/// The same as `agrees`, for a parser whose value is a piece of the text.
pub open spec fn agrees_text(
    r: Result<(&str, &str), Error>,
    rule: Option<(Seq<char>, Seq<char>)>,
) -> bool {
    match r {
        Ok((rest, text)) => rule == Some((rest@, text@)),
        Err(_) => rule is None,
    }
}

/// Parses an unsigned decimal integer of at most eight bits.
pub fn index(input: &str) -> (r: Result<(&str, u8), Error>)
    ensures
        agrees(r, spec_index(input@)),
        makes_progress(r, input@),
{
    proof {
        lemma_bit_range_consumes(input@);
    }
    match integer(input) {
        Ok(found) => Ok(found),
        Err(_) => Err(Error::ParseError),
    }
}

/// Parses one bit position.
pub fn single_bit(input: &str) -> (r: Result<(&str, BitRange), Error>)
    ensures
        agrees(r, spec_single_bit(input@)),
        makes_progress(r, input@),
{
    proof {
        lemma_bit_range_consumes(input@);
    }
    let (remaining, position) = index(input)?;
    Ok((remaining, BitRange::Single(position)))
}

/// Parses two bit positions with `..` between them.
pub fn range(input: &str) -> (r: Result<(&str, BitRange), Error>)
    ensures
        agrees(r, spec_range(input@)),
        makes_progress(r, input@),
{
    proof {
        lemma_bit_range_consumes(input@);
    }
    let (after_low, low) = index(input)?;
    let after_dots = match tag("..", after_low) {
        Ok((rest, _)) => rest,
        Err(_) => { return Err(Error::ParseError); },
    };
    let (remaining, high) = index(after_dots)?;
    Ok((remaining, BitRange::Range(low, high)))
}

/// Parses a range of bits or, where there is none, a single bit.
pub fn bit_range(input: &str) -> (r: Result<(&str, BitRange), Error>)
    ensures
        agrees(r, spec_bit_range(input@)),
        makes_progress(r, input@),
{
    proof {
        lemma_bit_range_consumes(input@);
    }
    match range(input) {
        Ok(found) => Ok(found),
        Err(_) => single_bit(input),
    }
}

/// Parses a word written with brackets: an optional index, `[`, an optional
/// bit range, `]`.
pub fn full_word(input: &str) -> (r: Result<(&str, Word), Error>)
    ensures
        agrees(r, spec_full_word(input@)),
        makes_progress(r, input@),
{
    proof {
        lemma_word_consumes(input@);
    }
    let (after_index, index) = match index(input) {
        Ok(found) => found,
        Err(_) => (input, 0),
    };
    let inside = match tag("[", after_index) {
        Ok((rest, _)) => rest,
        Err(_) => { return Err(Error::ParseError); },
    };
    let (after_bits, bit_range) = match bit_range(inside) {
        Ok(found) => found,
        Err(_) => (inside, BitRange::WholeWord),
    };
    match tag("]", after_bits) {
        Ok((remaining, _)) => Ok((remaining, Word { index, bit_range })),
        Err(_) => Err(Error::ParseError),
    }
}

/// Parses a bare bit range as those bits of word 0.
pub fn bit_range_as_word(input: &str) -> (r: Result<(&str, Word), Error>)
    ensures
        agrees(r, spec_bit_range_as_word(input@)),
        makes_progress(r, input@),
{
    proof {
        lemma_word_consumes(input@);
    }
    let (remaining, bit_range) = bit_range(input)?;
    Ok((remaining, Word { index: 0, bit_range }))
}

/// Parses a word: the bracketed form or, where there is none, a bare bit
/// range.
pub fn word(input: &str) -> (r: Result<(&str, Word), Error>)
    ensures
        agrees(r, spec_word(input@)),
        makes_progress(r, input@),
{
    proof {
        lemma_word_consumes(input@);
    }
    match full_word(input) {
        Ok(found) => Ok(found),
        Err(_) => bit_range_as_word(input),
    }
}

/// Parses a start word and, where `..` and a word follow, an end word.
pub fn word_range(input: &str) -> (r: Result<(&str, WordRange), Error>)
    ensures
        agrees(r, spec_word_range(input@)),
        makes_progress(r, input@),
{
    proof {
        lemma_word_range_consumes(input@);
    }
    let (after_start, start) = word(input)?;
    match tag("..", after_start) {
        Ok((after_dots, _)) => match word(after_dots) {
            Ok((remaining, end)) => Ok((remaining, WordRange { start, end: Some(end) })),
            Err(_) => Ok((after_start, WordRange { start, end: None })),
        },
        Err(_) => Ok((after_start, WordRange { start, end: None })),
    }
}

/// Parses a comparison operator, `<=` or `<`.
pub fn condition(input: &str) -> (r: Result<(&str, Condition), Error>)
    ensures
        agrees(r, spec_condition(input@)),
        makes_progress(r, input@),
{
    proof {
        lemma_condition_consumes(input@);
    }
    match tag("<=", input) {
        Ok((remaining, _)) => Ok((remaining, Condition::Lte)),
        Err(_) => match tag("<", input) {
            Ok((remaining, _)) => Ok((remaining, Condition::Lt)),
            Err(_) => Err(Error::ParseError),
        },
    }
}

/// Parses a fixed number of repetitions.
pub fn fixed_repeat(input: &str) -> (r: Result<(&str, Repeat), Error>)
    ensures
        agrees(r, spec_fixed_repeat(input@)),
        makes_progress(r, input@),
{
    proof {
        lemma_condition_consumes(input@);
    }
    match integer(input) {
        Ok((remaining, count)) => Ok((remaining, Repeat::Fixed(count))),
        Err(_) => Err(Error::ParseError),
    }
}

/// Parses a word in parentheses.
pub fn variable_word(input: &str) -> (r: Result<(&str, Word), Error>)
    ensures
        agrees(r, spec_variable_word(input@)),
        makes_progress(r, input@),
{
    proof {
        lemma_variable_repeat_consumes(input@);
    }
    let inside = match one_char('(', input) {
        Ok((rest, _)) => rest,
        Err(_) => { return Err(Error::ParseError); },
    };
    let (after_word, word) = word(inside)?;
    match one_char(')', after_word) {
        Ok((remaining, _)) => Ok((remaining, word)),
        Err(_) => Err(Error::ParseError),
    }
}

/// Parses a variable repeat: a word in parentheses, a comparison operator and
/// a limit.
pub fn variable_repeat(input: &str) -> (r: Result<(&str, Repeat), Error>)
    ensures
        agrees(r, spec_variable_repeat(input@)),
        makes_progress(r, input@),
{
    proof {
        lemma_variable_repeat_consumes(input@);
    }
    let (after_word, word) = variable_word(input)?;
    let (after_condition, condition) = condition(after_word)?;
    match integer(after_condition) {
        Ok((remaining, limit)) => Ok((remaining, Repeat::Variable { word, condition, limit })),
        Err(_) => Err(Error::ParseError),
    }
}

/// Parses a repeat clause: `;`, then a variable repeat or, where there is
/// none, a fixed one.
pub fn repeat(input: &str) -> (r: Result<(&str, Repeat), Error>)
    ensures
        agrees(r, spec_repeat(input@)),
        makes_progress(r, input@),
{
    proof {
        lemma_repeat_consumes(input@);
    }
    let clause = match tag(";", input) {
        Ok((rest, _)) => rest,
        Err(_) => { return Err(Error::ParseError); },
    };
    match variable_repeat(clause) {
        Ok(found) => Ok(found),
        Err(_) => fixed_repeat(clause),
    }
}

/// Parses a complete description: a word range and, where one follows, a
/// repeat clause.
pub fn bit_spec(input: &str) -> (r: Result<(&str, BitSpec), Error>)
    ensures
        agrees(r, spec_bit_spec(input@)),
        makes_progress(r, input@),
{
    proof {
        lemma_bit_spec_consumes(input@);
    }
    let (after_span, span) = word_range(input)?;
    match repeat(after_span) {
        Ok((remaining, repeat)) => Ok(
            (remaining, BitSpec { start: span.start, end: span.end, repeat }),
        ),
        Err(_) => Ok(
            (after_span, BitSpec { start: span.start, end: span.end, repeat: Repeat::Absent }),
        ),
    }
}

/// Whether `body` is made of characters of `alphabet` alone and holds at
/// least one that is not `_`.
pub open spec fn is_run_over(body: Seq<char>, alphabet: Seq<char>) -> bool {
    &&& forall|i: int| 0 <= i < body.len() ==> alphabet.contains(#[trigger] body[i])
    &&& exists|i: int| 0 <= i < body.len() && #[trigger] body[i] != '_'
}

/// Reads characters of `alphabet` up to the end of `body`. Succeeds when every
/// character of `body` is one of them and at least one is not `_`; the value
/// is then `body` itself and nothing remains.
fn digits_to_end<'a>(body: &'a str, alphabet: &str) -> (r: Result<(&'a str, &'a str), Error>)
    ensures
        agrees_text(
            r,
            if is_run_over(body@, alphabet@) {
                Some((Seq::empty(), body@))
            } else {
                None
            },
        ),
{
    let mut remaining = body;
    let mut seen_digit = false;
    let ghost mut consumed: int = 0;
    loop
        invariant
            0 <= consumed <= body@.len(),
            remaining@ == body@.skip(consumed),
            forall|i: int| 0 <= i < consumed ==> alphabet@.contains(#[trigger] body@[i]),
            seen_digit <==> exists|i: int| 0 <= i < consumed && #[trigger] body@[i] != '_',
        ensures
            consumed == body@.len() || !alphabet@.contains(body@[consumed]),
        decreases remaining@.len(),
    {
        match one_of(alphabet, remaining) {
            Ok((rest, found)) => {
                proof {
                    assert(body@[consumed] == remaining@[0]);
                    assert(rest@ == body@.skip(consumed + 1));
                    consumed = consumed + 1;
                }
                seen_digit = seen_digit || found != '_';
                remaining = rest;
            },
            Err(_) => {
                assert(consumed < body@.len() ==> body@[consumed] == remaining@[0]);
                break ;
            },
        }
    }
    if seen_digit && remaining.is_empty() {
        assert(remaining@ == Seq::<char>::empty());
        Ok((remaining, body))
    } else {
        Err(Error::ParseError)
    }
}

/// The characters that `"0123456789abcdefABCDEF_"` holds are the hexadecimal
/// digits and `_`.
proof fn lemma_hex_alphabet(c: char)
    ensures
        "0123456789abcdefABCDEF_"@.contains(c) <==> is_hex_digit(c) || c == '_',
{
    reveal_strlit("0123456789abcdefABCDEF_");
    let a = "0123456789abcdefABCDEF_"@;
    assert(a.len() == 23);
    if is_hex_digit(c) || c == '_' {
        let k: int = if '0' <= c <= '9' {
            c as int - '0' as int
        } else if 'a' <= c <= 'f' {
            10 + c as int - 'a' as int
        } else if 'A' <= c <= 'F' {
            16 + c as int - 'A' as int
        } else {
            22
        };
        assert(a[k] == c);
    }
}

/// A run over `"0123456789abcdefABCDEF_"` is the body of a hexadecimal
/// literal, and the other way round.
proof fn lemma_hex_run(body: Seq<char>)
    ensures
        is_run_over(body, "0123456789abcdefABCDEF_"@) <==> is_hex_body(body),
{
    let alphabet = "0123456789abcdefABCDEF_"@;
    assert forall|i: int| 0 <= i < body.len() implies (alphabet.contains(#[trigger] body[i])
        <==> is_hex_digit(body[i]) || body[i] == '_') by {
        lemma_hex_alphabet(body[i]);
    }
    if is_run_over(body, alphabet) {
        let i = choose|i: int| 0 <= i < body.len() && #[trigger] body[i] != '_';
        assert(is_hex_digit(body[i]));
    }
    if is_hex_body(body) {
        let i = choose|i: int| 0 <= i < body.len() && is_hex_digit(#[trigger] body[i]);
        assert(body[i] != '_');
    }
}

/// The characters that `"01_"` holds are the binary digits and `_`.
proof fn lemma_binary_alphabet(c: char)
    ensures
        "01_"@.contains(c) <==> is_binary_digit(c) || c == '_',
{
    reveal_strlit("01_");
    let a = "01_"@;
    assert(a.len() == 3);
    if is_binary_digit(c) || c == '_' {
        let k: int = if c == '0' {
            0
        } else if c == '1' {
            1
        } else {
            2
        };
        assert(a[k] == c);
    }
}

/// A run over `"01_"` is the body of a binary literal, and the other way
/// round.
proof fn lemma_binary_run(body: Seq<char>)
    ensures
        is_run_over(body, "01_"@) <==> is_binary_body(body),
{
    let alphabet = "01_"@;
    assert forall|i: int| 0 <= i < body.len() implies (alphabet.contains(#[trigger] body[i])
        <==> is_binary_digit(body[i]) || body[i] == '_') by {
        lemma_binary_alphabet(body[i]);
    }
    if is_run_over(body, alphabet) {
        let i = choose|i: int| 0 <= i < body.len() && #[trigger] body[i] != '_';
        assert(is_binary_digit(body[i]));
    }
    if is_binary_body(body) {
        let i = choose|i: int| 0 <= i < body.len() && is_binary_digit(#[trigger] body[i]);
        assert(body[i] != '_');
    }
}

/// Parses a hexadecimal literal: `0x` or `0X`, then hexadecimal digits and
/// `_` separators up to the end of the input, with at least one digit. The
/// value is the text after the prefix.
pub fn hexadecimal(input: &str) -> (r: Result<(&str, &str), Error>)
    ensures
        agrees_text(r, spec_hexadecimal(input@)),
        r matches Ok((rest, text)) ==> rest@.len() == 0 && text@.len() >= 1 && text@
            == input@.skip(2),
{
    proof {
        lemma_literal_is_whole_input(input@);
    }
    let body = match tag("0x", input) {
        Ok((rest, _)) => rest,
        Err(_) => match tag("0X", input) {
            Ok((rest, _)) => rest,
            Err(_) => { return Err(Error::ParseError); },
        },
    };
    proof {
        lemma_hex_run(body@);
    }
    digits_to_end(body, "0123456789abcdefABCDEF_")
}

/// Parses a binary literal: `0b` or `0B`, then binary digits and `_`
/// separators up to the end of the input, with at least one digit. The value
/// is the text after the prefix.
pub fn binary(input: &str) -> (r: Result<(&str, &str), Error>)
    ensures
        agrees_text(r, spec_binary(input@)),
        r matches Ok((rest, text)) ==> rest@.len() == 0 && text@.len() >= 1 && text@
            == input@.skip(2),
{
    proof {
        lemma_literal_is_whole_input(input@);
    }
    let body = match tag("0b", input) {
        Ok((rest, _)) => rest,
        Err(_) => match tag("0B", input) {
            Ok((rest, _)) => rest,
            Err(_) => { return Err(Error::ParseError); },
        },
    };
    proof {
        lemma_binary_run(body@);
    }
    digits_to_end(body, "01_")
}

/// Parses a literal: a hexadecimal one or, where there is none, a binary one.
pub fn literal(input: &str) -> (r: Result<(&str, &str), Error>)
    ensures
        agrees_text(r, spec_literal(input@)),
        r matches Ok((rest, text)) ==> rest@.len() == 0 && text@.len() >= 1 && text@
            == input@.skip(2),
{
    proof {
        lemma_literal_is_whole_input(input@);
    }
    match hexadecimal(input) {
        Ok(found) => Ok(found),
        Err(_) => binary(input),
    }
}

} // verus!

//! Every rule that matches consumes something: what it leaves is a proper
//! suffix of what it was given. A literal, which must reach the end of the
//! input, leaves nothing.

use crate::grammar::{
    spec_binary, spec_bit_range, spec_bit_range_as_word, spec_bit_spec, spec_condition,
    spec_fixed_repeat, spec_full_word, spec_hexadecimal, spec_index, spec_literal, spec_range,
    spec_repeat, spec_single_bit, spec_variable_repeat, spec_variable_word, spec_word,
    spec_word_range,
};
use crate::tokens::{digit_run, leading_char, leading_tag};
use vstd::prelude::*;

verus! {

/// Whether `rest` is what remains of `s` after some of its first characters,
/// possibly none.
pub open spec fn is_suffix(rest: Seq<char>, s: Seq<char>) -> bool {
    rest.len() <= s.len() && rest == s.skip(s.len() - rest.len())
}

/// Whether `rest` is what remains of `s` after at least one character.
pub open spec fn is_proper_suffix(rest: Seq<char>, s: Seq<char>) -> bool {
    rest.len() < s.len() && is_suffix(rest, s)
}

/// Whether the outcome `found` of a rule on `s`, where it is a match, leaves
/// a proper suffix of `s`.
pub open spec fn consumes<T>(s: Seq<char>, found: Option<(Seq<char>, T)>) -> bool {
    found matches Some((rest, _)) ==> is_proper_suffix(rest, s)
}

/// A suffix of a suffix is a suffix, and a proper one where either step is
/// proper.
pub proof fn lemma_suffix_of_suffix(s: Seq<char>, middle: Seq<char>, rest: Seq<char>)
    requires
        is_suffix(middle, s),
        is_suffix(rest, middle),
    ensures
        is_suffix(rest, s),
        is_proper_suffix(middle, s) || is_proper_suffix(rest, middle) ==> is_proper_suffix(rest, s),
{
    assert(rest =~= s.skip(s.len() - rest.len()));
}

/// A run of digits is no longer than the text it stands in.
pub proof fn lemma_digit_run_bound(s: Seq<char>)
    ensures
        digit_run(s) <= s.len(),
    decreases s.len(),
{
    if s.len() > 0 {
        lemma_digit_run_bound(s.skip(1));
    }
}

/// A tag that is found leaves a suffix, a proper one where the tag is not
/// empty.
pub proof fn lemma_tag_consumes(s: Seq<char>, t: Seq<char>)
    ensures
        leading_tag(s, t) matches Some(rest) ==> is_suffix(rest, s) && (t.len() > 0
            ==> is_proper_suffix(rest, s)),
{
}

/// A character that is found leaves a proper suffix.
pub proof fn lemma_char_consumes(s: Seq<char>, c: char)
    ensures
        leading_char(s, c) matches Some(rest) ==> is_proper_suffix(rest, s),
{
}

/// `integer`, `single_bit`, `range` and `bit_range` consume where they match.
pub proof fn lemma_bit_range_consumes(s: Seq<char>)
    ensures
        consumes(s, spec_index(s)),
        consumes(s, spec_single_bit(s)),
        consumes(s, spec_range(s)),
        consumes(s, spec_bit_range(s)),
{
    lemma_digit_run_bound(s);
    if let Some((after_low, _)) = spec_index(s) {
        if let Some(after_dots) = leading_tag(after_low, ".."@) {
            lemma_tag_consumes(after_low, ".."@);
            lemma_suffix_of_suffix(s, after_low, after_dots);
            if let Some((rest, _)) = spec_index(after_dots) {
                lemma_digit_run_bound(after_dots);
                lemma_suffix_of_suffix(s, after_dots, rest);
            }
        }
    }
}

/// `full_word`, `bit_range_as_word` and `word` consume where they match.
pub proof fn lemma_word_consumes(s: Seq<char>)
    ensures
        consumes(s, spec_full_word(s)),
        consumes(s, spec_bit_range_as_word(s)),
        consumes(s, spec_word(s)),
{
    reveal_strlit("[");
    reveal_strlit("]");
    lemma_bit_range_consumes(s);
    let after_index = match spec_index(s) {
        Some((rest, _)) => rest,
        None => s,
    };
    assert(is_suffix(after_index, s)) by {
        assert(s.skip(0) =~= s);
    }
    if let Some(inside) = leading_tag(after_index, "["@) {
        lemma_tag_consumes(after_index, "["@);
        lemma_suffix_of_suffix(s, after_index, inside);
        lemma_bit_range_consumes(inside);
        let after_bits = match spec_bit_range(inside) {
            Some((rest, _)) => rest,
            None => inside,
        };
        assert(is_suffix(after_bits, inside)) by {
            assert(inside.skip(0) =~= inside);
        }
        lemma_suffix_of_suffix(s, inside, after_bits);
        if let Some(rest) = leading_tag(after_bits, "]"@) {
            lemma_tag_consumes(after_bits, "]"@);
            lemma_suffix_of_suffix(s, after_bits, rest);
        }
    }
}

/// `word_range` consumes where it matches.
pub proof fn lemma_word_range_consumes(s: Seq<char>)
    ensures
        consumes(s, spec_word_range(s)),
{
    lemma_word_consumes(s);
    if let Some((after_start, _)) = spec_word(s) {
        if let Some(after_dots) = leading_tag(after_start, ".."@) {
            lemma_tag_consumes(after_start, ".."@);
            lemma_suffix_of_suffix(s, after_start, after_dots);
            lemma_word_consumes(after_dots);
            if let Some((rest, _)) = spec_word(after_dots) {
                lemma_suffix_of_suffix(s, after_dots, rest);
            }
        }
    }
}

/// `condition` and `fixed_repeat` consume where they match.
pub proof fn lemma_condition_consumes(s: Seq<char>)
    ensures
        consumes(s, spec_condition(s)),
        consumes(s, spec_fixed_repeat(s)),
{
    reveal_strlit("<");
    reveal_strlit("<=");
    lemma_tag_consumes(s, "<"@);
    lemma_tag_consumes(s, "<="@);
    lemma_digit_run_bound(s);
}

/// `variable_word` and `variable_repeat` consume where they match.
pub proof fn lemma_variable_repeat_consumes(s: Seq<char>)
    ensures
        consumes(s, spec_variable_word(s)),
        consumes(s, spec_variable_repeat(s)),
{
    if let Some(inside) = leading_char(s, '(') {
        lemma_word_consumes(inside);
        if let Some((after_word, _)) = spec_word(inside) {
            lemma_suffix_of_suffix(s, inside, after_word);
            if let Some(after_paren) = leading_char(after_word, ')') {
                lemma_suffix_of_suffix(s, after_word, after_paren);
                lemma_condition_consumes(after_paren);
                if let Some((after_condition, _)) = spec_condition(after_paren) {
                    lemma_suffix_of_suffix(s, after_paren, after_condition);
                    lemma_bit_range_consumes(after_condition);
                    if let Some((rest, _)) = spec_index(after_condition) {
                        lemma_suffix_of_suffix(s, after_condition, rest);
                    }
                }
            }
        }
    }
}

/// `repeat` consumes where it matches.
pub proof fn lemma_repeat_consumes(s: Seq<char>)
    ensures
        consumes(s, spec_repeat(s)),
{
    reveal_strlit(";");
    if let Some(clause) = leading_tag(s, ";"@) {
        lemma_tag_consumes(s, ";"@);
        lemma_variable_repeat_consumes(clause);
        lemma_condition_consumes(clause);
        if let Some((rest, _)) = spec_variable_repeat(clause) {
            lemma_suffix_of_suffix(s, clause, rest);
        } else if let Some((rest, _)) = spec_fixed_repeat(clause) {
            lemma_suffix_of_suffix(s, clause, rest);
        }
    }
}

/// `bit_spec` consumes where it matches.
pub proof fn lemma_bit_spec_consumes(s: Seq<char>)
    ensures
        consumes(s, spec_bit_spec(s)),
{
    lemma_word_range_consumes(s);
    if let Some((after_span, _)) = spec_word_range(s) {
        lemma_repeat_consumes(after_span);
        if let Some((rest, _)) = spec_repeat(after_span) {
            lemma_suffix_of_suffix(s, after_span, rest);
        }
    }
}

/// Whether the outcome `found` of a literal rule on `s`, where it is a match,
/// is the whole of `s` after a prefix of two characters: the matched text is
/// not empty, and nothing remains after it.
pub open spec fn is_whole_input(s: Seq<char>, found: Option<(Seq<char>, Seq<char>)>) -> bool {
    found matches Some((rest, text)) ==> {
        &&& rest.len() == 0
        &&& text.len() >= 1
        &&& text == s.skip(2)
    }
}

/// A literal that matches is the whole input.
pub proof fn lemma_literal_is_whole_input(s: Seq<char>)
    ensures
        is_whole_input(s, spec_hexadecimal(s)),
        is_whole_input(s, spec_binary(s)),
        is_whole_input(s, spec_literal(s)),
{
    reveal_strlit("0x");
    reveal_strlit("0X");
    reveal_strlit("0b");
    reveal_strlit("0B");
}

} // verus!

//! The canonical text of a description, and the law that parsing it gives the
//! description back.
//!
//! The canonical text writes every part out: each word with its index and its
//! brackets, the bits inside them, the end word after `..`, the repeat clause
//! after `;`.

use crate::decimal::{decimal_text, ends_digits, lemma_decimal_text, lemma_index_of_decimal_text};
use crate::grammar::{
    spec_bit_range, spec_bit_spec, spec_condition, spec_fixed_repeat, spec_full_word, spec_repeat,
    spec_variable_repeat, spec_variable_word, spec_word, spec_word_range,
};
use crate::parser::{BitRange, BitSpec, Condition, Repeat, Word, WordRange};
use crate::tokens::leading_tag;
use vstd::prelude::*;
use vstd::seq_lib::lemma_concat_associative;

verus! {

/// The text of a bit range: the position, or the two positions with `..`
/// between them, or nothing for the whole word.
pub open spec fn bit_range_text(bits: BitRange) -> Seq<char> {
    match bits {
        BitRange::Single(position) => decimal_text(position as nat),
        BitRange::Range(low, high) => decimal_text(low as nat) + ".."@ + decimal_text(high as nat),
        BitRange::WholeWord => Seq::empty(),
    }
}

/// The text of a word: its index, then its bits in brackets.
pub open spec fn word_text(word: Word) -> Seq<char> {
    decimal_text(word.index as nat) + "["@ + bit_range_text(word.bit_range) + "]"@
}

/// The text of a span: the start word and, where there is an end word, `..`
/// and the end word.
pub open spec fn word_range_text(span: WordRange) -> Seq<char> {
    match span.end {
        Some(end) => word_text(span.start) + ".."@ + word_text(end),
        None => word_text(span.start),
    }
}

/// The text of a comparison operator.
pub open spec fn condition_text(condition: Condition) -> Seq<char> {
    match condition {
        Condition::Lt => "<"@,
        Condition::Lte => "<="@,
    }
}

/// The text of a variable repeat after its `;`: the word in parentheses, the
/// operator, the limit.
pub open spec fn variable_repeat_text(word: Word, condition: Condition, limit: u8) -> Seq<char> {
    seq!['('] + word_text(word) + seq![')'] + condition_text(condition) + decimal_text(
        limit as nat,
    )
}

/// The text of a repeat clause; nothing where there is no repeat.
pub open spec fn repeat_text(repeat: Repeat) -> Seq<char> {
    match repeat {
        Repeat::Absent => Seq::empty(),
        Repeat::Fixed(count) => ";"@ + decimal_text(count as nat),
        Repeat::Variable { word, condition, limit } => ";"@ + variable_repeat_text(
            word,
            condition,
            limit,
        ),
    }
}

/// The canonical text of a description.
pub open spec fn bit_spec_text(described: BitSpec) -> Seq<char> {
    word_range_text(WordRange { start: described.start, end: described.end }) + repeat_text(
        described.repeat,
    )
}

/// Text that begins with `t` has `t` as its tag and the rest after it.
pub proof fn lemma_tag_found(t: Seq<char>, tail: Seq<char>)
    ensures
        leading_tag(t + tail, t) == Some(tail),
{
    assert((t + tail).subrange(0, t.len() as int) =~= t);
    assert((t + tail).skip(t.len() as int) =~= tail);
}

/// Text whose first character differs from the first of `t` does not have
/// `t` as its tag; nor does empty text, where `t` is not empty.
pub proof fn lemma_tag_missing(s: Seq<char>, t: Seq<char>)
    requires
        t.len() > 0,
        s.len() == 0 || s[0] != t[0],
    ensures
        leading_tag(s, t) is None,
{
    if t.is_prefix_of(s) {
        assert(s.subrange(0, t.len() as int)[0] == t[0]);
    }
}

/// Two decimal writings with `..` between them are read as the range of the
/// two numbers, never as the first number alone with `..` left over.
pub proof fn lemma_range_of_text(low: u8, high: u8, tail: Seq<char>)
    requires
        ends_digits(tail),
    ensures
        spec_bit_range(decimal_text(low as nat) + ".."@ + decimal_text(high as nat) + tail) == Some(
            (tail, BitRange::Range(low, high)),
        ),
{
    reveal_strlit("..");
    let low_text = decimal_text(low as nat);
    let high_text = decimal_text(high as nat);
    let after_dots = high_text + tail;
    let after_low = ".."@ + after_dots;
    assert(low_text + ".."@ + high_text + tail == low_text + after_low) by {
        lemma_concat_associative(low_text + ".."@, high_text, tail);
        lemma_concat_associative(low_text, ".."@, after_dots);
    }
    assert(after_low[0] == '.');
    lemma_index_of_decimal_text(low, after_low);
    lemma_tag_found(".."@, after_dots);
    lemma_index_of_decimal_text(high, tail);
}

/// A decimal writing that is not followed by a digit nor by `..` is read as
/// that single bit.
pub proof fn lemma_single_of_text(position: u8, tail: Seq<char>)
    requires
        ends_digits(tail),
        leading_tag(tail, ".."@) is None,
    ensures
        spec_bit_range(decimal_text(position as nat) + tail) == Some(
            (tail, BitRange::Single(position)),
        ),
{
    lemma_index_of_decimal_text(position, tail);
}

/// Between brackets, the text of a bit range is read as that bit range up to
/// the closing bracket, and no text as the whole word.
pub proof fn lemma_bits_before_bracket(bits: BitRange, tail: Seq<char>)
    ensures
        bits is WholeWord ==> spec_bit_range(bit_range_text(bits) + ("]"@ + tail)) is None
            && bit_range_text(bits) + ("]"@ + tail) == "]"@ + tail,
        !(bits is WholeWord) ==> spec_bit_range(bit_range_text(bits) + ("]"@ + tail)) == Some(
            ("]"@ + tail, bits),
        ),
{
    reveal_strlit("]");
    reveal_strlit("..");
    let closing = "]"@ + tail;
    assert(closing[0] == ']');
    match bits {
        BitRange::Single(position) => {
            lemma_tag_missing(closing, ".."@);
            lemma_single_of_text(position, closing);
        },
        BitRange::Range(low, high) => {
            lemma_range_of_text(low, high, closing);
        },
        BitRange::WholeWord => {
            assert(bit_range_text(bits) + closing =~= closing);
        },
    }
}

/// The text of a word is read as that word, whatever follows it.
pub proof fn lemma_word_of_text(word: Word, tail: Seq<char>)
    ensures
        spec_full_word(word_text(word) + tail) == Some((tail, word)),
        spec_word(word_text(word) + tail) == Some((tail, word)),
{
    reveal_strlit("[");
    let index_text = decimal_text(word.index as nat);
    let bits_text = bit_range_text(word.bit_range);
    let closing = "]"@ + tail;
    let inside = bits_text + closing;
    let after_index = "["@ + inside;
    assert(word_text(word) + tail == index_text + after_index) by {
        lemma_concat_associative(index_text + "["@ + bits_text, "]"@, tail);
        lemma_concat_associative(index_text + "["@, bits_text, closing);
        lemma_concat_associative(index_text, "["@, inside);
    }
    assert(after_index[0] == '[');
    lemma_index_of_decimal_text(word.index, after_index);
    lemma_tag_found("["@, inside);
    lemma_bits_before_bracket(word.bit_range, tail);
    lemma_tag_found("]"@, tail);
}

/// The text of a span is read as that span, provided that, where the span has
/// no end word, what follows does not begin with `..`.
pub proof fn lemma_word_range_of_text(span: WordRange, tail: Seq<char>)
    requires
        span.end is None ==> leading_tag(tail, ".."@) is None,
    ensures
        spec_word_range(word_range_text(span) + tail) == Some((tail, span)),
{
    match span.end {
        Some(end) => {
            let after_dots = word_text(end) + tail;
            let after_start = ".."@ + after_dots;
            assert(word_range_text(span) + tail == word_text(span.start) + after_start) by {
                lemma_concat_associative(word_text(span.start) + ".."@, word_text(end), tail);
                lemma_concat_associative(word_text(span.start), ".."@, after_dots);
            }
            lemma_word_of_text(span.start, after_start);
            lemma_tag_found(".."@, after_dots);
            lemma_word_of_text(end, tail);
        },
        None => {
            lemma_word_of_text(span.start, tail);
        },
    }
}

/// The text of a comparison operator is read as that operator, provided that
/// what follows does not begin with `=`.
pub proof fn lemma_condition_of_text(condition: Condition, tail: Seq<char>)
    requires
        tail.len() == 0 || tail[0] != '=',
    ensures
        spec_condition(condition_text(condition) + tail) == Some((tail, condition)),
{
    reveal_strlit("<");
    reveal_strlit("<=");
    match condition {
        Condition::Lt => {
            let s = "<"@ + tail;
            lemma_tag_found("<"@, tail);
            if "<="@.is_prefix_of(s) {
                assert(s.subrange(0, 2)[1] == '=');
                assert(s[1] == tail[0]);
            }
        },
        Condition::Lte => {
            lemma_tag_found("<="@, tail);
        },
    }
}

/// A word in parentheses is read as that word, whatever follows.
pub proof fn lemma_variable_word_of_text(word: Word, tail: Seq<char>)
    ensures
        spec_variable_word(seq!['('] + (word_text(word) + (seq![')'] + tail))) == Some(
            (tail, word),
        ),
{
    let closing = seq![')'] + tail;
    let inside = word_text(word) + closing;
    let s = seq!['('] + inside;
    assert(s[0] == '(');
    assert(s.skip(1) =~= inside);
    lemma_word_of_text(word, closing);
    assert(closing[0] == ')');
    assert(closing.skip(1) =~= tail);
}

/// The text of a variable repeat after its `;` is read as that repeat,
/// provided that what follows does not begin with a digit.
pub proof fn lemma_variable_repeat_of_text(
    word: Word,
    condition: Condition,
    limit: u8,
    tail: Seq<char>,
)
    requires
        ends_digits(tail),
    ensures
        spec_variable_repeat(variable_repeat_text(word, condition, limit) + tail) == Some(
            (tail, Repeat::Variable { word, condition, limit }),
        ),
{
    let limit_text = decimal_text(limit as nat);
    let after_condition = limit_text + tail;
    let after_word = condition_text(condition) + after_condition;
    let closing = seq![')'] + after_word;
    let inside = word_text(word) + closing;
    let open = seq!['('];
    assert(variable_repeat_text(word, condition, limit) + tail == open + inside) by {
        lemma_concat_associative(
            open + word_text(word) + seq![')'] + condition_text(condition),
            limit_text,
            tail,
        );
        lemma_concat_associative(
            open + word_text(word) + seq![')'],
            condition_text(condition),
            after_condition,
        );
        lemma_concat_associative(open + word_text(word), seq![')'], after_word);
        lemma_concat_associative(open, word_text(word), closing);
    }
    lemma_variable_word_of_text(word, after_word);
    lemma_decimal_text(limit as nat);
    assert(after_condition[0] == limit_text[0]);
    lemma_condition_of_text(condition, after_condition);
    lemma_index_of_decimal_text(limit, tail);
}

/// The text of a fixed repeat after its `;` is read as that repeat and not as
/// a variable one, provided that what follows does not begin with a digit.
pub proof fn lemma_fixed_repeat_of_text(count: u8, tail: Seq<char>)
    requires
        ends_digits(tail),
    ensures
        spec_variable_repeat(decimal_text(count as nat) + tail) is None,
        spec_fixed_repeat(decimal_text(count as nat) + tail) == Some((tail, Repeat::Fixed(count))),
{
    let clause = decimal_text(count as nat) + tail;
    lemma_decimal_text(count as nat);
    assert(clause[0] == decimal_text(count as nat)[0]);
    lemma_index_of_decimal_text(count, tail);
}

/// The text of a repeat clause is read as that repeat, provided that what
/// follows does not begin with a digit.
pub proof fn lemma_repeat_of_text(repeat: Repeat, tail: Seq<char>)
    requires
        !(repeat is Absent),
        ends_digits(tail),
    ensures
        spec_repeat(repeat_text(repeat) + tail) == Some((tail, repeat)),
{
    match repeat {
        Repeat::Absent => {},
        Repeat::Fixed(count) => {
            let clause = decimal_text(count as nat) + tail;
            lemma_concat_associative(";"@, decimal_text(count as nat), tail);
            lemma_tag_found(";"@, clause);
            lemma_fixed_repeat_of_text(count, tail);
        },
        Repeat::Variable { word, condition, limit } => {
            let clause = variable_repeat_text(word, condition, limit) + tail;
            lemma_concat_associative(";"@, variable_repeat_text(word, condition, limit), tail);
            lemma_tag_found(";"@, clause);
            lemma_variable_repeat_of_text(word, condition, limit, tail);
        },
    }
}

/// Parsing the canonical text of a description gives that description back
/// and leaves nothing.
pub proof fn lemma_round_trip(described: BitSpec)
    ensures
        spec_bit_spec(bit_spec_text(described)) == Some((Seq::<char>::empty(), described)),
{
    reveal_strlit(";");
    reveal_strlit("..");
    let span = WordRange { start: described.start, end: described.end };
    let clause = repeat_text(described.repeat);
    let nothing = Seq::<char>::empty();
    if described.repeat is Absent {
        lemma_tag_missing(nothing, ".."@);
        lemma_tag_missing(nothing, ";"@);
        lemma_word_range_of_text(span, nothing);
    } else {
        assert(clause + nothing =~= clause);
        lemma_repeat_of_text(described.repeat, nothing);
        assert(clause[0] == ';');
        lemma_tag_missing(clause, ".."@);
        lemma_word_range_of_text(span, clause);
    }
}

} // verus!

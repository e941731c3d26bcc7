//! The primitive tokens, recognised by `nom`.
//!
//! Every function here hands its input to one `nom` parser and returns what
//! came back. The contracts are not proved: they restate, over the characters
//! of the input, what the `nom` parser does on a `&str`.

use vstd::prelude::*;

verus! {

/// `nom::Err`, the outcome of a parser that did not succeed. Opaque here.
#[verifier::external_type_specification]
#[verifier::external_body]
#[verifier::reject_recursive_types(E)]
pub struct ExNomErr<E>(nom::Err<E>);

/// Whether `c` is one of the ten ASCII decimal digits.
pub open spec fn is_digit(c: char) -> bool {
    '0' <= c <= '9'
}

/// The number that the decimal digit `c` stands for.
pub open spec fn digit_value(c: char) -> nat
    recommends
        is_digit(c),
{
    (c as int - '0' as int) as nat
}

/// How many decimal digits stand at the front of `s` before the first
/// character that is not one.
pub open spec fn digit_run(s: Seq<char>) -> nat
    decreases s.len(),
{
    if s.len() > 0 && is_digit(s[0]) {
        1 + digit_run(s.skip(1))
    } else {
        0
    }
}

/// The number written by the decimal digits `s`, most significant first.
pub open spec fn decimal_value(s: Seq<char>) -> nat
    decreases s.len(),
{
    if s.len() == 0 {
        0
    } else {
        10 * decimal_value(s.drop_last()) + digit_value(s.last())
    }
}

/// What a decimal integer of at most eight bits at the front of `s` is: the
/// characters after its digits and its value. `None` where `s` does not begin
/// with a digit, or where the digits write a number above 255.
pub open spec fn leading_decimal(s: Seq<char>) -> Option<(Seq<char>, u8)> {
    let n = digit_run(s) as int;
    let value = decimal_value(s.take(n));
    if n > 0 && value <= u8::MAX {
        Some((s.skip(n), value as u8))
    } else {
        None
    }
}

/// What remains of `s` after the text `t` at its front. `None` where `s` does
/// not begin with `t`.
pub open spec fn leading_tag(s: Seq<char>, t: Seq<char>) -> Option<Seq<char>> {
    if t.is_prefix_of(s) {
        Some(s.skip(t.len() as int))
    } else {
        None
    }
}

/// What remains of `s` after the character `c` at its front. `None` where `s`
/// is empty or begins with another character.
pub open spec fn leading_char(s: Seq<char>, c: char) -> Option<Seq<char>> {
    if s.len() > 0 && s[0] == c {
        Some(s.skip(1))
    } else {
        None
    }
}

/// The first character of `s` and what remains after it, where that character
/// occurs in `allowed`. `None` where `s` is empty or begins with a character
/// that does not.
pub open spec fn leading_one_of(s: Seq<char>, allowed: Seq<char>) -> Option<(Seq<char>, char)> {
    if s.len() > 0 && allowed.contains(s[0]) {
        Some((s.skip(1), s[0]))
    } else {
        None
    }
}

/// `nom::character::complete::u8` on a `&str`.
///
/// It reads decimal digits from the front for as long as there are any. It
/// succeeds when there is at least one digit and the number they write fits
/// in eight bits, and then returns that number and the input after the
/// digits. Leading zeros are digits like any other.
#[verifier::external_body]
pub(crate) fn integer<'a>(input: &'a str) -> (r: Result<(&'a str, u8), nom::Err<()>>)
    ensures
        r is Ok <==> leading_decimal(input@) is Some,
        r matches Ok((rest, value)) ==> leading_decimal(input@) == Some((rest@, value)),
{
    nom::character::complete::u8(input)
}

/// `nom::bytes::complete::tag` on a `&str`, with the text `t` as the pattern.
///
/// It succeeds exactly when the input begins with `t`, and then returns the
/// input after `t` and the part that matched, which reads as `t` does.
#[verifier::external_body]
pub(crate) fn tag<'a>(t: &str, input: &'a str) -> (r: Result<(&'a str, &'a str), nom::Err<()>>)
    ensures
        r is Ok <==> leading_tag(input@, t@) is Some,
        r matches Ok((rest, found)) ==> leading_tag(input@, t@) == Some(rest@) && found@ == t@,
{
    nom::bytes::complete::tag(t)(input)
}

/// `nom::character::complete::char` on a `&str`.
///
/// It succeeds exactly when the input is not empty and its first character is
/// `c`, and then returns the input after that character, and `c`.
#[verifier::external_body]
pub(crate) fn one_char<'a>(c: char, input: &'a str) -> (r: Result<(&'a str, char), nom::Err<()>>)
    ensures
        r is Ok <==> leading_char(input@, c) is Some,
        r matches Ok((rest, found)) ==> leading_char(input@, c) == Some(rest@) && found == c,
{
    nom::character::complete::char(c)(input)
}

/// `nom::character::complete::one_of` on a `&str`, with the characters of
/// `allowed` as the list.
///
/// It succeeds exactly when the input is not empty and its first character
/// occurs in `allowed`, and then returns the input after that character, and
/// the character.
#[verifier::external_body]
pub(crate) fn one_of<'a>(allowed: &str, input: &'a str) -> (r: Result<
    (&'a str, char),
    nom::Err<()>,
>)
    ensures
        r is Ok <==> leading_one_of(input@, allowed@) is Some,
        r matches Ok((rest, found)) ==> leading_one_of(input@, allowed@) == Some((rest@, found)),
{
    nom::character::complete::one_of(allowed)(input)
}

} // verus!

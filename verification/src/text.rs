//! Text: what numbers and characters look like when written out, and the
//! few functions that write them.

use crate::ast::names_view;
use vstd::prelude::*;

verus! {

/// The character for a digit below ten.
pub open spec fn digit(value: nat) -> char {
    if value == 0 {
        '0'
    } else if value == 1 {
        '1'
    } else if value == 2 {
        '2'
    } else if value == 3 {
        '3'
    } else if value == 4 {
        '4'
    } else if value == 5 {
        '5'
    } else if value == 6 {
        '6'
    } else if value == 7 {
        '7'
    } else if value == 8 {
        '8'
    } else {
        '9'
    }
}

/// The decimal digits of a natural number, without leading zeros.
pub open spec fn digits(value: nat) -> Seq<char>
    decreases value,
{
    if value < 10 {
        seq![digit(value)]
    } else {
        digits(value / 10).push(digit(value % 10))
    }
}

/// An integer in decimal, with `-` in front where it is negative.
pub open spec fn decimal(value: int) -> Seq<char> {
    if value < 0 {
        seq!['-'] + digits((-value) as nat)
    } else {
        digits(value as nat)
    }
}

/// The texts `parts` in order, with `separator` between each two.
pub open spec fn joined(parts: Seq<Seq<char>>, separator: Seq<char>) -> Seq<char>
    decreases parts.len(),
{
    if parts.len() == 0 {
        Seq::empty()
    } else if parts.len() == 1 {
        parts[0]
    } else {
        joined(parts.drop_last(), separator) + separator + parts.last()
    }
}

/// A text between double quotes, as Rust's `Debug` writes a string: with
/// the characters that cannot stand for themselves escaped.
pub uninterp spec fn quoted(text: Seq<char>) -> Seq<char>;

/// A character between single quotes, as Rust's `Debug` writes it.
pub uninterp spec fn quoted_character(character: char) -> Seq<char>;

/// `i64::to_string` of the standard library: the number in decimal, with
/// a minus sign where it is negative and no other decoration.
#[verifier::external_body]
pub(crate) fn decimal_text(value: i64) -> (text: String)
    ensures
        text@ == decimal(value as int),
{
    value.to_string()
}

/// `char::to_string` of the standard library: the text that consists of
/// the one character.
#[verifier::external_body]
pub(crate) fn character_text(character: char) -> (text: String)
    ensures
        text@ == seq![character],
{
    character.to_string()
}

/// `Debug` for `str` of the standard library, through `format!`. The
/// result depends on the text alone; [`quoted`] is the name for it.
#[verifier::external_body]
pub(crate) fn quoted_text(text: &str) -> (result: String)
    ensures
        result@ == quoted(text@),
{
    format!("{:?}", text)
}

/// `Debug` for `char` of the standard library, through `format!`. The
/// result depends on the character alone; [`quoted_character`] is the name
/// for it.
#[verifier::external_body]
pub(crate) fn quoted_character_text(character: char) -> (result: String)
    ensures
        result@ == quoted_character(character),
{
    format!("{:?}", character)
}

/// `itertools::join` on strings: the first element, then for each further
/// one the separator and the element; the empty text where there is none.
#[verifier::external_body]
pub(crate) fn join_texts(parts: &Vec<String>, separator: &str) -> (text: String)
    ensures
        text@ == joined(names_view(parts@), separator@),
{
    itertools::join(parts.iter(), separator)
}

} // verus!

//! Character classes of the Courier source language.
//!
//! Every character is of exactly one sort: it is blank (a space, a tab or
//! a newline), or it begins tokens of one kind, or it is the decimal
//! point, which stands inside numbers only, or it is unknown to the
//! language. Letters and digits are the ASCII ones: any other letter or
//! digit is unknown.

use vstd::prelude::*;

verus! {

pub open spec fn spec_is_newline(c: char) -> bool {
    c == '\n'
}

/// Whether `c` ends a line.
#[verifier::when_used_as_spec(spec_is_newline)]
pub fn is_newline(c: char) -> (b: bool)
    ensures
        b == spec_is_newline(c),
{
    c == '\n'
}

pub open spec fn spec_is_space(c: char) -> bool {
    c == ' ' || c == '\t'
}

/// Whether `c` is whitespace inside a line: a space or a tab.
#[verifier::when_used_as_spec(spec_is_space)]
pub fn is_space(c: char) -> (b: bool)
    ensures
        b == spec_is_space(c),
{
    c == ' ' || c == '\t'
}

pub open spec fn spec_is_blank(c: char) -> bool {
    is_space(c) || is_newline(c)
}

/// Whether `c` separates tokens without being part of one.
#[verifier::when_used_as_spec(spec_is_blank)]
pub fn is_blank(c: char) -> (b: bool)
    ensures
        b == spec_is_blank(c),
{
    is_space(c) || is_newline(c)
}

pub open spec fn spec_is_letter(c: char) -> bool {
    ('a' <= c && c <= 'z') || ('A' <= c && c <= 'Z')
}

/// Whether `c` is an ASCII letter.
#[verifier::when_used_as_spec(spec_is_letter)]
pub fn is_letter(c: char) -> (b: bool)
    ensures
        b == spec_is_letter(c),
{
    (c >= 'a' && c <= 'z') || (c >= 'A' && c <= 'Z')
}

pub open spec fn spec_is_digit(c: char) -> bool {
    '0' <= c && c <= '9'
}

/// Whether `c` is an ASCII decimal digit.
#[verifier::when_used_as_spec(spec_is_digit)]
pub fn is_digit(c: char) -> (b: bool)
    ensures
        b == spec_is_digit(c),
{
    c >= '0' && c <= '9'
}

pub open spec fn spec_is_symbol_start(c: char) -> bool {
    is_letter(c) || c == '_'
}

/// Whether a symbol can begin with `c`: a letter or an underscore.
#[verifier::when_used_as_spec(spec_is_symbol_start)]
pub fn is_symbol_start(c: char) -> (b: bool)
    ensures
        b == spec_is_symbol_start(c),
{
    is_letter(c) || c == '_'
}

pub open spec fn spec_is_symbol_part(c: char) -> bool {
    is_letter(c) || is_digit(c) || c == '_'
}

/// Whether a symbol can go on with `c`: a letter, a digit or an underscore.
#[verifier::when_used_as_spec(spec_is_symbol_part)]
pub fn is_symbol_part(c: char) -> (b: bool)
    ensures
        b == spec_is_symbol_part(c),
{
    is_letter(c) || is_digit(c) || c == '_'
}

pub open spec fn spec_is_decimal_point(c: char) -> bool {
    c == '.'
}

/// Whether `c` is the point that parts the whole digits of a number from
/// its fraction. It begins no token.
#[verifier::when_used_as_spec(spec_is_decimal_point)]
pub fn is_decimal_point(c: char) -> (b: bool)
    ensures
        b == spec_is_decimal_point(c),
{
    c == '.'
}

pub open spec fn spec_is_operator_char(c: char) -> bool {
    c == '+' || c == '-' || c == '*' || c == '/' || c == '%' || c == '^' || c == '=' || c == '<'
        || c == '>' || c == '!' || c == '&' || c == '|'
}

/// Whether `c` is an operator by itself: one of `+ - * / % ^ = < > ! & |`.
#[verifier::when_used_as_spec(spec_is_operator_char)]
pub fn is_operator_char(c: char) -> (b: bool)
    ensures
        b == spec_is_operator_char(c),
{
    c == '+' || c == '-' || c == '*' || c == '/' || c == '%' || c == '^' || c == '=' || c == '<'
        || c == '>' || c == '!' || c == '&' || c == '|'
}

pub open spec fn spec_is_operator_pair(first: char, second: char) -> bool {
    (second == '=' && (first == '=' || first == '!' || first == '<' || first == '>')) || (first
        == '&' && second == '&') || (first == '|' && second == '|')
}

/// Whether `first` and `second`, in this order, are one operator of two
/// characters: one of `==`, `!=`, `<=`, `>=`, `&&`, `||`.
#[verifier::when_used_as_spec(spec_is_operator_pair)]
pub fn is_operator_pair(first: char, second: char) -> (b: bool)
    ensures
        b == spec_is_operator_pair(first, second),
{
    (second == '=' && (first == '=' || first == '!' || first == '<' || first == '>')) || (first
        == '&' && second == '&') || (first == '|' && second == '|')
}

pub open spec fn spec_is_delimiter(c: char) -> bool {
    c == '(' || c == ')' || c == '{' || c == '}' || c == '[' || c == ']' || c == ',' || c == ';'
        || c == ':'
}

/// Whether `c` is a delimiter: one of `( ) { } [ ] , ; :`.
#[verifier::when_used_as_spec(spec_is_delimiter)]
pub fn is_delimiter(c: char) -> (b: bool)
    ensures
        b == spec_is_delimiter(c),
{
    c == '(' || c == ')' || c == '{' || c == '}' || c == '[' || c == ']' || c == ',' || c == ';'
        || c == ':'
}

pub open spec fn spec_is_control(c: char) -> bool {
    c == '#' || c == '$' || c == '?' || c == '~' || c == '\\'
}

/// Whether `c` is a control character of the language: one of `# $ ? ~ \`.
#[verifier::when_used_as_spec(spec_is_control)]
pub fn is_control(c: char) -> (b: bool)
    ensures
        b == spec_is_control(c),
{
    c == '#' || c == '$' || c == '?' || c == '~' || c == '\\'
}

pub open spec fn spec_begins_token(c: char) -> bool {
    is_symbol_start(c) || is_digit(c) || is_operator_char(c) || is_delimiter(c) || is_control(c)
}

/// Whether some token can begin with `c`.
#[verifier::when_used_as_spec(spec_begins_token)]
pub fn begins_token(c: char) -> (b: bool)
    ensures
        b == spec_begins_token(c),
{
    is_symbol_start(c) || is_digit(c) || is_operator_char(c) || is_delimiter(c) || is_control(c)
}

pub open spec fn spec_is_unknown(c: char) -> bool {
    !is_blank(c) && !begins_token(c) && !is_decimal_point(c)
}

/// Whether `c` is unknown to the language: it is not blank, begins no
/// token and stands inside none.
#[verifier::when_used_as_spec(spec_is_unknown)]
pub fn is_unknown(c: char) -> (b: bool)
    ensures
        b == spec_is_unknown(c),
{
    !is_blank(c) && !begins_token(c) && !is_decimal_point(c)
}

/// The classes are disjoint: a character that begins a token begins tokens
/// of one kind only, it is not blank, and it is not the decimal point.
pub proof fn lemma_classes_are_disjoint(c: char)
    ensures
        is_symbol_start(c) ==> !is_digit(c) && !is_operator_char(c) && !is_delimiter(c)
            && !is_control(c),
        is_digit(c) ==> !is_operator_char(c) && !is_delimiter(c) && !is_control(c),
        is_operator_char(c) ==> !is_delimiter(c) && !is_control(c),
        is_delimiter(c) ==> !is_control(c),
        begins_token(c) ==> !is_blank(c) && !is_decimal_point(c),
        is_symbol_part(c) ==> !is_blank(c) && !is_decimal_point(c),
        is_blank(c) ==> !is_decimal_point(c),
{
}

} // verus!

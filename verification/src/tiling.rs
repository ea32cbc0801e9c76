//! How the tokens of a text lie in it: each is cut from the text where it
//! begins, none can be made longer, they follow one another without
//! overlap, and between them lie blanks only.

use vstd::prelude::*;

use crate::classes::{
    begins_token, is_blank, is_decimal_point, is_digit, is_operator_pair, is_symbol_part,
};
use crate::error::Diagnostic;
use crate::grammar::{
    column_at, digits_end, fraction_at, lemma_digits_end_is_maximal, lemma_places_follow_indices,
    lemma_position_step, lemma_symbol_end_is_maximal, lemma_token_end_bounds, line_at,
    numeric_end, scan, scan_from, token_at, token_end, token_kind, unknown_at, Lexeme,
};
use crate::lexer::TokenType;

verus! {

/// `text` without its blank characters.
pub open spec fn without_blanks(text: Seq<char>) -> Seq<char> {
    text.filter(|c: char| !is_blank(c))
}

/// The characters of all the tokens, one token after the other.
pub open spec fn spelling(tokens: Seq<Lexeme>) -> Seq<char>
    decreases tokens.len(),
{
    if tokens.len() == 0 {
        Seq::empty()
    } else {
        tokens[0].text + spelling(tokens.drop_first())
    }
}

/// Whether `tokens` are the tokens of `src` that begin at the indices
/// `starts`, in this order, each ending before the next begins.
pub open spec fn cut_at(src: Seq<char>, starts: Seq<int>, tokens: Seq<Lexeme>) -> bool {
    &&& starts.len() == tokens.len()
    &&& forall|n: int|
        0 <= n < starts.len() ==> 0 <= #[trigger] starts[n] < src.len() && begins_token(
            src[starts[n]],
        )
    &&& forall|n: int| 0 <= n < starts.len() ==> #[trigger] tokens[n] == token_at(src, starts[n])
    &&& forall|n: int, m: int|
        0 <= n < m < starts.len() ==> token_end(src, #[trigger] starts[n]) <= #[trigger] starts[m]
}

/// The indices at which the tokens of `src` begin, from index `i` on, up
/// to the first character that begins none.
pub open spec fn starts_from(src: Seq<char>, i: int) -> Seq<int>
    decreases src.len() - i,
{
    if i < 0 || i >= src.len() {
        Seq::empty()
    } else if is_blank(src[i]) {
        starts_from(src, i + 1)
    } else if !begins_token(src[i]) {
        Seq::empty()
    } else {
        proof {
            lemma_token_end_bounds(src, i);
        }
        seq![i] + starts_from(src, token_end(src, i))
    }
}

/// No token can be made longer. Behind a symbol stands no symbol
/// character; behind a number stands no digit, and no fraction unless the
/// number has one already; an operator of one character makes no pair
/// with the character behind it.
pub proof fn lemma_token_cannot_grow(src: Seq<char>, i: int)
    requires
        0 <= i < src.len(),
        begins_token(src[i]),
    ensures
        ({
            let end = token_end(src, i);
            match token_kind(src[i]) {
                Some(TokenType::TokenSymbol) => end < src.len() ==> !is_symbol_part(src[end]),
                Some(TokenType::TokenNumeric) => {
                    &&& end < src.len() ==> !is_digit(src[end])
                    &&& end == digits_end(src, i) ==> !fraction_at(src, end)
                },
                Some(TokenType::TokenOperator) => end == i + 1 && end < src.len()
                    ==> !is_operator_pair(src[i], src[end]),
                _ => end == i + 1,
            }
        }),
{
    lemma_symbol_end_is_maximal(src, i + 1);
    lemma_digits_end_is_maximal(src, i);
    let whole = digits_end(src, i);
    if fraction_at(src, whole) {
        lemma_digits_end_is_maximal(src, whole + 1);
    }
}

/// Two characters that make an operator together are one token, never
/// two.
pub proof fn lemma_operator_pair_is_one_token(src: Seq<char>, i: int)
    requires
        0 <= i,
        i + 1 < src.len(),
        is_operator_pair(src[i], src[i + 1]),
    ensures
        begins_token(src[i]),
        token_end(src, i) == i + 2,
        token_at(src, i).kind == TokenType::TokenOperator,
        token_at(src, i).text == seq![src[i], src[i + 1]],
{
}

/// A number has one fraction at most: where a decimal point stands right
/// behind a number that has a fraction, the scan fails on that point.
pub proof fn lemma_second_decimal_point_is_rejected(src: Seq<char>, i: int, point: int)
    requires
        0 <= i < point < src.len(),
        is_digit(src[i]),
        fraction_at(src, digits_end(src, i)),
        point == numeric_end(src, i),
        is_decimal_point(src[point]),
    ensures
        scan_from(src, i) == Err::<Seq<Lexeme>, Diagnostic>(unknown_at(src, point)),
{
    assert(scan_from(src, point) == Err::<Seq<Lexeme>, Diagnostic>(unknown_at(src, point)));
}

/// A text of which no character is blank is itself without its blanks.
proof fn lemma_nothing_blank_to_drop(text: Seq<char>)
    requires
        forall|k: int| 0 <= k < text.len() ==> !is_blank(#[trigger] text[k]),
    ensures
        without_blanks(text) == text,
    decreases text.len(),
{
    reveal(Seq::filter);
    if text.len() > 0 {
        lemma_nothing_blank_to_drop(text.drop_last());
    }
}

/// The tokens of a text that scans well from `i` on spell what stands
/// from `i` on, without its blanks.
proof fn lemma_tokens_spell_the_text_from(src: Seq<char>, i: int)
    requires
        0 <= i <= src.len(),
        scan_from(src, i) is Ok,
    ensures
        spelling(scan_from(src, i)->Ok_0) == without_blanks(src.skip(i)),
    decreases src.len() - i,
{
    let keep = |c: char| !is_blank(c);
    if i >= src.len() {
        reveal(Seq::filter);
    } else if is_blank(src[i]) {
        lemma_tokens_spell_the_text_from(src, i + 1);
        let head = seq![src[i]];
        assert(src.skip(i) =~= head + src.skip(i + 1));
        Seq::filter_distributes_over_add(head, src.skip(i + 1), keep);
        assert(head.filter(keep) =~= Seq::<char>::empty()) by {
            reveal_with_fuel(Seq::filter, 2);
        }
        assert(Seq::<char>::empty() + without_blanks(src.skip(i + 1)) =~= without_blanks(
            src.skip(i + 1),
        ));
    } else {
        lemma_token_end_bounds(src, i);
        let end = token_end(src, i);
        let rest = scan_from(src, end)->Ok_0;
        lemma_tokens_spell_the_text_from(src, end);
        let text = src.subrange(i, end);
        assert(src.skip(i) =~= text + src.skip(end));
        Seq::filter_distributes_over_add(text, src.skip(end), keep);
        lemma_nothing_blank_to_drop(text);
        let tokens = seq![token_at(src, i)] + rest;
        assert(tokens.drop_first() =~= rest);
    }
}

/// The tokens of a text spell the text without its blanks: no character
/// of the text is lost, changed or moved, and none is added.
pub proof fn lemma_tokens_spell_the_text(src: Seq<char>)
    requires
        scan(src) is Ok,
    ensures
        spelling(scan(src)->Ok_0) == without_blanks(src),
{
    lemma_tokens_spell_the_text_from(src, 0);
    assert(src.skip(0) =~= src);
}

/// The tokens of a text that scans well from `i` on are cut from it at
/// the indices where they begin, in the order of the text.
proof fn lemma_tokens_are_cut_from_text_from(src: Seq<char>, i: int)
    requires
        0 <= i <= src.len(),
        scan_from(src, i) is Ok,
    ensures
        cut_at(src, starts_from(src, i), scan_from(src, i)->Ok_0),
        forall|n: int| 0 <= n < starts_from(src, i).len() ==> i <= #[trigger] starts_from(src, i)[n],
    decreases src.len() - i,
{
    if i >= src.len() {
    } else if is_blank(src[i]) {
        lemma_tokens_are_cut_from_text_from(src, i + 1);
    } else {
        lemma_token_end_bounds(src, i);
        let end = token_end(src, i);
        lemma_tokens_are_cut_from_text_from(src, end);
        let rest_starts = starts_from(src, end);
        let starts = starts_from(src, i);
        assert forall|n: int, m: int| 0 <= n < m < starts.len() implies token_end(
            src,
            #[trigger] starts[n],
        ) <= #[trigger] starts[m] by {
            assert(starts[m] == rest_starts[m - 1]);
            if n > 0 {
                assert(starts[n] == rest_starts[n - 1]);
            }
        }
    }
}

/// The tokens of a text are cut from it: each is the longest token that
/// begins at some index of the text, with the line and column of that
/// index, and each ends before the next begins.
pub proof fn lemma_tokens_are_cut_from_text(src: Seq<char>)
    requires
        scan(src) is Ok,
    ensures
        cut_at(src, starts_from(src, 0), scan(src)->Ok_0),
{
    lemma_tokens_are_cut_from_text_from(src, 0);
}

/// The token that begins at an index of a text is well formed, and it
/// lies in one line: the place behind it is in the line where it begins,
/// as many columns further as the token has characters.
pub proof fn lemma_token_lies_in_one_line(src: Seq<char>, i: int)
    requires
        0 <= i < src.len(),
        begins_token(src[i]),
    ensures
        token_at(src, i).well_formed(),
        token_at(src, i).text.len() == token_end(src, i) - i,
        line_at(src, token_end(src, i)) == token_at(src, i).line,
        column_at(src, token_end(src, i)) == token_at(src, i).column + token_at(src, i).text.len(),
{
    lemma_token_end_bounds(src, i);
    let end = token_end(src, i);
    lemma_stretch_lies_in_one_line(src, i, end);
}

/// A stretch of text without blanks lies in one line.
proof fn lemma_stretch_lies_in_one_line(src: Seq<char>, i: int, j: int)
    requires
        0 <= i <= j <= src.len(),
        forall|k: int| i <= k < j ==> !is_blank(#[trigger] src[k]),
    ensures
        line_at(src, j) == line_at(src, i),
        column_at(src, j) == column_at(src, i) + (j - i),
    decreases j - i,
{
    if i < j {
        lemma_stretch_lies_in_one_line(src, i, j - 1);
        lemma_position_step(src, j - 1);
    }
}

/// Every token of a text is well formed.
pub proof fn lemma_tokens_are_well_formed(src: Seq<char>)
    requires
        scan(src) is Ok,
    ensures
        forall|n: int| 0 <= n < scan(src)->Ok_0.len() ==> (#[trigger] scan(src)->Ok_0[n]).well_formed(),
{
    lemma_tokens_are_cut_from_text(src);
    let starts = starts_from(src, 0);
    let tokens = scan(src)->Ok_0;
    assert forall|n: int| 0 <= n < tokens.len() implies (#[trigger] tokens[n]).well_formed() by {
        let s = starts[n];
        lemma_token_lies_in_one_line(src, s);
    }
}

/// The tokens of a text come in reading order: of two tokens, the later
/// one lies in a later line, or in the same line behind the last
/// character of the earlier one.
pub proof fn lemma_tokens_come_in_reading_order(src: Seq<char>, n: int, m: int)
    requires
        scan(src) is Ok,
        0 <= n < m < scan(src)->Ok_0.len(),
    ensures
        ({
            let earlier = scan(src)->Ok_0[n];
            let later = scan(src)->Ok_0[m];
            earlier.line < later.line || (earlier.line == later.line && earlier.column
                + earlier.text.len() <= later.column)
        }),
{
    lemma_tokens_are_cut_from_text(src);
    let starts = starts_from(src, 0);
    lemma_token_lies_in_one_line(src, starts[n]);
    lemma_places_follow_indices(src, token_end(src, starts[n]), starts[m]);
}

} // verus!

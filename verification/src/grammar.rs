//! What scanning means: the tokens of a source text, or the diagnostic
//! that it fails with, as functions of the text alone.
//!
//! A source text is a sequence of characters. Blank characters part
//! tokens and make none. At any other character the longest token that
//! begins there is taken, and scanning goes on behind it. The first
//! character that begins no token ends the scan with a diagnostic, and no
//! token of that text is kept.

use vstd::prelude::*;

use crate::classes::{
    begins_token, is_blank, is_control, is_decimal_point, is_delimiter, is_digit, is_newline,
    is_operator_char, is_operator_pair, is_symbol_part, is_symbol_start, is_unknown,
};
use crate::error::{CourierErrorType, Diagnostic};
use crate::lexer::TokenType;

verus! {

/// What a token says: the mathematical value behind a `Token`.
pub struct Lexeme {
    /// The line of the first character, counted from one.
    pub line: nat,
    /// The column of the first character in its line, counted from one.
    pub column: nat,
    /// The characters of the token.
    pub text: Seq<char>,
    pub kind: TokenType,
}

impl Lexeme {
    /// Whether the value can be that of a token: it has a place in a text,
    /// it is not empty, it holds no blank character, and its first
    /// character begins tokens of its kind.
    pub open spec fn well_formed(self) -> bool {
        &&& self.line >= 1
        &&& self.column >= 1
        &&& self.text.len() >= 1
        &&& token_kind(self.text[0]) == Some(self.kind)
        &&& forall|k: int| 0 <= k < self.text.len() ==> !is_blank(#[trigger] self.text[k])
    }
}

/// The number of newline characters in `text`.
pub open spec fn newline_count(text: Seq<char>) -> nat {
    text.filter(|c: char| is_newline(c)).len()
}

/// The number of characters between index `i` and the start of its line:
/// zero at the start of the text and behind every newline.
pub open spec fn line_offset(src: Seq<char>, i: int) -> nat
    decreases i,
{
    if i <= 0 {
        0
    } else if is_newline(src[i - 1]) {
        0
    } else {
        line_offset(src, i - 1) + 1
    }
}

/// The line of the character at index `i`, counted from one: one more
/// than the number of newlines before it.
pub open spec fn line_at(src: Seq<char>, i: int) -> nat {
    1 + newline_count(src.take(i))
}

/// The column of the character at index `i` in its line, counted from one.
pub open spec fn column_at(src: Seq<char>, i: int) -> nat {
    line_offset(src, i) + 1
}

/// Whether the place of index `i` can be counted in a `u32`.
pub open spec fn place_fits(src: Seq<char>, i: int) -> bool {
    line_at(src, i) <= u32::MAX && column_at(src, i) <= u32::MAX
}

/// Whether every place in `src` can be counted in a `u32`: that of each
/// character, and that behind the last one.
pub open spec fn countable(src: Seq<char>) -> bool {
    forall|i: int| 0 <= i <= src.len() ==> #[trigger] place_fits(src, i)
}

/// The index behind the longest run of symbol characters that begins at
/// `i`; `i` itself where no such character stands there.
pub open spec fn symbol_end(src: Seq<char>, i: int) -> int
    decreases src.len() - i,
{
    if 0 <= i < src.len() && is_symbol_part(src[i]) {
        symbol_end(src, i + 1)
    } else {
        i
    }
}

/// The index behind the longest run of digits that begins at `i`; `i`
/// itself where no digit stands there.
pub open spec fn digits_end(src: Seq<char>, i: int) -> int
    decreases src.len() - i,
{
    if 0 <= i < src.len() && is_digit(src[i]) {
        digits_end(src, i + 1)
    } else {
        i
    }
}

/// Whether a fraction begins at `i`: a decimal point with a digit behind it.
pub open spec fn fraction_at(src: Seq<char>, i: int) -> bool {
    0 <= i && i + 1 < src.len() && is_decimal_point(src[i]) && is_digit(src[i + 1])
}

/// The index behind the number that begins at `i`: its whole digits and,
/// where one follows them, one fraction.
pub open spec fn numeric_end(src: Seq<char>, i: int) -> int {
    let whole = digits_end(src, i);
    if fraction_at(src, whole) {
        digits_end(src, whole + 1)
    } else {
        whole
    }
}

/// The index behind the operator that begins at `i`: two characters where
/// they make an operator together, else one.
pub open spec fn operator_end(src: Seq<char>, i: int) -> int {
    if 0 <= i && i + 1 < src.len() && is_operator_pair(src[i], src[i + 1]) {
        i + 2
    } else {
        i + 1
    }
}

/// The kind of the tokens that begin with `c`, if any does.
pub open spec fn token_kind(c: char) -> Option<TokenType> {
    if is_symbol_start(c) {
        Some(TokenType::TokenSymbol)
    } else if is_digit(c) {
        Some(TokenType::TokenNumeric)
    } else if is_operator_char(c) {
        Some(TokenType::TokenOperator)
    } else if is_delimiter(c) {
        Some(TokenType::TokenDelimiter)
    } else if is_control(c) {
        Some(TokenType::TokenCtrl)
    } else {
        None
    }
}

/// The index behind the token that begins at `i`, where one begins there.
pub open spec fn token_end(src: Seq<char>, i: int) -> int {
    match token_kind(src[i]) {
        Some(TokenType::TokenSymbol) => symbol_end(src, i + 1),
        Some(TokenType::TokenNumeric) => numeric_end(src, i),
        Some(TokenType::TokenOperator) => operator_end(src, i),
        _ => i + 1,
    }
}

/// The token that begins at `i`, where one begins there.
pub open spec fn token_at(src: Seq<char>, i: int) -> Lexeme {
    Lexeme {
        line: line_at(src, i),
        column: column_at(src, i),
        text: src.subrange(i, token_end(src, i)),
        kind: token_kind(src[i]).unwrap(),
    }
}

/// The diagnostic for the character at `i`, where no token begins there.
pub open spec fn unknown_at(src: Seq<char>, i: int) -> Diagnostic {
    Diagnostic::unknown_symbol(line_at(src, i), column_at(src, i), src[i])
}

/// The tokens `done`, followed by what `rest` holds; the failure of `rest`
/// alone where it is one.
pub open spec fn prepend(done: Seq<Lexeme>, rest: Result<Seq<Lexeme>, Diagnostic>) -> Result<
    Seq<Lexeme>,
    Diagnostic,
> {
    match rest {
        Ok(tokens) => Ok(done + tokens),
        Err(d) => Err(d),
    }
}

/// The outcome of scanning `src` from index `i` on.
pub open spec fn scan_from(src: Seq<char>, i: int) -> Result<Seq<Lexeme>, Diagnostic>
    decreases src.len() - i,
{
    if i < 0 || i >= src.len() {
        Ok(Seq::empty())
    } else if is_blank(src[i]) {
        scan_from(src, i + 1)
    } else if !begins_token(src[i]) {
        Err(unknown_at(src, i))
    } else {
        proof {
            lemma_token_end_bounds(src, i);
        }
        prepend(seq![token_at(src, i)], scan_from(src, token_end(src, i)))
    }
}

/// The outcome of scanning the whole of `src`: its tokens in the order of
/// the text, or the diagnostic for the first character that begins none.
pub open spec fn scan(src: Seq<char>) -> Result<Seq<Lexeme>, Diagnostic> {
    scan_from(src, 0)
}

/// A run of symbol characters stays inside the text, holds symbol
/// characters only, and cannot be made longer.
pub proof fn lemma_symbol_end_is_maximal(src: Seq<char>, i: int)
    requires
        0 <= i <= src.len(),
    ensures
        i <= symbol_end(src, i) <= src.len(),
        forall|k: int| i <= k < symbol_end(src, i) ==> is_symbol_part(#[trigger] src[k]),
        symbol_end(src, i) < src.len() ==> !is_symbol_part(src[symbol_end(src, i)]),
    decreases src.len() - i,
{
    if i < src.len() && is_symbol_part(src[i]) {
        lemma_symbol_end_is_maximal(src, i + 1);
    }
}

/// A run of digits stays inside the text, holds digits only, and cannot
/// be made longer.
pub proof fn lemma_digits_end_is_maximal(src: Seq<char>, i: int)
    requires
        0 <= i <= src.len(),
    ensures
        i <= digits_end(src, i) <= src.len(),
        forall|k: int| i <= k < digits_end(src, i) ==> is_digit(#[trigger] src[k]),
        digits_end(src, i) < src.len() ==> !is_digit(src[digits_end(src, i)]),
    decreases src.len() - i,
{
    if i < src.len() && is_digit(src[i]) {
        lemma_digits_end_is_maximal(src, i + 1);
    }
}

/// A token is not empty, stays inside the text, and holds no blank
/// character.
pub proof fn lemma_token_end_bounds(src: Seq<char>, i: int)
    requires
        0 <= i < src.len(),
        begins_token(src[i]),
    ensures
        i < token_end(src, i) <= src.len(),
        forall|k: int| i <= k < token_end(src, i) ==> !is_blank(#[trigger] src[k]),
{
    lemma_symbol_end_is_maximal(src, i + 1);
    lemma_digits_end_is_maximal(src, i);
    let whole = digits_end(src, i);
    if fraction_at(src, whole) {
        lemma_digits_end_is_maximal(src, whole + 1);
    }
}

/// One character more: the count of newlines among the first `i + 1`
/// characters is that among the first `i`, and one more where the
/// character at `i` is a newline; the offset in the line starts again
/// behind a newline and grows by one behind any other character.
pub proof fn lemma_position_step(src: Seq<char>, i: int)
    requires
        0 <= i < src.len(),
    ensures
        line_at(src, i + 1) == line_at(src, i) + if is_newline(src[i]) {
            1nat
        } else {
            0nat
        },
        line_offset(src, i + 1) == if is_newline(src[i]) {
            0nat
        } else {
            line_offset(src, i) + 1
        },
{
    reveal(Seq::filter);
    assert(src.take(i + 1).drop_last() =~= src.take(i));
}

/// Positions are bounded by the index: no more newlines lie before a
/// character than characters, and its line does not begin before the text.
pub proof fn lemma_position_bounds(src: Seq<char>, i: int)
    requires
        0 <= i <= src.len(),
    ensures
        line_at(src, i) <= i + 1,
        line_offset(src, i) <= i,
    decreases i,
{
    src.take(i).lemma_filter_len(|c: char| is_newline(c));
    if i > 0 {
        lemma_position_bounds(src, i - 1);
    }
}

/// A text of fewer than `u32::MAX` characters is countable.
pub proof fn lemma_short_text_is_countable(src: Seq<char>)
    requires
        src.len() < u32::MAX,
    ensures
        countable(src),
{
    assert forall|i: int| 0 <= i <= src.len() implies #[trigger] place_fits(src, i) by {
        lemma_position_bounds(src, i);
    }
}

/// The offset of an index reaches back to the start of its line: no
/// newline lies between that start and the index, and the start is the
/// start of the text or stands right behind a newline.
pub proof fn lemma_line_offset_reaches_line_start(src: Seq<char>, i: int)
    requires
        0 <= i <= src.len(),
    ensures
        line_offset(src, i) <= i,
        forall|k: int| i - line_offset(src, i) <= k < i ==> !is_newline(#[trigger] src[k]),
        i == line_offset(src, i) || is_newline(src[i - line_offset(src, i) - 1]),
    decreases i,
{
    if i > 0 && !is_newline(src[i - 1]) {
        lemma_line_offset_reaches_line_start(src, i - 1);
    }
}

/// Places follow indices: of two indices, the later one lies in a later
/// line, or in the same line as many columns further as the indices are
/// apart.
pub proof fn lemma_places_follow_indices(src: Seq<char>, i: int, j: int)
    requires
        0 <= i <= j <= src.len(),
    ensures
        line_at(src, i) < line_at(src, j) || (line_at(src, i) == line_at(src, j) && column_at(
            src,
            i,
        ) + (j - i) == column_at(src, j)),
    decreases j - i,
{
    if i < j {
        lemma_places_follow_indices(src, i, j - 1);
        lemma_position_step(src, j - 1);
    }
}

/// A token holds characters of the language only: each of them begins a
/// token or is the decimal point of a number.
pub proof fn lemma_token_holds_known_characters(src: Seq<char>, i: int)
    requires
        0 <= i < src.len(),
        begins_token(src[i]),
    ensures
        forall|k: int| i <= k < token_end(src, i) ==> !is_unknown(#[trigger] src[k]),
{
    lemma_symbol_end_is_maximal(src, i + 1);
    lemma_digits_end_is_maximal(src, i);
    let whole = digits_end(src, i);
    if fraction_at(src, whole) {
        lemma_digits_end_is_maximal(src, whole + 1);
    }
}

/// The empty text has no tokens and is no failure.
pub proof fn lemma_empty_text_has_no_tokens()
    ensures
        scan(Seq::<char>::empty()) == Ok::<Seq<Lexeme>, Diagnostic>(Seq::empty()),
{
}

/// A text made of blank characters alone has no tokens from any index on.
proof fn lemma_blank_text_from(src: Seq<char>, i: int)
    requires
        forall|k: int| 0 <= k < src.len() ==> is_blank(#[trigger] src[k]),
    ensures
        scan_from(src, i) == Ok::<Seq<Lexeme>, Diagnostic>(Seq::empty()),
    decreases src.len() - i,
{
    if 0 <= i < src.len() {
        lemma_blank_text_from(src, i + 1);
    }
}

/// A text made of spaces, tabs and newlines alone has no tokens and is no
/// failure.
pub proof fn lemma_blank_text_has_no_tokens(src: Seq<char>)
    requires
        forall|k: int| 0 <= k < src.len() ==> is_blank(#[trigger] src[k]),
    ensures
        scan(src) == Ok::<Seq<Lexeme>, Diagnostic>(Seq::empty()),
{
    lemma_blank_text_from(src, 0);
}

/// A failure of a scan is always an unknown symbol at a place inside the
/// text: the place of a character that is not blank and begins no token.
pub proof fn lemma_failure_is_unknown_symbol(src: Seq<char>, i: int)
    requires
        0 <= i,
        scan_from(src, i) is Err,
    ensures
        exists|k: int|
            i <= k < src.len() && !is_blank(src[k]) && !begins_token(src[k]) && scan_from(src, i)
                == Err::<Seq<Lexeme>, Diagnostic>(#[trigger] unknown_at(src, k)),
        scan_from(src, i)->Err_0.kind == CourierErrorType::UnknownSymbol,
        scan_from(src, i)->Err_0.line >= 1,
        scan_from(src, i)->Err_0.column >= 1,
    decreases src.len() - i,
{
    if i >= src.len() {
    } else if is_blank(src[i]) {
        lemma_failure_is_unknown_symbol(src, i + 1);
    } else if begins_token(src[i]) {
        lemma_token_end_bounds(src, i);
        lemma_failure_is_unknown_symbol(src, token_end(src, i));
    }
}

/// Scanning fails fast: where an unknown character stands at `at`, the
/// scan from any index up to it fails, on that character or before it.
proof fn lemma_unknown_character_fails_from(src: Seq<char>, at: int, i: int)
    requires
        0 <= i <= at < src.len(),
        is_unknown(src[at]),
    ensures
        scan_from(src, i) is Err,
    decreases src.len() - i,
{
    if is_blank(src[i]) {
        lemma_unknown_character_fails_from(src, at, i + 1);
    } else if begins_token(src[i]) {
        lemma_token_end_bounds(src, i);
        lemma_token_holds_known_characters(src, i);
        lemma_unknown_character_fails_from(src, at, token_end(src, i));
    }
}

/// A text that holds an unknown character has no tokens: its scan fails
/// with an unknown symbol.
pub proof fn lemma_unknown_character_fails(src: Seq<char>, at: int)
    requires
        0 <= at < src.len(),
        is_unknown(src[at]),
    ensures
        scan(src) is Err,
        scan(src)->Err_0.kind == CourierErrorType::UnknownSymbol,
{
    lemma_unknown_character_fails_from(src, at, 0);
    lemma_failure_is_unknown_symbol(src, 0);
}

/// Places depend on the text before them only: in the first `at`
/// characters of a text, every index has the line and the offset that it
/// has in the whole text.
pub proof fn lemma_prefix_keeps_positions(src: Seq<char>, at: int, k: int)
    requires
        0 <= k <= at <= src.len(),
    ensures
        line_at(src.take(at), k) == line_at(src, k),
        line_offset(src.take(at), k) == line_offset(src, k),
    decreases k,
{
    assert(src.take(at).take(k) =~= src.take(k));
    if k > 0 {
        lemma_prefix_keeps_positions(src, at, k - 1);
    }
}

/// A run of symbol characters that begins before a character of another
/// class ends at the same index whether the text is cut at that
/// character or not.
proof fn lemma_prefix_keeps_symbol_end(src: Seq<char>, at: int, j: int)
    requires
        0 <= j <= at < src.len(),
        !is_symbol_part(src[at]),
    ensures
        symbol_end(src.take(at), j) == symbol_end(src, j),
    decreases at - j,
{
    if j < at && is_symbol_part(src[j]) {
        lemma_prefix_keeps_symbol_end(src, at, j + 1);
    }
}

/// A run of digits that begins before a character that is no digit ends
/// at the same index whether the text is cut at that character or not.
proof fn lemma_prefix_keeps_digits_end(src: Seq<char>, at: int, j: int)
    requires
        0 <= j <= at < src.len(),
        !is_digit(src[at]),
    ensures
        digits_end(src.take(at), j) == digits_end(src, j),
        digits_end(src, j) <= at,
    decreases at - j,
{
    if j < at && is_digit(src[j]) {
        lemma_prefix_keeps_digits_end(src, at, j + 1);
    }
}

/// A token that begins before an unknown character is the same token
/// whether the text is cut at that character or not.
proof fn lemma_prefix_keeps_token(src: Seq<char>, at: int, k: int)
    requires
        0 <= k < at < src.len(),
        is_unknown(src[at]),
        begins_token(src[k]),
    ensures
        token_end(src.take(at), k) == token_end(src, k),
        token_end(src, k) <= at,
        token_at(src.take(at), k) == token_at(src, k),
{
    let cut = src.take(at);
    lemma_prefix_keeps_positions(src, at, k);
    lemma_prefix_keeps_symbol_end(src, at, k + 1);
    lemma_prefix_keeps_digits_end(src, at, k);
    lemma_digits_end_is_maximal(src, k);
    let whole = digits_end(src, k);
    if whole + 1 < at {
        lemma_prefix_keeps_digits_end(src, at, whole + 1);
    }
    lemma_token_end_bounds(cut, k);
    assert(cut.subrange(k, token_end(src, k)) =~= src.subrange(k, token_end(src, k)));
}

/// Where the text before an unknown character scans well from `k` on,
/// the whole text fails from `k` on, and on that character.
proof fn lemma_prefix_scan_then_failure(src: Seq<char>, at: int, k: int)
    requires
        0 <= k <= at < src.len(),
        is_unknown(src[at]),
        scan_from(src.take(at), k) is Ok,
    ensures
        scan_from(src, k) == Err::<Seq<Lexeme>, Diagnostic>(unknown_at(src, at)),
    decreases at - k,
{
    if k == at {
    } else if is_blank(src[k]) {
        lemma_prefix_scan_then_failure(src, at, k + 1);
    } else {
        lemma_prefix_keeps_token(src, at, k);
        lemma_token_end_bounds(src, k);
        lemma_prefix_scan_then_failure(src, at, token_end(src, k));
    }
}

/// The first unknown character of a text is the one that is reported:
/// where the text before the character at `at` scans well, the whole
/// text fails with an unknown symbol at the line and column of that
/// character, and with a message that names it.
pub proof fn lemma_first_unknown_character_is_reported(src: Seq<char>, at: int)
    requires
        0 <= at < src.len(),
        is_unknown(src[at]),
        scan(src.take(at)) is Ok,
    ensures
        scan(src) == Err::<Seq<Lexeme>, Diagnostic>(
            Diagnostic::unknown_symbol(line_at(src, at), column_at(src, at), src[at]),
        ),
{
    lemma_prefix_scan_then_failure(src, at, 0);
}

} // verus!

//! The lexer: scanning state for one source text, and the tokens it makes.

use vstd::prelude::*;

use crate::classes::{
    is_blank, is_control, is_decimal_point, is_delimiter, is_digit, is_newline, is_operator_char,
    is_operator_pair, is_symbol_part, is_symbol_start,
};
use crate::error::{CourierError, Diagnostic};
use crate::grammar::{
    countable, digits_end, lemma_blank_text_has_no_tokens, lemma_position_step,
    lemma_token_end_bounds, line_at, line_offset, newline_count, numeric_end, operator_end,
    place_fits, prepend, scan, scan_from, symbol_end, token_at, token_end, token_kind, Lexeme,
};
use crate::text::to_chars;

verus! {

/// The kinds of token that the lexer makes. A token's kind follows from
/// its characters alone.
#[derive(Clone, Copy, Debug, PartialEq, Eq, Structural)]
pub enum TokenType {
    /// A name: a letter or an underscore, then letters, digits and
    /// underscores.
    TokenSymbol,
    /// An operator of one or two characters.
    TokenOperator,
    /// A number: digits, with at most one fraction after a decimal point.
    TokenNumeric,
    /// A single delimiter character.
    TokenDelimiter,
    /// A single control character.
    TokenCtrl,
}

/// A token: a classified piece of the source text, with the place of its
/// first character. A token does not change once it is made.
#[derive(Debug, PartialEq, Eq)]
pub struct Token {
    line_num: u32,
    col_num: u32,
    token: String,
    token_type: TokenType,
}

impl View for Token {
    type V = Lexeme;

    closed spec fn view(&self) -> Lexeme {
        Lexeme {
            line: self.line_num as nat,
            column: self.col_num as nat,
            text: self.token@,
            kind: self.token_type,
        }
    }
}

impl Clone for Token {
    /// A token that says the same.
    fn clone(&self) -> (copy: Token)
        ensures
            copy@ == self@,
    {
        Token {
            line_num: self.line_num,
            col_num: self.col_num,
            token: self.token.clone(),
            token_type: self.token_type,
        }
    }
}

impl Token {
    /// The line of the token's first character, counted from one.
    pub fn line_num(&self) -> (n: u32)
        ensures
            n == self@.line,
    {
        self.line_num
    }

    /// The column of the token's first character, counted from one.
    pub fn col_num(&self) -> (n: u32)
        ensures
            n == self@.column,
    {
        self.col_num
    }

    /// The characters of the token.
    pub fn token(&self) -> (text: &str)
        ensures
            text@ == self@.text,
    {
        self.token.as_str()
    }

    /// The kind of the token.
    pub fn token_type(&self) -> (kind: TokenType)
        ensures
            kind == self@.kind,
    {
        self.token_type
    }
}

/// What each token of a sequence says.
pub open spec fn lexemes(tokens: Seq<Token>) -> Seq<Lexeme> {
    tokens.map_values(|t: Token| t@)
}

/// What the result of a scan says: the tokens' values, or the diagnostic.
pub open spec fn outcome(res: Result<Vec<Token>, CourierError>) -> Result<
    Seq<Lexeme>,
    Diagnostic,
> {
    match res {
        Ok(tokens) => Ok(lexemes(tokens@)),
        Err(e) => Err(e@),
    }
}

/// The kind of the tokens that begin with `c`, if any does.
pub fn classify(c: char) -> (kind: Option<TokenType>)
    ensures
        kind == token_kind(c),
{
    if is_symbol_start(c) {
        Some(TokenType::TokenSymbol)
    } else if is_digit(c) {
        Some(TokenType::TokenNumeric)
    } else if is_operator_char(c) {
        Some(TokenType::TokenOperator)
    } else if is_delimiter(c) {
        Some(TokenType::TokenDelimiter)
    } else if is_control(c) {
        Some(TokenType::TokenCtrl)
    } else {
        None
    }
}

fn find_symbol_end(src: &[char], start: usize) -> (end: usize)
    requires
        start <= src.len(),
    ensures
        end == symbol_end(src@, start as int),
{
    let mut j = start;
    while j < src.len() && is_symbol_part(src[j])
        invariant
            start <= j <= src.len(),
            symbol_end(src@, start as int) == symbol_end(src@, j as int),
        decreases src.len() - j,
    {
        j += 1;
    }
    j
}

fn find_digits_end(src: &[char], start: usize) -> (end: usize)
    requires
        start <= src.len(),
    ensures
        end == digits_end(src@, start as int),
        start <= end <= src.len(),
{
    let mut j = start;
    while j < src.len() && is_digit(src[j])
        invariant
            start <= j <= src.len(),
            digits_end(src@, start as int) == digits_end(src@, j as int),
        decreases src.len() - j,
    {
        j += 1;
    }
    j
}

fn find_numeric_end(src: &[char], start: usize) -> (end: usize)
    requires
        start <= src.len(),
    ensures
        end == numeric_end(src@, start as int),
{
    let whole = find_digits_end(src, start);
    if whole < src.len() && src.len() - whole > 1 && is_decimal_point(src[whole]) && is_digit(
        src[whole + 1],
    ) {
        find_digits_end(src, whole + 1)
    } else {
        whole
    }
}

fn find_operator_end(src: &[char], start: usize) -> (end: usize)
    requires
        start < src.len(),
    ensures
        end == operator_end(src@, start as int),
{
    if src.len() - start > 1 && is_operator_pair(src[start], src[start + 1]) {
        start + 2
    } else {
        start + 1
    }
}

/// The index behind the token of kind `kind` that begins at `start`.
fn find_token_end(src: &[char], start: usize, kind: TokenType) -> (end: usize)
    requires
        start < src.len(),
        token_kind(src@[start as int]) == Some(kind),
    ensures
        end == token_end(src@, start as int),
{
    match kind {
        TokenType::TokenSymbol => find_symbol_end(src, start + 1),
        TokenType::TokenNumeric => find_numeric_end(src, start),
        TokenType::TokenOperator => find_operator_end(src, start),
        TokenType::TokenDelimiter => start + 1,
        TokenType::TokenCtrl => start + 1,
    }
}

/// Whether every line and column of `source` can be counted in a `u32`,
/// so that the text can be scanned.
pub fn is_countable(source: &str) -> (b: bool)
    ensures
        b == countable(source@),
{
    let chars = to_chars(source);
    let mut line: u32 = 1;
    let mut column: u32 = 1;
    let mut i: usize = 0;
    proof {
        reveal(Seq::filter);
    }
    while i < chars.len()
        invariant
            i <= chars.len(),
            chars@ == source@,
            line == line_at(chars@, i as int),
            column == line_offset(chars@, i as int) + 1,
            forall|k: int| 0 <= k <= i ==> #[trigger] place_fits(chars@, k),
        decreases chars.len() - i,
    {
        proof {
            lemma_position_step(chars@, i as int);
        }
        if is_newline(chars[i]) {
            if line == u32::MAX {
                assert(!place_fits(chars@, i + 1));
                return false;
            }
            line += 1;
            column = 1;
        } else {
            if column == u32::MAX {
                assert(!place_fits(chars@, i + 1));
                return false;
            }
            column += 1;
        }
        i += 1;
    }
    true
}

/// The scanning state for one source text.
///
/// A lexer counts the lines and columns that it has gone through, holds
/// the characters of the token that it is making, and owns the tokens
/// that it has made until the scan hands them to the caller.
pub struct Lexer {
    token: String,
    line_num: u32,
    line_idx: u32,
    table: Vec<Token>,
}

/// What a lexer holds: the mathematical value behind a `Lexer`.
pub struct LexerState {
    /// The characters of the token that is being made.
    pub buffer: Seq<char>,
    /// The current line, counted from one.
    pub line: nat,
    /// The number of characters gone through in the current line.
    pub column: nat,
    /// The tokens made so far, in the order of the text.
    pub table: Seq<Lexeme>,
}

impl LexerState {
    /// The state before any character: nothing held, first line, no
    /// column.
    pub open spec fn fresh() -> LexerState {
        LexerState { buffer: Seq::empty(), line: 1, column: 0, table: Seq::empty() }
    }

    /// The state in which a scan of `src` leaves the lexer. Its tokens
    /// are gone either way: handed to the caller, or dropped with the
    /// failure. After a success the counters stand behind the last
    /// character of the text; after a failure they stand on the character
    /// that failed.
    pub open spec fn after_scan(src: Seq<char>) -> LexerState {
        match scan(src) {
            Ok(_) => LexerState {
                buffer: Seq::empty(),
                line: line_at(src, src.len() as int),
                column: line_offset(src, src.len() as int),
                table: Seq::empty(),
            },
            Err(d) => LexerState {
                buffer: Seq::empty(),
                line: d.line,
                column: d.column,
                table: Seq::empty(),
            },
        }
    }
}

impl View for Lexer {
    type V = LexerState;

    closed spec fn view(&self) -> LexerState {
        LexerState {
            buffer: self.token@,
            line: self.line_num as nat,
            column: self.line_idx as nat,
            table: lexemes(self.table@),
        }
    }
}

impl Lexer {
    /// A lexer that has seen nothing yet.
    pub fn new() -> (lexer: Lexer)
        ensures
            lexer@ == LexerState::fresh(),
    {
        let lexer = Lexer { token: String::new(), line_num: 1, line_idx: 0, table: Vec::new() };
        assert(lexer@.table =~= Seq::<Lexeme>::empty());
        lexer
    }

    /// The current line, counted from one.
    pub fn line_num(&self) -> (n: u32)
        ensures
            n == self@.line,
    {
        self.line_num
    }

    /// The number of characters gone through in the current line.
    pub fn line_idx(&self) -> (n: u32)
        ensures
            n == self@.column,
    {
        self.line_idx
    }

    /// The characters of the token that is being made.
    pub fn token(&self) -> (text: &str)
        ensures
            text@ == self@.buffer,
    {
        self.token.as_str()
    }

    /// The tokens that the lexer holds.
    pub fn table(&self) -> (tokens: &Vec<Token>)
        ensures
            lexemes(tokens@) == self@.table,
    {
        &self.table
    }

    /// Whether the lexer stands in front of the character at `i` of `src`
    /// with no token begun.
    spec fn stands_at(&self, src: Seq<char>, i: int) -> bool {
        &&& self.token@ == Seq::<char>::empty()
        &&& self.line_num == line_at(src, i)
        &&& self.line_idx == line_offset(src, i)
    }

    /// Goes through the token of kind `kind` that lies between `start` and
    /// `end`, and puts it at the end of the table.
    fn take_token(&mut self, src: &[char], start: usize, end: usize, kind: TokenType)
        requires
            start < end <= src.len(),
            countable(src@),
            old(self).stands_at(src@, start as int),
            forall|k: int| start <= k < end ==> !is_blank(#[trigger] src@[k]),
        ensures
            final(self).stands_at(src@, end as int),
            lexemes(final(self).table@) == lexemes(old(self).table@).push(
                Lexeme {
                    line: line_at(src@, start as int),
                    column: line_offset(src@, start as int) + 1,
                    text: src@.subrange(start as int, end as int),
                    kind,
                },
            ),
    {
        assert(place_fits(src@, start as int));
        let line_num = self.line_num;
        let col_num = self.line_idx + 1;
        let mut j = start;
        while j < end
            invariant
                start <= j <= end <= src.len(),
                countable(src@),
                self.line_num == line_at(src@, j as int),
                self.line_idx == line_offset(src@, j as int),
                self.token@ == src@.subrange(start as int, j as int),
                self.table == old(self).table,
                forall|k: int| start <= k < end ==> !is_blank(#[trigger] src@[k]),
            decreases end - j,
        {
            proof {
                lemma_position_step(src@, j as int);
                assert(place_fits(src@, j + 1));
                assert(src@.subrange(start as int, j as int).push(src@[j as int])
                    =~= src@.subrange(start as int, j + 1));
            }
            self.token.push(src[j]);
            self.line_idx += 1;
            j += 1;
        }
        let mut token = String::new();
        std::mem::swap(&mut token, &mut self.token);
        let made = Token { line_num, col_num, token, token_type: kind };
        self.table.push(made);
    }

    /// Forgets what the lexer holds and has counted.
    fn reset(&mut self)
        ensures
            final(self)@ == LexerState::fresh(),
    {
        self.token = String::new();
        self.line_num = 1;
        self.line_idx = 0;
        self.table = Vec::new();
        assert(self@.table =~= Seq::<Lexeme>::empty());
    }

    /// Scans `src` from its first character on, whatever the lexer held.
    fn lex_chars(&mut self, src: &[char]) -> (res: Result<Vec<Token>, CourierError>)
        requires
            countable(src@),
        ensures
            outcome(res) == scan(src@),
            final(self)@ == LexerState::after_scan(src@),
    {
        self.reset();
        proof {
            reveal(Seq::filter);
            if let Ok(tokens) = scan(src@) {
                assert(lexemes(self.table@) + tokens =~= tokens);
            }
        }
        let mut i: usize = 0;
        while i < src.len()
            invariant
                i <= src.len(),
                countable(src@),
                self.stands_at(src@, i as int),
                scan(src@) == prepend(lexemes(self.table@), scan_from(src@, i as int)),
            decreases src.len() - i,
        {
            let c = src[i];
            proof {
                lemma_position_step(src@, i as int);
                assert(place_fits(src@, i + 1));
            }
            if is_newline(c) {
                self.line_num += 1;
                self.line_idx = 0;
                i += 1;
            } else if is_blank(c) {
                self.line_idx += 1;
                i += 1;
            } else {
                match classify(c) {
                    None => {
                        self.line_idx += 1;
                        self.table = Vec::new();
                        let error = CourierError::unknown_symbol(self.line_num, self.line_idx, c);
                        assert(lexemes(self.table@) =~= Seq::<Lexeme>::empty());
                        return Err(error);
                    },
                    Some(kind) => {
                        let end = find_token_end(src, i, kind);
                        proof {
                            lemma_token_end_bounds(src@, i as int);
                        }
                        let ghost before = lexemes(self.table@);
                        self.take_token(src, i, end, kind);
                        proof {
                            if let Ok(tokens) = scan_from(src@, end as int) {
                                assert(before + (seq![token_at(src@, i as int)] + tokens)
                                    =~= before.push(token_at(src@, i as int)) + tokens);
                            }
                        }
                        i = end;
                    },
                }
            }
        }
        let mut tokens: Vec<Token> = Vec::new();
        std::mem::swap(&mut tokens, &mut self.table);
        proof {
            assert(lexemes(self.table@) =~= Seq::<Lexeme>::empty());
        }
        Ok(tokens)
    }

    /// Scans `source` and hands its tokens over, in the order of the
    /// text, or fails on the first character that begins no token.
    ///
    /// What the lexer held before does not count: every scan begins at
    /// line one with nothing held. A failure keeps none of the tokens
    /// made before it.
    ///
    /// The text is countable: none of its lines and columns is too large
    /// for a `u32`. Every text of fewer than `u32::MAX` characters is,
    /// and `is_countable` tells it of any text.
    pub fn lex_source(&mut self, source: &str) -> (res: Result<Vec<Token>, CourierError>)
        requires
            countable(source@),
        ensures
            outcome(res) == scan(source@),
            final(self)@ == LexerState::after_scan(source@),
    {
        let chars = to_chars(source);
        self.lex_chars(chars.as_slice())
    }

    /// Scans the file at `path`, whose reading gave `contents`: the text
    /// of the file, or the system's description of why it could not be
    /// read.
    ///
    /// A file that could not be read gives a file error that names the
    /// path and the description, and leaves the lexer as it was. A file
    /// that was read is scanned as `lex_source` scans its text, of which
    /// it asks the same.
    pub fn lex_file(&mut self, path: &str, contents: Result<String, String>) -> (res: Result<
        Vec<Token>,
        CourierError,
    >)
        requires
            contents is Ok ==> countable(contents->Ok_0@),
        ensures
            match contents {
                Ok(text) => outcome(res) == scan(text@) && final(self)@ == LexerState::after_scan(
                    text@,
                ),
                Err(description) => outcome(res) == Err::<Seq<Lexeme>, Diagnostic>(
                    Diagnostic::file_error(path@, description@),
                ) && final(self)@ == old(self)@,
            },
    {
        match contents {
            Ok(text) => self.lex_source(text.as_str()),
            Err(description) => Err(CourierError::file_error(path, description.as_str())),
        }
    }
}

/// A scan of the empty text leaves the lexer as a new one is.
pub proof fn lemma_empty_text_leaves_lexer_fresh()
    ensures
        LexerState::after_scan(Seq::<char>::empty()) == LexerState::fresh(),
{
    reveal(Seq::filter);
}

/// A scan that succeeds has counted the lines of the text: the lexer's
/// line is one more than the number of newlines in the text.
pub proof fn lemma_success_counts_lines(src: Seq<char>)
    requires
        scan(src) is Ok,
    ensures
        LexerState::after_scan(src).line == 1 + newline_count(src),
{
    assert(src.take(src.len() as int) =~= src);
}

/// A scan of a text made of spaces, tabs and newlines alone gives no
/// tokens and leaves the lexer's line at one more than the number of
/// newlines in the text.
pub proof fn lemma_blank_text_counts_lines(src: Seq<char>)
    requires
        forall|k: int| 0 <= k < src.len() ==> is_blank(#[trigger] src[k]),
    ensures
        scan(src) == Ok::<Seq<Lexeme>, Diagnostic>(Seq::empty()),
        LexerState::after_scan(src).line == 1 + newline_count(src),
        LexerState::after_scan(src).table == Seq::<Lexeme>::empty(),
{
    lemma_blank_text_has_no_tokens(src);
    lemma_success_counts_lines(src);
}

/// Scanning is repeatable. Two scans of one text, by any lexers and
/// whatever they held before, either both fail with the same diagnostic
/// or both give as many tokens, equal one by one in kind, characters and
/// place; and they leave the two lexers in the same state.
pub proof fn lemma_scan_is_repeatable(
    src: Seq<char>,
    first: Result<Vec<Token>, CourierError>,
    first_lexer: Lexer,
    second: Result<Vec<Token>, CourierError>,
    second_lexer: Lexer,
)
    requires
        outcome(first) == scan(src),
        first_lexer@ == LexerState::after_scan(src),
        outcome(second) == scan(src),
        second_lexer@ == LexerState::after_scan(src),
    ensures
        first is Ok <==> second is Ok,
        first is Err ==> first->Err_0@ == second->Err_0@,
        first is Ok ==> first->Ok_0@.len() == second->Ok_0@.len(),
        first is Ok ==> forall|n: int|
            0 <= n < first->Ok_0@.len() ==> (#[trigger] first->Ok_0@[n])@ == second->Ok_0@[n]@,
        first_lexer@ == second_lexer@,
{
    if first is Ok {
        let a = first->Ok_0@;
        let b = second->Ok_0@;
        assert forall|n: int| 0 <= n < a.len() implies (#[trigger] a[n])@ == b[n]@ by {
            assert(lexemes(b)[n] == b[n]@);
        }
    }
}

} // verus!

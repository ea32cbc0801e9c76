use courier::classes::{
    begins_token, is_blank, is_control, is_decimal_point, is_delimiter, is_digit, is_letter,
    is_newline, is_operator_char, is_operator_pair, is_space, is_symbol_part, is_symbol_start,
    is_unknown,
};
use courier::lexer::{classify, TokenType};

#[test]
fn blanks_are_space_tab_and_newline() {
    assert!(is_space(' '));
    assert!(is_space('\t'));
    assert!(!is_space('\n'));
    assert!(is_newline('\n'));
    assert!(!is_newline('\r'));
    assert!(is_blank(' ') && is_blank('\t') && is_blank('\n'));
    assert!(!is_blank('\r'));
    assert!(!is_blank('\u{a0}'));
    assert!(!is_blank('a'));
}

#[test]
fn letters_and_digits_are_the_ascii_ones() {
    for c in ['a', 'm', 'z', 'A', 'M', 'Z'] {
        assert!(is_letter(c));
    }
    for c in ['`', '{', '@', '[', '_', '0', 'é', 'ß', 'Ω'] {
        assert!(!is_letter(c));
    }
    for c in ['0', '5', '9'] {
        assert!(is_digit(c));
    }
    for c in ['/', ':', 'a', '٣', '²'] {
        assert!(!is_digit(c));
    }
}

#[test]
fn symbols_begin_with_a_letter_or_an_underscore() {
    assert!(is_symbol_start('a') && is_symbol_start('Z') && is_symbol_start('_'));
    assert!(!is_symbol_start('0') && !is_symbol_start('-'));
    assert!(is_symbol_part('a') && is_symbol_part('_') && is_symbol_part('7'));
    assert!(!is_symbol_part('.') && !is_symbol_part(' ') && !is_symbol_part('-'));
}

#[test]
fn operators_delimiters_and_controls_are_fixed_sets() {
    for c in "+-*/%^=<>!&|".chars() {
        assert!(is_operator_char(c));
        assert!(!is_delimiter(c) && !is_control(c));
    }
    for c in "(){}[],;:".chars() {
        assert!(is_delimiter(c));
        assert!(!is_operator_char(c) && !is_control(c));
    }
    for c in "#$?~\\".chars() {
        assert!(is_control(c));
        assert!(!is_operator_char(c) && !is_delimiter(c));
    }
    for c in "@.`'\"\r a0_".chars() {
        assert!(!is_operator_char(c) && !is_delimiter(c) && !is_control(c));
    }
}

#[test]
fn six_pairs_are_operators() {
    let signs: Vec<char> = "+-*/%^=<>!&|a ".chars().collect();
    let pairs = [('=', '='), ('!', '='), ('<', '='), ('>', '='), ('&', '&'), ('|', '|')];
    for &a in &signs {
        for &b in &signs {
            assert_eq!(is_operator_pair(a, b), pairs.contains(&(a, b)));
        }
    }
}

#[test]
fn the_decimal_point_begins_no_token() {
    assert!(is_decimal_point('.'));
    assert!(!is_decimal_point(','));
    assert!(!begins_token('.'));
    assert!(!is_unknown('.'));
}

#[test]
fn unknown_is_what_is_left() {
    for c in ['@', '`', '\'', '"', '\r', 'é', '\u{0}', '\u{1F600}'] {
        assert!(is_unknown(c));
        assert!(!begins_token(c));
    }
    for c in ['a', '_', '0', '+', '(', '#', ' ', '\t', '\n', '.'] {
        assert!(!is_unknown(c));
    }
}

#[test]
fn a_character_tells_the_kind_of_its_token() {
    assert_eq!(classify('a'), Some(TokenType::TokenSymbol));
    assert_eq!(classify('_'), Some(TokenType::TokenSymbol));
    assert_eq!(classify('7'), Some(TokenType::TokenNumeric));
    assert_eq!(classify('<'), Some(TokenType::TokenOperator));
    assert_eq!(classify(';'), Some(TokenType::TokenDelimiter));
    assert_eq!(classify('$'), Some(TokenType::TokenCtrl));
    assert_eq!(classify('@'), None);
    assert_eq!(classify('.'), None);
    assert_eq!(classify(' '), None);
    assert_eq!(classify('\n'), None);
}

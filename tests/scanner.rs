use sexpr::lexer::{parse_decimal, tokenize, Lexer, Token};

fn id(s: &str) -> Token {
    Token::Id(s.to_string())
}

#[test]
fn round_trip_tokenization() {
    let toks = tokenize("(+ 1 2)");
    assert_eq!(
        toks,
        vec![Token::LPar, id("+"), Token::Num(1), Token::Num(2), Token::RPar]
    );
}

#[test]
fn bump_yields_tokens_then_none() {
    let mut lexer = Lexer::new("(+ 1 2)");
    assert_eq!(lexer.bump(), Some(Token::LPar));
    assert_eq!(lexer.bump(), Some(id("+")));
    assert_eq!(lexer.bump(), Some(Token::Num(1)));
    assert_eq!(lexer.bump(), Some(Token::Num(2)));
    assert_eq!(lexer.bump(), Some(Token::RPar));
    assert_eq!(lexer.bump(), None);
    assert_eq!(lexer.bump(), None);
}

#[test]
fn whitespace_insensitivity() {
    assert_eq!(tokenize("(+ 1 2)"), tokenize("(  +   1  2 )"));
    assert_eq!(tokenize("(+ 1 2)"), tokenize("\t(+\n1 2)\n"));
}

#[test]
fn empty_and_blank_input_have_no_tokens() {
    assert_eq!(tokenize(""), vec![]);
    assert_eq!(tokenize(" \t\n "), vec![]);
    let mut lexer = Lexer::new("   ");
    assert_eq!(lexer.bump(), None);
}

#[test]
fn identifiers_may_hold_digits_and_punctuation() {
    assert_eq!(tokenize("a1 +-*/ foo_bar"), vec![id("a1"), id("+-*/"), id("foo_bar")]);
}

#[test]
fn numbers_stop_at_the_first_non_digit() {
    assert_eq!(tokenize("12ab"), vec![Token::Num(12), id("ab")]);
    assert_eq!(tokenize("(7)"), vec![Token::LPar, Token::Num(7), Token::RPar]);
}

#[test]
fn identifiers_stop_at_parentheses() {
    assert_eq!(tokenize("(foo)bar"), vec![Token::LPar, id("foo"), Token::RPar, id("bar")]);
}

#[test]
fn largest_number_literal() {
    assert_eq!(tokenize("18446744073709551615"), vec![Token::Num(u64::MAX)]);
}

#[test]
fn number_literal_beyond_u64() {
    assert_eq!(
        tokenize("18446744073709551616 0"),
        vec![Token::BigNum("18446744073709551616".to_string()), Token::Num(0)]
    );
}

#[test]
fn decimal_parsing() {
    assert_eq!(parse_decimal(&"0".to_string()), Some(0));
    assert_eq!(parse_decimal(&"00042".to_string()), Some(42));
    assert_eq!(parse_decimal(&"".to_string()), Some(0));
    assert_eq!(parse_decimal(&"99999999999999999999".to_string()), None);
}

#[test]
fn non_ascii_characters_form_identifiers() {
    assert_eq!(tokenize("(λ ½)"), vec![Token::LPar, id("λ"), id("½"), Token::RPar]);
}

#[test]
fn spaces_at_breaks_change_nothing() {
    assert_eq!(tokenize("(foo 12)"), tokenize(" ( foo   12 )  "));
    assert_eq!(tokenize("(foo)(bar)"), tokenize("(foo) (bar)"));
}

#[test]
fn spaces_inside_a_token_split_it() {
    assert_ne!(tokenize("foo"), tokenize("fo o"));
    assert_eq!(tokenize("12 34"), vec![Token::Num(12), Token::Num(34)]);
}

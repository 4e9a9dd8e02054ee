use sexpr::lexer::{Lexer, Token};
use sexpr::parser::{parse_source, Expr, Parser};

fn parser(s: &str) -> Parser {
    Parser::new(Lexer::new(s))
}

#[test]
fn parses_nested_lists() {
    let exprs = parse_source("(+ 1 (+ 1 1) 3)").unwrap();
    assert_eq!(exprs.len(), 1);
    match &exprs[0] {
        Expr::List(items) => {
            assert_eq!(items.len(), 4);
            assert!(matches!(&items[0], Expr::Id(s) if s == "+"));
            assert!(matches!(items[1], Expr::Num(1)));
            assert!(matches!(&items[2], Expr::List(inner) if inner.len() == 3));
            assert!(matches!(items[3], Expr::Num(3)));
        }
        other => panic!("expected a list, got {:?}", other),
    }
}

#[test]
fn multiple_top_level_forms_parse() {
    let exprs = parse_source("(+ 1 1) (+ 2 2)").unwrap();
    assert_eq!(exprs.len(), 2);
}

#[test]
fn empty_input_parses_to_nothing() {
    assert_eq!(parse_source("").unwrap().len(), 0);
    assert_eq!(parse_source("  \n").unwrap().len(), 0);
}

#[test]
fn empty_list_is_syntactically_valid() {
    let exprs = parse_source("()").unwrap();
    assert!(matches!(&exprs[0], Expr::List(items) if items.is_empty()));
}

#[test]
fn malformed_missing_close() {
    assert_eq!(parse_source("(+ 1 2").unwrap_err(), "unexpected end of input");
}

#[test]
fn malformed_stray_close() {
    assert_eq!(
        parse_source(")").unwrap_err(),
        "unexpected closing parenthesis, expected opening parenthesis"
    );
}

#[test]
fn closing_paren_cannot_begin_a_term() {
    let mut p = parser(")");
    assert_eq!(p.parse_term().unwrap_err(), "unexpected closing parenthesis");
}

#[test]
fn top_level_requires_parentheses() {
    assert_eq!(
        parse_source("5").unwrap_err(),
        "unexpected number 5, expected opening parenthesis"
    );
    assert_eq!(
        parse_source("(+ 1) foo").unwrap_err(),
        "unexpected identifier foo, expected opening parenthesis"
    );
}

#[test]
fn first_error_aborts_the_parse() {
    assert!(parse_source("(+ 1 1) (+ 2").is_err());
}

#[test]
fn out_of_range_literal_is_a_syntax_error() {
    assert_eq!(
        parse_source("(+ 99999999999999999999)").unwrap_err(),
        "number literal out of range: 99999999999999999999"
    );
}

#[test]
fn parse_term_reads_atoms() {
    let mut p = parser("42 x");
    assert!(matches!(p.parse_term(), Ok(Expr::Num(42))));
    assert!(matches!(p.parse_term(), Ok(Expr::Id(s)) if s == "x"));
    assert_eq!(p.parse_term().unwrap_err(), "unexpected end of input");
}

#[test]
fn parse_list_requires_opening_paren() {
    let mut p = parser("x");
    assert_eq!(
        p.parse_list().unwrap_err(),
        "unexpected identifier x, expected opening parenthesis"
    );
}

#[test]
fn eat_matching_token_advances() {
    let mut p = parser("( )");
    assert_eq!(p.eat(Token::LPar), Ok(Token::LPar));
    assert_eq!(p.eat(Token::RPar), Ok(Token::RPar));
    assert_eq!(
        p.eat(Token::RPar).unwrap_err(),
        "unexpected end of input, expected closing parenthesis"
    );
}

#[test]
fn eat_other_token_fails_and_stays() {
    let mut p = parser("7 )");
    assert_eq!(
        p.eat(Token::LPar).unwrap_err(),
        "unexpected number 7, expected opening parenthesis"
    );
    assert_eq!(p.eat(Token::Num(7)), Ok(Token::Num(7)));
    assert_eq!(p.eat(Token::RPar), Ok(Token::RPar));
}

#[test]
fn advance_stops_at_end_of_input() {
    let mut p = parser("x");
    p.advance();
    p.advance();
    assert_eq!(
        p.eat(Token::LPar).unwrap_err(),
        "unexpected end of input, expected opening parenthesis"
    );
}

#[test]
fn parse_collects_top_level_lists() {
    let mut p = parser("(a) (b c)");
    let exprs = p.parse().unwrap();
    assert_eq!(exprs.len(), 2);
    assert!(matches!(&exprs[1], Expr::List(items) if items.len() == 2));
}

#[test]
fn closing_paren_is_left_unconsumed() {
    let mut p = parser(")");
    assert!(p.parse_term().is_err());
    assert_eq!(p.eat(Token::RPar), Ok(Token::RPar));
}

#[test]
fn parse_term_stays_at_end_of_input() {
    let mut p = parser("");
    assert_eq!(p.parse_term().unwrap_err(), "unexpected end of input");
    assert_eq!(p.parse_term().unwrap_err(), "unexpected end of input");
}

#[test]
fn failed_parse_list_leaves_the_parser_unchanged() {
    let mut p = parser("x (y)");
    assert!(p.parse_list().is_err());
    assert!(matches!(p.parse_term(), Ok(Expr::Id(s)) if s == "x"));
    assert!(matches!(p.parse_list(), Ok(Expr::List(items)) if items.len() == 1));
}

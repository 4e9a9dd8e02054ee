use vstd::prelude::*;

use crate::lexer::{lemma_scan_consumes, tokens, Lexer, Token, TokenV};
use crate::text::{decimal, decimal_digits};

verus! {

/// An expression tree.
#[derive(Debug)]
pub enum Expr {
    Id(String),
    Num(u64),
    List(Vec<Expr>),
}

/// The mathematical model of an [`Expr`].
pub enum ExprV {
    Id(Seq<char>),
    Num(u64),
    List(Seq<ExprV>),
}

/// The model of an expression tree.
pub open spec fn expr_view(e: Expr) -> ExprV
    decreases e,
{
    match e {
        Expr::Id(s) => ExprV::Id(s@),
        Expr::Num(n) => ExprV::Num(n),
        Expr::List(v) => ExprV::List(exprs_view(v@)),
    }
}

/// The models of a sequence of expression trees.
pub open spec fn exprs_view(s: Seq<Expr>) -> Seq<ExprV>
    decreases s,
{
    if s.len() == 0 {
        seq![]
    } else {
        exprs_view(s.drop_last()).push(expr_view(s.last()))
    }
}

impl View for Expr {
    type V = ExprV;

    open spec fn view(&self) -> ExprV {
        expr_view(*self)
    }
}

/// The outcome of parsing a prefix of a token sequence: what was built and
/// the tokens that follow it, or an error message.
pub type Parsed<T> = Result<(T, Seq<TokenV>), Seq<char>>;

/// How a token is named in error messages.
pub open spec fn describe(t: TokenV) -> Seq<char> {
    match t {
        TokenV::LPar => "opening parenthesis"@,
        TokenV::RPar => "closing parenthesis"@,
        TokenV::Num(n) => "number "@ + decimal_digits(n as nat),
        TokenV::Id(s) => "identifier "@ + s,
        TokenV::BigNum(d) => "number "@ + d,
    }
}

/// The error when the input ends where a term was expected.
pub open spec fn end_of_input_msg() -> Seq<char> {
    "unexpected end of input"@
}

/// The error when a closing parenthesis stands where a term was expected.
pub open spec fn closing_paren_msg() -> Seq<char> {
    "unexpected closing parenthesis"@
}

/// The error for a numeric literal too large for a `u64`.
pub open spec fn out_of_range_msg(digits: Seq<char>) -> Seq<char> {
    "number literal out of range: "@ + digits
}

/// The error when `expected` was required and the input had ended.
pub open spec fn missing_msg(expected: TokenV) -> Seq<char> {
    "unexpected end of input, expected "@ + describe(expected)
}

/// The error when `expected` was required and `found` came instead.
pub open spec fn mismatch_msg(found: TokenV, expected: TokenV) -> Seq<char> {
    "unexpected "@ + describe(found) + ", expected "@ + describe(expected)
}

/// A term: a number, an identifier, or a parenthesized list.
pub open spec fn term(ts: Seq<TokenV>) -> Parsed<ExprV>
    decreases ts.len(), 1nat,
{
    if ts.len() == 0 {
        Err(end_of_input_msg())
    } else {
        match ts[0] {
            TokenV::LPar => list(ts),
            TokenV::RPar => Err(closing_paren_msg()),
            TokenV::Num(n) => Ok((ExprV::Num(n), ts.drop_first())),
            TokenV::Id(s) => Ok((ExprV::Id(s), ts.drop_first())),
            TokenV::BigNum(d) => Err(out_of_range_msg(d)),
        }
    }
}

/// A parenthesized list of terms.
pub open spec fn list(ts: Seq<TokenV>) -> Parsed<ExprV>
    decreases ts.len(), 0nat,
{
    if ts.len() == 0 {
        Err(missing_msg(TokenV::LPar))
    } else if ts[0] != TokenV::LPar {
        Err(mismatch_msg(ts[0], TokenV::LPar))
    } else {
        items(ts.drop_first(), seq![])
    }
}

/// The terms of a list after its opening parenthesis and `acc`, up to and
/// including the closing parenthesis.
pub open spec fn items(ts: Seq<TokenV>, acc: Seq<ExprV>) -> Parsed<ExprV>
    decreases ts.len(), 2nat,
{
    if ts.len() > 0 && ts[0] == TokenV::RPar {
        Ok((ExprV::List(acc), ts.drop_first()))
    } else {
        match term(ts) {
            Ok((e, rest)) => if rest.len() < ts.len() {
                items(rest, acc.push(e))
            } else {
                // never taken: see `lemma_parse_consumes`
                Err(seq![])
            },
            Err(m) => Err(m),
        }
    }
}

/// A sequence of parenthesized lists up to the end of the input, after `acc`.
pub open spec fn program(ts: Seq<TokenV>, acc: Seq<ExprV>) -> Result<Seq<ExprV>, Seq<char>>
    decreases ts.len(),
{
    if ts.len() == 0 {
        Ok(acc)
    } else {
        match list(ts) {
            Ok((e, rest)) => if rest.len() < ts.len() {
                program(rest, acc.push(e))
            } else {
                // never taken: see `lemma_parse_consumes`
                Err(seq![])
            },
            Err(m) => Err(m),
        }
    }
}

/// The expressions of a whole input text, or the first syntax error in it.
pub open spec fn parse_text(s: Seq<char>) -> Result<Seq<ExprV>, Seq<char>> {
    program(tokens(s), seq![])
}

/// Each successful step of the grammar consumes at least one token.
pub proof fn lemma_parse_consumes(ts: Seq<TokenV>)
    ensures
        term(ts) is Ok ==> term(ts)->Ok_0.1.len() < ts.len(),
        list(ts) is Ok ==> list(ts)->Ok_0.1.len() < ts.len(),
        forall|acc: Seq<ExprV>|
            #[trigger] items(ts, acc) is Ok ==> items(ts, acc)->Ok_0.1.len() < ts.len(),
    decreases ts.len(),
{
    assert forall|acc: Seq<ExprV>| #[trigger] items(ts, acc) is Ok implies items(
        ts,
        acc,
    )->Ok_0.1.len() < ts.len() by {
        if !(ts.len() > 0 && ts[0] == TokenV::RPar) {
            if let Ok((e, rest)) = term(ts) {
                if rest.len() < ts.len() {
                    lemma_parse_consumes(rest);
                    assert(items(rest, acc.push(e)) is Ok);
                }
            }
        }
    }
    if ts.len() > 0 {
        lemma_parse_consumes(ts.drop_first());
        assert(items(ts.drop_first(), seq![]) is Ok ==> items(ts.drop_first(), seq![])->Ok_0.1.len() < ts.len() - 1);
    }
}

/// The model of the result of a parsing step.
pub open spec fn parsed_view(r: Result<Expr, String>) -> Result<ExprV, Seq<char>> {
    match r {
        Ok(e) => Ok(e@),
        Err(m) => Err(m@),
    }
}

/// Whether the outcome `r` of a parsing step that left the parser at `after`
/// is the one that `expected` describes.
pub open spec fn parsed_as(r: Result<Expr, String>, after: Seq<TokenV>, expected: Parsed<ExprV>) -> bool {
    match expected {
        Ok((e, rest)) => r is Ok && parsed_view(r) == Ok::<ExprV, Seq<char>>(e) && after == rest,
        Err(m) => r is Err && parsed_view(r) == Err::<ExprV, Seq<char>>(m),
    }
}

/// The model of the result of parsing a whole input.
pub open spec fn program_view(r: Result<Vec<Expr>, String>) -> Result<Seq<ExprV>, Seq<char>> {
    match r {
        Ok(v) => Ok(exprs_view(v@)),
        Err(m) => Err(m@),
    }
}

proof fn lemma_exprs_view_push(v: Seq<Expr>, e: Expr)
    ensures
        exprs_view(v.push(e)) == exprs_view(v).push(e@),
{
    assert(v.push(e).drop_last() =~= v);
}

/// Names a token in error messages.
fn describe_token(t: &Token) -> (r: String)
    ensures
        r@ == describe(t@),
{
    match t {
        Token::LPar => String::from_str("opening parenthesis"),
        Token::RPar => String::from_str("closing parenthesis"),
        Token::Num(n) => {
            let mut r = String::from_str("number ");
            r.append(decimal(*n).as_str());
            r
        },
        Token::Id(s) => {
            let mut r = String::from_str("identifier ");
            r.append(s.as_str());
            r
        },
        Token::BigNum(d) => {
            let mut r = String::from_str("number ");
            r.append(d.as_str());
            r
        },
    }
}

/// A recursive-descent parser with one token of lookahead.
pub struct Parser {
    lexer: Lexer,
    current: Option<Token>,
}

impl View for Parser {
    type V = Seq<TokenV>;

    /// The tokens that are still to be parsed, the lookahead first.
    closed spec fn view(&self) -> Seq<TokenV> {
        match self.current {
            Some(t) => seq![t@] + tokens(self.lexer@),
            None => seq![],
        }
    }
}

impl Parser {
    /// Creates a parser over the tokens that `lexer` has still to produce.
    pub fn new(mut lexer: Lexer) -> (r: Parser)
        ensures
            r@ == tokens(lexer@),
    {
        let ghost s = lexer@;
        let current = lexer.bump();
        proof {
            lemma_scan_consumes(s);
        }
        Parser { current, lexer }
    }

    /// Moves the lookahead to the next token; at the end of the input it stays there.
    pub fn advance(&mut self)
        ensures
            final(self)@ == (if old(self)@.len() > 0 {
                old(self)@.drop_first()
            } else {
                old(self)@
            }),
    {
        if self.current.is_some() {
            let ghost s = self.lexer@;
            self.current = self.lexer.bump();
            proof {
                lemma_scan_consumes(s);
                assert(old(self)@.drop_first() =~= tokens(s));
            }
        }
    }

    /// Consumes the lookahead when it is `token`, and returns it; otherwise
    /// fails and leaves the parser as it was.
    pub fn eat(&mut self, token: Token) -> (r: Result<Token, String>)
        ensures
            old(self)@.len() > 0 && old(self)@[0] == token@ ==> r is Ok && r->Ok_0@ == token@
                && final(self)@ == old(self)@.drop_first(),
            old(self)@.len() == 0 ==> r is Err && r->Err_0@ == missing_msg(token@) && final(self)@
                == old(self)@,
            old(self)@.len() > 0 && old(self)@[0] != token@ ==> r is Err && r->Err_0@
                == mismatch_msg(old(self)@[0], token@) && final(self)@ == old(self)@,
    {
        let matched = match &self.current {
            Some(current) => {
                if *current == token {
                    Ok(())
                } else {
                    let mut m = String::from_str("unexpected ");
                    m.append(describe_token(current).as_str());
                    m.append(", expected ");
                    m.append(describe_token(&token).as_str());
                    Err(m)
                }
            },
            None => {
                let mut m = String::from_str("unexpected end of input, expected ");
                m.append(describe_token(&token).as_str());
                Err(m)
            },
        };
        match matched {
            Ok(()) => {
                self.advance();
                Ok(token)
            },
            Err(m) => Err(m),
        }
    }

    /// Whether the lookahead is a closing parenthesis.
    fn at_close(&self) -> (r: bool)
        ensures
            r == (self@.len() > 0 && self@[0] == TokenV::RPar),
    {
        match &self.current {
            Some(Token::RPar) => true,
            _ => false,
        }
    }

    /// Parses one term: a number, an identifier, or a parenthesized list.
    /// At the end of the input, before a closing parenthesis, or before a
    /// number literal out of range, it fails and leaves the parser as it was;
    /// after an error inside a list the parser's position is left unspecified.
    pub fn parse_term(&mut self) -> (r: Result<Expr, String>)
        ensures
            parsed_as(r, final(self)@, term(old(self)@)),
            old(self)@.len() == 0 || old(self)@[0] == TokenV::RPar || old(self)@[0] is BigNum
                ==> final(self)@ == old(self)@,
        decreases old(self)@.len(), 1nat,
    {
        let token = if let Some(token) = &self.current {
            token
        } else {
            return Err(String::from_str("unexpected end of input"));
        };
        match token {
            Token::LPar => self.parse_list(),
            Token::RPar => Err(String::from_str("unexpected closing parenthesis")),
            Token::Num(n) => {
                let expr = Expr::Num(*n);
                self.advance();
                Ok(expr)
            },
            Token::Id(id) => {
                let expr = Expr::Id(id.clone());
                self.advance();
                Ok(expr)
            },
            Token::BigNum(digits) => {
                let mut m = String::from_str("number literal out of range: ");
                m.append(digits.as_str());
                Err(m)
            },
        }
    }

    /// Parses a parenthesized list of terms.
    /// When the lookahead is not an opening parenthesis it fails and leaves the
    /// parser as it was; after an error inside the list the parser's position
    /// is left unspecified.
    pub fn parse_list(&mut self) -> (r: Result<Expr, String>)
        ensures
            parsed_as(r, final(self)@, list(old(self)@)),
            old(self)@.len() == 0 || old(self)@[0] != TokenV::LPar ==> final(self)@ == old(self)@,
        decreases old(self)@.len(), 0nat,
    {
        if let Err(m) = self.eat(Token::LPar) {
            return Err(m);
        }
        let mut expressions: Vec<Expr> = Vec::new();
        while !self.at_close()
            invariant
                self@.len() < old(self)@.len(),
                old(self)@[0] == TokenV::LPar,
                items(self@, exprs_view(expressions@)) == list(old(self)@),
            decreases self@.len(),
        {
            proof {
                lemma_parse_consumes(self@);
            }
            let expr = match self.parse_term() {
                Ok(e) => e,
                Err(m) => return Err(m),
            };
            proof {
                lemma_exprs_view_push(expressions@, expr);
            }
            expressions.push(expr);
        }
        let _ = self.eat(Token::RPar);
        Ok(Expr::List(expressions))
    }

    /// Parses parenthesized lists up to the end of the input.
    /// The first error ends the parse.
    pub fn parse(&mut self) -> (r: Result<Vec<Expr>, String>)
        ensures
            program_view(r) == program(old(self)@, seq![]),
            r is Ok ==> final(self)@.len() == 0,
    {
        let mut expressions: Vec<Expr> = Vec::new();
        while self.current.is_some()
            invariant
                program(self@, exprs_view(expressions@)) == program(old(self)@, seq![]),
            decreases self@.len(),
        {
            proof {
                lemma_parse_consumes(self@);
            }
            let expr = match self.parse_list() {
                Ok(e) => e,
                Err(m) => return Err(m),
            };
            proof {
                lemma_exprs_view_push(expressions@, expr);
            }
            expressions.push(expr);
        }
        Ok(expressions)
    }
}

/// Parses a whole input text into its top-level expressions.
pub fn parse_source(input: &str) -> (r: Result<Vec<Expr>, String>)
    ensures
        program_view(r) == parse_text(input@),
{
    let mut parser = Parser::new(Lexer::new(input));
    parser.parse()
}

} // verus!

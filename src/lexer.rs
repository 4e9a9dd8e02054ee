use vstd::prelude::*;
use vstd::std_specs::iter::IteratorSpec;

use crate::text::push_char;

verus! {

/// The lexical units of the language.
#[derive(Debug)]
pub enum Token {
    /// An opening parenthesis.
    LPar,
    /// A closing parenthesis.
    RPar,
    /// A numeric literal whose value fits in a `u64`.
    Num(u64),
    /// An identifier: it starts with a character that is neither a digit nor a
    /// delimiter, and runs up to the next delimiter.
    Id(String),
    /// A run of decimal digits whose value does not fit in a `u64`.
    BigNum(String),
}

/// The mathematical model of a [`Token`]: identifier text as a character sequence.
pub enum TokenV {
    LPar,
    RPar,
    Num(u64),
    Id(Seq<char>),
    BigNum(Seq<char>),
}

impl View for Token {
    type V = TokenV;

    open spec fn view(&self) -> TokenV {
        match self {
            Token::LPar => TokenV::LPar,
            Token::RPar => TokenV::RPar,
            Token::Num(n) => TokenV::Num(*n),
            Token::Id(s) => TokenV::Id(s@),
            Token::BigNum(s) => TokenV::BigNum(s@),
        }
    }
}

impl PartialEq for Token {
    fn eq(&self, o: &Token) -> (r: bool) {
        match (self, o) {
            (Token::LPar, Token::LPar) => true,
            (Token::RPar, Token::RPar) => true,
            (Token::Num(a), Token::Num(b)) => *a == *b,
            (Token::Id(a), Token::Id(b)) => *a == *b,
            (Token::BigNum(a), Token::BigNum(b)) => *a == *b,
            _ => false,
        }
    }
}

impl vstd::std_specs::cmp::PartialEqSpecImpl for Token {
    open spec fn obeys_eq_spec() -> bool {
        true
    }

    open spec fn eq_spec(&self, o: &Token) -> bool {
        self@ == o@
    }
}

/// The model of a token that may be absent (end of input).
pub open spec fn opt_token_view(t: Option<Token>) -> Option<TokenV> {
    match t {
        Some(t) => Some(t@),
        None => None,
    }
}

/// Characters that separate tokens and are otherwise ignored.
pub open spec fn is_space(c: char) -> bool {
    c == ' ' || c == '\n' || c == '\t'
}

pub open spec fn is_digit(c: char) -> bool {
    '0' <= c <= '9'
}

/// Characters that end an identifier.
pub open spec fn is_delimiter(c: char) -> bool {
    is_space(c) || c == '(' || c == ')'
}

/// The classes of characters that the scanner groups into runs.
pub enum CharClass {
    Space,
    Digit,
    Word,
}

impl CharClass {
    pub open spec fn contains(self, c: char) -> bool {
        match self {
            CharClass::Space => is_space(c),
            CharClass::Digit => is_digit(c),
            CharClass::Word => !is_delimiter(c),
        }
    }

    fn test(&self, c: char) -> (r: bool)
        ensures
            r == self.contains(c),
    {
        match self {
            CharClass::Space => c == ' ' || c == '\n' || c == '\t',
            CharClass::Digit => '0' <= c && c <= '9',
            CharClass::Word => is_not_reserved(&c),
        }
    }
}

/// The length of the longest prefix of `s` whose characters all belong to `class`.
pub open spec fn run_len(s: Seq<char>, class: CharClass) -> nat
    decreases s.len(),
{
    if s.len() > 0 && class.contains(s[0]) {
        1 + run_len(s.drop_first(), class)
    } else {
        0
    }
}

pub open spec fn digit_value(c: char) -> nat {
    (c as u32 - '0' as u32) as nat
}

/// The number that a sequence of decimal digits denotes.
pub open spec fn decimal_value(d: Seq<char>) -> nat
    decreases d.len(),
{
    if d.len() == 0 {
        0
    } else {
        decimal_value(d.drop_last()) * 10 + digit_value(d.last())
    }
}

/// The token at the front of `s`, if any, and the input that follows it.
pub open spec fn scan(s: Seq<char>) -> (Option<TokenV>, Seq<char>) {
    let t = s.skip(run_len(s, CharClass::Space) as int);
    if t.len() == 0 {
        (None, t)
    } else if t[0] == '(' {
        (Some(TokenV::LPar), t.drop_first())
    } else if t[0] == ')' {
        (Some(TokenV::RPar), t.drop_first())
    } else if is_digit(t[0]) {
        let d = t.take(run_len(t, CharClass::Digit) as int);
        let tok = if decimal_value(d) <= u64::MAX {
            TokenV::Num(decimal_value(d) as u64)
        } else {
            TokenV::BigNum(d)
        };
        (Some(tok), t.skip(d.len() as int))
    } else {
        let w = t.take(run_len(t, CharClass::Word) as int);
        (Some(TokenV::Id(w)), t.skip(w.len() as int))
    }
}

/// The tokens of `s`, in order.
pub open spec fn tokens(s: Seq<char>) -> Seq<TokenV>
    decreases s.len(),
{
    match scan(s) {
        (Some(t), rest) => if rest.len() < s.len() {
            seq![t] + tokens(rest)
        } else {
            // never taken: see `lemma_scan_consumes`
            seq![]
        },
        (None, _) => seq![],
    }
}

proof fn lemma_run_len(s: Seq<char>, class: CharClass, k: int)
    requires
        0 <= k <= s.len(),
        forall|i: int| 0 <= i < k ==> class.contains(#[trigger] s[i]),
        k == s.len() || !class.contains(s[k]),
    ensures
        run_len(s, class) == k,
    decreases k,
{
    if k > 0 {
        lemma_run_len(s.drop_first(), class, k - 1);
    }
}

proof fn lemma_run_len_bound(s: Seq<char>, class: CharClass)
    ensures
        run_len(s, class) <= s.len(),
        forall|i: int| 0 <= i < run_len(s, class) ==> class.contains(#[trigger] s[i]),
        run_len(s, class) < s.len() ==> !class.contains(s[run_len(s, class) as int]),
    decreases s.len(),
{
    if s.len() > 0 && class.contains(s[0]) {
        lemma_run_len_bound(s.drop_first(), class);
        assert forall|i: int| 0 <= i < run_len(s, class) implies class.contains(#[trigger] s[i]) by {
            if i > 0 {
                assert(s[i] == s.drop_first()[i - 1]);
            }
        }
    }
}

/// Every token that is produced takes at least one character of input.
pub proof fn lemma_scan_consumes(s: Seq<char>)
    ensures
        scan(s).0 is Some ==> scan(s).1.len() < s.len(),
        scan(s).0 is None ==> tokens(s) == Seq::<TokenV>::empty(),
{
    let t = s.skip(run_len(s, CharClass::Space) as int);
    lemma_run_len_bound(s, CharClass::Space);
    lemma_run_len_bound(t, CharClass::Digit);
    lemma_run_len_bound(t, CharClass::Word);
    if t.len() > 0 && !is_delimiter(t[0]) && !is_digit(t[0]) {
        assert(run_len(t, CharClass::Word) > 0);
    }
    if t.len() > 0 && is_digit(t[0]) {
        assert(run_len(t, CharClass::Digit) > 0);
    }
}

/// The length of a run over a concatenation: the run stops inside `x`, or
/// goes on into `y`.
proof fn lemma_run_len_concat(x: Seq<char>, y: Seq<char>, class: CharClass)
    ensures
        run_len(x + y, class) == if run_len(x, class) < x.len() {
            run_len(x, class)
        } else {
            x.len() + run_len(y, class)
        },
    decreases x.len(),
{
    lemma_run_len_bound(x, class);
    if x.len() > 0 {
        assert((x + y)[0] == x[0]);
        assert((x + y).drop_first() =~= x.drop_first() + y);
        lemma_run_len_concat(x.drop_first(), y, class);
    } else {
        assert(x + y =~= y);
    }
}

/// Whether every character of `w` is a space.
pub open spec fn all_spaces(w: Seq<char>) -> bool {
    forall|i: int| 0 <= i < w.len() ==> is_space(#[trigger] w[i])
}

/// A place between `a` and `b` at which no token can continue across: an end
/// of the input, or beside a space or a parenthesis.
pub open spec fn is_break(a: Seq<char>, b: Seq<char>) -> bool {
    a.len() == 0 || b.len() == 0 || is_delimiter(a.last()) || is_delimiter(b[0])
}

/// Spaces before the input change nothing.
proof fn lemma_leading_spaces(w: Seq<char>, b: Seq<char>)
    requires
        all_spaces(w),
    ensures
        scan(w + b) == scan(b),
        tokens(w + b) == tokens(b),
{
    assert forall|i: int| 0 <= i < w.len() implies CharClass::Space.contains(#[trigger] w[i]) by {
        assert(is_space(w[i]));
    }
    lemma_run_len(w, CharClass::Space, w.len() as int);
    lemma_run_len_concat(w, b, CharClass::Space);
    lemma_run_len_bound(b, CharClass::Space);
    assert((w + b).skip(run_len(w + b, CharClass::Space) as int) =~= b.skip(
        run_len(b, CharClass::Space) as int,
    ));
    lemma_scan_consumes(w + b);
    lemma_scan_consumes(b);
}

/// Inserting spaces at a break leaves the tokens as they are.
pub proof fn lemma_spaces_at_break(a: Seq<char>, w: Seq<char>, b: Seq<char>)
    requires
        is_break(a, b),
        all_spaces(w),
    ensures
        tokens(a + w + b) == tokens(a + b),
    decreases a.len(),
{
    let n = run_len(a, CharClass::Space);
    lemma_run_len_bound(a, CharClass::Space);
    if n == a.len() {
        lemma_run_len(a, CharClass::Space, n as int);
        assert(all_spaces(a + w)) by {
            assert forall|i: int| 0 <= i < (a + w).len() implies is_space(#[trigger] (a + w)[i]) by {
                if i >= a.len() {
                    assert((a + w)[i] == w[i - a.len()]);
                }
            }
        }
        lemma_leading_spaces(a + w, b);
        lemma_leading_spaces(a, b);
    } else {
        let x = a + b;
        let y = a + w + b;
        lemma_run_len_concat(a, b, CharClass::Space);
        lemma_run_len_concat(a, w, CharClass::Space);
        lemma_run_len_concat(a + w, b, CharClass::Space);
        let a1 = a.skip(n as int);
        assert(x.skip(n as int) =~= a1 + b);
        assert(y.skip(n as int) =~= a1 + w + b);
        let c = a1[0];
        assert(!is_space(c));
        lemma_scan_consumes(x);
        lemma_scan_consumes(y);
        if c == '(' || c == ')' {
            let a2 = a1.drop_first();
            assert((a1 + b).drop_first() =~= a2 + b);
            assert((a1 + w + b).drop_first() =~= a2 + w + b);
            if a2.len() > 0 {
                assert(a2.last() == a.last());
            }
            lemma_spaces_at_break(a2, w, b);
        } else {
            let class = if is_digit(c) {
                CharClass::Digit
            } else {
                CharClass::Word
            };
            let k = run_len(a1, class);
            lemma_run_len_bound(a1, class);
            lemma_run_len_concat(a1, b, class);
            lemma_run_len_concat(a1, w, class);
            lemma_run_len_concat(a1 + w, b, class);
            assert(class.contains(c));
            if k < a1.len() {
                let a3 = a1.skip(k as int);
                assert((a1 + b).take(k as int) =~= a1.take(k as int));
                assert((a1 + w + b).take(k as int) =~= a1.take(k as int));
                assert((a1 + b).skip(k as int) =~= a3 + b);
                assert((a1 + w + b).skip(k as int) =~= a3 + w + b);
                assert(a3.last() == a.last());
                lemma_spaces_at_break(a3, w, b);
            } else {
                assert(a1.last() == a.last());
                assert(class.contains(a1[a1.len() - 1]));
                if w.len() > 0 {
                    assert(!class.contains(w[0]));
                }
                if b.len() > 0 {
                    assert(!class.contains(b[0]));
                }
                assert((a1 + b).take(k as int) =~= a1);
                assert((a1 + w + b).take(k as int) =~= a1);
                assert((a1 + b).skip(k as int) =~= b);
                assert((a1 + w + b).skip(k as int) =~= w + b);
                lemma_leading_spaces(w, b);
            }
        }
    }
}

/// The value of a run of decimal digits, or `None` when it does not fit in a `u64`.
pub fn parse_decimal(digits: &String) -> (r: Option<u64>)
    requires
        forall|i: int| 0 <= i < digits@.len() ==> is_digit(#[trigger] digits@[i]),
    ensures
        r == (if decimal_value(digits@) <= u64::MAX {
            Some(decimal_value(digits@) as u64)
        } else {
            None
        }),
{
    let s = digits.as_str();
    let n = s.unicode_len();
    let mut value: Option<u64> = Some(0);
    let mut i: usize = 0;
    while i < n
        invariant
            n == digits@.len(),
            s@ == digits@,
            i <= n,
            forall|j: int| 0 <= j < digits@.len() ==> is_digit(#[trigger] digits@[j]),
            value == (if decimal_value(digits@.take(i as int)) <= u64::MAX {
                Some(decimal_value(digits@.take(i as int)) as u64)
            } else {
                None
            }),
        decreases n - i,
    {
        let c = s.get_char(i);
        let d = (c as u32 - '0' as u32) as u64;
        proof {
            assert(digits@.take(i + 1).drop_last() =~= digits@.take(i as int));
            assert(is_digit(digits@[i as int]));
        }
        value = match value {
            Some(v) => match v.checked_mul(10) {
                Some(w) => w.checked_add(d),
                None => None,
            },
            None => None,
        };
        i = i + 1;
    }
    assert(digits@.take(n as int) =~= digits@);
    value
}

/// Neither a space nor a parenthesis: a character that continues an identifier.
fn is_not_reserved(c: &char) -> (r: bool)
    ensures
        r == !is_delimiter(*c),
{
    !(*c == ' ' || *c == '\n' || *c == '\t') && *c != '(' && *c != ')'
}

/// The scanner: the characters of the input and the position of the next one.
pub struct Lexer {
    chars: Vec<char>,
    pos: usize,
}

impl View for Lexer {
    type V = Seq<char>;

    /// The input that is still to be scanned.
    closed spec fn view(&self) -> Seq<char> {
        self.chars@.skip(self.pos as int)
    }
}

impl Lexer {
    #[verifier::type_invariant]
    spec fn inv(&self) -> bool {
        self.pos <= self.chars.len()
    }

    /// Creates a scanner positioned at the start of `input`.
    pub fn new(input: &str) -> (r: Lexer)
        ensures
            r@ == input@,
    {
        let mut chars: Vec<char> = Vec::new();
        for c in it: input.chars()
            invariant
                chars@ == it.seq().take(it.index() as int),
        {
            chars.push(c);
        }
        let r = Lexer { chars, pos: 0 };
        assert(r@ =~= input@);
        r
    }

    /// Moves past the spaces at the front of the remaining input.
    fn skip(&mut self)
        ensures
            final(self)@ == old(self)@.skip(run_len(old(self)@, CharClass::Space) as int),
    {
        let _ = self.accumulate(CharClass::Space);
    }

    /// Moves past the longest run of characters of `class` at the front of the
    /// remaining input, and returns that run.
    fn accumulate(&mut self, class: CharClass) -> (r: String)
        ensures
            r@ == old(self)@.take(run_len(old(self)@, class) as int),
            final(self)@ == old(self)@.skip(run_len(old(self)@, class) as int),
    {
        proof {
            use_type_invariant(&*self);
        }
        let ghost s = self@;
        let start = self.pos;
        let mut result = String::new();
        while self.pos < self.chars.len() && class.test(self.chars[self.pos])
            invariant
                start <= self.pos <= self.chars.len(),
                s == self.chars@.skip(start as int),
                result@ == self.chars@.subrange(start as int, self.pos as int),
                forall|i: int| start <= i < self.pos ==> class.contains(#[trigger] self.chars@[i]),
            decreases self.chars.len() - self.pos,
        {
            push_char(&mut result, self.chars[self.pos]);
            self.pos = self.pos + 1;
        }
        proof {
            lemma_run_len(s, class, self.pos - start);
            assert(result@ =~= s.take(self.pos - start));
            assert(self@ =~= s.skip(self.pos - start));
        }
        result
    }

    /// Returns the next token and moves past it, or returns `None` once only
    /// spaces remain.
    pub fn bump(&mut self) -> (r: Option<Token>)
        ensures
            (opt_token_view(r), final(self)@) == scan(old(self)@),
    {
        self.skip();
        proof {
            use_type_invariant(&*self);
            lemma_run_len_bound(old(self)@, CharClass::Space);
            lemma_run_len_bound(self@, CharClass::Digit);
            lemma_run_len_bound(self@, CharClass::Word);
        }
        let ghost t = self@;
        if self.pos >= self.chars.len() {
            return None;
        }
        let c = self.chars[self.pos];
        assert(t[0] == c);
        if c == '(' {
            self.pos = self.pos + 1;
            assert(self@ =~= old(self)@.skip(run_len(old(self)@, CharClass::Space) as int).drop_first());
            Some(Token::LPar)
        } else if c == ')' {
            self.pos = self.pos + 1;
            assert(self@ =~= old(self)@.skip(run_len(old(self)@, CharClass::Space) as int).drop_first());
            Some(Token::RPar)
        } else if '0' <= c && c <= '9' {
            let digits = self.accumulate(CharClass::Digit);
            match parse_decimal(&digits) {
                Some(n) => Some(Token::Num(n)),
                None => Some(Token::BigNum(digits)),
            }
        } else {
            Some(Token::Id(self.accumulate(CharClass::Word)))
        }
    }
}

/// The models of a sequence of tokens.
pub open spec fn tokens_view(v: Seq<Token>) -> Seq<TokenV> {
    v.map_values(|t: Token| t@)
}

/// Scans all of `input`.
pub fn tokenize(input: &str) -> (r: Vec<Token>)
    ensures
        tokens_view(r@) == tokens(input@),
{
    let mut lexer = Lexer::new(input);
    let mut result: Vec<Token> = Vec::new();
    loop
        invariant
            tokens_view(result@) + tokens(lexer@) == tokens(input@),
        decreases lexer@.len(),
    {
        let ghost s = lexer@;
        let ghost prev = result@;
        proof {
            lemma_scan_consumes(s);
        }
        match lexer.bump() {
            Some(t) => {
                result.push(t);
                assert(tokens_view(result@) =~= tokens_view(prev).push(t@));
                assert(tokens_view(result@) + tokens(lexer@) =~= tokens(input@));
            },
            None => {
                assert(tokens_view(result@) =~= tokens(input@));
                return result;
            },
        }
    }
}

} // verus!

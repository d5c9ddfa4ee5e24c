use vstd::prelude::*;
use crate::grammar::{
    PState, advance, at_eof, lemma_advance, rest, valid, closes, comparison_of, numeral, p_addition, p_addition_rest, p_and, p_and_rest,
    p_atom, p_comparison, p_comparison_rest, p_composition, p_define, p_implicit, p_implicit_rest,
    p_multiplication, p_multiplication_rest, p_or, p_or_rest, p_parentheses, p_postfix,
    p_postfix_rest, p_power, p_prefix, p_tuple, p_tuple_rest, starts_atom,
};
use crate::lexer::{lex, lexed_view, lemma_lex_progress, lemma_lexed_kind};
use crate::nodes::{ExprView, expr_models};
use crate::nodes::{BinaryOp, Expression, ParseError, UnaryOp};
use crate::tokens::{LexError, Token, TokenView};

verus! {

broadcast use lemma_lexed_kind;

/// A recursive-descent parser over the characters of one line. `token` is
/// the current token; `index` is where the token after it starts.
pub struct Parser {
    pub chars: Vec<char>,
    pub index: usize,
    pub token: Result<Token, LexError>,
}

pub open spec fn is_digit(c: char) -> bool {
    '0' <= c <= '9'
}

/// The characters a numeral's value is read from: digits, underscores and
/// the decimal point.
pub open spec fn numeral_chars(s: Seq<char>) -> bool {
    forall|k: int| 0 <= k < s.len() ==> is_digit(#[trigger] s[k]) || s[k] == '_' || s[k] == '.'
}

/// The integer that the digits of `s`, read in order, form.
pub open spec fn dividend(s: Seq<char>) -> int
    decreases s.len(),
{
    if s.len() == 0 {
        0
    } else if is_digit(s.last()) {
        dividend(s.drop_last()) * 10 + (s.last() as int - '0' as int)
    } else {
        dividend(s.drop_last())
    }
}

/// How many digits of `s` follow a decimal point.
pub open spec fn fraction_digits(s: Seq<char>) -> nat
    decreases s.len(),
{
    if s.len() == 0 {
        0
    } else if is_digit(s.last()) && s.drop_last().contains('.') {
        fraction_digits(s.drop_last()) + 1
    } else {
        fraction_digits(s.drop_last())
    }
}

pub open spec fn pow10(k: nat) -> int
    decreases k,
{
    if k == 0 {
        1
    } else {
        10 * pow10((k - 1) as nat)
    }
}

proof fn lemma_numeral_monotone(s: Seq<char>, k: int)
    requires
        0 <= k <= s.len(),
    ensures
        0 <= dividend(s.take(k)) <= dividend(s),
        1 <= pow10(fraction_digits(s.take(k))) <= pow10(fraction_digits(s)),
    decreases s.len(),
{
    if s.len() > 0 {
        if k < s.len() {
            assert(s.drop_last().take(k) =~= s.take(k));
            lemma_numeral_monotone(s.drop_last(), k);
            lemma_numeral_monotone(s.drop_last(), s.len() - 1);
            assert(s.drop_last().take(s.len() - 1) =~= s.drop_last());
        } else {
            assert(s.take(k) =~= s);
            lemma_numeral_monotone(s.drop_last(), s.len() - 1);
            assert(s.drop_last().take(s.len() - 1) =~= s.drop_last());
        }
    } else {
        assert(s.take(k) =~= s);
    }
}

/// The value `dividend / divisor` of a numeral: its digits read as one
/// integer over ten to the number of digits after the point.
pub fn numeral_value(text: &String) -> (r: Result<(isize, isize), ParseError>)
    ensures
        match r {
            Ok((a, b)) => numeral_chars(text@) && a == dividend(text@) && b == pow10(
                fraction_digits(text@),
            ),
            Err(e) => e == ParseError::InvalidNumber && !(numeral_chars(text@) && dividend(text@)
                <= isize::MAX && pow10(fraction_digits(text@)) <= isize::MAX),
        },
        r == numeral(text@),
{
    let s = text.as_str();
    let n = s.unicode_len();
    let mut a: isize = 0;
    let mut b: isize = 1;
    let mut seen_dot = false;
    let mut k: usize = 0;
    while k < n
        invariant
            n == text@.len(),
            s@ == text@,
            k <= n,
            numeral_chars(text@.take(k as int)),
            a == dividend(text@.take(k as int)),
            b == pow10(fraction_digits(text@.take(k as int))),
            seen_dot == text@.take(k as int).contains('.'),
        decreases n - k,
    {
        let c = s.get_char(k);
        proof {
            assert(text@.take(k + 1).drop_last() =~= text@.take(k as int));
            assert(text@.take(k + 1).last() == c);
        }
        if '0' <= c && c <= '9' {
            let d = (c as u32 - '0' as u32) as isize;
            let next = match a.checked_mul(10) {
                Some(t) => t.checked_add(d),
                None => None,
            };
            let scaled = if seen_dot {
                b.checked_mul(10)
            } else {
                Some(b)
            };
            match (next, scaled) {
                (Some(t), Some(u)) => {
                    a = t;
                    b = u;
                },
                _ => {
                    proof {
                        lemma_numeral_monotone(text@, k + 1);
                    }
                    return Err(ParseError::InvalidNumber);
                },
            }
        } else if c == '.' {
            seen_dot = true;
        } else if c != '_' {
            assert(!numeral_chars(text@));
            return Err(ParseError::InvalidNumber);
        }
        proof {
            let t = text@.take(k + 1);
            assert(t.contains('.') == (t.drop_last().contains('.') || c == '.')) by {
                if c == '.' {
                    assert(t[k as int] == '.');
                }
                if t.drop_last().contains('.') {
                    let j = choose|j: int| 0 <= j < t.drop_last().len() && t.drop_last()[j] == '.';
                    assert(t[j] == '.');
                }
                if t.contains('.') && c != '.' {
                    let j = choose|j: int| 0 <= j < t.len() && t[j] == '.';
                    assert(t.drop_last()[j] == '.');
                }
            }
        }
        k = k + 1;
    }
    proof {
        assert(text@.take(n as int) =~= text@);
    }
    Ok((a, b))
}

impl Parser {
    /// `index` lies in the input, and the input is used up once `token` is
    /// `EOF`.
    pub open spec fn wf(&self) -> bool {
        &&& self.index <= self.chars.len()
        &&& valid(self.chars@, self.state())
    }

    /// The parser's position as the grammar sees it.
    pub open spec fn state(&self) -> PState {
        PState { index: self.index as int, token: lexed_view(self.token) }
    }

    /// How much input is left, counting the current token.
    pub open spec fn remaining(&self) -> nat {
        rest(self.chars@, self.state())
    }

    /// `self` came from `before` by reading on: same input, never more left,
    /// and less left where `ok`.
    pub open spec fn read_on(&self, before: &Parser, ok: bool) -> bool {
        &&& self.wf()
        &&& self.chars == before.chars
        &&& self.remaining() <= before.remaining()
        &&& (ok ==> self.remaining() < before.remaining())
    }

    /// Moves to the next token.
    fn iter_token(&mut self)
        requires
            old(self).index <= old(self).chars.len(),
        ensures
            final(self).wf(),
            final(self).chars == old(self).chars,
            old(self).wf() ==> final(self).read_on(old(self), !at_eof(old(self).state())),
            (lexed_view(final(self).token), final(self).index as int) == lex(
                old(self).chars@,
                old(self).index as int,
            ),
            final(self).state() == advance(old(self).chars@, old(self).state()),
    {
        proof {
            lemma_lex_progress(self.chars@, self.index as int);
        }
        let ghost st = self.state();
        let t = self.next_token();
        self.token = t;
        proof {
            if valid(self.chars@, st) {
                lemma_advance(self.chars@, st);
            }
        }
    }

    /// Whether the current token is the name `kw`.
    fn keyword(&self, kw: &str) -> (r: bool)
        ensures
            r == (self.token matches Ok(Token::Identifier(w)) && w@ == kw@),
            r == (lexed_view(self.token) == Ok::<TokenView, LexError>(TokenView::Identifier(kw@))),
    {
        match &self.token {
            Ok(Token::Identifier(w)) => {
                let k = kw.to_owned();
                *w == k
            },
            _ => false,
        }
    }

    /// The lexical error held as the current token, as a parse error.
    fn lex_error(&self) -> (r: ParseError)
        requires
            self.token is Err,
        ensures
            r == ParseError::LexError(self.token->Err_0),
            r == crate::grammar::lex_error(self.state()),
    {
        match &self.token {
            Err(e) => ParseError::LexError(*e),
            Ok(_) => ParseError::NumberExpected,
        }
    }

    /// A parser at the first token of `code`.
    pub fn new(code: String) -> (r: Parser)
        ensures
            r.wf(),
            r.chars@ == code@,
            (lexed_view(r.token), r.index as int) == lex(code@, 0),
    {
        let s = code.as_str();
        let n = s.unicode_len();
        let mut chars: Vec<char> = Vec::new();
        let mut k: usize = 0;
        while k < n
            invariant
                n == code@.len(),
                s@ == code@,
                k <= n,
                chars@ == code@.take(k as int),
            decreases n - k,
        {
            chars.push(s.get_char(k));
            assert(chars@ =~= code@.take(k + 1));
            k = k + 1;
        }
        assert(chars@ =~= code@);
        let mut parser = Parser { chars, index: 0, token: Ok(Token::EOF) };
        parser.iter_token();
        parser
    }

    /// Parses the input from the current token on into one expression. What
    /// follows that expression is left unread.
    pub fn parse(&mut self) -> (r: Result<Expression, ParseError>)
        requires
            old(self).wf(),
        ensures
            final(self).read_on(old(self), r is Ok),
            (final(self).state(), parsed(r)) == p_define(old(self).chars@, old(self).state()),
        decreases old(self).remaining(), 14int,
    {
        self.parse_define()
    }

    /// `tuple [= tuple]`: at most one definition.
    #[verifier::spinoff_prover]
    #[verifier::rlimit(80)]
    fn parse_define(&mut self) -> (r: Result<Expression, ParseError>)
        requires
            old(self).wf(),
        ensures
            final(self).read_on(old(self), r is Ok),
            (final(self).state(), parsed(r)) == p_define(old(self).chars@, old(self).state()),
        decreases old(self).remaining(), 13int,
    {
        proof {
            reveal(p_define);
        }
        let expr = self.parse_tuple()?;
        match &self.token {
            Ok(Token::Equal) => {
                self.iter_token();
                let value = self.parse_tuple()?;
                Ok(Expression::Define(self.index, Box::new(expr), Box::new(value)))
            },
            Ok(_) => Ok(expr),
            Err(_) => Err(self.lex_error()),
        }
    }

    /// `or (, or)* [,]`: a single element stays as it is.
    #[verifier::spinoff_prover]
    #[verifier::rlimit(80)]
    fn parse_tuple(&mut self) -> (r: Result<Expression, ParseError>)
        requires
            old(self).wf(),
        ensures
            final(self).read_on(old(self), r is Ok),
            (final(self).state(), parsed(r)) == p_tuple(old(self).chars@, old(self).state()),
        decreases old(self).remaining(), 12int,
    {
        proof {
            reveal(p_tuple);
        }
        let ghost cs = self.chars@;
        let ghost st = self.state();
        let first = self.parse_or()?;
        if !matches!(self.token, Ok(Token::Comma)) {
            return Ok(first);
        }
        let mut elements: Vec<Expression> = Vec::new();
        let ghost fv = first@;
        elements.push(first);
        assert(expr_models(&elements) =~= seq![fv]);
        proof {
            crate::grammar::lemma_tuple_start(cs, st);
        }
        loop
            invariant
                self.read_on(old(self), true),
                cs == self.chars@,
                cs == old(self).chars@,
                st == old(self).state(),
                p_tuple(cs, st) == p_tuple_rest(cs, self.state(), expr_models(&elements)),
            decreases self.remaining(),
        {
            proof {
                reveal(p_tuple_rest);
            }
            match &self.token {
                Ok(Token::Comma) => {
                    self.iter_token();
                    match &self.token {
                        Ok(Token::RightParen) | Ok(Token::RightBrace) | Ok(Token::RightBracket) | Ok(
                            Token::EOF,
                        ) => {
                            return Ok(Expression::Tuple(self.index, elements));
                        },
                        Ok(_) => {},
                        Err(_) => return Err(self.lex_error()),
                    }
                    let element = self.parse_or()?;
                    let ghost before = expr_models(&elements);
                    let ghost ev = element@;
                    elements.push(element);
                    assert(expr_models(&elements) =~= before.push(ev));
                },
                Ok(_) => return Ok(Expression::Tuple(self.index, elements)),
                Err(_) => return Err(self.lex_error()),
            }
        }
    }

    /// `and (or and)*`, grouped from the left.
    #[verifier::spinoff_prover]
    #[verifier::rlimit(80)]
    fn parse_or(&mut self) -> (r: Result<Expression, ParseError>)
        requires
            old(self).wf(),
        ensures
            final(self).read_on(old(self), r is Ok),
            (final(self).state(), parsed(r)) == p_or(old(self).chars@, old(self).state()),
        decreases old(self).remaining(), 11int,
    {
        proof {
            reveal(p_or);
        }
        let ghost cs = self.chars@;
        let ghost st = self.state();
        let mut expr = self.parse_and()?;
        proof {
            crate::grammar::lemma_or_start(cs, st);
        }
        loop
            invariant
                self.read_on(old(self), true),
                cs == self.chars@,
                cs == old(self).chars@,
                st == old(self).state(),
                p_or(cs, st) == p_or_rest(cs, self.state(), expr@),
            decreases self.remaining(),
        {
            proof {
                reveal(p_or_rest);
            }
            if self.token.is_err() {
                return Err(self.lex_error());
            }
            if !self.keyword("or") {
                return Ok(expr);
            }
            self.iter_token();
            let rhs = self.parse_and()?;
            expr = Expression::Binary(self.index, BinaryOp::Or, Box::new(expr), Box::new(rhs));
        }
    }

    /// `comparison (and comparison)*`, grouped from the left.
    #[verifier::spinoff_prover]
    #[verifier::rlimit(80)]
    fn parse_and(&mut self) -> (r: Result<Expression, ParseError>)
        requires
            old(self).wf(),
        ensures
            final(self).read_on(old(self), r is Ok),
            (final(self).state(), parsed(r)) == p_and(old(self).chars@, old(self).state()),
        decreases old(self).remaining(), 10int,
    {
        proof {
            reveal(p_and);
        }
        let ghost cs = self.chars@;
        let ghost st = self.state();
        let mut expr = self.parse_comparison()?;
        proof {
            crate::grammar::lemma_and_start(cs, st);
        }
        loop
            invariant
                self.read_on(old(self), true),
                cs == self.chars@,
                cs == old(self).chars@,
                st == old(self).state(),
                p_and(cs, st) == p_and_rest(cs, self.state(), expr@),
            decreases self.remaining(),
        {
            proof {
                reveal(p_and_rest);
            }
            if self.token.is_err() {
                return Err(self.lex_error());
            }
            if !self.keyword("and") {
                return Ok(expr);
            }
            self.iter_token();
            let rhs = self.parse_comparison()?;
            expr = Expression::Binary(self.index, BinaryOp::And, Box::new(expr), Box::new(rhs));
        }
    }

    /// The comparison that the current token stands for, if any.
    fn comparison_op(&self) -> (r: Result<Option<BinaryOp>, ParseError>)
        ensures
            r == (match lexed_view(self.token) {
                Ok(t) => Ok(comparison_of(t)),
                Err(e) => Err(ParseError::LexError(e)),
            }),
    {
        match &self.token {
            Ok(Token::DoubleEqual) => Ok(Some(BinaryOp::Equal)),
            Ok(Token::BangEqual) => Ok(Some(BinaryOp::NotEqual)),
            Ok(Token::LessThan) => Ok(Some(BinaryOp::LessThan)),
            Ok(Token::GreaterThan) => Ok(Some(BinaryOp::GreaterThan)),
            Ok(Token::LessThanEqual) => Ok(Some(BinaryOp::LessThanEqual)),
            Ok(Token::GreaterThanEqual) => Ok(Some(BinaryOp::GreaterThanEqual)),
            Ok(_) => Ok(None),
            Err(e) => Err(ParseError::LexError(*e)),
        }
    }

    /// `addition (cmp addition)*`. A chain `a < b <= c` becomes
    /// `(a < b) and (b <= c)`, the middle operand shared by both.
    #[verifier::spinoff_prover]
    #[verifier::rlimit(80)]
    fn parse_comparison(&mut self) -> (r: Result<Expression, ParseError>)
        requires
            old(self).wf(),
        ensures
            final(self).read_on(old(self), r is Ok),
            (final(self).state(), parsed(r)) == p_comparison(old(self).chars@, old(self).state()),
        decreases old(self).remaining(), 9int,
    {
        proof {
            reveal(p_comparison);
        }
        let ghost cs = self.chars@;
        let ghost st = self.state();
        let mut expr = self.parse_addition()?;
        let first = match self.comparison_op()? {
            Some(op) => op,
            None => return Ok(expr),
        };
        self.iter_token();
        let mut prev = self.parse_addition()?;
        expr = Expression::Binary(self.index, first, Box::new(expr), Box::new(prev.copy()));
        proof {
            crate::grammar::lemma_comparison_start(cs, st, first);
        }
        loop
            invariant
                self.read_on(old(self), true),
                cs == self.chars@,
                cs == old(self).chars@,
                st == old(self).state(),
                p_comparison(cs, st) == p_comparison_rest(cs, self.state(), expr@, prev@),
            decreases self.remaining(),
        {
            proof {
                reveal(p_comparison_rest);
            }
            let ghost s0 = self.state();
            let ghost acc0 = expr@;
            let ghost prev0 = prev@;
            let op = match self.comparison_op()? {
                Some(op) => op,
                None => return Ok(expr),
            };
            self.iter_token();
            let next = self.parse_addition()?;
            let ghost nv = next@;
            let link = Expression::Binary(self.index, op, Box::new(prev), Box::new(next.copy()));
            assert(link@ == ExprView::Binary(self.index, op, Box::new(prev0), Box::new(nv)));
            expr = Expression::Binary(self.index, BinaryOp::And, Box::new(expr), Box::new(link));
            prev = next;
            proof {
                crate::grammar::lemma_comparison_step(cs, s0, acc0, prev0, op);
                let s2 = advance(cs, s0);
                assert(self.state() == p_addition(cs, s2).0);
                assert(prev@ == p_addition(cs, s2).1->Ok_0);
                assert(expr@ == ExprView::Binary(
                    self.index,
                    BinaryOp::And,
                    Box::new(acc0),
                    Box::new(ExprView::Binary(self.index, op, Box::new(prev0), Box::new(nv))),
                ));
                assert(p_comparison(cs, st) == p_comparison_rest(cs, self.state(), expr@, prev@));
            }
        }
    }

    /// `composition ((+ | - | +/-) composition)*`, grouped from the left;
    /// `x +/- y` is `x + (+/- y)`.
    #[verifier::spinoff_prover]
    #[verifier::rlimit(80)]
    fn parse_addition(&mut self) -> (r: Result<Expression, ParseError>)
        requires
            old(self).wf(),
        ensures
            final(self).read_on(old(self), r is Ok),
            (final(self).state(), parsed(r)) == p_addition(old(self).chars@, old(self).state()),
        decreases old(self).remaining(), 8int,
    {
        proof {
            reveal(p_addition);
        }
        let ghost cs = self.chars@;
        let ghost st = self.state();
        let mut expr = self.parse_composition()?;
        proof {
            crate::grammar::lemma_addition_start(cs, st);
        }
        loop
            invariant
                self.read_on(old(self), true),
                cs == self.chars@,
                cs == old(self).chars@,
                st == old(self).state(),
                p_addition(cs, st) == p_addition_rest(cs, self.state(), expr@),
            decreases self.remaining(),
        {
            proof {
                reveal(p_addition_rest);
            }
            let ghost s0 = self.state();
            let ghost acc0 = expr@;
            match &self.token {
                Ok(Token::Plus) => {
                    self.iter_token();
                    let rhs = self.parse_composition()?;
                    let ghost rv = rhs@;
                    expr = Expression::Binary(self.index, BinaryOp::Add, Box::new(expr), Box::new(rhs));
                    proof {
                        crate::grammar::lemma_addition_step(cs, s0, acc0);
                        let s2 = advance(cs, s0);
                        assert(s0.token == Ok::<TokenView, LexError>(TokenView::Plus));
                        assert(self.state() == p_composition(cs, s2).0);
                        assert(rv == p_composition(cs, s2).1->Ok_0);
                        assert(expr@ == crate::grammar::addition_node(s0.token->Ok_0, self.index, acc0, rv));
                        assert(p_addition_rest(cs, s0, acc0) == p_addition_rest(cs, self.state(), expr@));
                        assert(p_addition(cs, st) == p_addition_rest(cs, self.state(), expr@));
                    }
                },
                Ok(Token::Minus) => {
                    self.iter_token();
                    let rhs = self.parse_composition()?;
                    let ghost rv = rhs@;
                    assert(s0.token == Ok::<TokenView, LexError>(TokenView::Minus));
                    expr = Expression::Binary(
                        self.index,
                        BinaryOp::Subtract,
                        Box::new(expr),
                        Box::new(rhs),
                    );
                    proof {
                        crate::grammar::lemma_addition_step(cs, s0, acc0);
                        let s2 = advance(cs, s0);
                        assert(self.state() == p_composition(cs, s2).0);
                        assert(rv == p_composition(cs, s2).1->Ok_0);
                        assert(expr@ == crate::grammar::addition_node(s0.token->Ok_0, self.index, acc0, rv));
                        assert(p_addition(cs, st) == p_addition_rest(cs, self.state(), expr@));
                    }
                },
                Ok(Token::PlusOrMinus) => {
                    self.iter_token();
                    let rhs = self.parse_composition()?;
                    let ghost rv = rhs@;
                    assert(s0.token == Ok::<TokenView, LexError>(TokenView::PlusOrMinus));
                    let both = Expression::Unary(self.index, UnaryOp::PlusMinus, Box::new(rhs));
                    assert(both@ == ExprView::Unary(self.index, UnaryOp::PlusMinus, Box::new(rv)));
                    expr = Expression::Binary(self.index, BinaryOp::Add, Box::new(expr), Box::new(both));
                    proof {
                        crate::grammar::lemma_addition_step(cs, s0, acc0);
                        let s2 = advance(cs, s0);
                        assert(self.state() == p_composition(cs, s2).0);
                        assert(rv == p_composition(cs, s2).1->Ok_0);
                        assert(expr@ == crate::grammar::addition_node(s0.token->Ok_0, self.index, acc0, rv));
                        assert(p_addition(cs, st) == p_addition_rest(cs, self.state(), expr@));
                    }
                },
                Ok(_) => return Ok(expr),
                Err(_) => return Err(self.lex_error()),
            }
        }
    }

    /// `multiplication [. composition]`, grouped from the right.
    #[verifier::spinoff_prover]
    #[verifier::rlimit(80)]
    fn parse_composition(&mut self) -> (r: Result<Expression, ParseError>)
        requires
            old(self).wf(),
        ensures
            final(self).read_on(old(self), r is Ok),
            (final(self).state(), parsed(r)) == p_composition(old(self).chars@, old(self).state()),
        decreases old(self).remaining(), 7int,
    {
        proof {
            reveal(p_composition);
        }
        let expr = self.parse_multiplication()?;
        match &self.token {
            Ok(Token::Dot) => {
                self.iter_token();
                let rhs = self.parse_composition()?;
                Ok(Expression::Binary(self.index, BinaryOp::Compose, Box::new(expr), Box::new(rhs)))
            },
            Ok(_) => Ok(expr),
            Err(_) => Err(self.lex_error()),
        }
    }

    /// `power ((* | /) power)*`, grouped from the left.
    #[verifier::spinoff_prover]
    #[verifier::rlimit(80)]
    fn parse_multiplication(&mut self) -> (r: Result<Expression, ParseError>)
        requires
            old(self).wf(),
        ensures
            final(self).read_on(old(self), r is Ok),
            (final(self).state(), parsed(r)) == p_multiplication(
                old(self).chars@,
                old(self).state(),
            ),
        decreases old(self).remaining(), 6int,
    {
        proof {
            reveal(p_multiplication);
        }
        let ghost cs = self.chars@;
        let ghost st = self.state();
        let mut expr = self.parse_power()?;
        proof {
            crate::grammar::lemma_multiplication_start(cs, st);
        }
        loop
            invariant
                self.read_on(old(self), true),
                cs == self.chars@,
                cs == old(self).chars@,
                st == old(self).state(),
                p_multiplication(cs, st) == p_multiplication_rest(cs, self.state(), expr@),
            decreases self.remaining(),
        {
            proof {
                reveal(p_multiplication_rest);
            }
            let op = match &self.token {
                Ok(Token::Star) => BinaryOp::Multiply,
                Ok(Token::Slash) => BinaryOp::Divide,
                Ok(_) => return Ok(expr),
                Err(_) => return Err(self.lex_error()),
            };
            self.iter_token();
            let rhs = self.parse_power()?;
            expr = Expression::Binary(self.index, op, Box::new(expr), Box::new(rhs));
        }
    }

    /// `prefix [^ power]`, grouped from the right.
    #[verifier::spinoff_prover]
    #[verifier::rlimit(80)]
    fn parse_power(&mut self) -> (r: Result<Expression, ParseError>)
        requires
            old(self).wf(),
        ensures
            final(self).read_on(old(self), r is Ok),
            (final(self).state(), parsed(r)) == p_power(old(self).chars@, old(self).state()),
        decreases old(self).remaining(), 5int,
    {
        proof {
            reveal(p_power);
        }
        let expr = self.parse_prefix()?;
        match &self.token {
            Ok(Token::Caret) => {
                self.iter_token();
                let rhs = self.parse_power()?;
                Ok(Expression::Binary(self.index, BinaryOp::Power, Box::new(expr), Box::new(rhs)))
            },
            Ok(_) => Ok(expr),
            Err(_) => Err(self.lex_error()),
        }
    }

    /// `- prefix`, `+/- prefix`, `not prefix`, or an application chain.
    #[verifier::spinoff_prover]
    #[verifier::rlimit(80)]
    fn parse_prefix(&mut self) -> (r: Result<Expression, ParseError>)
        requires
            old(self).wf(),
        ensures
            final(self).read_on(old(self), r is Ok),
            (final(self).state(), parsed(r)) == p_prefix(old(self).chars@, old(self).state()),
        decreases old(self).remaining(), 4int,
    {
        proof {
            reveal(p_prefix);
        }
        let op = match &self.token {
            Ok(Token::Minus) => UnaryOp::Negate,
            Ok(Token::PlusOrMinus) => UnaryOp::PlusMinus,
            Ok(_) => {
                if self.keyword("not") {
                    UnaryOp::Not
                } else {
                    return self.parse_implicit_multiplication();
                }
            },
            Err(_) => return Err(self.lex_error()),
        };
        self.iter_token();
        let expr = self.parse_prefix()?;
        Ok(Expression::Unary(self.index, op, Box::new(expr)))
    }

    /// Whether the current token can begin an atom: a numeral, a name that
    /// is not an operator word, or `(`.
    fn starts_atom(&self) -> (r: bool)
        ensures
            r == starts_atom(self.state()),
    {
        match &self.token {
            Ok(Token::Number(_)) | Ok(Token::LeftParen) => true,
            Ok(Token::Identifier(_)) => !(self.keyword("and") || self.keyword("or") || self.keyword(
                "not",
            )),
            _ => false,
        }
    }

    /// `postfix postfix*`: juxtaposition, grouped from the left. Whether
    /// `f x` applies a function or multiplies is decided on evaluation.
    #[verifier::spinoff_prover]
    #[verifier::rlimit(80)]
    fn parse_implicit_multiplication(&mut self) -> (r: Result<Expression, ParseError>)
        requires
            old(self).wf(),
        ensures
            final(self).read_on(old(self), r is Ok),
            (final(self).state(), parsed(r)) == p_implicit(old(self).chars@, old(self).state()),
        decreases old(self).remaining(), 3int,
    {
        proof {
            reveal(p_implicit);
        }
        let ghost cs = self.chars@;
        let ghost st = self.state();
        let mut expr = self.parse_postfix()?;
        proof {
            crate::grammar::lemma_implicit_start(cs, st);
        }
        loop
            invariant
                self.read_on(old(self), true),
                cs == self.chars@,
                cs == old(self).chars@,
                st == old(self).state(),
                p_implicit(cs, st) == p_implicit_rest(cs, self.state(), expr@),
            decreases self.remaining(),
        {
            proof {
                reveal(p_implicit_rest);
            }
            if self.token.is_err() {
                return Err(self.lex_error());
            }
            if !self.starts_atom() {
                return Ok(expr);
            }
            let rhs = self.parse_postfix()?;
            expr = Expression::Binary(self.index, BinaryOp::Call, Box::new(expr), Box::new(rhs));
        }
    }

    /// `atom (! | %)*`, applied from the left.
    #[verifier::spinoff_prover]
    #[verifier::rlimit(80)]
    fn parse_postfix(&mut self) -> (r: Result<Expression, ParseError>)
        requires
            old(self).wf(),
        ensures
            final(self).read_on(old(self), r is Ok),
            (final(self).state(), parsed(r)) == p_postfix(old(self).chars@, old(self).state()),
        decreases old(self).remaining(), 2int,
    {
        proof {
            reveal(p_postfix);
        }
        let ghost cs = self.chars@;
        let ghost st = self.state();
        let mut expr = self.parse_atom()?;
        loop
            invariant
                self.read_on(old(self), true),
                cs == self.chars@,
                cs == old(self).chars@,
                st == old(self).state(),
                p_postfix(cs, st) == p_postfix_rest(cs, self.state(), expr@),
            decreases self.remaining(),
        {
            proof {
                reveal(p_postfix_rest);
            }
            let op = match &self.token {
                Ok(Token::Bang) => UnaryOp::Factorial,
                Ok(Token::Percent) => UnaryOp::Percent,
                Ok(_) => return Ok(expr),
                Err(_) => return Err(self.lex_error()),
            };
            expr = Expression::Unary(self.index, op, Box::new(expr));
            self.iter_token();
        }
    }

    /// A numeral, `true`, `false`, the imaginary unit `i`, a name, or a
    /// parenthesized expression.
    #[verifier::spinoff_prover]
    #[verifier::rlimit(80)]
    fn parse_atom(&mut self) -> (r: Result<Expression, ParseError>)
        requires
            old(self).wf(),
        ensures
            final(self).read_on(old(self), r is Ok),
            (final(self).state(), parsed(r)) == p_atom(old(self).chars@, old(self).state()),
        decreases old(self).remaining(), 1int,
    {
        proof {
            reveal(p_atom);
        }
        let expr = match &self.token {
            Ok(Token::Number(n)) => {
                let (a, b) = numeral_value(n)?;
                Expression::Number(self.index, a, b)
            },
            Ok(Token::Identifier(w)) => {
                if self.keyword("true") {
                    Expression::Boolean(self.index, true)
                } else if self.keyword("false") {
                    Expression::Boolean(self.index, false)
                } else if self.keyword("i") {
                    Expression::ImaginaryConstant(self.index)
                } else if self.keyword("and") || self.keyword("or") || self.keyword("not") {
                    return Err(ParseError::NumberExpected);
                } else {
                    Expression::Variable(self.index, w.clone())
                }
            },
            Ok(Token::LeftParen) => self.parse_parentheses()?,
            Ok(_) => return Err(ParseError::NumberExpected),
            Err(_) => return Err(self.lex_error()),
        };
        self.iter_token();
        Ok(expr)
    }

    /// `( expression )`: fails when the closing parenthesis is missing.
    #[verifier::spinoff_prover]
    #[verifier::rlimit(80)]
    fn parse_parentheses(&mut self) -> (r: Result<Expression, ParseError>)
        requires
            old(self).wf(),
            old(self).token matches Ok(Token::LeftParen),
        ensures
            final(self).read_on(old(self), false),
            r is Ok ==> final(self).token matches Ok(Token::RightParen),
            r is Ok ==> final(self).remaining() < old(self).remaining(),
            (final(self).state(), parsed(r)) == p_parentheses(old(self).chars@, old(self).state()),
        decreases old(self).remaining(), 0int,
    {
        proof {
            reveal(p_parentheses);
        }
        self.iter_token();
        let expr = self.parse()?;
        if matches!(self.token, Ok(Token::RightParen)) {
            Ok(expr)
        } else {
            Err(ParseError::MissingClosingDelimiter)
        }
    }
}

/// The model of a parse result.
pub open spec fn parsed(r: Result<Expression, ParseError>) -> Result<ExprView, ParseError> {
    match r {
        Ok(e) => Ok(e@),
        Err(e) => Err(e),
    }
}

} // verus!

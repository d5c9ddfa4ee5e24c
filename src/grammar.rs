//! The grammar as spec functions over the parser's state: each rule gives
//! the state after it and the expression read, or the first error.
use vstd::prelude::*;
use crate::lexer::{lex, lemma_lex_progress};
use crate::nodes::{BinaryOp, ExprView, ParseError, UnaryOp};
use crate::parser::{dividend, fraction_digits, numeral_chars, pow10};
use crate::tokens::{LexError, TokenView};

verus! {

/// Where the parser stands: the index after the current token, and the
/// current token.
pub struct PState {
    pub index: int,
    pub token: Result<TokenView, LexError>,
}

pub type Parsed = (PState, Result<ExprView, ParseError>);

pub open spec fn at_eof(st: PState) -> bool {
    st.token == Ok::<TokenView, LexError>(TokenView::EOF)
}

/// The index lies in the input, and the input is used up at `EOF`.
pub open spec fn valid(cs: Seq<char>, st: PState) -> bool {
    &&& 0 <= st.index <= cs.len()
    &&& (at_eof(st) ==> st.index == cs.len())
}

/// Input left, counting the current token.
pub open spec fn rest(cs: Seq<char>, st: PState) -> nat {
    (cs.len() - st.index + if at_eof(st) {
        0int
    } else {
        1int
    }) as nat
}

/// The state after reading the next token.
pub open spec fn advance(cs: Seq<char>, st: PState) -> PState {
    let (t, j) = lex(cs, st.index);
    PState { index: j, token: t }
}

/// `s1` is a valid state with no more input left than `st`. Every rule
/// leaves such a state (the parser's methods prove it); the rules test it
/// only so that their termination is evident.
pub open spec fn behind(cs: Seq<char>, st: PState, s1: PState) -> bool {
    valid(cs, s1) && rest(cs, s1) <= rest(cs, st)
}

pub proof fn lemma_advance(cs: Seq<char>, st: PState)
    requires
        valid(cs, st),
    ensures
        valid(cs, advance(cs, st)),
        rest(cs, advance(cs, st)) <= rest(cs, st),
        !at_eof(st) ==> rest(cs, advance(cs, st)) < rest(cs, st),
{
    lemma_lex_progress(cs, st.index);
}

pub open spec fn lex_error(st: PState) -> ParseError {
    ParseError::LexError(st.token->Err_0)
}

pub open spec fn is_name(st: PState, w: Seq<char>) -> bool {
    st.token == Ok::<TokenView, LexError>(TokenView::Identifier(w))
}

/// The value of a numeral, when it has one in `isize`.
pub open spec fn numeral(t: Seq<char>) -> Result<(isize, isize), ParseError> {
    if numeral_chars(t) && dividend(t) <= isize::MAX && pow10(fraction_digits(t)) <= isize::MAX {
        Ok((dividend(t) as isize, pow10(fraction_digits(t)) as isize))
    } else {
        Err(ParseError::InvalidNumber)
    }
}

/// `tuple [= tuple]`.
#[verifier::opaque]
pub open spec fn p_define(cs: Seq<char>, st: PState) -> Parsed
    decreases rest(cs, st), 30int,
    when valid(cs, st)
{
    let (s1, r1) = p_tuple(cs, st);
    if !behind(cs, st, s1) {
        (s1, Err(ParseError::NumberExpected))
    } else {
        match r1 {
            Err(e) => (s1, Err(e)),
            Ok(lhs) => match s1.token {
                Ok(TokenView::Equal) => {
                    proof {
                        lemma_advance(cs, s1);
                    }
                    let s2 = advance(cs, s1);
                    let (s3, r3) = p_tuple(cs, s2);
                    match r3 {
                        Err(e) => (s3, Err(e)),
                        Ok(rhs) => (s3, Ok(ExprView::Define(s3.index as usize, Box::new(lhs), Box::new(rhs)))),
                    }
                },
                Ok(_) => (s1, Ok(lhs)),
                Err(_) => (s1, Err(lex_error(s1))),
            },
        }
    }
}

/// `or (, or)* [,]`; a single element is no tuple.
#[verifier::opaque]
pub open spec fn p_tuple(cs: Seq<char>, st: PState) -> Parsed
    decreases rest(cs, st), 29int,
    when valid(cs, st)
{
    let (s1, r1) = p_or(cs, st);
    if !behind(cs, st, s1) {
        (s1, Err(ParseError::NumberExpected))
    } else {
        match r1 {
            Err(e) => (s1, Err(e)),
            Ok(first) => if s1.token == Ok::<TokenView, LexError>(TokenView::Comma) {
                p_tuple_rest(cs, s1, seq![first])
            } else {
                (s1, Ok(first))
            },
        }
    }
}

pub open spec fn closes(st: PState) -> bool {
    st.token == Ok::<TokenView, LexError>(TokenView::RightParen) || st.token == Ok::<
        TokenView,
        LexError,
    >(TokenView::RightBrace) || st.token == Ok::<TokenView, LexError>(TokenView::RightBracket)
        || at_eof(st)
}

#[verifier::opaque]
pub open spec fn p_tuple_rest(cs: Seq<char>, st: PState, elements: Seq<ExprView>) -> Parsed
    decreases rest(cs, st), 28int,
    when valid(cs, st)
{
    match st.token {
        Ok(TokenView::Comma) => {
            proof {
                lemma_advance(cs, st);
            }
            let s2 = advance(cs, st);
            if closes(s2) {
                (s2, Ok(ExprView::Tuple(s2.index as usize, elements)))
            } else if s2.token is Err {
                (s2, Err(lex_error(s2)))
            } else {
                let (s3, r3) = p_or(cs, s2);
                if !behind(cs, s2, s3) {
                    (s3, Err(ParseError::NumberExpected))
                } else {
                    match r3 {
                        Err(e) => (s3, Err(e)),
                        Ok(e) => p_tuple_rest(cs, s3, elements.push(e)),
                    }
                }
            }
        },
        Ok(_) => (st, Ok(ExprView::Tuple(st.index as usize, elements))),
        Err(_) => (st, Err(lex_error(st))),
    }
}

/// `and (or and)*`.
#[verifier::opaque]
pub open spec fn p_or(cs: Seq<char>, st: PState) -> Parsed
    decreases rest(cs, st), 27int,
    when valid(cs, st)
{
    let (s1, r1) = p_and(cs, st);
    if !behind(cs, st, s1) {
        (s1, Err(ParseError::NumberExpected))
    } else {
        match r1 {
            Err(e) => (s1, Err(e)),
            Ok(e) => p_or_rest(cs, s1, e),
        }
    }
}

#[verifier::opaque]
pub open spec fn p_or_rest(cs: Seq<char>, st: PState, acc: ExprView) -> Parsed
    decreases rest(cs, st), 26int,
    when valid(cs, st)
{
    if st.token is Err {
        (st, Err(lex_error(st)))
    } else if !is_name(st, "or"@) {
        (st, Ok(acc))
    } else {
        proof {
            lemma_advance(cs, st);
        }
        let s2 = advance(cs, st);
        let (s3, r3) = p_and(cs, s2);
        if !behind(cs, s2, s3) {
            (s3, Err(ParseError::NumberExpected))
        } else {
            match r3 {
                Err(e) => (s3, Err(e)),
                Ok(e) => p_or_rest(
                    cs,
                    s3,
                    ExprView::Binary(s3.index as usize, BinaryOp::Or, Box::new(acc), Box::new(e)),
                ),
            }
        }
    }
}

/// `comparison (and comparison)*`.
#[verifier::opaque]
pub open spec fn p_and(cs: Seq<char>, st: PState) -> Parsed
    decreases rest(cs, st), 25int,
    when valid(cs, st)
{
    let (s1, r1) = p_comparison(cs, st);
    if !behind(cs, st, s1) {
        (s1, Err(ParseError::NumberExpected))
    } else {
        match r1 {
            Err(e) => (s1, Err(e)),
            Ok(e) => p_and_rest(cs, s1, e),
        }
    }
}

#[verifier::opaque]
pub open spec fn p_and_rest(cs: Seq<char>, st: PState, acc: ExprView) -> Parsed
    decreases rest(cs, st), 24int,
    when valid(cs, st)
{
    if st.token is Err {
        (st, Err(lex_error(st)))
    } else if !is_name(st, "and"@) {
        (st, Ok(acc))
    } else {
        proof {
            lemma_advance(cs, st);
        }
        let s2 = advance(cs, st);
        let (s3, r3) = p_comparison(cs, s2);
        if !behind(cs, s2, s3) {
            (s3, Err(ParseError::NumberExpected))
        } else {
            match r3 {
                Err(e) => (s3, Err(e)),
                Ok(e) => p_and_rest(
                    cs,
                    s3,
                    ExprView::Binary(s3.index as usize, BinaryOp::And, Box::new(acc), Box::new(e)),
                ),
            }
        }
    }
}

/// The comparison a token stands for.
pub open spec fn comparison_of(t: TokenView) -> Option<BinaryOp> {
    match t {
        TokenView::DoubleEqual => Some(BinaryOp::Equal),
        TokenView::BangEqual => Some(BinaryOp::NotEqual),
        TokenView::LessThan => Some(BinaryOp::LessThan),
        TokenView::GreaterThan => Some(BinaryOp::GreaterThan),
        TokenView::LessThanEqual => Some(BinaryOp::LessThanEqual),
        TokenView::GreaterThanEqual => Some(BinaryOp::GreaterThanEqual),
        _ => None,
    }
}

/// `addition (cmp addition)*`: `a < b <= c` is `(a < b) and (b <= c)`.
#[verifier::opaque]
pub open spec fn p_comparison(cs: Seq<char>, st: PState) -> Parsed
    decreases rest(cs, st), 23int,
    when valid(cs, st)
{
    let (s1, r1) = p_addition(cs, st);
    if !behind(cs, st, s1) {
        (s1, Err(ParseError::NumberExpected))
    } else {
        match r1 {
            Err(e) => (s1, Err(e)),
            Ok(lhs) => match s1.token {
                Err(_) => (s1, Err(lex_error(s1))),
                Ok(t) => match comparison_of(t) {
                    None => (s1, Ok(lhs)),
                    Some(op) => {
                        proof {
                            lemma_advance(cs, s1);
                        }
                        let s2 = advance(cs, s1);
                        let (s3, r3) = p_addition(cs, s2);
                        if !behind(cs, s2, s3) {
                            (s3, Err(ParseError::NumberExpected))
                        } else {
                            match r3 {
                                Err(e) => (s3, Err(e)),
                                Ok(rhs) => p_comparison_rest(
                                    cs,
                                    s3,
                                    ExprView::Binary(s3.index as usize, op, Box::new(lhs), Box::new(rhs)),
                                    rhs,
                                ),
                            }
                        }
                    },
                },
            },
        }
    }
}

#[verifier::opaque]
pub open spec fn p_comparison_rest(cs: Seq<char>, st: PState, acc: ExprView, prev: ExprView) -> Parsed
    decreases rest(cs, st), 22int,
    when valid(cs, st)
{
    match st.token {
        Err(_) => (st, Err(lex_error(st))),
        Ok(t) => match comparison_of(t) {
            None => (st, Ok(acc)),
            Some(op) => {
                proof {
                    lemma_advance(cs, st);
                }
                let s2 = advance(cs, st);
                let (s3, r3) = p_addition(cs, s2);
                if !behind(cs, s2, s3) {
                    (s3, Err(ParseError::NumberExpected))
                } else {
                    match r3 {
                        Err(e) => (s3, Err(e)),
                        Ok(next) => {
                            let i = s3.index as usize;
                            let link = ExprView::Binary(i, op, Box::new(prev), Box::new(next));
                            p_comparison_rest(
                                cs,
                                s3,
                                ExprView::Binary(i, BinaryOp::And, Box::new(acc), Box::new(link)),
                                next,
                            )
                        },
                    }
                }
            },
        },
    }
}

/// `acc t rhs` for `t` one of `+`, `-`, `+/-`; `x +/- y` is `x + (+/- y)`.
pub open spec fn addition_node(t: TokenView, i: usize, acc: ExprView, rhs: ExprView) -> ExprView {
    if t is Plus {
        ExprView::Binary(i, BinaryOp::Add, Box::new(acc), Box::new(rhs))
    } else if t is Minus {
        ExprView::Binary(i, BinaryOp::Subtract, Box::new(acc), Box::new(rhs))
    } else {
        ExprView::Binary(
            i,
            BinaryOp::Add,
            Box::new(acc),
            Box::new(ExprView::Unary(i, UnaryOp::PlusMinus, Box::new(rhs))),
        )
    }
}

/// `composition ((+ | - | +/-) composition)*`.
#[verifier::opaque]
pub open spec fn p_addition(cs: Seq<char>, st: PState) -> Parsed
    decreases rest(cs, st), 21int,
    when valid(cs, st)
{
    let (s1, r1) = p_composition(cs, st);
    if !behind(cs, st, s1) {
        (s1, Err(ParseError::NumberExpected))
    } else {
        match r1 {
            Err(e) => (s1, Err(e)),
            Ok(e) => p_addition_rest(cs, s1, e),
        }
    }
}

#[verifier::opaque]
pub open spec fn p_addition_rest(cs: Seq<char>, st: PState, acc: ExprView) -> Parsed
    decreases rest(cs, st), 20int,
    when valid(cs, st)
{
    match st.token {
        Err(_) => (st, Err(lex_error(st))),
        Ok(t) => if t is Plus || t is Minus || t is PlusOrMinus {
            proof {
                lemma_advance(cs, st);
            }
            let s2 = advance(cs, st);
            let (s3, r3) = p_composition(cs, s2);
            if !behind(cs, s2, s3) {
                (s3, Err(ParseError::NumberExpected))
            } else {
                match r3 {
                    Err(e) => (s3, Err(e)),
                    Ok(rhs) => p_addition_rest(cs, s3, addition_node(t, s3.index as usize, acc, rhs)),
                }
            }
        } else {
            (st, Ok(acc))
        },
    }
}

/// `multiplication [. composition]`.
#[verifier::opaque]
pub open spec fn p_composition(cs: Seq<char>, st: PState) -> Parsed
    decreases rest(cs, st), 19int,
    when valid(cs, st)
{
    let (s1, r1) = p_multiplication(cs, st);
    if !behind(cs, st, s1) {
        (s1, Err(ParseError::NumberExpected))
    } else {
        match r1 {
            Err(e) => (s1, Err(e)),
            Ok(lhs) => match s1.token {
                Ok(TokenView::Dot) => {
                    proof {
                        lemma_advance(cs, s1);
                    }
                    let s2 = advance(cs, s1);
                    let (s3, r3) = p_composition(cs, s2);
                    match r3 {
                        Err(e) => (s3, Err(e)),
                        Ok(rhs) => (
                            s3,
                            Ok(ExprView::Binary(s3.index as usize, BinaryOp::Compose, Box::new(lhs), Box::new(rhs))),
                        ),
                    }
                },
                Ok(_) => (s1, Ok(lhs)),
                Err(_) => (s1, Err(lex_error(s1))),
            },
        }
    }
}

/// `power ((* | /) power)*`.
#[verifier::opaque]
pub open spec fn p_multiplication(cs: Seq<char>, st: PState) -> Parsed
    decreases rest(cs, st), 18int,
    when valid(cs, st)
{
    let (s1, r1) = p_power(cs, st);
    if !behind(cs, st, s1) {
        (s1, Err(ParseError::NumberExpected))
    } else {
        match r1 {
            Err(e) => (s1, Err(e)),
            Ok(e) => p_multiplication_rest(cs, s1, e),
        }
    }
}

#[verifier::opaque]
pub open spec fn p_multiplication_rest(cs: Seq<char>, st: PState, acc: ExprView) -> Parsed
    decreases rest(cs, st), 17int,
    when valid(cs, st)
{
    match st.token {
        Err(_) => (st, Err(lex_error(st))),
        Ok(t) => if t is Star || t is Slash {
            proof {
                lemma_advance(cs, st);
            }
            let s2 = advance(cs, st);
            let (s3, r3) = p_power(cs, s2);
            if !behind(cs, s2, s3) {
                (s3, Err(ParseError::NumberExpected))
            } else {
                match r3 {
                    Err(e) => (s3, Err(e)),
                    Ok(rhs) => {
                        let op = if t is Star {
                            BinaryOp::Multiply
                        } else {
                            BinaryOp::Divide
                        };
                        p_multiplication_rest(
                            cs,
                            s3,
                            ExprView::Binary(s3.index as usize, op, Box::new(acc), Box::new(rhs)),
                        )
                    },
                }
            }
        } else {
            (st, Ok(acc))
        },
    }
}

/// `prefix [^ power]`.
#[verifier::opaque]
pub open spec fn p_power(cs: Seq<char>, st: PState) -> Parsed
    decreases rest(cs, st), 16int,
    when valid(cs, st)
{
    let (s1, r1) = p_prefix(cs, st);
    if !behind(cs, st, s1) {
        (s1, Err(ParseError::NumberExpected))
    } else {
        match r1 {
            Err(e) => (s1, Err(e)),
            Ok(lhs) => match s1.token {
                Ok(TokenView::Caret) => {
                    proof {
                        lemma_advance(cs, s1);
                    }
                    let s2 = advance(cs, s1);
                    let (s3, r3) = p_power(cs, s2);
                    match r3 {
                        Err(e) => (s3, Err(e)),
                        Ok(rhs) => (
                            s3,
                            Ok(ExprView::Binary(s3.index as usize, BinaryOp::Power, Box::new(lhs), Box::new(rhs))),
                        ),
                    }
                },
                Ok(_) => (s1, Ok(lhs)),
                Err(_) => (s1, Err(lex_error(s1))),
            },
        }
    }
}

/// The prefix operator a token stands for.
pub open spec fn prefix_of(st: PState) -> Option<UnaryOp> {
    if st.token == Ok::<TokenView, LexError>(TokenView::Minus) {
        Some(UnaryOp::Negate)
    } else if st.token == Ok::<TokenView, LexError>(TokenView::PlusOrMinus) {
        Some(UnaryOp::PlusMinus)
    } else if is_name(st, "not"@) {
        Some(UnaryOp::Not)
    } else {
        None
    }
}

/// `(- | +/- | not) prefix`, or an application chain.
#[verifier::opaque]
pub open spec fn p_prefix(cs: Seq<char>, st: PState) -> Parsed
    decreases rest(cs, st), 15int,
    when valid(cs, st)
{
    if st.token is Err {
        (st, Err(lex_error(st)))
    } else {
        match prefix_of(st) {
            Some(op) => {
                proof {
                    lemma_advance(cs, st);
                }
                let s2 = advance(cs, st);
                let (s3, r3) = p_prefix(cs, s2);
                match r3 {
                    Err(e) => (s3, Err(e)),
                    Ok(e) => (s3, Ok(ExprView::Unary(s3.index as usize, op, Box::new(e)))),
                }
            },
            None => p_implicit(cs, st),
        }
    }
}

/// The current token can begin an atom.
pub open spec fn starts_atom(st: PState) -> bool {
    match st.token {
        Ok(TokenView::Number(_)) => true,
        Ok(TokenView::LeftParen) => true,
        Ok(TokenView::Identifier(w)) => !(w == "and"@ || w == "or"@ || w == "not"@),
        _ => false,
    }
}

/// `postfix postfix*`, each juxtaposition an application.
#[verifier::opaque]
pub open spec fn p_implicit(cs: Seq<char>, st: PState) -> Parsed
    decreases rest(cs, st), 14int,
    when valid(cs, st)
{
    let (s1, r1) = p_postfix(cs, st);
    if !behind(cs, st, s1) {
        (s1, Err(ParseError::NumberExpected))
    } else {
        match r1 {
            Err(e) => (s1, Err(e)),
            Ok(e) => p_implicit_rest(cs, s1, e),
        }
    }
}

#[verifier::opaque]
pub open spec fn p_implicit_rest(cs: Seq<char>, st: PState, acc: ExprView) -> Parsed
    decreases rest(cs, st), 13int,
    when valid(cs, st)
{
    if st.token is Err {
        (st, Err(lex_error(st)))
    } else if !starts_atom(st) {
        (st, Ok(acc))
    } else {
        let (s1, r1) = p_postfix(cs, st);
        if !behind(cs, st, s1) {
            (s1, Err(ParseError::NumberExpected))
        } else {
            match r1 {
                Err(e) => (s1, Err(e)),
                Ok(e) => if rest(cs, s1) < rest(cs, st) {
                    p_implicit_rest(
                        cs,
                        s1,
                        ExprView::Binary(s1.index as usize, BinaryOp::Call, Box::new(acc), Box::new(e)),
                    )
                } else {
                    (s1, Err(ParseError::NumberExpected))
                },
            }
        }
    }
}

/// `atom (! | %)*`.
#[verifier::opaque]
pub open spec fn p_postfix(cs: Seq<char>, st: PState) -> Parsed
    decreases rest(cs, st), 12int,
    when valid(cs, st)
{
    let (s1, r1) = p_atom(cs, st);
    if !behind(cs, st, s1) {
        (s1, Err(ParseError::NumberExpected))
    } else {
        match r1 {
            Err(e) => (s1, Err(e)),
            Ok(e) => p_postfix_rest(cs, s1, e),
        }
    }
}

#[verifier::opaque]
pub open spec fn p_postfix_rest(cs: Seq<char>, st: PState, acc: ExprView) -> Parsed
    decreases rest(cs, st), 11int,
    when valid(cs, st)
{
    match st.token {
        Ok(TokenView::Bang) => {
            proof {
                lemma_advance(cs, st);
            }
            p_postfix_rest(
                cs,
                advance(cs, st),
                ExprView::Unary(st.index as usize, UnaryOp::Factorial, Box::new(acc)),
            )
        },
        Ok(TokenView::Percent) => {
            proof {
                lemma_advance(cs, st);
            }
            p_postfix_rest(
                cs,
                advance(cs, st),
                ExprView::Unary(st.index as usize, UnaryOp::Percent, Box::new(acc)),
            )
        },
        Ok(_) => (st, Ok(acc)),
        Err(_) => (st, Err(lex_error(st))),
    }
}

/// A numeral, `true`, `false`, `i`, a name, or `( define )`.
#[verifier::opaque]
pub open spec fn p_atom(cs: Seq<char>, st: PState) -> Parsed
    decreases rest(cs, st), 10int,
    when valid(cs, st)
{
    let i = st.index as usize;
    match st.token {
        Ok(TokenView::Number(t)) => match numeral(t) {
            Ok((a, b)) => (advance(cs, st), Ok(ExprView::Number(i, a, b))),
            Err(e) => (st, Err(e)),
        },
        Ok(TokenView::Identifier(w)) => if w == "true"@ {
            (advance(cs, st), Ok(ExprView::Boolean(i, true)))
        } else if w == "false"@ {
            (advance(cs, st), Ok(ExprView::Boolean(i, false)))
        } else if w == "i"@ {
            (advance(cs, st), Ok(ExprView::ImaginaryConstant(i)))
        } else if w == "and"@ || w == "or"@ || w == "not"@ {
            (st, Err(ParseError::NumberExpected))
        } else {
            (advance(cs, st), Ok(ExprView::Variable(i, w)))
        },
        Ok(TokenView::LeftParen) => {
            let (s1, r1) = p_parentheses(cs, st);
            match r1 {
                Err(e) => (s1, Err(e)),
                Ok(e) => if valid(cs, s1) {
                    (advance(cs, s1), Ok(e))
                } else {
                    (s1, Err(ParseError::NumberExpected))
                },
            }
        },
        Ok(_) => (st, Err(ParseError::NumberExpected)),
        Err(_) => (st, Err(lex_error(st))),
    }
}

/// `( define )`, from the opening parenthesis up to the closing one, which
/// stays the current token.
#[verifier::opaque]
pub open spec fn p_parentheses(cs: Seq<char>, st: PState) -> Parsed
    decreases rest(cs, st), 9int,
    when valid(cs, st)
{
    proof {
        lemma_advance(cs, st);
    }
    if at_eof(st) {
        (st, Err(ParseError::MissingClosingDelimiter))
    } else {
        let (s1, r1) = p_define(cs, advance(cs, st));
        match r1 {
            Err(e) => (s1, Err(e)),
            Ok(e) => if s1.token == Ok::<TokenView, LexError>(TokenView::RightParen) {
                (s1, Ok(e))
            } else {
                (s1, Err(ParseError::MissingClosingDelimiter))
            },
        }
    }
}

/// What parsing a whole line gives: its first expression, or the first error.
pub open spec fn parse_line(cs: Seq<char>) -> Result<ExprView, ParseError> {
    let (t, j) = lex(cs, 0);
    p_define(cs, PState { index: j, token: t }).1
}

/// A rule `head rest*` continues with its loop after a successful head.
#[verifier::spinoff_prover]
#[verifier::rlimit(60)]
pub proof fn lemma_multiplication_start(cs: Seq<char>, st: PState)
    requires
        valid(cs, st),
        behind(cs, st, p_power(cs, st).0),
        p_power(cs, st).1 is Ok,
    ensures
        p_multiplication(cs, st) == p_multiplication_rest(cs, p_power(cs, st).0, p_power(cs, st).1->Ok_0),
{
    reveal(p_multiplication);
}

/// An application chain continues with its loop after a successful head.
#[verifier::spinoff_prover]
#[verifier::rlimit(60)]
pub proof fn lemma_implicit_start(cs: Seq<char>, st: PState)
    requires
        valid(cs, st),
        behind(cs, st, p_postfix(cs, st).0),
        p_postfix(cs, st).1 is Ok,
    ensures
        p_implicit(cs, st) == p_implicit_rest(cs, p_postfix(cs, st).0, p_postfix(cs, st).1->Ok_0),
{
    reveal(p_implicit);
}

/// `or` continues with its loop after a successful head.
#[verifier::spinoff_prover]
#[verifier::rlimit(60)]
pub proof fn lemma_or_start(cs: Seq<char>, st: PState)
    requires
        valid(cs, st),
        behind(cs, st, p_and(cs, st).0),
        p_and(cs, st).1 is Ok,
    ensures
        p_or(cs, st) == p_or_rest(cs, p_and(cs, st).0, p_and(cs, st).1->Ok_0),
{
    reveal(p_or);
}

/// `and` continues with its loop after a successful head.
#[verifier::spinoff_prover]
#[verifier::rlimit(60)]
pub proof fn lemma_and_start(cs: Seq<char>, st: PState)
    requires
        valid(cs, st),
        behind(cs, st, p_comparison(cs, st).0),
        p_comparison(cs, st).1 is Ok,
    ensures
        p_and(cs, st) == p_and_rest(cs, p_comparison(cs, st).0, p_comparison(cs, st).1->Ok_0),
{
    reveal(p_and);
}

/// `addition` continues with its loop after a successful head.
#[verifier::spinoff_prover]
#[verifier::rlimit(60)]
pub proof fn lemma_addition_start(cs: Seq<char>, st: PState)
    requires
        valid(cs, st),
        behind(cs, st, p_composition(cs, st).0),
        p_composition(cs, st).1 is Ok,
    ensures
        p_addition(cs, st) == p_addition_rest(cs, p_composition(cs, st).0, p_composition(cs, st).1->Ok_0),
{
    reveal(p_addition);
}

/// A tuple continues with its loop after a first element and a comma.
#[verifier::spinoff_prover]
#[verifier::rlimit(60)]
pub proof fn lemma_tuple_start(cs: Seq<char>, st: PState)
    requires
        valid(cs, st),
        behind(cs, st, p_or(cs, st).0),
        p_or(cs, st).1 is Ok,
        p_or(cs, st).0.token == Ok::<TokenView, LexError>(TokenView::Comma),
    ensures
        p_tuple(cs, st) == p_tuple_rest(cs, p_or(cs, st).0, seq![p_or(cs, st).1->Ok_0]),
{
    reveal(p_tuple);
}

/// A comparison chain continues with its loop after its first comparison.
#[verifier::spinoff_prover]
#[verifier::rlimit(60)]
pub proof fn lemma_comparison_start(cs: Seq<char>, st: PState, op: BinaryOp)
    requires
        valid(cs, st),
        behind(cs, st, p_addition(cs, st).0),
        p_addition(cs, st).1 is Ok,
        p_addition(cs, st).0.token matches Ok(t) && comparison_of(t) == Some(op),
        ({
            let s2 = advance(cs, p_addition(cs, st).0);
            behind(cs, s2, p_addition(cs, s2).0) && p_addition(cs, s2).1 is Ok
        }),
    ensures
        ({
            let s1 = p_addition(cs, st).0;
            let lhs = p_addition(cs, st).1->Ok_0;
            let s2 = advance(cs, s1);
            let s3 = p_addition(cs, s2).0;
            let rhs = p_addition(cs, s2).1->Ok_0;
            p_comparison(cs, st) == p_comparison_rest(
                cs,
                s3,
                ExprView::Binary(s3.index as usize, op, Box::new(lhs), Box::new(rhs)),
                rhs,
            )
        }),
{
    reveal(p_comparison);
    lemma_advance(cs, p_addition(cs, st).0);
}

/// One round of the addition loop.
#[verifier::spinoff_prover]
#[verifier::rlimit(60)]
pub proof fn lemma_addition_step(cs: Seq<char>, s: PState, acc: ExprView)
    requires
        valid(cs, s),
        s.token matches Ok(t) && (t is Plus || t is Minus || t is PlusOrMinus),
        ({
            let s2 = advance(cs, s);
            behind(cs, s2, p_composition(cs, s2).0) && p_composition(cs, s2).1 is Ok
        }),
    ensures
        ({
            let s2 = advance(cs, s);
            let s3 = p_composition(cs, s2).0;
            p_addition_rest(cs, s, acc) == p_addition_rest(
                cs,
                s3,
                addition_node(s.token->Ok_0, s3.index as usize, acc, p_composition(cs, s2).1->Ok_0),
            )
        }),
{
    reveal(p_addition_rest);
    lemma_advance(cs, s);
}

/// One round of the comparison loop.
#[verifier::spinoff_prover]
#[verifier::rlimit(60)]
pub proof fn lemma_comparison_step(cs: Seq<char>, s: PState, acc: ExprView, prev: ExprView, op: BinaryOp)
    requires
        valid(cs, s),
        s.token matches Ok(t) && comparison_of(t) == Some(op),
        ({
            let s2 = advance(cs, s);
            behind(cs, s2, p_addition(cs, s2).0) && p_addition(cs, s2).1 is Ok
        }),
    ensures
        ({
            let s2 = advance(cs, s);
            let s3 = p_addition(cs, s2).0;
            let next = p_addition(cs, s2).1->Ok_0;
            let i = s3.index as usize;
            p_comparison_rest(cs, s, acc, prev) == p_comparison_rest(
                cs,
                s3,
                ExprView::Binary(
                    i,
                    BinaryOp::And,
                    Box::new(acc),
                    Box::new(ExprView::Binary(i, op, Box::new(prev), Box::new(next))),
                ),
                next,
            )
        }),
{
    reveal(p_comparison_rest);
    lemma_advance(cs, s);
}

} // verus!

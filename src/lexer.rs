use vstd::prelude::*;
use crate::parser::Parser;
use crate::tokens::{LexError, Token, TokenView};

verus! {

/// Whether `c` has the Unicode `Alphabetic` property.
pub uninterp spec fn alphabetic(c: char) -> bool;

/// Whether `c` is in one of the Unicode numeric general categories.
pub uninterp spec fn numeric(c: char) -> bool;

/// What `char::is_alphabetic` answers: ASCII letters among ASCII
/// characters, the `Alphabetic` property above them.
pub open spec fn alphabetic_char(c: char) -> bool {
    if c <= '\u{7f}' {
        ('a' <= c <= 'z') || ('A' <= c <= 'Z')
    } else {
        alphabetic(c)
    }
}

/// What `char::is_numeric` answers: ASCII digits among ASCII characters,
/// the numeric general categories above them.
pub open spec fn numeric_char(c: char) -> bool {
    if c <= '\u{7f}' {
        '0' <= c <= '9'
    } else {
        numeric(c)
    }
}

/// Whether `c` has the Unicode `White_Space` property.
pub open spec fn whitespace(c: char) -> bool {
    ('\u{9}' <= c <= '\u{d}') || c == ' ' || c == '\u{85}' || c == '\u{a0}' || c == '\u{1680}'
        || ('\u{2000}' <= c <= '\u{200a}') || c == '\u{2028}' || c == '\u{2029}' || c
        == '\u{202f}' || c == '\u{205f}' || c == '\u{3000}'
}

/// Relies on `char::is_alphabetic`, which answers from the character alone
/// and, for ASCII characters, is true of the letters `a`-`z`, `A`-`Z` only.
#[verifier::external_body]
fn is_alphabetic(c: char) -> (r: bool)
    ensures
        r == alphabetic_char(c),
        c > '\u{7f}' ==> r == alphabetic(c),
{
    c.is_alphabetic()
}

/// Relies on `char::is_numeric`, which answers from the character alone
/// and, for ASCII characters, is true of the digits `0`-`9` only.
#[verifier::external_body]
fn is_numeric(c: char) -> (r: bool)
    ensures
        r == numeric_char(c),
        c > '\u{7f}' ==> r == numeric(c),
{
    c.is_numeric()
}

/// Whether `c` has the Unicode `White_Space` property.
fn is_whitespace(c: char) -> (r: bool)
    ensures
        r == whitespace(c),
{
    ('\u{9}' <= c && c <= '\u{d}') || c == ' ' || c == '\u{85}' || c == '\u{a0}' || c
        == '\u{1680}' || ('\u{2000}' <= c && c <= '\u{200a}') || c == '\u{2028}' || c
        == '\u{2029}' || c == '\u{202f}' || c == '\u{205f}' || c == '\u{3000}'
}

/// Relies on `String::push`, which appends one character.
#[verifier::external_body]
pub(crate) fn push_char(s: &mut String, c: char)
    ensures
        final(s)@ == old(s)@.push(c),
{
    s.push(c)
}

/// The character at `k`, if there is one.
pub open spec fn at(cs: Seq<char>, k: int) -> Option<char> {
    if 0 <= k < cs.len() {
        Some(cs[k])
    } else {
        None
    }
}

pub open spec fn word_char(c: char) -> bool {
    alphabetic_char(c) || numeric_char(c) || c == '_'
}

/// Where the run of letters, digits and underscores from `i` ends.
pub open spec fn word_end(cs: Seq<char>, i: int) -> int
    decreases cs.len() - i,
{
    if 0 <= i < cs.len() && word_char(cs[i]) {
        word_end(cs, i + 1)
    } else {
        i
    }
}

/// Where a numeral from `i` ends: digits and underscores, and one `.` if a
/// digit follows it and none came before.
pub open spec fn number_end(cs: Seq<char>, i: int, seen_dot: bool) -> int
    decreases cs.len() - i,
{
    if i < 0 || i >= cs.len() {
        i
    } else if cs[i] == '.' {
        if !seen_dot && i + 1 < cs.len() && numeric_char(cs[i + 1]) {
            number_end(cs, i + 1, true)
        } else {
            i
        }
    } else if numeric_char(cs[i]) || cs[i] == '_' {
        number_end(cs, i + 1, seen_dot)
    } else {
        i
    }
}

/// The operator or punctuation token at `i` and where it ends, longest
/// match first.
pub open spec fn symbol(cs: Seq<char>, i: int) -> (Result<TokenView, LexError>, int) {
    let c = cs[i];
    let n = at(cs, i + 1);
    if c == '+' && n == Some('/') && at(cs, i + 2) == Some('-') {
        (Ok(TokenView::PlusOrMinus), i + 3)
    } else if c == '-' && n == Some('>') {
        (Ok(TokenView::Arrow), i + 2)
    } else if c == '=' && n == Some('>') {
        (Ok(TokenView::BigArrow), i + 2)
    } else if c == '=' && n == Some('=') {
        (Ok(TokenView::DoubleEqual), i + 2)
    } else if c == '<' && n == Some('=') {
        (Ok(TokenView::LessThanEqual), i + 2)
    } else if c == '>' && n == Some('=') {
        (Ok(TokenView::GreaterThanEqual), i + 2)
    } else if c == '!' && n == Some('=') {
        (Ok(TokenView::BangEqual), i + 2)
    } else {
        (
            match c {
                '=' => Ok(TokenView::Equal),
                ':' => Ok(TokenView::Colon),
                '(' => Ok(TokenView::LeftParen),
                ')' => Ok(TokenView::RightParen),
                '{' => Ok(TokenView::LeftBrace),
                '}' => Ok(TokenView::RightBrace),
                '[' => Ok(TokenView::LeftBracket),
                ']' => Ok(TokenView::RightBracket),
                '<' => Ok(TokenView::LessThan),
                '>' => Ok(TokenView::GreaterThan),
                '|' => Ok(TokenView::Bar),
                '+' => Ok(TokenView::Plus),
                '-' => Ok(TokenView::Minus),
                '*' => Ok(TokenView::Star),
                '/' => Ok(TokenView::Slash),
                '^' => Ok(TokenView::Caret),
                '%' => Ok(TokenView::Percent),
                '!' => Ok(TokenView::Bang),
                '.' => Ok(TokenView::Dot),
                ',' => Ok(TokenView::Comma),
                '\'' => Ok(TokenView::Apostrophe),
                _ => Err(LexError::UnrecognizedSymbol),
            },
            i + 1,
        )
    }
}

/// The token that starts at or after `i` (whitespace skipped) and the index
/// just past it. At the end of the input it is `EOF`, at the same index.
pub open spec fn lex(cs: Seq<char>, i: int) -> (Result<TokenView, LexError>, int)
    decreases cs.len() - i,
{
    if i < 0 || i >= cs.len() {
        (Ok(TokenView::EOF), i)
    } else if alphabetic_char(cs[i]) || cs[i] == '_' {
        let j = word_end(cs, i);
        (Ok(TokenView::Identifier(cs.subrange(i, j))), j)
    } else if numeric_char(cs[i]) {
        let j = number_end(cs, i + 1, false);
        (Ok(TokenView::Number(cs.subrange(i, j))), j)
    } else if whitespace(cs[i]) {
        lex(cs, i + 1)
    } else {
        symbol(cs, i)
    }
}

pub open spec fn lexed_view(r: Result<Token, LexError>) -> Result<TokenView, LexError> {
    match r {
        Ok(t) => Ok(t@),
        Err(e) => Err(e),
    }
}

/// A lexing result and its model agree on what kind of token it is.
pub broadcast proof fn lemma_lexed_kind(r: Result<Token, LexError>)
    ensures
        (#[trigger] lexed_view(r) is Err) == (r is Err),
        r is Err ==> lexed_view(r) == Err::<TokenView, LexError>(r->Err_0),
        (lexed_view(r) matches Ok(TokenView::Identifier(w))) == (r matches Ok(Token::Identifier(_))),
        (lexed_view(r) matches Ok(TokenView::Number(w))) == (r matches Ok(Token::Number(_))),
        (lexed_view(r) == Ok::<TokenView, LexError>(TokenView::EOF)) == (r matches Ok(Token::EOF)),
        (lexed_view(r) == Ok::<TokenView, LexError>(TokenView::Equal)) == (r matches Ok(Token::Equal)),
        (lexed_view(r) == Ok::<TokenView, LexError>(TokenView::LeftParen)) == (r matches Ok(Token::LeftParen)),
        (lexed_view(r) == Ok::<TokenView, LexError>(TokenView::RightParen)) == (r matches Ok(Token::RightParen)),
        (lexed_view(r) == Ok::<TokenView, LexError>(TokenView::RightBrace)) == (r matches Ok(Token::RightBrace)),
        (lexed_view(r) == Ok::<TokenView, LexError>(TokenView::RightBracket)) == (r matches Ok(Token::RightBracket)),
        (lexed_view(r) == Ok::<TokenView, LexError>(TokenView::Plus)) == (r matches Ok(Token::Plus)),
        (lexed_view(r) == Ok::<TokenView, LexError>(TokenView::Minus)) == (r matches Ok(Token::Minus)),
        (lexed_view(r) == Ok::<TokenView, LexError>(TokenView::Star)) == (r matches Ok(Token::Star)),
        (lexed_view(r) == Ok::<TokenView, LexError>(TokenView::Slash)) == (r matches Ok(Token::Slash)),
        (lexed_view(r) == Ok::<TokenView, LexError>(TokenView::Caret)) == (r matches Ok(Token::Caret)),
        (lexed_view(r) == Ok::<TokenView, LexError>(TokenView::Percent)) == (r matches Ok(Token::Percent)),
        (lexed_view(r) == Ok::<TokenView, LexError>(TokenView::Bang)) == (r matches Ok(Token::Bang)),
        (lexed_view(r) == Ok::<TokenView, LexError>(TokenView::Dot)) == (r matches Ok(Token::Dot)),
        (lexed_view(r) == Ok::<TokenView, LexError>(TokenView::PlusOrMinus)) == (r matches Ok(Token::PlusOrMinus)),
        (lexed_view(r) == Ok::<TokenView, LexError>(TokenView::Comma)) == (r matches Ok(Token::Comma)),
        (lexed_view(r) == Ok::<TokenView, LexError>(TokenView::DoubleEqual)) == (r matches Ok(Token::DoubleEqual)),
        (lexed_view(r) == Ok::<TokenView, LexError>(TokenView::LessThan)) == (r matches Ok(Token::LessThan)),
        (lexed_view(r) == Ok::<TokenView, LexError>(TokenView::GreaterThan)) == (r matches Ok(Token::GreaterThan)),
        (lexed_view(r) == Ok::<TokenView, LexError>(TokenView::LessThanEqual)) == (r matches Ok(Token::LessThanEqual)),
        (lexed_view(r) == Ok::<TokenView, LexError>(TokenView::GreaterThanEqual)) == (r matches Ok(Token::GreaterThanEqual)),
        (lexed_view(r) == Ok::<TokenView, LexError>(TokenView::BangEqual)) == (r matches Ok(Token::BangEqual)),
{
}

proof fn lemma_word_end(cs: Seq<char>, i: int)
    requires
        0 <= i <= cs.len(),
    ensures
        i <= word_end(cs, i) <= cs.len(),
    decreases cs.len() - i,
{
    if i < cs.len() && word_char(cs[i]) {
        lemma_word_end(cs, i + 1);
    }
}

proof fn lemma_number_end(cs: Seq<char>, i: int, seen_dot: bool)
    requires
        0 <= i <= cs.len(),
    ensures
        i <= number_end(cs, i, seen_dot) <= cs.len(),
    decreases cs.len() - i,
{
    if i < cs.len() {
        if cs[i] == '.' {
            if !seen_dot && i + 1 < cs.len() && numeric_char(cs[i + 1]) {
                lemma_number_end(cs, i + 1, true);
            }
        } else if numeric_char(cs[i]) || cs[i] == '_' {
            lemma_number_end(cs, i + 1, seen_dot);
        }
    }
}

/// Every token but `EOF` consumes input, and no token reads past the end.
pub proof fn lemma_lex_progress(cs: Seq<char>, i: int)
    requires
        0 <= i <= cs.len(),
    ensures
        i <= lex(cs, i).1 <= cs.len(),
        lex(cs, i).0 != Ok::<TokenView, LexError>(TokenView::EOF) ==> i < lex(cs, i).1,
        lex(cs, i).0 == Ok::<TokenView, LexError>(TokenView::EOF) ==> lex(cs, i).1 == cs.len(),
    decreases cs.len() - i,
{
    if i < cs.len() {
        if alphabetic_char(cs[i]) || cs[i] == '_' {
            lemma_word_end(cs, i);
            assert(word_char(cs[i]));
            lemma_word_end(cs, i + 1);
        } else if numeric_char(cs[i]) {
            lemma_number_end(cs, i + 1, false);
        } else if whitespace(cs[i]) {
            lemma_lex_progress(cs, i + 1);
        } else {
            let n = at(cs, i + 1);
            if n is Some {
                assert(i + 1 < cs.len());
            }
            if at(cs, i + 2) is Some {
                assert(i + 2 < cs.len());
            }
        }
    }
}

impl Parser {
    /// Whether the character at `index` continues a name.
    fn word_continues(&self) -> (r: bool)
        ensures
            r == (self.index < self.chars.len() && word_char(self.chars@[self.index as int])),
    {
        if self.index < self.chars.len() {
            let x = self.chars[self.index];
            is_alphabetic(x) || is_numeric(x) || x == '_'
        } else {
            false
        }
    }

    fn lex_word(&mut self) -> (r: Result<Token, LexError>)
        requires
            old(self).index < old(self).chars.len(),
            word_char(old(self).chars@[old(self).index as int]),
        ensures
            final(self).chars == old(self).chars,
            final(self).token == old(self).token,
            final(self).index == word_end(old(self).chars@, old(self).index as int),
            r == Ok::<Token, LexError>(Token::Identifier(r->Ok_0->Identifier_0)),
            r->Ok_0->Identifier_0@ == old(self).chars@.subrange(
                old(self).index as int,
                final(self).index as int,
            ),
    {
        let mut word = String::new();
        let ghost start = self.index as int;
        proof {
            lemma_word_end(self.chars@, start);
        }
        while self.word_continues()
            invariant
                self.chars == old(self).chars,
                self.token == old(self).token,
                start <= self.index <= word_end(self.chars@, start) <= self.chars.len(),
                word_end(self.chars@, self.index as int) == word_end(self.chars@, start),
                word@ == self.chars@.subrange(start, self.index as int),
            decreases self.chars.len() - self.index,
        {
            proof {
                lemma_word_end(self.chars@, self.index + 1);
            }
            let x = self.chars[self.index];
            push_char(&mut word, x);
            assert(word@ =~= self.chars@.subrange(start, self.index + 1));
            self.index = self.index + 1;
        }
        Ok(Token::Identifier(word))
    }

    /// Whether the character at `index` continues a numeral.
    fn number_continues(&self, seen_dot: bool) -> (r: bool)
        ensures
            r == (self.index < self.chars.len() && number_end(
                self.chars@,
                self.index as int,
                seen_dot,
            ) != self.index),
    {
        if self.index >= self.chars.len() {
            return false;
        }
        let x = self.chars[self.index];
        proof {
            lemma_number_end(self.chars@, self.index + 1, seen_dot);
            lemma_number_end(self.chars@, self.index + 1, true);
        }
        if x == '.' {
            !seen_dot && self.index + 1 < self.chars.len() && is_numeric(self.chars[self.index + 1])
        } else {
            is_numeric(x) || x == '_'
        }
    }

    fn lex_number(&mut self) -> (r: Result<Token, LexError>)
        requires
            old(self).index < old(self).chars.len(),
        ensures
            final(self).chars == old(self).chars,
            final(self).token == old(self).token,
            final(self).index == number_end(old(self).chars@, old(self).index + 1, false),
            r == Ok::<Token, LexError>(Token::Number(r->Ok_0->Number_0)),
            r->Ok_0->Number_0@ == old(self).chars@.subrange(
                old(self).index as int,
                final(self).index as int,
            ),
    {
        let mut word = String::new();
        let ghost start = self.index as int;
        push_char(&mut word, self.chars[self.index]);
        assert(word@ =~= self.chars@.subrange(start, start + 1));
        self.index = self.index + 1;
        let mut seen_dot = false;
        proof {
            lemma_number_end(self.chars@, start + 1, false);
        }
        while self.number_continues(seen_dot)
            invariant
                self.chars == old(self).chars,
                self.token == old(self).token,
                0 <= start < self.index <= number_end(self.chars@, start + 1, false) <= self.chars.len(),
                number_end(self.chars@, self.index as int, seen_dot) == number_end(
                    self.chars@,
                    start + 1,
                    false,
                ),
                word@ == self.chars@.subrange(start, self.index as int),
            decreases self.chars.len() - self.index,
        {
            let x = self.chars[self.index];
            proof {
                lemma_number_end(self.chars@, self.index + 1, seen_dot);
                lemma_number_end(self.chars@, self.index + 1, true);
            }
            if x == '.' {
                seen_dot = true;
            }
            push_char(&mut word, x);
            assert(word@ =~= self.chars@.subrange(start, self.index + 1));
            self.index = self.index + 1;
        }
        Ok(Token::Number(word))
    }

    fn lex_symbol(&mut self) -> (r: Result<Token, LexError>)
        requires
            old(self).index < old(self).chars.len(),
        ensures
            final(self).chars == old(self).chars,
            final(self).token == old(self).token,
            (lexed_view(r), final(self).index as int) == symbol(
                old(self).chars@,
                old(self).index as int,
            ),
    {
        let i = self.index;
        let c = self.chars[i];
        let n: Option<char> = if i + 1 < self.chars.len() {
            Some(self.chars[i + 1])
        } else {
            None
        };
        let m: Option<char> = if i + 1 < self.chars.len() && i + 2 < self.chars.len() {
            Some(self.chars[i + 2])
        } else {
            None
        };
        let (t, width): (Result<Token, LexError>, usize) = if c == '+' && n == Some('/') && m
            == Some('-') {
            (Ok(Token::PlusOrMinus), 3)
        } else if c == '-' && n == Some('>') {
            (Ok(Token::Arrow), 2)
        } else if c == '=' && n == Some('>') {
            (Ok(Token::BigArrow), 2)
        } else if c == '=' && n == Some('=') {
            (Ok(Token::DoubleEqual), 2)
        } else if c == '<' && n == Some('=') {
            (Ok(Token::LessThanEqual), 2)
        } else if c == '>' && n == Some('=') {
            (Ok(Token::GreaterThanEqual), 2)
        } else if c == '!' && n == Some('=') {
            (Ok(Token::BangEqual), 2)
        } else {
            (
                match c {
                    '=' => Ok(Token::Equal),
                    ':' => Ok(Token::Colon),
                    '(' => Ok(Token::LeftParen),
                    ')' => Ok(Token::RightParen),
                    '{' => Ok(Token::LeftBrace),
                    '}' => Ok(Token::RightBrace),
                    '[' => Ok(Token::LeftBracket),
                    ']' => Ok(Token::RightBracket),
                    '<' => Ok(Token::LessThan),
                    '>' => Ok(Token::GreaterThan),
                    '|' => Ok(Token::Bar),
                    '+' => Ok(Token::Plus),
                    '-' => Ok(Token::Minus),
                    '*' => Ok(Token::Star),
                    '/' => Ok(Token::Slash),
                    '^' => Ok(Token::Caret),
                    '%' => Ok(Token::Percent),
                    '!' => Ok(Token::Bang),
                    '.' => Ok(Token::Dot),
                    ',' => Ok(Token::Comma),
                    '\'' => Ok(Token::Apostrophe),
                    _ => Err(LexError::UnrecognizedSymbol),
                },
                1,
            )
        };
        self.index = i + width;
        t
    }

    /// Reads the next token from `index` on and moves `index` past it.
    /// Whitespace is skipped; at the end of the input the token is `EOF` and
    /// `index` stays.
    pub fn next_token(&mut self) -> (r: Result<Token, LexError>)
        requires
            old(self).index <= old(self).chars.len(),
        ensures
            final(self).chars == old(self).chars,
            final(self).token == old(self).token,
            (lexed_view(r), final(self).index as int) == lex(
                old(self).chars@,
                old(self).index as int,
            ),
            final(self).index <= final(self).chars.len(),
    {
        loop
            invariant
                self.chars == old(self).chars,
                self.token == old(self).token,
                self.index <= self.chars.len(),
                lex(self.chars@, self.index as int) == lex(
                    old(self).chars@,
                    old(self).index as int,
                ),
            decreases self.chars.len() - self.index,
        {
            proof {
                lemma_lex_progress(self.chars@, self.index as int);
            }
            if self.index >= self.chars.len() {
                return Ok(Token::EOF);
            }
            let x = self.chars[self.index];
            if is_alphabetic(x) || x == '_' {
                return self.lex_word();
            } else if is_numeric(x) {
                return self.lex_number();
            } else if is_whitespace(x) {
                self.index = self.index + 1;
            } else {
                return self.lex_symbol();
            }
        }
    }
}

} // verus!

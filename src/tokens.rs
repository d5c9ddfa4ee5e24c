use vstd::prelude::*;

verus! {

/// A lexical token. Names and numerals keep their text.
#[derive(Clone, Debug, PartialEq)]
pub enum Token {
    Identifier(String),
    Number(String),
    EOF,
    Equal,
    Colon,
    LeftParen,
    RightParen,
    LeftBrace,
    RightBrace,
    LeftBracket,
    RightBracket,
    Bar,
    Plus,
    Minus,
    Star,
    Slash,
    Caret,
    Percent,
    Bang,
    Dot,
    Arrow,
    BigArrow,
    PlusOrMinus,
    Comma,
    Apostrophe,
    DoubleEqual,
    LessThan,
    GreaterThan,
    LessThanEqual,
    GreaterThanEqual,
    BangEqual,
}

/// The model of a [`Token`]: texts as character sequences.
pub enum TokenView {
    Identifier(Seq<char>),
    Number(Seq<char>),
    EOF,
    Equal,
    Colon,
    LeftParen,
    RightParen,
    LeftBrace,
    RightBrace,
    LeftBracket,
    RightBracket,
    Bar,
    Plus,
    Minus,
    Star,
    Slash,
    Caret,
    Percent,
    Bang,
    Dot,
    Arrow,
    BigArrow,
    PlusOrMinus,
    Comma,
    Apostrophe,
    DoubleEqual,
    LessThan,
    GreaterThan,
    LessThanEqual,
    GreaterThanEqual,
    BangEqual,
}

impl View for Token {
    type V = TokenView;

    open spec fn view(&self) -> TokenView {
        match self {
            Token::Identifier(s) => TokenView::Identifier(s@),
            Token::Number(s) => TokenView::Number(s@),
            Token::EOF => TokenView::EOF,
            Token::Equal => TokenView::Equal,
            Token::Colon => TokenView::Colon,
            Token::LeftParen => TokenView::LeftParen,
            Token::RightParen => TokenView::RightParen,
            Token::LeftBrace => TokenView::LeftBrace,
            Token::RightBrace => TokenView::RightBrace,
            Token::LeftBracket => TokenView::LeftBracket,
            Token::RightBracket => TokenView::RightBracket,
            Token::Bar => TokenView::Bar,
            Token::Plus => TokenView::Plus,
            Token::Minus => TokenView::Minus,
            Token::Star => TokenView::Star,
            Token::Slash => TokenView::Slash,
            Token::Caret => TokenView::Caret,
            Token::Percent => TokenView::Percent,
            Token::Bang => TokenView::Bang,
            Token::Dot => TokenView::Dot,
            Token::Arrow => TokenView::Arrow,
            Token::BigArrow => TokenView::BigArrow,
            Token::PlusOrMinus => TokenView::PlusOrMinus,
            Token::Comma => TokenView::Comma,
            Token::Apostrophe => TokenView::Apostrophe,
            Token::DoubleEqual => TokenView::DoubleEqual,
            Token::LessThan => TokenView::LessThan,
            Token::GreaterThan => TokenView::GreaterThan,
            Token::LessThanEqual => TokenView::LessThanEqual,
            Token::GreaterThanEqual => TokenView::GreaterThanEqual,
            Token::BangEqual => TokenView::BangEqual,
        }
    }
}

#[derive(Clone, Copy, Debug, PartialEq, Eq, Structural)]
pub enum LexError {
    UnrecognizedSymbol,
}

} // verus!

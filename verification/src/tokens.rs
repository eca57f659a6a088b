//! The token vocabulary of the lexer.
//!
//! [`Token`] is what the executable lexer produces; [`TokView`] is its ghost
//! view, with literal text as a `Seq<char>`.  [`ParseFail`] is the one error
//! type of the whole front end: a lexical error names the offending character
//! position, a grammatical error names the offending token position.

use vstd::prelude::*;

use crate::ast::FuncKind;

verus! {

/// One token, as the executable lexer produces it.  `Number` keeps the
/// literal text of the numeric constant; `Variable` keeps the finished
/// display name, subscript included.
#[derive(Clone, Debug)]
pub enum Token {
    Number(String),
    Variable(String),
    Plus,
    Minus,
    Star,
    Slash,
    Percent,
    Caret,
    LParen,
    RParen,
    Function(FuncKind),
    Pi,
    E,
}

/// The ghost view of one token.
pub enum TokView {
    Number(Seq<char>),
    Variable(Seq<char>),
    Plus,
    Minus,
    Star,
    Slash,
    Percent,
    Caret,
    LParen,
    RParen,
    Function(FuncKind),
    Pi,
    E,
}

impl View for Token {
    type V = TokView;

    open spec fn view(&self) -> TokView {
        match self {
            Token::Number(s) => TokView::Number(s@),
            Token::Variable(s) => TokView::Variable(s@),
            Token::Plus => TokView::Plus,
            Token::Minus => TokView::Minus,
            Token::Star => TokView::Star,
            Token::Slash => TokView::Slash,
            Token::Percent => TokView::Percent,
            Token::Caret => TokView::Caret,
            Token::LParen => TokView::LParen,
            Token::RParen => TokView::RParen,
            Token::Function(k) => TokView::Function(*k),
            Token::Pi => TokView::Pi,
            Token::E => TokView::E,
        }
    }
}

/// The views of a whole token sequence.
pub open spec fn token_views(ts: Seq<Token>) -> Seq<TokView> {
    Seq::new(ts.len(), |i: int| ts[i]@)
}

/// Why an input was rejected.  `BadChar` carries the character position of an
/// unrecognized character; `BadToken` carries the token position at which no
/// grammar rule applies; `Eof` means the input ended where a token was owed.
#[derive(Clone, Copy, Debug, PartialEq, Eq, Structural)]
pub enum ParseFail {
    BadChar(usize),
    BadToken(usize),
    Eof,
}

} // verus!

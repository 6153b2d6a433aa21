//! The vocabulary of the lexer and the parser.
use crate::syntax_tree::BinOpKind;
use vstd::prelude::*;

verus! {

/// The kinds of token.
#[derive(Debug, Eq, PartialEq, Copy, Clone, Structural)]
pub enum TokenKind {
    EndOfFile,
    BadToken,
    Whitespace,
    LeftParenthesis,
    RightParenthesis,
    FloatLiteral,
    True,
    False,
    Identifier,
    Let,
    Plus,
    Minus,
    Asterisk,
    Slash,
    PipePipe,
    AmpersandAmpersand,
    Equals,
}

/// The kind of a run of letters and digits: that of the keyword it spells, or
/// `Identifier`.
pub open spec fn keyword_kind(text: Seq<char>) -> TokenKind {
    if text == "true"@ {
        TokenKind::True
    } else if text == "false"@ {
        TokenKind::False
    } else if text == "let"@ {
        TokenKind::Let
    } else {
        TokenKind::Identifier
    }
}

impl TokenKind {
    /// The binary operator that a token of this kind stands for, if any.
    pub open spec fn binary_operator(self) -> Option<BinOpKind> {
        match self {
            TokenKind::Plus => Some(BinOpKind::Add),
            TokenKind::Minus => Some(BinOpKind::Sub),
            TokenKind::Asterisk => Some(BinOpKind::Mul),
            TokenKind::Slash => Some(BinOpKind::Div),
            TokenKind::PipePipe => Some(BinOpKind::LogicalOr),
            TokenKind::AmpersandAmpersand => Some(BinOpKind::LogicalAnd),
            _ => None,
        }
    }

    pub fn is_binary_operator(&self) -> (operator: Option<BinOpKind>)
        ensures
            operator == self.binary_operator(),
    {
        match self {
            TokenKind::Plus => Some(BinOpKind::Add),
            TokenKind::Minus => Some(BinOpKind::Sub),
            TokenKind::Asterisk => Some(BinOpKind::Mul),
            TokenKind::Slash => Some(BinOpKind::Div),
            TokenKind::PipePipe => Some(BinOpKind::LogicalOr),
            TokenKind::AmpersandAmpersand => Some(BinOpKind::LogicalAnd),
            _ => None,
        }
    }

    pub fn keyword(text: &str) -> (kind: TokenKind)
        ensures
            kind == keyword_kind(text@),
    {
        let word = text.to_owned();
        if word == "true".to_owned() {
            TokenKind::True
        } else if word == "false".to_owned() {
            TokenKind::False
        } else if word == "let".to_owned() {
            TokenKind::Let
        } else {
            TokenKind::Identifier
        }
    }
}

/// A token: its kind and the text it was read from.
#[derive(Debug, PartialEq, Eq)]
pub struct Token {
    pub kind: TokenKind,
    pub text: String,
}

/// What a [`Token`] denotes.
pub struct TokenView {
    pub kind: TokenKind,
    pub text: Seq<char>,
}

impl View for Token {
    type V = TokenView;

    open spec fn view(&self) -> TokenView {
        TokenView { kind: self.kind, text: self.text@ }
    }
}

impl Clone for Token {
    fn clone(&self) -> (copy: Self)
        ensures
            copy@ == self@,
    {
        Token { kind: self.kind, text: self.text.clone() }
    }
}

} // verus!

//! The lexical vocabulary: one tagged value per lexical unit, carrying its
//! literal payload inline.  `TokenV` is the mathematical mirror used in
//! specifications: text payloads become character sequences.
use vstd::prelude::*;

verus! {

/// One lexical unit.  Floating-point literals carry the bit pattern of the
/// IEEE 754 double they denote (see `crate::float`).
#[derive(Debug)]
pub enum Token {
    Let,
    Mut,
    If,
    Then,
    Else,
    For,
    In,
    Range,
    Fn,
    Return,
    Branch,
    Fallback,
    Parallel,
    GPU,
    Equals,
    Plus,
    Minus,
    Star,
    Slash,
    Lparen,
    Rparen,
    LBrace,
    RBrace,
    Lsquare,
    Rsquare,
    Dot,
    Comma,
    Colon,
    Arrow,
    FatArrow,
    GT,
    LT,
    GE,
    LE,
    EQ,
    NE,
    Number(i64),
    Floating(u64),
    Str(String),
    Boolean(bool),
    Identifier(String),
    EOF,
}

/// The mathematical mirror of `Token`.
pub enum TokenV {
    Let,
    Mut,
    If,
    Then,
    Else,
    For,
    In,
    Range,
    Fn,
    Return,
    Branch,
    Fallback,
    Parallel,
    GPU,
    Equals,
    Plus,
    Minus,
    Star,
    Slash,
    Lparen,
    Rparen,
    LBrace,
    RBrace,
    Lsquare,
    Rsquare,
    Dot,
    Comma,
    Colon,
    Arrow,
    FatArrow,
    GT,
    LT,
    GE,
    LE,
    EQ,
    NE,
    Number(int),
    Floating(u64),
    Str(Seq<char>),
    Boolean(bool),
    Identifier(Seq<char>),
    EOF,
}

impl Token {
    pub open spec fn view(self) -> TokenV {
        match self {
            Token::Let => TokenV::Let,
            Token::Mut => TokenV::Mut,
            Token::If => TokenV::If,
            Token::Then => TokenV::Then,
            Token::Else => TokenV::Else,
            Token::For => TokenV::For,
            Token::In => TokenV::In,
            Token::Range => TokenV::Range,
            Token::Fn => TokenV::Fn,
            Token::Return => TokenV::Return,
            Token::Branch => TokenV::Branch,
            Token::Fallback => TokenV::Fallback,
            Token::Parallel => TokenV::Parallel,
            Token::GPU => TokenV::GPU,
            Token::Equals => TokenV::Equals,
            Token::Plus => TokenV::Plus,
            Token::Minus => TokenV::Minus,
            Token::Star => TokenV::Star,
            Token::Slash => TokenV::Slash,
            Token::Lparen => TokenV::Lparen,
            Token::Rparen => TokenV::Rparen,
            Token::LBrace => TokenV::LBrace,
            Token::RBrace => TokenV::RBrace,
            Token::Lsquare => TokenV::Lsquare,
            Token::Rsquare => TokenV::Rsquare,
            Token::Dot => TokenV::Dot,
            Token::Comma => TokenV::Comma,
            Token::Colon => TokenV::Colon,
            Token::Arrow => TokenV::Arrow,
            Token::FatArrow => TokenV::FatArrow,
            Token::GT => TokenV::GT,
            Token::LT => TokenV::LT,
            Token::GE => TokenV::GE,
            Token::LE => TokenV::LE,
            Token::EQ => TokenV::EQ,
            Token::NE => TokenV::NE,
            Token::Number(n) => TokenV::Number(n as int),
            Token::Floating(b) => TokenV::Floating(b),
            Token::Str(s) => TokenV::Str(s@),
            Token::Boolean(b) => TokenV::Boolean(b),
            Token::Identifier(s) => TokenV::Identifier(s@),
            Token::EOF => TokenV::EOF,
        }
    }
}

/// The view of a token list.
pub open spec fn view_tokens(s: Seq<Token>) -> Seq<TokenV>
    decreases s,
{
    if s.len() == 0 {
        Seq::empty()
    } else {
        seq![s[0].view()] + view_tokens(s.drop_first())
    }
}

pub proof fn lemma_view_tokens(s: Seq<Token>)
    ensures
        view_tokens(s).len() == s.len(),
        forall|i: int| 0 <= i < s.len() ==> view_tokens(s)[i] == s[i].view(),
    decreases s,
{
    if s.len() > 0 {
        lemma_view_tokens(s.drop_first());
    }
}

} // verus!

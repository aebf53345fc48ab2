//! Tokens: the classified, positioned units of lexical input that the
//! scanner produces and the parser consumes.

use vstd::prelude::*;

verus! {

/// The closed set of token kinds: single-character punctuation,
/// one- and two-character operators, literals, keywords, and the
/// end-of-input marker.
#[derive(Clone, Copy, Debug, PartialEq, Eq, Structural)]
pub enum TokenType {
    LeftParen,
    RightParen,
    LeftBrace,
    RightBrace,
    Comma,
    Dot,
    Minus,
    Plus,
    Semicolon,
    Star,
    Slash,
    Bang,
    BangEqual,
    Equal,
    EqualEqual,
    Less,
    LessEqual,
    Greater,
    GreaterEqual,
    Number,
    Str,
    Identifier,
    And,
    Class,
    Else,
    False,
    For,
    Fun,
    If,
    Nil,
    Or,
    Print,
    Return,
    Super,
    This,
    True,
    Var,
    While,
    Eof,
}

/// The literal payload of a `Number`, `Str`, `Identifier` or keyword token.
/// A number's payload is its decimal spelling, exactly the characters of
/// the lexeme; a downstream consumer that computes with numbers converts
/// the spelling to its numeric type of choice.
#[derive(Debug, PartialEq)]
pub enum Literal {
    Number(String),
    Str(String),
    Identifier(String),
}

/// Mathematical model of a `Literal`: the same tag over character sequences.
pub ghost enum LiteralV {
    Number(Seq<char>),
    Str(Seq<char>),
    Identifier(Seq<char>),
}

impl View for Literal {
    type V = LiteralV;

    open spec fn view(&self) -> LiteralV {
        match self {
            Literal::Number(s) => LiteralV::Number(s@),
            Literal::Str(s) => LiteralV::Str(s@),
            Literal::Identifier(s) => LiteralV::Identifier(s@),
        }
    }
}

/// One token: its kind, the exact source substring it spans, its literal
/// payload where it has one, and the 1-based source line it ends on.
/// Tokens are created by the scanner and never mutated afterwards.
#[derive(Debug, PartialEq)]
pub struct Token {
    pub token_type: TokenType,
    pub lexeme: String,
    pub literal: Option<Literal>,
    pub line: usize,
}

/// Mathematical model of a `Token`.
pub ghost struct TokenV {
    pub kind: TokenType,
    pub lexeme: Seq<char>,
    pub literal: Option<LiteralV>,
    pub line: nat,
}

impl View for Token {
    type V = TokenV;

    open spec fn view(&self) -> TokenV {
        TokenV {
            kind: self.token_type,
            lexeme: self.lexeme@,
            literal: match self.literal {
                Some(l) => Some(l@),
                None => None,
            },
            line: self.line as nat,
        }
    }
}

impl Token {
    pub fn new(token_type: TokenType, lexeme: String, literal: Option<Literal>, line: usize) -> (r:
        Token)
        ensures
            r == (Token { token_type, lexeme, literal, line }),
    {
        Token { token_type, lexeme, literal, line }
    }
}

impl Clone for Literal {
    fn clone(&self) -> (r: Self)
        ensures
            r == *self,
    {
        match self {
            Literal::Number(s) => Literal::Number(s.clone()),
            Literal::Str(s) => Literal::Str(s.clone()),
            Literal::Identifier(s) => Literal::Identifier(s.clone()),
        }
    }
}

impl Clone for Token {
    fn clone(&self) -> (r: Self)
        ensures
            r == *self,
    {
        Token {
            token_type: self.token_type,
            lexeme: self.lexeme.clone(),
            literal: match &self.literal {
                Some(l) => Some(l.clone()),
                None => None,
            },
            line: self.line,
        }
    }
}

} // verus!

use vstd::prelude::*;

verus! {

/// The classification of a lexeme.
///
/// Error tokens carry their human-readable message in the owning
/// [`Token`]'s `message` field rather than a source span.
#[derive(Clone, Copy, PartialEq, Eq, Structural, Debug)]
pub enum TokenType {
    LeftParen,
    RightParen,
    LeftBrace,
    RightBrace,
    Semicolon,
    Comma,
    Dot,
    Minus,
    Plus,
    Slash,
    Star,
    Bang,
    BangEqual,
    Equal,
    EqualEqual,
    Less,
    LessEqual,
    Greater,
    GreaterEqual,
    Str,
    Number,
    Identifier,
    And,
    Class,
    Else,
    False,
    For,
    Fun,
    If,
    Nil,
    Or,
    Print,
    Return,
    Super,
    This,
    True,
    Var,
    While,
    Error,
    Eof,
}

/// The keyword classification of an identifier lexeme: a run that matches
/// one of the fixed keywords exactly gets that keyword's kind, any other
/// run is a plain identifier.
pub open spec fn keyword_of(s: Seq<char>) -> TokenType {
    if s == seq!['a', 'n', 'd'] {
        TokenType::And
    } else if s == seq!['c', 'l', 'a', 's', 's'] {
        TokenType::Class
    } else if s == seq!['e', 'l', 's', 'e'] {
        TokenType::Else
    } else if s == seq!['f', 'a', 'l', 's', 'e'] {
        TokenType::False
    } else if s == seq!['f', 'o', 'r'] {
        TokenType::For
    } else if s == seq!['f', 'u', 'n'] {
        TokenType::Fun
    } else if s == seq!['i', 'f'] {
        TokenType::If
    } else if s == seq!['n', 'i', 'l'] {
        TokenType::Nil
    } else if s == seq!['o', 'r'] {
        TokenType::Or
    } else if s == seq!['p', 'r', 'i', 'n', 't'] {
        TokenType::Print
    } else if s == seq!['r', 'e', 't', 'u', 'r', 'n'] {
        TokenType::Return
    } else if s == seq!['s', 'u', 'p', 'e', 'r'] {
        TokenType::Super
    } else if s == seq!['t', 'h', 'i', 's'] {
        TokenType::This
    } else if s == seq!['t', 'r', 'u', 'e'] {
        TokenType::True
    } else if s == seq!['v', 'a', 'r'] {
        TokenType::Var
    } else if s == seq!['w', 'h', 'i', 'l', 'e'] {
        TokenType::While
    } else {
        TokenType::Identifier
    }
}

/// The mathematical model of a token: its classification, source span,
/// line, and (for error tokens) message.
pub struct TokenModel {
    pub kind: TokenType,
    pub start: int,
    pub length: int,
    pub line: int,
    pub message: Seq<char>,
}

/// A classified lexeme: a kind, a borrowed span of the source buffer
/// (`start`/`length`), and the 1-based line it was scanned on. Error
/// tokens carry a message and no span.
#[derive(Debug, Clone, PartialEq)]
pub struct Token {
    pub variant: TokenType,
    pub start: usize,
    pub length: usize,
    pub line: usize,
    pub message: String,
}

impl View for Token {
    type V = TokenModel;

    open spec fn view(&self) -> TokenModel {
        TokenModel {
            kind: self.variant,
            start: self.start as int,
            length: self.length as int,
            line: self.line as int,
            message: self.message@,
        }
    }
}

impl Token {
    /// An error token: it has no source span, only a message and the line
    /// the failure was observed on.
    pub fn error(msg: String, line: usize) -> (t: Self)
        ensures
            t@ == (TokenModel {
                kind: TokenType::Error,
                start: 0,
                length: msg@.len() as int,
                line: line as int,
                message: msg@,
            }),
    {
        let length = msg.as_str().unicode_len();
        Token { variant: TokenType::Error, start: 0, length, line, message: msg }
    }

    /// A token of kind `t` spanning the half-open source range `start..end`.
    pub fn create(t: TokenType, start: usize, end: usize, line: usize) -> (tok: Self)
        requires
            start <= end,
        ensures
            tok@ == (TokenModel {
                kind: t,
                start: start as int,
                length: end - start,
                line: line as int,
                message: Seq::<char>::empty(),
            }),
    {
        Token { variant: t, start, length: end - start, line, message: String::new() }
    }
}

} // verus!

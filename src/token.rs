use vstd::prelude::*;
use crate::precedence::Precedence;

verus! {

/// The lexical category of a token, with the payload of literal kinds.
/// A number literal carries the bit pattern of its IEEE-754 double.
#[derive(Clone, Debug)]
pub enum TokenType {
    LeftParen,
    RightParen,
    LeftBrace,
    RightBrace,
    Comma,
    Dot,
    Minus,
    Plus,
    Semicolon,
    Slash,
    Star,
    Bang,
    BangEqual,
    Equal,
    EqualEqual,
    Greater,
    GreaterEqual,
    Less,
    LessEqual,
    Identifier(String),
    Str(String),
    Number(u64),
    And,
    Class,
    Else,
    False,
    For,
    Fn,
    If,
    Nil,
    Or,
    Print,
    Return,
    Super,
    This,
    True,
    Var,
    While,
    Error(String),
    Percent,
    Ampersand,
    Pipe,
    Eof,
}

/// A token and where it stands in the source.
#[derive(Clone, Debug)]
pub struct Token {
    pub token_type: TokenType,
    pub line: usize,
    pub col: usize,
    pub len: usize,
}

/// The operation run when a token starts an expression.
#[derive(Clone, Copy, Debug, PartialEq, Eq, Structural)]
pub enum PrefixAction {
    Grouping,
    Unary,
    Number,
    Str,
    Literal,
    Variable,
}

/// The operation run when a token follows a complete operand.
#[derive(Clone, Copy, Debug, PartialEq, Eq, Structural)]
pub enum InfixAction {
    Binary,
}

/// How the expression parser treats one token kind.
#[derive(Clone, Copy, Debug, PartialEq, Eq, Structural)]
pub struct ParseRule {
    pub prefix: Option<PrefixAction>,
    pub infix: Option<InfixAction>,
    pub precedence: Precedence,
}

/// Number of token kinds.
pub const TOKEN_KINDS: usize = 43;

/// The dense index of a token kind, payload ignored.
pub open spec fn kind_index(t: TokenType) -> nat {
    match t {
        TokenType::LeftParen => 0,
        TokenType::RightParen => 1,
        TokenType::LeftBrace => 2,
        TokenType::RightBrace => 3,
        TokenType::Comma => 4,
        TokenType::Dot => 5,
        TokenType::Minus => 6,
        TokenType::Plus => 7,
        TokenType::Semicolon => 8,
        TokenType::Slash => 9,
        TokenType::Star => 10,
        TokenType::Percent => 39,
        TokenType::Ampersand => 40,
        TokenType::Pipe => 41,
        TokenType::Bang => 11,
        TokenType::BangEqual => 12,
        TokenType::Equal => 13,
        TokenType::EqualEqual => 14,
        TokenType::Greater => 15,
        TokenType::GreaterEqual => 16,
        TokenType::Less => 17,
        TokenType::LessEqual => 18,
        TokenType::Identifier(_) => 19,
        TokenType::Str(_) => 20,
        TokenType::Number(_) => 21,
        TokenType::And => 22,
        TokenType::Class => 23,
        TokenType::Else => 24,
        TokenType::False => 25,
        TokenType::For => 26,
        TokenType::Fn => 27,
        TokenType::If => 28,
        TokenType::Nil => 29,
        TokenType::Or => 30,
        TokenType::Print => 31,
        TokenType::Return => 32,
        TokenType::Super => 33,
        TokenType::This => 34,
        TokenType::True => 35,
        TokenType::Var => 36,
        TokenType::While => 37,
        TokenType::Error(_) => 38,
        TokenType::Eof => 42,
    }
}

/// A rule with the given parts.
pub open spec fn mk_rule(
    prefix: Option<PrefixAction>,
    infix: Option<InfixAction>,
    precedence: Precedence,
) -> ParseRule {
    ParseRule { prefix, infix, precedence }
}

/// The parse-rule table.
pub open spec fn rule_of(t: TokenType) -> ParseRule {
    match t {
        TokenType::LeftParen => mk_rule(Some(PrefixAction::Grouping), None, Precedence::Lowest),
        TokenType::Minus => mk_rule(
            Some(PrefixAction::Unary),
            Some(InfixAction::Binary),
            Precedence::Term,
        ),
        TokenType::Plus | TokenType::Pipe => mk_rule(
            None,
            Some(InfixAction::Binary),
            Precedence::Term,
        ),
        TokenType::Slash | TokenType::Star | TokenType::Percent | TokenType::Ampersand => mk_rule(
            None,
            Some(InfixAction::Binary),
            Precedence::Factor,
        ),
        TokenType::Bang => mk_rule(Some(PrefixAction::Unary), None, Precedence::Lowest),
        TokenType::BangEqual | TokenType::EqualEqual => mk_rule(
            None,
            Some(InfixAction::Binary),
            Precedence::Equality,
        ),
        TokenType::Greater | TokenType::GreaterEqual | TokenType::Less
        | TokenType::LessEqual => mk_rule(None, Some(InfixAction::Binary), Precedence::Comparison),
        TokenType::Identifier(_) => mk_rule(
            Some(PrefixAction::Variable),
            None,
            Precedence::Lowest,
        ),
        TokenType::Str(_) => mk_rule(Some(PrefixAction::Str), None, Precedence::Lowest),
        TokenType::Number(_) => mk_rule(Some(PrefixAction::Number), None, Precedence::Lowest),
        TokenType::And => mk_rule(None, Some(InfixAction::Binary), Precedence::And),
        TokenType::Or => mk_rule(None, Some(InfixAction::Binary), Precedence::Or),
        TokenType::False | TokenType::True | TokenType::Nil => mk_rule(
            Some(PrefixAction::Literal),
            None,
            Precedence::Lowest,
        ),
        _ => mk_rule(None, None, Precedence::Lowest),
    }
}

impl Token {
    pub fn new(token_type: TokenType, line: usize, col: usize, len: usize) -> (r: Token)
        ensures
            r.token_type == token_type,
            r.line == line,
            r.col == col,
            r.len == len,
    {
        Token { token_type, line, col, len }
    }

    /// A copy of this token.
    pub fn duplicate(&self) -> (r: Token)
        ensures
            r == *self,
    {
        Token {
            token_type: self.token_type.duplicate(),
            line: self.line,
            col: self.col,
            len: self.len,
        }
    }
}

impl TokenType {
    /// A copy of this token kind and its payload.
    pub fn duplicate(&self) -> (r: TokenType)
        ensures
            r == *self,
    {
        match self {
            TokenType::Identifier(s) => TokenType::Identifier(s.clone()),
            TokenType::Str(s) => TokenType::Str(s.clone()),
            TokenType::Error(s) => TokenType::Error(s.clone()),
            TokenType::Number(n) => TokenType::Number(*n),
            TokenType::LeftParen => TokenType::LeftParen,
            TokenType::RightParen => TokenType::RightParen,
            TokenType::LeftBrace => TokenType::LeftBrace,
            TokenType::RightBrace => TokenType::RightBrace,
            TokenType::Comma => TokenType::Comma,
            TokenType::Dot => TokenType::Dot,
            TokenType::Minus => TokenType::Minus,
            TokenType::Plus => TokenType::Plus,
            TokenType::Semicolon => TokenType::Semicolon,
            TokenType::Slash => TokenType::Slash,
            TokenType::Star => TokenType::Star,
            TokenType::Percent => TokenType::Percent,
            TokenType::Ampersand => TokenType::Ampersand,
            TokenType::Pipe => TokenType::Pipe,
            TokenType::Bang => TokenType::Bang,
            TokenType::BangEqual => TokenType::BangEqual,
            TokenType::Equal => TokenType::Equal,
            TokenType::EqualEqual => TokenType::EqualEqual,
            TokenType::Greater => TokenType::Greater,
            TokenType::GreaterEqual => TokenType::GreaterEqual,
            TokenType::Less => TokenType::Less,
            TokenType::LessEqual => TokenType::LessEqual,
            TokenType::And => TokenType::And,
            TokenType::Class => TokenType::Class,
            TokenType::Else => TokenType::Else,
            TokenType::False => TokenType::False,
            TokenType::For => TokenType::For,
            TokenType::Fn => TokenType::Fn,
            TokenType::If => TokenType::If,
            TokenType::Nil => TokenType::Nil,
            TokenType::Or => TokenType::Or,
            TokenType::Print => TokenType::Print,
            TokenType::Return => TokenType::Return,
            TokenType::Super => TokenType::Super,
            TokenType::This => TokenType::This,
            TokenType::True => TokenType::True,
            TokenType::Var => TokenType::Var,
            TokenType::While => TokenType::While,
            TokenType::Eof => TokenType::Eof,
        }
    }

    /// The dense index of this token kind, below `TOKEN_KINDS`.
    pub fn to_usize(self) -> (r: usize)
        ensures
            r as nat == kind_index(self),
            r < TOKEN_KINDS,
    {
        match self {
            TokenType::LeftParen => 0,
            TokenType::RightParen => 1,
            TokenType::LeftBrace => 2,
            TokenType::RightBrace => 3,
            TokenType::Comma => 4,
            TokenType::Dot => 5,
            TokenType::Minus => 6,
            TokenType::Plus => 7,
            TokenType::Semicolon => 8,
            TokenType::Slash => 9,
            TokenType::Star => 10,
            TokenType::Percent => 39,
            TokenType::Ampersand => 40,
            TokenType::Pipe => 41,
            TokenType::Bang => 11,
            TokenType::BangEqual => 12,
            TokenType::Equal => 13,
            TokenType::EqualEqual => 14,
            TokenType::Greater => 15,
            TokenType::GreaterEqual => 16,
            TokenType::Less => 17,
            TokenType::LessEqual => 18,
            TokenType::Identifier(_) => 19,
            TokenType::Str(_) => 20,
            TokenType::Number(_) => 21,
            TokenType::And => 22,
            TokenType::Class => 23,
            TokenType::Else => 24,
            TokenType::False => 25,
            TokenType::For => 26,
            TokenType::Fn => 27,
            TokenType::If => 28,
            TokenType::Nil => 29,
            TokenType::Or => 30,
            TokenType::Print => 31,
            TokenType::Return => 32,
            TokenType::Super => 33,
            TokenType::This => 34,
            TokenType::True => 35,
            TokenType::Var => 36,
            TokenType::While => 37,
            TokenType::Error(_) => 38,
            TokenType::Eof => 42,
        }
    }

    /// The parse rule of this token kind. A rule with an infix action always has a
    /// precedence above the lowest, so the climbing loop can reach it.
    pub fn rule(&self) -> (r: ParseRule)
        ensures
            r == rule_of(*self),
            r.infix is Some ==> crate::precedence::level(r.precedence) > 0,
    {
        let none = Precedence::Lowest;
        match self {
            TokenType::LeftParen => ParseRule {
                prefix: Some(PrefixAction::Grouping),
                infix: None,
                precedence: none,
            },
            TokenType::Minus => ParseRule {
                prefix: Some(PrefixAction::Unary),
                infix: Some(InfixAction::Binary),
                precedence: Precedence::Term,
            },
            TokenType::Plus | TokenType::Pipe => ParseRule {
                prefix: None,
                infix: Some(InfixAction::Binary),
                precedence: Precedence::Term,
            },
            TokenType::Slash | TokenType::Star | TokenType::Percent | TokenType::Ampersand => {
                ParseRule {
                    prefix: None,
                    infix: Some(InfixAction::Binary),
                    precedence: Precedence::Factor,
                }
            },
            TokenType::Bang => ParseRule {
                prefix: Some(PrefixAction::Unary),
                infix: None,
                precedence: none,
            },
            TokenType::BangEqual | TokenType::EqualEqual => ParseRule {
                prefix: None,
                infix: Some(InfixAction::Binary),
                precedence: Precedence::Equality,
            },
            TokenType::Greater | TokenType::GreaterEqual | TokenType::Less
            | TokenType::LessEqual => ParseRule {
                prefix: None,
                infix: Some(InfixAction::Binary),
                precedence: Precedence::Comparison,
            },
            TokenType::Identifier(_) => ParseRule {
                prefix: Some(PrefixAction::Variable),
                infix: None,
                precedence: none,
            },
            TokenType::Str(_) => ParseRule {
                prefix: Some(PrefixAction::Str),
                infix: None,
                precedence: none,
            },
            TokenType::Number(_) => ParseRule {
                prefix: Some(PrefixAction::Number),
                infix: None,
                precedence: none,
            },
            TokenType::And => ParseRule {
                prefix: None,
                infix: Some(InfixAction::Binary),
                precedence: Precedence::And,
            },
            TokenType::Or => ParseRule {
                prefix: None,
                infix: Some(InfixAction::Binary),
                precedence: Precedence::Or,
            },
            TokenType::False | TokenType::True | TokenType::Nil => ParseRule {
                prefix: Some(PrefixAction::Literal),
                infix: None,
                precedence: none,
            },
            _ => ParseRule { prefix: None, infix: None, precedence: none },
        }
    }
}

} // verus!

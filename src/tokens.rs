use vstd::prelude::*;

verus! {

/// A range `[start, end)` of byte offsets into the source text.
#[derive(Clone, Copy, Debug, PartialEq, Eq)]
pub struct Span {
    pub start: usize,
    pub end: usize,
}

#[derive(Clone, Debug, PartialEq)]
pub enum Comment {
    SingleLine(String),
    MultiLine(String),
}

/// The kind of a token. `Number` keeps the literal's exact text.
#[derive(Clone, Debug, PartialEq)]
pub enum Tokens {
    Ident(String),
    String(String),
    Number(String),
    Unknown(String),
    Comment(Comment),
    Local,
    Const,
    Class,
    Public,
    Private,
    Type,
    Interface,
    Extends,
    Implements,
    Function,
    If,
    Then,
    ElseIf,
    Else,
    For,
    In,
    Do,
    While,
    Repeat,
    Until,
    Break,
    Return,
    Goto,
    Switch,
    End,
    And,
    Or,
    Not,
    True,
    False,
    Nil,
    Assign,
    EQ,
    NEQ,
    Arrow,
    LT,
    LTE,
    GT,
    GTE,
    SHL,
    SHR,
    BitAnd,
    BitOr,
    BitXor,
    Plus,
    Minus,
    Mul,
    Div,
    IntDiv,
    Mod,
    Pow,
    Hash,
    Concat,
    Dots,
    LParen,
    RParen,
    LBracket,
    RBracket,
    LCurly,
    RCurly,
    Comma,
    Colon,
    DBColon,
    Period,
    SemiColon,
    NewLine,
}

#[derive(Clone, Debug, PartialEq)]
pub struct Token {
    pub kind: Tokens,
    pub span: Span,
}

impl Comment {
    /// A copy of the comment, equal to it.
    pub fn duplicate(&self) -> (r: Comment)
        ensures
            r == *self,
    {
        match self {
            Comment::SingleLine(s) => Comment::SingleLine(s.clone()),
            Comment::MultiLine(s) => Comment::MultiLine(s.clone()),
        }
    }
}

impl Tokens {
    /// A copy of the kind, equal to it.
    pub fn duplicate(&self) -> (r: Tokens)
        ensures
            r == *self,
    {
        match self {
            Tokens::Ident(s) => Tokens::Ident(s.clone()),
            Tokens::String(s) => Tokens::String(s.clone()),
            Tokens::Number(s) => Tokens::Number(s.clone()),
            Tokens::Unknown(s) => Tokens::Unknown(s.clone()),
            Tokens::Comment(c) => Tokens::Comment(c.duplicate()),
            Tokens::Local => Tokens::Local,
            Tokens::Const => Tokens::Const,
            Tokens::Class => Tokens::Class,
            Tokens::Public => Tokens::Public,
            Tokens::Private => Tokens::Private,
            Tokens::Type => Tokens::Type,
            Tokens::Interface => Tokens::Interface,
            Tokens::Extends => Tokens::Extends,
            Tokens::Implements => Tokens::Implements,
            Tokens::Function => Tokens::Function,
            Tokens::If => Tokens::If,
            Tokens::Then => Tokens::Then,
            Tokens::ElseIf => Tokens::ElseIf,
            Tokens::Else => Tokens::Else,
            Tokens::For => Tokens::For,
            Tokens::In => Tokens::In,
            Tokens::Do => Tokens::Do,
            Tokens::While => Tokens::While,
            Tokens::Repeat => Tokens::Repeat,
            Tokens::Until => Tokens::Until,
            Tokens::Break => Tokens::Break,
            Tokens::Return => Tokens::Return,
            Tokens::Goto => Tokens::Goto,
            Tokens::Switch => Tokens::Switch,
            Tokens::End => Tokens::End,
            Tokens::And => Tokens::And,
            Tokens::Or => Tokens::Or,
            Tokens::Not => Tokens::Not,
            Tokens::True => Tokens::True,
            Tokens::False => Tokens::False,
            Tokens::Nil => Tokens::Nil,
            Tokens::Assign => Tokens::Assign,
            Tokens::EQ => Tokens::EQ,
            Tokens::NEQ => Tokens::NEQ,
            Tokens::Arrow => Tokens::Arrow,
            Tokens::LT => Tokens::LT,
            Tokens::LTE => Tokens::LTE,
            Tokens::GT => Tokens::GT,
            Tokens::GTE => Tokens::GTE,
            Tokens::SHL => Tokens::SHL,
            Tokens::SHR => Tokens::SHR,
            Tokens::BitAnd => Tokens::BitAnd,
            Tokens::BitOr => Tokens::BitOr,
            Tokens::BitXor => Tokens::BitXor,
            Tokens::Plus => Tokens::Plus,
            Tokens::Minus => Tokens::Minus,
            Tokens::Mul => Tokens::Mul,
            Tokens::Div => Tokens::Div,
            Tokens::IntDiv => Tokens::IntDiv,
            Tokens::Mod => Tokens::Mod,
            Tokens::Pow => Tokens::Pow,
            Tokens::Hash => Tokens::Hash,
            Tokens::Concat => Tokens::Concat,
            Tokens::Dots => Tokens::Dots,
            Tokens::LParen => Tokens::LParen,
            Tokens::RParen => Tokens::RParen,
            Tokens::LBracket => Tokens::LBracket,
            Tokens::RBracket => Tokens::RBracket,
            Tokens::LCurly => Tokens::LCurly,
            Tokens::RCurly => Tokens::RCurly,
            Tokens::Comma => Tokens::Comma,
            Tokens::Colon => Tokens::Colon,
            Tokens::DBColon => Tokens::DBColon,
            Tokens::Period => Tokens::Period,
            Tokens::SemiColon => Tokens::SemiColon,
            Tokens::NewLine => Tokens::NewLine,
        }
    }
}

} // verus!

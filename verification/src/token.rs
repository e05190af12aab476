//! Tokens of the language.
use vstd::prelude::*;

verus! {

/// A token. The text that a token carries is held as `S`: a `String` in
/// running code, its characters in specifications. A floating-point literal
/// keeps its source text (digits with one dot).
#[derive(Debug, PartialEq)]
pub enum TokenOf<S> {
    Let, If, Else, While, For, In, Function, Return, Print, PrintLn, True, False, Null, Break, Continue, Import, ImportPy, ImportJs, ImportRs, Class, New, Try, Catch, Throw, This, Download, From,
    Plus, Minus, Multiply, Divide, Modulo, Assign, Equal, NotEqual, Greater, Less, GreaterEqual, LessEqual, And, Or, Not, LParen, RParen, LBrace, RBrace, LBracket, RBracket, Comma, Semicolon, Dot,
    Integer(i64),
    Float(S),
    String(S),
    Identifier(S),
    EOF,
    Newline,
}

pub type Token = TokenOf<String>;

/// A token as specifications see it.
pub type SpecToken = TokenOf<Seq<char>>;

impl View for TokenOf<String> {
    type V = TokenOf<Seq<char>>;

    open spec fn view(&self) -> TokenOf<Seq<char>> {
        match self {
            TokenOf::Let => TokenOf::Let,
            TokenOf::If => TokenOf::If,
            TokenOf::Else => TokenOf::Else,
            TokenOf::While => TokenOf::While,
            TokenOf::For => TokenOf::For,
            TokenOf::In => TokenOf::In,
            TokenOf::Function => TokenOf::Function,
            TokenOf::Return => TokenOf::Return,
            TokenOf::Print => TokenOf::Print,
            TokenOf::PrintLn => TokenOf::PrintLn,
            TokenOf::True => TokenOf::True,
            TokenOf::False => TokenOf::False,
            TokenOf::Null => TokenOf::Null,
            TokenOf::Break => TokenOf::Break,
            TokenOf::Continue => TokenOf::Continue,
            TokenOf::Import => TokenOf::Import,
            TokenOf::ImportPy => TokenOf::ImportPy,
            TokenOf::ImportJs => TokenOf::ImportJs,
            TokenOf::ImportRs => TokenOf::ImportRs,
            TokenOf::Class => TokenOf::Class,
            TokenOf::New => TokenOf::New,
            TokenOf::Try => TokenOf::Try,
            TokenOf::Catch => TokenOf::Catch,
            TokenOf::Throw => TokenOf::Throw,
            TokenOf::This => TokenOf::This,
            TokenOf::Download => TokenOf::Download,
            TokenOf::From => TokenOf::From,
            TokenOf::Plus => TokenOf::Plus,
            TokenOf::Minus => TokenOf::Minus,
            TokenOf::Multiply => TokenOf::Multiply,
            TokenOf::Divide => TokenOf::Divide,
            TokenOf::Modulo => TokenOf::Modulo,
            TokenOf::Assign => TokenOf::Assign,
            TokenOf::Equal => TokenOf::Equal,
            TokenOf::NotEqual => TokenOf::NotEqual,
            TokenOf::Greater => TokenOf::Greater,
            TokenOf::Less => TokenOf::Less,
            TokenOf::GreaterEqual => TokenOf::GreaterEqual,
            TokenOf::LessEqual => TokenOf::LessEqual,
            TokenOf::And => TokenOf::And,
            TokenOf::Or => TokenOf::Or,
            TokenOf::Not => TokenOf::Not,
            TokenOf::LParen => TokenOf::LParen,
            TokenOf::RParen => TokenOf::RParen,
            TokenOf::LBrace => TokenOf::LBrace,
            TokenOf::RBrace => TokenOf::RBrace,
            TokenOf::LBracket => TokenOf::LBracket,
            TokenOf::RBracket => TokenOf::RBracket,
            TokenOf::Comma => TokenOf::Comma,
            TokenOf::Semicolon => TokenOf::Semicolon,
            TokenOf::Dot => TokenOf::Dot,
            TokenOf::Integer(n) => TokenOf::Integer(*n),
            TokenOf::Float(s) => TokenOf::Float(s@),
            TokenOf::String(s) => TokenOf::String(s@),
            TokenOf::Identifier(s) => TokenOf::Identifier(s@),
            TokenOf::EOF => TokenOf::EOF,
            TokenOf::Newline => TokenOf::Newline,
        }
    }
}

/// The view of each token of a sequence.
pub open spec fn tokens_view(ts: Seq<Token>) -> Seq<SpecToken> {
    ts.map_values(|t: Token| t@)
}

impl Clone for TokenOf<String> {
    fn clone(&self) -> (r: Self)
        ensures
            r == *self,
    {
        match self {
            TokenOf::Let => TokenOf::Let,
            TokenOf::If => TokenOf::If,
            TokenOf::Else => TokenOf::Else,
            TokenOf::While => TokenOf::While,
            TokenOf::For => TokenOf::For,
            TokenOf::In => TokenOf::In,
            TokenOf::Function => TokenOf::Function,
            TokenOf::Return => TokenOf::Return,
            TokenOf::Print => TokenOf::Print,
            TokenOf::PrintLn => TokenOf::PrintLn,
            TokenOf::True => TokenOf::True,
            TokenOf::False => TokenOf::False,
            TokenOf::Null => TokenOf::Null,
            TokenOf::Break => TokenOf::Break,
            TokenOf::Continue => TokenOf::Continue,
            TokenOf::Import => TokenOf::Import,
            TokenOf::ImportPy => TokenOf::ImportPy,
            TokenOf::ImportJs => TokenOf::ImportJs,
            TokenOf::ImportRs => TokenOf::ImportRs,
            TokenOf::Class => TokenOf::Class,
            TokenOf::New => TokenOf::New,
            TokenOf::Try => TokenOf::Try,
            TokenOf::Catch => TokenOf::Catch,
            TokenOf::Throw => TokenOf::Throw,
            TokenOf::This => TokenOf::This,
            TokenOf::Download => TokenOf::Download,
            TokenOf::From => TokenOf::From,
            TokenOf::Plus => TokenOf::Plus,
            TokenOf::Minus => TokenOf::Minus,
            TokenOf::Multiply => TokenOf::Multiply,
            TokenOf::Divide => TokenOf::Divide,
            TokenOf::Modulo => TokenOf::Modulo,
            TokenOf::Assign => TokenOf::Assign,
            TokenOf::Equal => TokenOf::Equal,
            TokenOf::NotEqual => TokenOf::NotEqual,
            TokenOf::Greater => TokenOf::Greater,
            TokenOf::Less => TokenOf::Less,
            TokenOf::GreaterEqual => TokenOf::GreaterEqual,
            TokenOf::LessEqual => TokenOf::LessEqual,
            TokenOf::And => TokenOf::And,
            TokenOf::Or => TokenOf::Or,
            TokenOf::Not => TokenOf::Not,
            TokenOf::LParen => TokenOf::LParen,
            TokenOf::RParen => TokenOf::RParen,
            TokenOf::LBrace => TokenOf::LBrace,
            TokenOf::RBrace => TokenOf::RBrace,
            TokenOf::LBracket => TokenOf::LBracket,
            TokenOf::RBracket => TokenOf::RBracket,
            TokenOf::Comma => TokenOf::Comma,
            TokenOf::Semicolon => TokenOf::Semicolon,
            TokenOf::Dot => TokenOf::Dot,
            TokenOf::Integer(n) => TokenOf::Integer(*n),
            TokenOf::Float(s) => TokenOf::Float(s.clone()),
            TokenOf::String(s) => TokenOf::String(s.clone()),
            TokenOf::Identifier(s) => TokenOf::Identifier(s.clone()),
            TokenOf::EOF => TokenOf::EOF,
            TokenOf::Newline => TokenOf::Newline,
        }
    }
}

} // verus!

//! Tokens: the closed set of lexical kinds, each with the line it ends on.

use vstd::prelude::*;
use vstd::std_specs::iter::IteratorSpec;

verus! {

/// The kind of a token, with the text a literal or an identifier carries.
///
/// A numeric literal carries its lexeme, digits with at most one interior
/// point; turning the lexeme into a number is left to the evaluator's host.
#[derive(Debug, PartialEq)]
pub enum TokenType {
    // Single-character tokens.
    LeftParen,
    RightParen,
    LeftBrace,
    RightBrace,
    Comma,
    Dot,
    Minus,
    Plus,
    Semicolon,
    Slash,
    Star,
    // One or two character tokens.
    Bang,
    BangEqual,
    Equal,
    EqualEqual,
    Greater,
    GreaterEqual,
    Less,
    LessEqual,
    // Literals.
    Identifier(String),
    Text(String),
    Number(String),
    // Keywords.
    And,
    Class,
    Else,
    False,
    Fun,
    For,
    If,
    Nil,
    Or,
    Print,
    Return,
    Super,
    This,
    True,
    Var,
    While,
    // End of input.
    Eof,
}

/// The mathematical model of a [`TokenType`]: the same kinds over sequences of
/// characters.
pub enum TokenKind {
    LeftParen,
    RightParen,
    LeftBrace,
    RightBrace,
    Comma,
    Dot,
    Minus,
    Plus,
    Semicolon,
    Slash,
    Star,
    Bang,
    BangEqual,
    Equal,
    EqualEqual,
    Greater,
    GreaterEqual,
    Less,
    LessEqual,
    Identifier(Seq<char>),
    Text(Seq<char>),
    Number(Seq<char>),
    And,
    Class,
    Else,
    False,
    Fun,
    For,
    If,
    Nil,
    Or,
    Print,
    Return,
    Super,
    This,
    True,
    Var,
    While,
    Eof,
}

impl View for TokenType {
    type V = TokenKind;

    open spec fn view(&self) -> TokenKind {
        match self {
            TokenType::LeftParen => TokenKind::LeftParen,
            TokenType::RightParen => TokenKind::RightParen,
            TokenType::LeftBrace => TokenKind::LeftBrace,
            TokenType::RightBrace => TokenKind::RightBrace,
            TokenType::Comma => TokenKind::Comma,
            TokenType::Dot => TokenKind::Dot,
            TokenType::Minus => TokenKind::Minus,
            TokenType::Plus => TokenKind::Plus,
            TokenType::Semicolon => TokenKind::Semicolon,
            TokenType::Slash => TokenKind::Slash,
            TokenType::Star => TokenKind::Star,
            TokenType::Bang => TokenKind::Bang,
            TokenType::BangEqual => TokenKind::BangEqual,
            TokenType::Equal => TokenKind::Equal,
            TokenType::EqualEqual => TokenKind::EqualEqual,
            TokenType::Greater => TokenKind::Greater,
            TokenType::GreaterEqual => TokenKind::GreaterEqual,
            TokenType::Less => TokenKind::Less,
            TokenType::LessEqual => TokenKind::LessEqual,
            TokenType::Identifier(s) => TokenKind::Identifier(s@),
            TokenType::Text(s) => TokenKind::Text(s@),
            TokenType::Number(s) => TokenKind::Number(s@),
            TokenType::And => TokenKind::And,
            TokenType::Class => TokenKind::Class,
            TokenType::Else => TokenKind::Else,
            TokenType::False => TokenKind::False,
            TokenType::Fun => TokenKind::Fun,
            TokenType::For => TokenKind::For,
            TokenType::If => TokenKind::If,
            TokenType::Nil => TokenKind::Nil,
            TokenType::Or => TokenKind::Or,
            TokenType::Print => TokenKind::Print,
            TokenType::Return => TokenKind::Return,
            TokenType::Super => TokenKind::Super,
            TokenType::This => TokenKind::This,
            TokenType::True => TokenKind::True,
            TokenType::Var => TokenKind::Var,
            TokenType::While => TokenKind::While,
            TokenType::Eof => TokenKind::Eof,
        }
    }
}

impl Clone for TokenType {
    fn clone(&self) -> (r: Self)
        ensures
            r == *self,
    {
        match self {
            TokenType::LeftParen => TokenType::LeftParen,
            TokenType::RightParen => TokenType::RightParen,
            TokenType::LeftBrace => TokenType::LeftBrace,
            TokenType::RightBrace => TokenType::RightBrace,
            TokenType::Comma => TokenType::Comma,
            TokenType::Dot => TokenType::Dot,
            TokenType::Minus => TokenType::Minus,
            TokenType::Plus => TokenType::Plus,
            TokenType::Semicolon => TokenType::Semicolon,
            TokenType::Slash => TokenType::Slash,
            TokenType::Star => TokenType::Star,
            TokenType::Bang => TokenType::Bang,
            TokenType::BangEqual => TokenType::BangEqual,
            TokenType::Equal => TokenType::Equal,
            TokenType::EqualEqual => TokenType::EqualEqual,
            TokenType::Greater => TokenType::Greater,
            TokenType::GreaterEqual => TokenType::GreaterEqual,
            TokenType::Less => TokenType::Less,
            TokenType::LessEqual => TokenType::LessEqual,
            TokenType::Identifier(s) => TokenType::Identifier(s.clone()),
            TokenType::Text(s) => TokenType::Text(s.clone()),
            TokenType::Number(s) => TokenType::Number(s.clone()),
            TokenType::And => TokenType::And,
            TokenType::Class => TokenType::Class,
            TokenType::Else => TokenType::Else,
            TokenType::False => TokenType::False,
            TokenType::Fun => TokenType::Fun,
            TokenType::For => TokenType::For,
            TokenType::If => TokenType::If,
            TokenType::Nil => TokenType::Nil,
            TokenType::Or => TokenType::Or,
            TokenType::Print => TokenType::Print,
            TokenType::Return => TokenType::Return,
            TokenType::Super => TokenType::Super,
            TokenType::This => TokenType::This,
            TokenType::True => TokenType::True,
            TokenType::Var => TokenType::Var,
            TokenType::While => TokenType::While,
            TokenType::Eof => TokenType::Eof,
        }
    }
}

/// A token: its kind and the line on which it ends, counted from 1.
#[derive(Debug, PartialEq)]
pub struct Token {
    pub token_type: TokenType,
    pub line: usize,
}

/// The mathematical model of a [`Token`].
pub struct TokenView {
    pub kind: TokenKind,
    pub line: usize,
}

impl View for Token {
    type V = TokenView;

    open spec fn view(&self) -> TokenView {
        TokenView { kind: self.token_type@, line: self.line }
    }
}

impl Clone for Token {
    fn clone(&self) -> (r: Self)
        ensures
            r == *self,
    {
        Token { token_type: self.token_type.clone(), line: self.line }
    }
}

/// The models of a sequence of tokens, in order.
pub open spec fn token_views(tokens: Seq<Token>) -> Seq<TokenView> {
    Seq::new(tokens.len(), |i: int| tokens[i]@)
}

/// The reserved word that `word` spells, if it spells one.
pub open spec fn keyword_kind(word: Seq<char>) -> Option<TokenKind> {
    if word == seq!['a', 'n', 'd'] {
        Some(TokenKind::And)
    } else if word == seq!['c', 'l', 'a', 's', 's'] {
        Some(TokenKind::Class)
    } else if word == seq!['e', 'l', 's', 'e'] {
        Some(TokenKind::Else)
    } else if word == seq!['f', 'a', 'l', 's', 'e'] {
        Some(TokenKind::False)
    } else if word == seq!['f', 'o', 'r'] {
        Some(TokenKind::For)
    } else if word == seq!['f', 'u', 'n'] {
        Some(TokenKind::Fun)
    } else if word == seq!['i', 'f'] {
        Some(TokenKind::If)
    } else if word == seq!['n', 'i', 'l'] {
        Some(TokenKind::Nil)
    } else if word == seq!['o', 'r'] {
        Some(TokenKind::Or)
    } else if word == seq!['p', 'r', 'i', 'n', 't'] {
        Some(TokenKind::Print)
    } else if word == seq!['r', 'e', 't', 'u', 'r', 'n'] {
        Some(TokenKind::Return)
    } else if word == seq!['s', 'u', 'p', 'e', 'r'] {
        Some(TokenKind::Super)
    } else if word == seq!['t', 'h', 'i', 's'] {
        Some(TokenKind::This)
    } else if word == seq!['t', 'r', 'u', 'e'] {
        Some(TokenKind::True)
    } else if word == seq!['v', 'a', 'r'] {
        Some(TokenKind::Var)
    } else if word == seq!['w', 'h', 'i', 'l', 'e'] {
        Some(TokenKind::While)
    } else {
        None
    }
}

/// The characters of `text`, in order.
pub fn chars_of(text: &str) -> (chars: Vec<char>)
    ensures
        chars@ == text@,
{
    let mut chars: Vec<char> = Vec::new();
    let mut rest = text.chars();
    loop
        invariant
            chars@ + rest.remaining() == text@,
            rest.decrease() is Some,
        decreases rest.decrease()->0,
    {
        match rest.next() {
            Some(c) => {
                chars.push(c);
            },
            None => {
                return chars;
            },
        }
    }
}

fn spells2(word: &Vec<char>, a: char, b: char) -> (r: bool)
    ensures
        r == (word@ == seq![a, b]),
{
    let r = word.len() == 2 && word[0] == a && word[1] == b;
    assert(r ==> word@ =~= seq![a, b]);
    r
}

fn spells3(word: &Vec<char>, a: char, b: char, c: char) -> (r: bool)
    ensures
        r == (word@ == seq![a, b, c]),
{
    let r = word.len() == 3 && word[0] == a && word[1] == b && word[2] == c;
    assert(r ==> word@ =~= seq![a, b, c]);
    r
}

fn spells4(word: &Vec<char>, a: char, b: char, c: char, d: char) -> (r: bool)
    ensures
        r == (word@ == seq![a, b, c, d]),
{
    let r = word.len() == 4 && word[0] == a && word[1] == b && word[2] == c && word[3] == d;
    assert(r ==> word@ =~= seq![a, b, c, d]);
    r
}

fn spells5(word: &Vec<char>, a: char, b: char, c: char, d: char, e: char) -> (r: bool)
    ensures
        r == (word@ == seq![a, b, c, d, e]),
{
    let r = word.len() == 5 && word[0] == a && word[1] == b && word[2] == c && word[3] == d
        && word[4] == e;
    assert(r ==> word@ =~= seq![a, b, c, d, e]);
    r
}

fn spells6(word: &Vec<char>, a: char, b: char, c: char, d: char, e: char, f: char) -> (r: bool)
    ensures
        r == (word@ == seq![a, b, c, d, e, f]),
{
    let r = word.len() == 6 && word[0] == a && word[1] == b && word[2] == c && word[3] == d
        && word[4] == e && word[5] == f;
    assert(r ==> word@ =~= seq![a, b, c, d, e, f]);
    r
}

/// The reserved word that `s` spells: `Some` kind exactly for the sixteen
/// reserved words, `None` for every other text.
pub fn keyword_to_token_type(s: &String) -> (r: Option<TokenType>)
    ensures
        match r {
            Some(t) => keyword_kind(s@) == Some(t@),
            None => keyword_kind(s@) is None,
        },
{
    let word = chars_of(s.as_str());
    if spells3(&word, 'a', 'n', 'd') {
        Some(TokenType::And)
    } else if spells5(&word, 'c', 'l', 'a', 's', 's') {
        Some(TokenType::Class)
    } else if spells4(&word, 'e', 'l', 's', 'e') {
        Some(TokenType::Else)
    } else if spells5(&word, 'f', 'a', 'l', 's', 'e') {
        Some(TokenType::False)
    } else if spells3(&word, 'f', 'o', 'r') {
        Some(TokenType::For)
    } else if spells3(&word, 'f', 'u', 'n') {
        Some(TokenType::Fun)
    } else if spells2(&word, 'i', 'f') {
        Some(TokenType::If)
    } else if spells3(&word, 'n', 'i', 'l') {
        Some(TokenType::Nil)
    } else if spells2(&word, 'o', 'r') {
        Some(TokenType::Or)
    } else if spells5(&word, 'p', 'r', 'i', 'n', 't') {
        Some(TokenType::Print)
    } else if spells6(&word, 'r', 'e', 't', 'u', 'r', 'n') {
        Some(TokenType::Return)
    } else if spells5(&word, 's', 'u', 'p', 'e', 'r') {
        Some(TokenType::Super)
    } else if spells4(&word, 't', 'h', 'i', 's') {
        Some(TokenType::This)
    } else if spells4(&word, 't', 'r', 'u', 'e') {
        Some(TokenType::True)
    } else if spells3(&word, 'v', 'a', 'r') {
        Some(TokenType::Var)
    } else if spells5(&word, 'w', 'h', 'i', 'l', 'e') {
        Some(TokenType::While)
    } else {
        None
    }
}

} // verus!

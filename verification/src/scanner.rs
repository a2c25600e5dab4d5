//! The scanner: one left-to-right pass that turns characters into tokens.
//!
//! The meaning of the scanner is given by the spec functions [`lex`] and
//! [`scan`], which work on the sequence of characters that is still unread.
//! The executable scanner reads through a multi-peek stream and is proved to
//! compute exactly what they say.

use vstd::prelude::*;
use vstd::std_specs::iter::IteratorSpec;
use std::str::Chars;
use itertools::MultiPeek;
use crate::token::{
    keyword_kind, keyword_to_token_type, token_views, Token, TokenKind, TokenType, TokenView,
};

verus! {

/// A failed scan: what went wrong and on which line.
#[derive(Debug, PartialEq, Eq, Clone, Copy)]
pub enum LexError {
    /// The input ended inside a string literal; `line` is the last line.
    UnterminatedString { line: usize },
    /// A character that starts no token.
    UnrecognizedCharacter { character: char, line: usize },
}

/// The classes of characters that the scanner reads in runs.
#[derive(Debug, PartialEq, Eq, Clone, Copy)]
pub enum CharClass {
    /// Decimal digits.
    Digit,
    /// Letters, digits and the underscore.
    Word,
    /// Everything but the closing quote of a string.
    StringBody,
}

pub open spec fn spec_is_digit(c: char) -> bool {
    '0' <= c && c <= '9'
}

pub open spec fn spec_is_alpha(c: char) -> bool {
    ('a' <= c && c <= 'z') || ('A' <= c && c <= 'Z') || c == '_'
}

pub open spec fn in_class(class: CharClass, c: char) -> bool {
    match class {
        CharClass::Digit => spec_is_digit(c),
        CharClass::Word => spec_is_alpha(c) || spec_is_digit(c),
        CharClass::StringBody => c != '"',
    }
}

/// The length of the longest prefix of `s` whose characters are all in `class`.
pub open spec fn run_len(s: Seq<char>, class: CharClass) -> nat
    decreases s.len(),
{
    if s.len() > 0 && in_class(class, s[0]) {
        1 + run_len(s.drop_first(), class)
    } else {
        0
    }
}

/// The line counter after one more line break; it stops at the largest count.
pub open spec fn bump(line: usize) -> usize {
    if line < usize::MAX {
        (line + 1) as usize
    } else {
        line
    }
}

/// The line counter after reading `s`, starting from `line`.
pub open spec fn line_after(line: usize, s: Seq<char>) -> usize
    decreases s.len(),
{
    if s.len() == 0 {
        line
    } else if s.last() == '\n' {
        bump(line_after(line, s.drop_last()))
    } else {
        line_after(line, s.drop_last())
    }
}

/// What reading one token yields: the token's kind or the error, the
/// characters left unread, and the line counter.
pub struct Lexed {
    pub outcome: Result<TokenKind, LexError>,
    pub rest: Seq<char>,
    pub line: usize,
}

pub open spec fn lexed(kind: TokenKind, rest: Seq<char>, line: usize) -> Lexed {
    Lexed { outcome: Ok(kind), rest, line }
}

pub open spec fn failed(error: LexError, rest: Seq<char>, line: usize) -> Lexed {
    Lexed { outcome: Err(error), rest, line }
}

/// The token that the single character `c` is, if it is one by itself.
pub open spec fn punctuation(c: char) -> Option<TokenKind> {
    if c == '(' {
        Some(TokenKind::LeftParen)
    } else if c == ')' {
        Some(TokenKind::RightParen)
    } else if c == '{' {
        Some(TokenKind::LeftBrace)
    } else if c == '}' {
        Some(TokenKind::RightBrace)
    } else if c == ',' {
        Some(TokenKind::Comma)
    } else if c == '.' {
        Some(TokenKind::Dot)
    } else if c == '-' {
        Some(TokenKind::Minus)
    } else if c == '+' {
        Some(TokenKind::Plus)
    } else if c == ';' {
        Some(TokenKind::Semicolon)
    } else if c == '*' {
        Some(TokenKind::Star)
    } else {
        None
    }
}

/// For an operator character that may be followed by `=`: the token it is
/// alone.
pub open spec fn operator_alone(c: char) -> Option<TokenKind> {
    if c == '!' {
        Some(TokenKind::Bang)
    } else if c == '=' {
        Some(TokenKind::Equal)
    } else if c == '<' {
        Some(TokenKind::Less)
    } else if c == '>' {
        Some(TokenKind::Greater)
    } else {
        None
    }
}

/// For an operator character that may be followed by `=`: the token it is
/// together with the `=`.
pub open spec fn operator_with_equal(c: char) -> TokenKind {
    if c == '!' {
        TokenKind::BangEqual
    } else if c == '=' {
        TokenKind::EqualEqual
    } else if c == '<' {
        TokenKind::LessEqual
    } else {
        TokenKind::GreaterEqual
    }
}

/// The next token, given its first character `c`, the characters `rest` after
/// it and the current line.
///
/// Blanks and comments before the token are skipped, each line break counted.
/// Where only blanks and comments are left, the token is the end of input.
pub open spec fn lex(c: char, rest: Seq<char>, line: usize) -> Lexed
    decreases rest.len(), 1nat,
{
    if c == ' ' || c == '\r' || c == '\t' {
        if rest.len() == 0 {
            lexed(TokenKind::Eof, rest, line)
        } else {
            lex(rest[0], rest.drop_first(), line)
        }
    } else if c == '\n' {
        if rest.len() == 0 {
            lexed(TokenKind::Eof, rest, bump(line))
        } else {
            lex(rest[0], rest.drop_first(), bump(line))
        }
    } else if punctuation(c) is Some {
        lexed(punctuation(c)->0, rest, line)
    } else if operator_alone(c) is Some {
        if rest.len() > 0 && rest[0] == '=' {
            lexed(operator_with_equal(c), rest.drop_first(), line)
        } else {
            lexed(operator_alone(c)->0, rest, line)
        }
    } else if c == '/' {
        if rest.len() > 0 && rest[0] == '/' {
            lex_comment(rest.drop_first(), line)
        } else {
            lexed(TokenKind::Slash, rest, line)
        }
    } else if c == '"' {
        let n = run_len(rest, CharClass::StringBody);
        if n >= rest.len() {
            failed(
                LexError::UnterminatedString { line: line_after(line, rest) },
                Seq::empty(),
                line_after(line, rest),
            )
        } else {
            lexed(
                TokenKind::Text(rest.take(n as int)),
                rest.skip(n + 1 as int),
                line_after(line, rest.take(n as int)),
            )
        }
    } else if spec_is_digit(c) {
        let n = run_len(rest, CharClass::Digit);
        let after = rest.skip(n as int);
        if after.len() >= 2 && after[0] == '.' && spec_is_digit(after[1]) {
            let m = run_len(after.drop_first(), CharClass::Digit);
            lexed(
                TokenKind::Number(seq![c] + rest.take(n + 1 + m as int)),
                rest.skip(n + 1 + m as int),
                line,
            )
        } else {
            lexed(TokenKind::Number(seq![c] + rest.take(n as int)), after, line)
        }
    } else if spec_is_alpha(c) {
        let n = run_len(rest, CharClass::Word);
        let word = seq![c] + rest.take(n as int);
        match keyword_kind(word) {
            Some(kind) => lexed(kind, rest.skip(n as int), line),
            None => lexed(TokenKind::Identifier(word), rest.skip(n as int), line),
        }
    } else {
        failed(LexError::UnrecognizedCharacter { character: c, line }, rest, line)
    }
}

/// The next token where `rest` starts inside a comment: the comment runs to
/// the end of its line.
pub open spec fn lex_comment(rest: Seq<char>, line: usize) -> Lexed
    decreases rest.len(), 0nat,
{
    if rest.len() == 0 {
        lexed(TokenKind::Eof, rest, line)
    } else if rest[0] == '\n' {
        lex('\n', rest.drop_first(), line)
    } else {
        lex_comment(rest.drop_first(), line)
    }
}

/// Reading a token never gives characters back.
pub proof fn lemma_lex_shrinks(c: char, rest: Seq<char>, line: usize)
    ensures
        lex(c, rest, line).rest.len() <= rest.len(),
    decreases rest.len(), 1nat,
{
    if c == ' ' || c == '\r' || c == '\t' {
        if rest.len() > 0 {
            lemma_lex_shrinks(rest[0], rest.drop_first(), line);
        }
    } else if c == '\n' {
        if rest.len() > 0 {
            lemma_lex_shrinks(rest[0], rest.drop_first(), bump(line));
        }
    } else if punctuation(c) is Some {
    } else if operator_alone(c) is Some {
    } else if c == '/' {
        if rest.len() > 0 && rest[0] == '/' {
            lemma_lex_comment_shrinks(rest.drop_first(), line);
        }
    } else if c == '"' {
        lemma_run_len_bound(rest, CharClass::StringBody);
    } else if spec_is_digit(c) {
        lemma_run_len_bound(rest, CharClass::Digit);
        let n = run_len(rest, CharClass::Digit);
        let after = rest.skip(n as int);
        if after.len() >= 2 {
            lemma_run_len_bound(after.drop_first(), CharClass::Digit);
        }
    } else if spec_is_alpha(c) {
        lemma_run_len_bound(rest, CharClass::Word);
    }
}

pub proof fn lemma_lex_comment_shrinks(rest: Seq<char>, line: usize)
    ensures
        lex_comment(rest, line).rest.len() <= rest.len(),
    decreases rest.len(), 0nat,
{
    if rest.len() == 0 {
    } else if rest[0] == '\n' {
        lemma_lex_shrinks('\n', rest.drop_first(), line);
    } else {
        lemma_lex_comment_shrinks(rest.drop_first(), line);
    }
}

/// A run is no longer than the sequence it is a prefix of.
pub proof fn lemma_run_len_bound(s: Seq<char>, class: CharClass)
    ensures
        run_len(s, class) <= s.len(),
    decreases s.len(),
{
    if s.len() > 0 && in_class(class, s[0]) {
        lemma_run_len_bound(s.drop_first(), class);
    }
}

/// The tokens of the unread input `rest`, starting on `line`: every token in
/// order, then the end-of-input token; or the first error.
pub open spec fn scan(rest: Seq<char>, line: usize) -> Result<Seq<TokenView>, LexError>
    decreases rest.len(),
{
    if rest.len() == 0 {
        Ok(seq![TokenView { kind: TokenKind::Eof, line }])
    } else {
        let step = lex(rest[0], rest.drop_first(), line);
        match step.outcome {
            Err(error) => Err(error),
            Ok(TokenKind::Eof) => Ok(seq![TokenView { kind: TokenKind::Eof, line: step.line }]),
            Ok(kind) => {
                proof {
                    lemma_lex_shrinks(rest[0], rest.drop_first(), line);
                }
                match scan(step.rest, step.line) {
                    Ok(tokens) => Ok(seq![TokenView { kind, line: step.line }] + tokens),
                    Err(error) => Err(error),
                }
            },
        }
    }
}

/// The next token of the unread input `rest`: the end of input where nothing
/// is unread, else the token that starts with the first unread character.
pub open spec fn next_token(rest: Seq<char>, line: usize) -> Lexed {
    if rest.len() == 0 {
        lexed(TokenKind::Eof, rest, line)
    } else {
        lex(rest[0], rest.drop_first(), line)
    }
}

/// The tokens of a whole source text.
pub open spec fn scan_source(source: Seq<char>) -> Result<Seq<TokenView>, LexError> {
    scan(source, 1)
}

/// The multi-peek adaptor of the itertools crate, opaque to the verifier.
#[verifier::external_type_specification]
#[verifier::external_body]
#[verifier::reject_recursive_types(I)]
pub struct ExMultiPeek<I: Iterator>(MultiPeek<I>);

/// The characters that a multi-peek stream has not handed out yet, in order.
pub uninterp spec fn unread(stream: &MultiPeek<Chars<'_>>) -> Seq<char>;

/// How far ahead of the first unread character the stream's peeking cursor is.
pub uninterp spec fn peeked(stream: &MultiPeek<Chars<'_>>) -> nat;

/// `itertools::multipeek`: a stream over the characters of `chars`, with its
/// peeking cursor at the first of them.
#[verifier::external_body]
fn stream_of<'a>(chars: Chars<'a>) -> (stream: MultiPeek<Chars<'a>>)
    ensures
        unread(&stream) == chars.remaining(),
        peeked(&stream) == 0,
{
    itertools::multipeek(chars)
}

/// `MultiPeek::next`: hands out the first unread character, if there is one,
/// and puts the peeking cursor back to the start.
#[verifier::external_body]
fn stream_next<'a>(stream: &mut MultiPeek<Chars<'a>>) -> (c: Option<char>)
    ensures
        peeked(final(stream)) == 0,
        unread(old(stream)).len() > 0 ==> c == Some(unread(old(stream))[0]) && unread(
            final(stream),
        ) == unread(old(stream)).drop_first(),
        unread(old(stream)).len() == 0 ==> c is None && unread(final(stream)) == unread(
            old(stream),
        ),
{
    stream.next()
}

/// `MultiPeek::peek`: the unread character under the peeking cursor, if there
/// is one, and the cursor moves one further; nothing is consumed. At the end
/// of the input it returns `None` and leaves the cursor where it is.
#[verifier::external_body]
fn stream_peek<'a>(stream: &mut MultiPeek<Chars<'a>>) -> (c: Option<char>)
    ensures
        unread(final(stream)) == unread(old(stream)),
        peeked(old(stream)) < unread(old(stream)).len() ==> c == Some(
            unread(old(stream))[peeked(old(stream)) as int],
        ) && peeked(final(stream)) == peeked(old(stream)) + 1,
        peeked(old(stream)) >= unread(old(stream)).len() ==> c is None && peeked(final(stream))
            == peeked(old(stream)),
{
    stream.peek().copied()
}

/// `MultiPeek::reset_peek`: puts the peeking cursor back to the first unread
/// character.
#[verifier::external_body]
fn stream_reset<'a>(stream: &mut MultiPeek<Chars<'a>>)
    ensures
        unread(final(stream)) == unread(old(stream)),
        peeked(final(stream)) == 0,
{
    stream.reset_peek()
}

/// `String::push`: appends one character.
#[verifier::external_body]
fn push_char(text: &mut String, c: char)
    ensures
        final(text)@ == old(text)@.push(c),
{
    text.push(c)
}

/// The state of a scan: the stream of characters, the tokens found so far and
/// the current line.
pub struct ScanState<'a> {
    chars: MultiPeek<Chars<'a>>,
    tokens: Vec<Token>,
    line: usize,
}

impl<'a> ScanState<'a> {
    /// The characters not yet read.
    pub closed spec fn rest(&self) -> Seq<char> {
        unread(&self.chars)
    }

    /// The current line, counted from 1.
    pub closed spec fn line(&self) -> usize {
        self.line
    }

    /// The tokens found so far.
    pub closed spec fn tokens(&self) -> Seq<TokenView> {
        token_views(self.tokens@)
    }

    /// Whether the stream's peeking cursor is at the first unread character.
    pub closed spec fn settled(&self) -> bool {
        peeked(&self.chars) == 0
    }

    /// A scan that has read nothing of `input_chars` yet.
    pub fn new(input_chars: Chars<'a>) -> (state: Self)
        ensures
            state.rest() == input_chars.remaining(),
            state.line() == 1,
            state.tokens() == Seq::<TokenView>::empty(),
            state.settled(),
    {
        let state = ScanState { chars: stream_of(input_chars), tokens: Vec::new(), line: 1 };
        assert(state.tokens() =~= Seq::<TokenView>::empty());
        state
    }

    /// Reads the longest run of characters of `class`, appends it to `text`
    /// and counts its line breaks.
    fn take_run(&mut self, class: CharClass, text: &mut String)
        requires
            old(self).settled(),
        ensures
            final(self).settled(),
            final(self).tokens == old(self).tokens,
            ({
                let n = run_len(old(self).rest(), class) as int;
                &&& n <= old(self).rest().len()
                &&& final(self).rest() == old(self).rest().skip(n)
                &&& final(text)@ == old(text)@ + old(self).rest().take(n)
                &&& final(self).line() == line_after(old(self).line(), old(self).rest().take(n))
            }),
    {
        let ghost start = self.rest();
        let ghost before = text@;
        let ghost first_line = self.line;
        let ghost mut k: int = 0;
        proof {
            assert(start.skip(0) =~= start);
            assert(start.take(0) =~= Seq::<char>::empty());
            assert(before + start.take(0) =~= before);
        }
        loop
            invariant
                0 <= k <= start.len(),
                self.rest() == start.skip(k),
                self.settled(),
                self.tokens == old(self).tokens,
                text@ == before + start.take(k),
                run_len(start, class) == k + run_len(start.skip(k), class),
                self.line == line_after(first_line, start.take(k)),
            ensures
                0 <= k <= start.len(),
                k == run_len(start, class),
                self.rest() == start.skip(k),
                self.settled(),
                self.tokens == old(self).tokens,
                text@ == before + start.take(k),
                self.line == line_after(first_line, start.take(k)),
            decreases start.len() - k,
        {
            let next = stream_peek(&mut self.chars);
            match next {
                None => {
                    break ;
                },
                Some(c) => {
                    assert(c == start.skip(k)[0]);
                    if !in_class_of(class, c) {
                        stream_reset(&mut self.chars);
                        break ;
                    }
                    if c == '\n' {
                        self.line = next_line(self.line);
                    }
                    push_char(text, c);
                    let _ = stream_next(&mut self.chars);
                    proof {
                        assert(start.skip(k).drop_first() =~= start.skip(k + 1));
                        assert(start.take(k + 1).drop_last() =~= start.take(k));
                        assert(start.take(k + 1).last() == c);
                        assert(before + start.take(k + 1) =~= (before + start.take(k)).push(c));
                        k = k + 1;
                    }
                },
            }
        }
    }
}

/// Whether `c` is a decimal digit.
pub fn is_digit(c: char) -> (r: bool)
    ensures
        r == spec_is_digit(c),
{
    c >= '0' && c <= '9'
}

/// Whether `c` may start an identifier: a letter or the underscore.
pub fn is_alpha(c: char) -> (r: bool)
    ensures
        r == spec_is_alpha(c),
{
    (c >= 'a' && c <= 'z') || (c >= 'A' && c <= 'Z') || c == '_'
}

fn in_class_of(class: CharClass, c: char) -> (r: bool)
    ensures
        r == in_class(class, c),
{
    match class {
        CharClass::Digit => is_digit(c),
        CharClass::Word => is_alpha(c) || is_digit(c),
        CharClass::StringBody => c != '"',
    }
}

fn next_line(line: usize) -> (r: usize)
    ensures
        r == bump(line),
{
    if line < usize::MAX {
        line + 1
    } else {
        line
    }
}

impl<'a> ScanState<'a> {
    /// Reads the next character if it is `expected`, and says whether it was.
    fn accept(&mut self, expected: char) -> (r: bool)
        requires
            old(self).settled(),
        ensures
            final(self).settled(),
            final(self).tokens == old(self).tokens,
            final(self).line() == old(self).line(),
            r == (old(self).rest().len() > 0 && old(self).rest()[0] == expected),
            r ==> final(self).rest() == old(self).rest().drop_first(),
            !r ==> final(self).rest() == old(self).rest(),
    {
        let next = stream_peek(&mut self.chars);
        match next {
            Some(c) => {
                if c == expected {
                    let _ = stream_next(&mut self.chars);
                    true
                } else {
                    stream_reset(&mut self.chars);
                    false
                }
            },
            None => false,
        }
    }
}

/// Whether `c` is a blank: a space, a tab, or one of the characters that end
/// a line.
pub open spec fn is_blank(c: char) -> bool {
    c == ' ' || c == '\r' || c == '\t' || c == '\n'
}

/// Skips the blanks and comments that start with `c`, and returns the first
/// character of the token behind them, or `None` where the input ends first.
///
/// What [`lex`] gives from the character returned is what it gives from `c`.
#[verifier::loop_isolation(false)]
fn skip_blanks<'a>(c: char, state: &mut ScanState<'a>) -> (r: Option<char>)
    requires
        old(state).settled(),
    ensures
        final(state).tokens() == old(state).tokens(),
        final(state).settled(),
        match r {
            Some(first) => {
                &&& lex(first, final(state).rest(), final(state).line()) == lex(
                    c,
                    old(state).rest(),
                    old(state).line(),
                )
                &&& !is_blank(first)
                &&& !(first == '/' && final(state).rest().len() > 0 && final(state).rest()[0]
                    == '/')
            },
            None => lex(c, old(state).rest(), old(state).line()) == lexed(
                TokenKind::Eof,
                final(state).rest(),
                final(state).line(),
            ),
        },
{
    let ghost target = lex(c, state.rest(), state.line());
    let mut c = c;
    loop
        invariant
            state.settled(),
            state.tokens == old(state).tokens,
            lex(c, state.rest(), state.line()) == target,
        decreases state.rest().len(),
    {
        let ghost unread_before = state.rest().len();
        if c == ' ' || c == '\r' || c == '\t' || c == '\n' {
            if c == '\n' {
                state.line = next_line(state.line);
            }
            match stream_next(&mut state.chars) {
                None => {
                    return None;
                },
                Some(next) => {
                    c = next;
                },
            }
        } else if c == '/' {
            if !state.accept('/') {
                return Some(c);
            }
            let mut in_comment = true;
            while in_comment
                invariant
                    state.settled(),
                    state.tokens == old(state).tokens,
                    state.rest().len() < unread_before,
                    in_comment ==> lex_comment(state.rest(), state.line()) == target,
                    !in_comment ==> lex('\n', state.rest(), state.line()) == target,
                decreases state.rest().len() + (if in_comment {
                    1int
                } else {
                    0int
                }),
            {
                match stream_next(&mut state.chars) {
                    None => {
                        return None;
                    },
                    Some(next) => {
                        if next == '\n' {
                            in_comment = false;
                        }
                    },
                }
            }
            c = '\n';
        } else {
            return Some(c);
        }
    }
}

/// The kind of the token that starts with `c`, read from `state`.
///
/// Skips blanks and comments first. On success the state is left behind the
/// token; the kind, the unread input and the line are those that [`lex`]
/// gives. An error is the one that [`lex`] gives.
fn get_next_token_type<'a>(c: char, state: &mut ScanState<'a>) -> (r: Result<
    TokenType,
    LexError,
>)
    requires
        old(state).settled(),
    ensures
        final(state).tokens() == old(state).tokens(),
        final(state).settled(),
        ({
            let step = lex(c, old(state).rest(), old(state).line());
            match r {
                Ok(kind) => {
                    &&& step.outcome == Ok::<TokenKind, LexError>(kind@)
                    &&& final(state).rest() == step.rest
                    &&& final(state).line() == step.line
                },
                Err(error) => step.outcome == Err::<TokenKind, LexError>(error),
            }
        }),
{
    let c = match skip_blanks(c, state) {
        Some(first) => first,
        None => {
            return Ok(TokenType::Eof);
        },
    };
    let ghost rest = state.rest();
    let ghost line = state.line();
    if c == '/' {
        Ok(TokenType::Slash)
    } else if c == '(' {
        Ok(TokenType::LeftParen)
    } else if c == ')' {
        Ok(TokenType::RightParen)
    } else if c == '{' {
        Ok(TokenType::LeftBrace)
    } else if c == '}' {
        Ok(TokenType::RightBrace)
    } else if c == ',' {
        Ok(TokenType::Comma)
    } else if c == '.' {
        Ok(TokenType::Dot)
    } else if c == '-' {
        Ok(TokenType::Minus)
    } else if c == '+' {
        Ok(TokenType::Plus)
    } else if c == ';' {
        Ok(TokenType::Semicolon)
    } else if c == '*' {
        Ok(TokenType::Star)
    } else if c == '!' {
        if state.accept('=') {
            Ok(TokenType::BangEqual)
        } else {
            Ok(TokenType::Bang)
        }
    } else if c == '=' {
        if state.accept('=') {
            Ok(TokenType::EqualEqual)
        } else {
            Ok(TokenType::Equal)
        }
    } else if c == '<' {
        if state.accept('=') {
            Ok(TokenType::LessEqual)
        } else {
            Ok(TokenType::Less)
        }
    } else if c == '>' {
        if state.accept('=') {
            Ok(TokenType::GreaterEqual)
        } else {
            Ok(TokenType::Greater)
        }
    } else if c == '"' {
        let mut text = String::new();
        state.take_run(CharClass::StringBody, &mut text);
        proof {
            let n = run_len(rest, CharClass::StringBody) as int;
            assert(Seq::<char>::empty() + rest.take(n) =~= rest.take(n));
            assert(rest.skip(n).len() == 0 ==> rest.take(n) =~= rest);
            assert(rest.skip(n).len() > 0 ==> rest.skip(n).drop_first() =~= rest.skip(n + 1));
        }
        match stream_next(&mut state.chars) {
            None => Err(LexError::UnterminatedString { line: state.line }),
            Some(_) => Ok(TokenType::Text(text)),
        }
    } else if is_digit(c) {
        let mut text = String::new();
        push_char(&mut text, c);
        state.take_run(CharClass::Digit, &mut text);
        let ghost n = run_len(rest, CharClass::Digit) as int;
        let ghost after = rest.skip(n);
        let mut fraction = false;
        match stream_peek(&mut state.chars) {
            Some(dot) => {
                if dot == '.' {
                    match stream_peek(&mut state.chars) {
                        Some(digit) => {
                            fraction = is_digit(digit);
                        },
                        None => {},
                    }
                }
            },
            None => {},
        }
        proof {
            assert(Seq::<char>::empty().push(c) =~= seq![c]);
            lemma_line_after_run(line, rest, CharClass::Digit);
        }
        if fraction {
            let _ = stream_next(&mut state.chars);
            push_char(&mut text, '.');
            state.take_run(CharClass::Digit, &mut text);
            proof {
                let m = run_len(after.drop_first(), CharClass::Digit) as int;
                assert(after.drop_first().skip(m) =~= rest.skip(n + 1 + m));
                assert((seq![c] + rest.take(n)).push('.') + after.drop_first().take(m) =~= seq![c]
                    + rest.take(n + 1 + m));
                lemma_line_after_run(line, after.drop_first(), CharClass::Digit);
            }
        } else {
            stream_reset(&mut state.chars);
        }
        Ok(TokenType::Number(text))
    } else if is_alpha(c) {
        let mut text = String::new();
        push_char(&mut text, c);
        state.take_run(CharClass::Word, &mut text);
        proof {
            assert(Seq::<char>::empty().push(c) =~= seq![c]);
            lemma_line_after_run(line, rest, CharClass::Word);
        }
        match keyword_to_token_type(&text) {
            Some(keyword) => Ok(keyword),
            None => Ok(TokenType::Identifier(text)),
        }
    } else {
        Err(LexError::UnrecognizedCharacter { character: c, line: state.line })
    }
}

/// A run of digits or word characters holds no line break.
proof fn lemma_line_after_run(line: usize, s: Seq<char>, class: CharClass)
    requires
        class != CharClass::StringBody,
    ensures
        line_after(line, s.take(run_len(s, class) as int)) == line,
{
    lemma_run_len_bound(s, class);
    lemma_run_in_class(s, class);
    lemma_line_after_plain(line, s.take(run_len(s, class) as int));
}

/// Every character of a run is in its class.
proof fn lemma_run_in_class(s: Seq<char>, class: CharClass)
    ensures
        run_len(s, class) <= s.len(),
        forall|i: int| 0 <= i < run_len(s, class) ==> in_class(class, #[trigger] s[i]),
    decreases s.len(),
{
    lemma_run_len_bound(s, class);
    if s.len() > 0 && in_class(class, s[0]) {
        lemma_run_in_class(s.drop_first(), class);
        assert forall|i: int| 0 <= i < run_len(s, class) implies in_class(
            class,
            #[trigger] s[i],
        ) by {
            if i > 0 {
                assert(s[i] == s.drop_first()[i - 1]);
            }
        }
    }
}

/// Text without a line break leaves the line counter as it is.
proof fn lemma_line_after_plain(line: usize, s: Seq<char>)
    requires
        forall|i: int| 0 <= i < s.len() ==> #[trigger] s[i] != '\n',
    ensures
        line_after(line, s) == line,
    decreases s.len(),
{
    if s.len() > 0 {
        lemma_line_after_plain(line, s.drop_last());
    }
}

/// The token that starts with `c`, read from `state`: its kind as
/// [`get_next_token_type`] gives it, and the line on which it ends.
fn scan_token<'a>(c: char, state: &mut ScanState<'a>) -> (r: Result<Token, LexError>)
    requires
        old(state).settled(),
    ensures
        final(state).tokens() == old(state).tokens(),
        final(state).settled(),
        ({
            let step = lex(c, old(state).rest(), old(state).line());
            match r {
                Ok(token) => {
                    &&& step.outcome is Ok
                    &&& token@ == TokenView { kind: step.outcome->Ok_0, line: step.line }
                    &&& final(state).rest() == step.rest
                    &&& final(state).line() == step.line
                },
                Err(error) => step.outcome == Err::<TokenKind, LexError>(error),
            }
        }),
{
    match get_next_token_type(c, state) {
        Ok(token_type) => Ok(Token { token_type, line: state.line }),
        Err(error) => Err(error),
    }
}

/// `done` followed by the tokens of `more`, or the error of `more`.
pub open spec fn after_tokens(
    done: Seq<TokenView>,
    more: Result<Seq<TokenView>, LexError>,
) -> Result<Seq<TokenView>, LexError> {
    match more {
        Ok(tokens) => Ok(done + tokens),
        Err(error) => Err(error),
    }
}

/// Whether `r` is the outcome of scanning `source`: the tokens that
/// [`scan_source`] gives, or the error that it gives.
pub open spec fn scanned(source: Seq<char>, r: Result<Vec<Token>, LexError>) -> bool {
    match r {
        Ok(tokens) => scan_source(source) == Ok::<Seq<TokenView>, LexError>(token_views(tokens@)),
        Err(error) => scan_source(source) == Err::<Seq<TokenView>, LexError>(error),
    }
}

impl<'a> ScanState<'a> {
    /// Reads the next token and adds it to the tokens found so far. Returns
    /// whether more tokens may follow: `false` once the end-of-input token
    /// has been added.
    pub fn advance(&mut self) -> (r: Result<bool, LexError>)
        ensures
            ({
                let step = next_token(old(self).rest(), old(self).line());
                match r {
                    Ok(more) => {
                        &&& step.outcome is Ok
                        &&& final(self).tokens() == old(self).tokens().push(
                            TokenView { kind: step.outcome->Ok_0, line: step.line },
                        )
                        &&& final(self).rest() == step.rest
                        &&& final(self).line() == step.line
                        &&& more == !(step.outcome->Ok_0 is Eof)
                    },
                    Err(error) => step.outcome == Err::<TokenKind, LexError>(error),
                }
            }),
    {
        let ghost done = self.tokens();
        match stream_next(&mut self.chars) {
            None => {
                let token = Token { token_type: TokenType::Eof, line: self.line };
                let ghost view = token@;
                self.tokens.push(token);
                assert(self.tokens() =~= done.push(view));
                Ok(false)
            },
            Some(c) => match scan_token(c, self) {
                Err(error) => Err(error),
                Ok(token) => {
                    let last = match token.token_type {
                        TokenType::Eof => true,
                        _ => false,
                    };
                    let ghost view = token@;
                    self.tokens.push(token);
                    assert(self.tokens() =~= done.push(view));
                    Ok(!last)
                },
            },
        }
    }

    /// Ends the scan and hands out the tokens found.
    pub fn into_tokens(self) -> (tokens: Vec<Token>)
        ensures
            token_views(tokens@) == self.tokens(),
    {
        self.tokens
    }
}

/// Scans a whole source text.
///
/// Returns the tokens that [`scan_source`] gives for the characters of
/// `input_chars`, the last of them the end-of-input token; or the first
/// error, exactly when [`scan_source`] gives that error.
#[verifier::loop_isolation(false)]
pub fn scan_tokens<'a>(input_chars: Chars<'a>) -> (r: Result<Vec<Token>, LexError>)
    ensures
        scanned(input_chars.remaining(), r),
{
    let ghost source = input_chars.remaining();
    let mut state = ScanState::new(input_chars);
    proof {
        assert(Seq::<TokenView>::empty() + scan(source, 1)->Ok_0 =~= scan(source, 1)->Ok_0);
    }
    loop
        invariant
            scan_source(source) == after_tokens(state.tokens(), scan(state.rest(), state.line())),
        decreases state.rest().len(),
    {
        let ghost rest = state.rest();
        let ghost done = state.tokens();
        let ghost step = next_token(rest, state.line());
        proof {
            if rest.len() > 0 {
                lemma_lex_shrinks(rest[0], rest.drop_first(), state.line());
            }
        }
        match state.advance() {
            Err(error) => {
                return Err(error);
            },
            Ok(more) => {
                proof {
                    let view = TokenView { kind: step.outcome->Ok_0, line: step.line };
                    assert(done.push(view) =~= done + seq![view]);
                    let rest_of_scan = scan(state.rest(), state.line());
                    if more && rest_of_scan is Ok {
                        assert(done + (seq![view] + rest_of_scan->Ok_0) =~= (done + seq![view])
                            + rest_of_scan->Ok_0);
                    }
                }
                if !more {
                    return Ok(state.into_tokens());
                }
            },
        }
    }
}

/// The tokens of a scan end with the end-of-input token, which occurs
/// nowhere else among them.
pub proof fn theorem_tokens_end_with_the_end_marker(rest: Seq<char>, line: usize)
    ensures
        match scan(rest, line) {
            Ok(tokens) => tokens.len() > 0 && tokens.last().kind is Eof && forall|i: int|
                0 <= i < tokens.len() - 1 ==> !((#[trigger] tokens[i]).kind is Eof),
            Err(_) => true,
        },
    decreases rest.len(),
{
    if rest.len() > 0 {
        let step = lex(rest[0], rest.drop_first(), line);
        match step.outcome {
            Err(_) => {},
            Ok(TokenKind::Eof) => {},
            Ok(kind) => {
                lemma_lex_shrinks(rest[0], rest.drop_first(), line);
                theorem_tokens_end_with_the_end_marker(step.rest, step.line);
                match scan(step.rest, step.line) {
                    Ok(more) => {
                        let tokens = seq![TokenView { kind, line: step.line }] + more;
                        assert(tokens.last() == more.last());
                        assert forall|i: int| 0 <= i < tokens.len() - 1 implies !((
                        #[trigger] tokens[i]).kind is Eof) by {
                            if i > 0 {
                                assert(tokens[i] == more[i - 1]);
                            }
                        }
                    },
                    Err(_) => {},
                }
            },
        }
    }
}

/// Reading text never takes the line counter back.
proof fn lemma_line_after_grows(line: usize, s: Seq<char>)
    ensures
        line_after(line, s) >= line,
    decreases s.len(),
{
    if s.len() > 0 {
        lemma_line_after_grows(line, s.drop_last());
    }
}

/// Reading a token never takes the line counter back.
proof fn lemma_lex_line_grows(c: char, rest: Seq<char>, line: usize)
    ensures
        lex(c, rest, line).line >= line,
    decreases rest.len(), 1nat,
{
    if c == ' ' || c == '\r' || c == '\t' {
        if rest.len() > 0 {
            lemma_lex_line_grows(rest[0], rest.drop_first(), line);
        }
    } else if c == '\n' {
        if rest.len() > 0 {
            lemma_lex_line_grows(rest[0], rest.drop_first(), bump(line));
        }
    } else if punctuation(c) is Some {
    } else if operator_alone(c) is Some {
    } else if c == '/' {
        if rest.len() > 0 && rest[0] == '/' {
            lemma_lex_comment_line_grows(rest.drop_first(), line);
        }
    } else if c == '"' {
        lemma_line_after_grows(line, rest);
        lemma_line_after_grows(line, rest.take(run_len(rest, CharClass::StringBody) as int));
    }
}

proof fn lemma_lex_comment_line_grows(rest: Seq<char>, line: usize)
    ensures
        lex_comment(rest, line).line >= line,
    decreases rest.len(), 0nat,
{
    if rest.len() == 0 {
    } else if rest[0] == '\n' {
        lemma_lex_line_grows('\n', rest.drop_first(), line);
    } else {
        lemma_lex_comment_line_grows(rest.drop_first(), line);
    }
}

/// The lines of the tokens of a scan never decrease, and none is before the
/// line on which the scan starts.
pub proof fn theorem_lines_do_not_decrease(rest: Seq<char>, line: usize)
    ensures
        match scan(rest, line) {
            Ok(tokens) => forall|i: int, j: int|
                0 <= i <= j < tokens.len() ==> line <= (#[trigger] tokens[i]).line <= (
                #[trigger] tokens[j]).line,
            Err(_) => true,
        },
    decreases rest.len(),
{
    if rest.len() > 0 {
        let step = lex(rest[0], rest.drop_first(), line);
        lemma_lex_line_grows(rest[0], rest.drop_first(), line);
        match step.outcome {
            Err(_) => {},
            Ok(TokenKind::Eof) => {},
            Ok(kind) => {
                lemma_lex_shrinks(rest[0], rest.drop_first(), line);
                theorem_lines_do_not_decrease(step.rest, step.line);
                match scan(step.rest, step.line) {
                    Ok(more) => {
                        let tokens = seq![TokenView { kind, line: step.line }] + more;
                        assert forall|i: int, j: int| 0 <= i <= j < tokens.len() implies line <= (
                        #[trigger] tokens[i]).line <= (#[trigger] tokens[j]).line by {
                            if i > 0 {
                                assert(tokens[i] == more[i - 1]);
                                assert(tokens[j] == more[j - 1]);
                            } else if j > 0 {
                                assert(tokens[j] == more[j - 1]);
                                assert(more[0].line <= more[j - 1].line);
                            }
                        }
                    },
                    Err(_) => {},
                }
            },
        }
    }
}

} // verus!

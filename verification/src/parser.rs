//! The syntax tree and the recursive-descent parser that builds it.
//!
//! The grammar is given by spec functions over the sequence of tokens and a
//! position in it. Each says how many tokens are used from that position and
//! what is built from them. The executable parser is proved to build the same
//! trees and to stop at the same positions.

use vstd::prelude::*;
use crate::grammar::{
    after, arg_list, assignment, binary, binary_tail, block_items, call, call_args, call_tail,
    condition, decl, done, expression, exprstmt, fail, for_cond, for_init, for_loop, for_rest,
    for_step, fun_rest, if_rest, implied, is_literal, kind_at, left, lemma_condition_progress,
    lemma_decl_progress, level_has, level_rank, line_at, operand, param_list, params, primary,
    print_rest, program, return_rest, stmt, terminated, tighter, unary, var_rest, while_rest,
    ArgList, Level, ParseError, ParseErrorKind, Parsed, Program,
};
use crate::limits::{arity_warnings, ParseWarning};
use crate::token::{token_views, Token, TokenKind, TokenType, TokenView};

verus! {

/// An expression.
///
/// A variable reference and an assignment carry an identity, the index of the
/// token they were built from, under which their resolution is filed.
#[derive(Debug, PartialEq)]
pub enum Expr {
    /// A literal or a variable reference: its identity and its token.
    Leaf(usize, Token),
    /// An assignment: its identity, the variable's name and the new value.
    Assign(usize, String, Box<Expr>),
    Unary(Token, Box<Expr>),
    Binary(Token, Box<Expr>, Box<Expr>),
    /// A short-circuiting `and` or `or`.
    Logical(Token, Box<Expr>, Box<Expr>),
    Grouping(Box<Expr>),
    /// A call: the closing parenthesis, the callee and the arguments.
    Call(Token, Box<Expr>, Vec<Expr>),
}

/// The declaration of a function. Its identity is the index of the token
/// that names it.
#[derive(Debug, PartialEq)]
pub struct StmtFunction {
    pub id: usize,
    pub name: String,
    pub params: Vec<String>,
    pub body: Vec<Stmt>,
}

/// A statement.
#[derive(Debug, PartialEq)]
pub enum Stmt {
    Expression(Expr),
    Function(StmtFunction),
    Return(Expr),
    Print(Expr),
    Var(String, Expr),
    Block(Vec<Stmt>),
    If(Expr, Box<Stmt>, Box<Option<Stmt>>),
    While(Expr, Box<Stmt>),
}

/// The mathematical model of an [`Expr`].
pub enum ExprView {
    Leaf(usize, TokenView),
    Assign(usize, Seq<char>, Box<ExprView>),
    Unary(TokenView, Box<ExprView>),
    Binary(TokenView, Box<ExprView>, Box<ExprView>),
    Logical(TokenView, Box<ExprView>, Box<ExprView>),
    Grouping(Box<ExprView>),
    Call(TokenView, Box<ExprView>, Seq<ExprView>),
}

/// The mathematical model of a [`StmtFunction`].
pub struct FunctionView {
    pub id: usize,
    pub name: Seq<char>,
    pub params: Seq<Seq<char>>,
    pub body: Seq<StmtView>,
}

/// The mathematical model of a [`Stmt`].
pub enum StmtView {
    Expression(ExprView),
    Function(FunctionView),
    Return(ExprView),
    Print(ExprView),
    Var(Seq<char>, ExprView),
    Block(Seq<StmtView>),
    If(ExprView, Box<StmtView>, Option<Box<StmtView>>),
    While(ExprView, Box<StmtView>),
}

pub open spec fn expr_view(e: Expr) -> ExprView
    decreases e,
{
    match e {
        Expr::Leaf(id, token) => ExprView::Leaf(id, token@),
        Expr::Assign(id, name, value) => ExprView::Assign(id, name@, Box::new(expr_view(*value))),
        Expr::Unary(op, operand) => ExprView::Unary(op@, Box::new(expr_view(*operand))),
        Expr::Binary(op, left, right) => ExprView::Binary(
            op@,
            Box::new(expr_view(*left)),
            Box::new(expr_view(*right)),
        ),
        Expr::Logical(op, left, right) => ExprView::Logical(
            op@,
            Box::new(expr_view(*left)),
            Box::new(expr_view(*right)),
        ),
        Expr::Grouping(inner) => ExprView::Grouping(Box::new(expr_view(*inner))),
        Expr::Call(paren, callee, args) => ExprView::Call(
            paren@,
            Box::new(expr_view(*callee)),
            Seq::new(
                args@.len(),
                |i: int|
                    if 0 <= i < args@.len() {
                        expr_view(args@[i])
                    } else {
                        arbitrary()
                    },
            ),
        ),
    }
}

impl View for Expr {
    type V = ExprView;

    open spec fn view(&self) -> ExprView {
        expr_view(*self)
    }
}

/// The models of a sequence of expressions, in order.
pub open spec fn expr_views(exprs: Seq<Expr>) -> Seq<ExprView> {
    Seq::new(exprs.len(), |i: int| exprs[i]@)
}

/// The views of a sequence of names, in order.
pub open spec fn name_views(names: Seq<String>) -> Seq<Seq<char>> {
    Seq::new(names.len(), |i: int| names[i]@)
}

pub open spec fn stmt_view(s: Stmt) -> StmtView
    decreases s,
{
    match s {
        Stmt::Expression(e) => StmtView::Expression(e@),
        Stmt::Function(f) => StmtView::Function(
            FunctionView {
                id: f.id,
                name: f.name@,
                params: name_views(f.params@),
                body: Seq::new(
                    f.body@.len(),
                    |i: int|
                        if 0 <= i < f.body@.len() {
                            stmt_view(f.body@[i])
                        } else {
                            arbitrary()
                        },
                ),
            },
        ),
        Stmt::Return(e) => StmtView::Return(e@),
        Stmt::Print(e) => StmtView::Print(e@),
        Stmt::Var(name, e) => StmtView::Var(name@, e@),
        Stmt::Block(stmts) => StmtView::Block(
            Seq::new(
                stmts@.len(),
                |i: int|
                    if 0 <= i < stmts@.len() {
                        stmt_view(stmts@[i])
                    } else {
                        arbitrary()
                    },
            ),
        ),
        Stmt::If(cond, then_branch, else_branch) => StmtView::If(
            cond@,
            Box::new(stmt_view(*then_branch)),
            match *else_branch {
                Some(s) => Some(Box::new(stmt_view(s))),
                None => None,
            },
        ),
        Stmt::While(cond, body) => StmtView::While(cond@, Box::new(stmt_view(*body))),
    }
}

impl View for Stmt {
    type V = StmtView;

    open spec fn view(&self) -> StmtView {
        stmt_view(*self)
    }
}

/// The models of a sequence of statements, in order.
pub open spec fn stmt_views(stmts: Seq<Stmt>) -> Seq<StmtView> {
    Seq::new(stmts.len(), |i: int| stmts[i]@)
}

impl View for StmtFunction {
    type V = FunctionView;

    open spec fn view(&self) -> FunctionView {
        FunctionView {
            id: self.id,
            name: self.name@,
            params: name_views(self.params@),
            body: stmt_views(self.body@),
        }
    }
}

/// Whether a token kind carries no text.
pub open spec fn is_plain(kind: TokenKind) -> bool {
    !(kind is Identifier || kind is Text || kind is Number)
}

/// Whether `a` is of the kind `b`, for a kind `b` that carries no text.
fn same_kind(a: &TokenType, b: &TokenType) -> (r: bool)
    ensures
        is_plain(b@) ==> r == (a@ == b@),
{
    match (a, b) {
        (TokenType::LeftParen, TokenType::LeftParen) => true,
        (TokenType::RightParen, TokenType::RightParen) => true,
        (TokenType::LeftBrace, TokenType::LeftBrace) => true,
        (TokenType::RightBrace, TokenType::RightBrace) => true,
        (TokenType::Comma, TokenType::Comma) => true,
        (TokenType::Dot, TokenType::Dot) => true,
        (TokenType::Minus, TokenType::Minus) => true,
        (TokenType::Plus, TokenType::Plus) => true,
        (TokenType::Semicolon, TokenType::Semicolon) => true,
        (TokenType::Slash, TokenType::Slash) => true,
        (TokenType::Star, TokenType::Star) => true,
        (TokenType::Bang, TokenType::Bang) => true,
        (TokenType::BangEqual, TokenType::BangEqual) => true,
        (TokenType::Equal, TokenType::Equal) => true,
        (TokenType::EqualEqual, TokenType::EqualEqual) => true,
        (TokenType::Greater, TokenType::Greater) => true,
        (TokenType::GreaterEqual, TokenType::GreaterEqual) => true,
        (TokenType::Less, TokenType::Less) => true,
        (TokenType::LessEqual, TokenType::LessEqual) => true,
        (TokenType::And, TokenType::And) => true,
        (TokenType::Class, TokenType::Class) => true,
        (TokenType::Else, TokenType::Else) => true,
        (TokenType::False, TokenType::False) => true,
        (TokenType::Fun, TokenType::Fun) => true,
        (TokenType::For, TokenType::For) => true,
        (TokenType::If, TokenType::If) => true,
        (TokenType::Nil, TokenType::Nil) => true,
        (TokenType::Or, TokenType::Or) => true,
        (TokenType::Print, TokenType::Print) => true,
        (TokenType::Return, TokenType::Return) => true,
        (TokenType::Super, TokenType::Super) => true,
        (TokenType::This, TokenType::This) => true,
        (TokenType::True, TokenType::True) => true,
        (TokenType::Var, TokenType::Var) => true,
        (TokenType::While, TokenType::While) => true,
        (TokenType::Eof, TokenType::Eof) => true,
        _ => false,
    }
}

fn has_operator(level: Level, kind: &TokenType) -> (r: bool)
    ensures
        r == level_has(level, kind@),
{
    match level {
        Level::Or => matches!(kind, TokenType::Or),
        Level::And => matches!(kind, TokenType::And),
        Level::Equality => matches!(kind, TokenType::EqualEqual | TokenType::BangEqual),
        Level::Comparison => matches!(
            kind,
            TokenType::Greater | TokenType::GreaterEqual | TokenType::Less | TokenType::LessEqual
        ),
        Level::Term => matches!(kind, TokenType::Plus | TokenType::Minus),
        Level::Factor => matches!(kind, TokenType::Slash | TokenType::Star),
    }
}

fn next_level(level: Level) -> (r: Option<Level>)
    ensures
        r == tighter(level),
{
    match level {
        Level::Or => Some(Level::And),
        Level::And => Some(Level::Equality),
        Level::Equality => Some(Level::Comparison),
        Level::Comparison => Some(Level::Term),
        Level::Term => Some(Level::Factor),
        Level::Factor => None,
    }
}

fn literal_kind(kind: &TokenType) -> (r: bool)
    ensures
        r == is_literal(kind@),
{
    matches!(
        kind,
        TokenType::Number(_) | TokenType::Text(_) | TokenType::True | TokenType::False
            | TokenType::Nil | TokenType::Identifier(_)
    )
}

/// The model of a call is the call of the models.
pub proof fn lemma_call_view(paren: Token, callee: Expr, args: Vec<Expr>)
    ensures
        Expr::Call(paren, Box::new(callee), args)@ == ExprView::Call(
            paren@,
            Box::new(callee@),
            expr_views(args@),
        ),
{
    let node = Expr::Call(paren, Box::new(callee), args);
    assert(node@->Call_2 =~= expr_views(args@));
}

/// A parser: the tokens and the position of the next one.
struct Parser {
    tokens: Vec<Token>,
    pos: usize,
}

/// Whether `r` and the parser's move from `before` to `now` are what the
/// grammar function's outcome `p` says.
spec fn yields_expr(before: Parser, now: Parser, r: Result<Expr, ParseError>, p: Parsed<
    ExprView,
>) -> bool {
    &&& now.tokens == before.tokens
    &&& now.pos == before.pos + p.used
    &&& now.pos <= now.tokens.len()
    &&& match r {
        Ok(e) => p.result == Ok::<ExprView, ParseError>(e@),
        Err(error) => p.result == Err::<ExprView, ParseError>(error),
    }
}

/// As [`yields_expr`], for a list of expressions.
spec fn yields_exprs(before: Parser, now: Parser, r: Result<Vec<Expr>, ParseError>, p: Parsed<
    Seq<ExprView>,
>) -> bool {
    &&& now.tokens == before.tokens
    &&& now.pos == before.pos + p.used
    &&& now.pos <= now.tokens.len()
    &&& match r {
        Ok(list) => p.result == Ok::<Seq<ExprView>, ParseError>(expr_views(list@)),
        Err(error) => p.result == Err::<Seq<ExprView>, ParseError>(error),
    }
}

impl Parser {
    /// The models of the tokens.
    spec fn input(&self) -> Seq<TokenView> {
        token_views(self.tokens@)
    }

    /// The position as the grammar counts it.
    spec fn at(&self) -> int {
        self.pos as int
    }

    /// The position is not behind the end.
    spec fn wf(&self) -> bool {
        self.pos <= self.tokens.len()
    }

    /// A parser at the first of `tokens`.
    fn new(tokens: Vec<Token>) -> (parser: Parser)
        ensures
            parser.tokens == tokens,
            parser.pos == 0,
            parser.wf(),
    {
        Parser { tokens, pos: 0 }
    }

    /// Whether the next token is of the kind `expected`, which carries no
    /// text.
    fn check(&self, expected: &TokenType) -> (r: bool)
        requires
            is_plain(expected@),
        ensures
            r == (kind_at(self.input(), self.at()) == Some(expected@)),
    {
        self.pos < self.tokens.len() && same_kind(&self.tokens[self.pos].token_type, expected)
    }

    /// Reads the next token if it is of the kind `expected`, and says whether
    /// it was.
    fn match_next(&mut self, expected: &TokenType) -> (r: bool)
        requires
            is_plain(expected@),
            old(self).wf(),
        ensures
            r == (kind_at(old(self).input(), old(self).at()) == Some(expected@)),
            final(self).tokens == old(self).tokens,
            final(self).wf(),
            final(self).pos == old(self).pos + (if r {
                1int
            } else {
                0int
            }),
    {
        if self.check(expected) {
            self.pos = self.pos + 1;
            true
        } else {
            false
        }
    }

    /// The error of the kind `kind` at the next token.
    fn error_here(&self, kind: ParseErrorKind) -> (e: ParseError)
        ensures
            e == (ParseError { kind, line: line_at(self.input(), self.at()) }),
    {
        let n = self.tokens.len();
        let line = if self.pos < n {
            self.tokens[self.pos].line
        } else if n > 0 {
            self.tokens[n - 1].line
        } else {
            0
        };
        ParseError { kind, line }
    }

    /// Parses a primary expression.
    fn parse_primary(&mut self) -> (r: Result<Expr, ParseError>)
        requires
            old(self).wf(),
        ensures
            yields_expr(*old(self), *final(self), r, primary(old(self).input(), old(self).at())),
        decreases left(old(self).input(), old(self).at()), 0nat,
    {
        let ghost tokens = self.input();
        let ghost start = self.at();
        if self.pos >= self.tokens.len() {
            assert(kind_at(tokens, start) is None);
            return Err(self.error_here(ParseErrorKind::ExpectedExpression));
        }
        assert(kind_at(tokens, start) == Some(tokens[start].kind));
        if self.match_next(&TokenType::LeftParen) {
            let inner = self.parse_expression();
            let ghost spec_inner = expression(tokens, start + 1);
            let expr = match inner {
                Ok(e) => e,
                Err(error) => {
                    assert(primary(tokens, start).result == Err::<ExprView, ParseError>(error));
                    return Err(error);
                },
            };
            if !self.match_next(&TokenType::RightParen) {
                let e = self.error_here(ParseErrorKind::MissingRightParen);
                assert(primary(tokens, start) == fail::<ExprView>(
                    tokens,
                    start,
                    1 + spec_inner.used,
                    ParseErrorKind::MissingRightParen,
                ));
                return Err(e);
            }
            assert(primary(tokens, start) == done(
                2 + spec_inner.used,
                ExprView::Grouping(Box::new(expr@)),
            ));
            return Ok(Expr::Grouping(Box::new(expr)));
        }
        if literal_kind(&self.tokens[self.pos].token_type) {
            let token = self.tokens[self.pos].clone();
            let id = self.pos;
            self.pos = self.pos + 1;
            assert(token@ == tokens[start]);
            assert(primary(tokens, start) == done(1, ExprView::Leaf(id, token@)));
            Ok(Expr::Leaf(id, token))
        } else {
            let e = self.error_here(ParseErrorKind::ExpectedExpression);
            assert(primary(tokens, start) == fail::<ExprView>(
                tokens,
                start,
                0,
                ParseErrorKind::ExpectedExpression,
            ));
            Err(e)
        }
    }

    /// Parses the arguments of a call: expressions with commas between them.
    #[verifier::loop_isolation(false)]
    fn parse_arguments(&mut self) -> (r: Result<Vec<Expr>, ParseError>)
        requires
            old(self).wf(),
        ensures
            yields_exprs(
                *old(self),
                *final(self),
                r,
                call_args(old(self).input(), old(self).at(), Seq::empty()),
            ),
        decreases left(old(self).input(), old(self).at()), 18nat,
    {
        let ghost tokens = self.input();
        let ghost start = self.at();
        let mut args: Vec<Expr> = Vec::new();
        proof {
            assert(expr_views(args@) =~= Seq::<ExprView>::empty());
        }
        loop
            invariant
                self.wf(),
                self.tokens == old(self).tokens,
                self.pos >= start,
                call_args(tokens, start, Seq::empty()) == after(
                    (self.pos - start) as nat,
                    call_args(tokens, self.at(), expr_views(args@)),
                ),
            decreases left(tokens, self.at()),
        {
            let ghost before = expr_views(args@);
            let ghost here = self.at();
            let ghost arg = expression(tokens, here);
            match self.parse_expression() {
                Ok(e) => {
                    args.push(e);
                    proof {
                        assert(expr_views(args@) =~= before.push(e@));
                    }
                },
                Err(error) => {
                    assert(call_args(tokens, here, before).result == Err::<
                        Seq<ExprView>,
                        ParseError,
                    >(error));
                    return Err(error);
                },
            }
            if !self.match_next(&TokenType::Comma) {
                assert(call_args(tokens, here, before) == done(arg.used, expr_views(args@)));
                return Ok(args);
            }
            assert(call_args(tokens, here, before) == after(
                arg.used + 1,
                call_args(tokens, here + arg.used + 1, expr_views(args@)),
            ));
        }
    }

    /// Parses an argument list behind its `(`: the arguments and the `)`.
    fn parse_argument_list(&mut self) -> (r: Result<(Token, Vec<Expr>), ParseError>)
        requires
            old(self).wf(),
        ensures
            final(self).tokens == old(self).tokens,
            final(self).wf(),
            ({
                let p = arg_list(old(self).input(), old(self).at());
                &&& final(self).pos == old(self).pos + p.used
                &&& match r {
                    Ok(list) => p.result == Ok::<ArgList, ParseError>(
                        ArgList { paren: list.0@, args: expr_views(list.1@) },
                    ),
                    Err(error) => p.result == Err::<ArgList, ParseError>(error),
                }
            }),
        decreases left(old(self).input(), old(self).at()), 19nat,
    {
        let ghost tokens = self.input();
        let ghost start = self.at();
        let mut args: Vec<Expr> = Vec::new();
        if !self.check(&TokenType::RightParen) {
            match self.parse_arguments() {
                Ok(list) => {
                    args = list;
                },
                Err(error) => {
                    return Err(error);
                },
            }
            if !self.check(&TokenType::RightParen) {
                return Err(self.error_here(ParseErrorKind::MissingRightParen));
            }
        } else {
            proof {
                assert(expr_views(args@) =~= Seq::<ExprView>::empty());
            }
        }
        let paren = self.tokens[self.pos].clone();
        self.pos = self.pos + 1;
        Ok((paren, args))
    }

    /// Parses a call: a primary expression and the argument lists behind it.
    #[verifier::loop_isolation(false)]
    fn parse_call(&mut self) -> (r: Result<Expr, ParseError>)
        requires
            old(self).wf(),
        ensures
            yields_expr(*old(self), *final(self), r, call(old(self).input(), old(self).at())),
        decreases left(old(self).input(), old(self).at()), 2nat,
    {
        let ghost tokens = self.input();
        let ghost start = self.at();
        let mut lhs = match self.parse_primary() {
            Ok(e) => e,
            Err(error) => {
                return Err(error);
            },
        };
        loop
            invariant
                self.wf(),
                self.tokens == old(self).tokens,
                self.pos >= old(self).pos,
                call(tokens, start) == after(
                    (self.pos - start) as nat,
                    call_tail(tokens, self.at(), lhs@),
                ),
            decreases left(tokens, self.at()),
        {
            let ghost here = self.at();
            let ghost callee = lhs@;
            if !self.match_next(&TokenType::LeftParen) {
                assert(call_tail(tokens, here, callee) == done(0, callee));
                return Ok(lhs);
            }
            let ghost list = arg_list(tokens, here + 1);
            match self.parse_argument_list() {
                Ok(found) => {
                    proof {
                        lemma_call_view(found.0, lhs, found.1);
                        assert(call_tail(tokens, here, callee) == after(
                            1 + list.used,
                            call_tail(
                                tokens,
                                here + 1 + list.used,
                                ExprView::Call(found.0@, Box::new(callee), expr_views(found.1@)),
                            ),
                        ));
                    }
                    lhs = Expr::Call(found.0, Box::new(lhs), found.1);
                },
                Err(error) => {
                    assert(call_tail(tokens, here, callee).result == Err::<ExprView, ParseError>(
                        error,
                    ));
                    return Err(error);
                },
            }
        }
    }

    /// Parses a unary expression.
    fn parse_unary(&mut self) -> (r: Result<Expr, ParseError>)
        requires
            old(self).wf(),
        ensures
            yields_expr(*old(self), *final(self), r, unary(old(self).input(), old(self).at())),
        decreases left(old(self).input(), old(self).at()), 3nat,
    {
        if self.check(&TokenType::Bang) || self.check(&TokenType::Minus) {
            let op = self.tokens[self.pos].clone();
            self.pos = self.pos + 1;
            match self.parse_unary() {
                Ok(rhs) => Ok(Expr::Unary(op, Box::new(rhs))),
                Err(error) => Err(error),
            }
        } else {
            self.parse_call()
        }
    }

    /// Parses an operand of the operators of `level`.
    fn parse_operand(&mut self, level: Level) -> (r: Result<Expr, ParseError>)
        requires
            old(self).wf(),
        ensures
            yields_expr(
                *old(self),
                *final(self),
                r,
                operand(old(self).input(), old(self).at(), level),
            ),
        decreases left(old(self).input(), old(self).at()), level_rank(level) - 1,
    {
        match next_level(level) {
            Some(next) => self.parse_binary(next),
            None => self.parse_unary(),
        }
    }

    /// Parses an expression of the binary operators of `level`, which
    /// associate to the left.
    #[verifier::loop_isolation(false)]
    fn parse_binary(&mut self, level: Level) -> (r: Result<Expr, ParseError>)
        requires
            old(self).wf(),
        ensures
            yields_expr(
                *old(self),
                *final(self),
                r,
                binary(old(self).input(), old(self).at(), level),
            ),
        decreases left(old(self).input(), old(self).at()), level_rank(level),
    {
        let ghost tokens = self.input();
        let ghost start = self.at();
        let first = match next_level(level) {
            Some(next) => self.parse_binary(next),
            None => self.parse_unary(),
        };
        let mut lhs = match first {
            Ok(e) => e,
            Err(error) => {
                return Err(error);
            },
        };
        loop
            invariant
                self.wf(),
                self.tokens == old(self).tokens,
                self.pos >= old(self).pos,
                binary(tokens, start, level) == after(
                    (self.pos - start) as nat,
                    binary_tail(tokens, self.at(), level, lhs@),
                ),
            decreases left(tokens, self.at()),
        {
            if !(self.pos < self.tokens.len() && has_operator(
                level,
                &self.tokens[self.pos].token_type,
            )) {
                return Ok(lhs);
            }
            let op = self.tokens[self.pos].clone();
            self.pos = self.pos + 1;
            let rhs = match self.parse_operand(level) {
                Ok(e) => e,
                Err(error) => {
                    return Err(error);
                },
            };
            lhs = match level {
                Level::Or | Level::And => Expr::Logical(op, Box::new(lhs), Box::new(rhs)),
                _ => Expr::Binary(op, Box::new(lhs), Box::new(rhs)),
            };
        }
    }

    /// Parses an assignment, which associates to the right.
    fn parse_assignment(&mut self) -> (r: Result<Expr, ParseError>)
        requires
            old(self).wf(),
        ensures
            yields_expr(
                *old(self),
                *final(self),
                r,
                assignment(old(self).input(), old(self).at()),
            ),
        decreases left(old(self).input(), old(self).at()), 16nat,
    {
        let expr = match self.parse_binary(Level::Or) {
            Ok(e) => e,
            Err(error) => {
                return Err(error);
            },
        };
        let id = self.pos;
        if self.match_next(&TokenType::Equal) {
            let rhs = match self.parse_assignment() {
                Ok(e) => e,
                Err(error) => {
                    return Err(error);
                },
            };
            match expr {
                Expr::Leaf(_, Token { token_type: TokenType::Identifier(name), .. }) => Ok(
                    Expr::Assign(id, name, Box::new(rhs)),
                ),
                _ => Err(self.error_here(ParseErrorKind::InvalidAssignmentTarget)),
            }
        } else {
            Ok(expr)
        }
    }

    /// Parses an expression.
    fn parse_expression(&mut self) -> (r: Result<Expr, ParseError>)
        requires
            old(self).wf(),
        ensures
            yields_expr(
                *old(self),
                *final(self),
                r,
                expression(old(self).input(), old(self).at()),
            ),
        decreases left(old(self).input(), old(self).at()), 17nat,
    {
        self.parse_assignment()
    }
}

/// As [`yields_expr`], for a statement.
spec fn yields_stmt(before: Parser, now: Parser, r: Result<Stmt, ParseError>, p: Parsed<
    StmtView,
>) -> bool {
    &&& now.tokens == before.tokens
    &&& now.pos == before.pos + p.used
    &&& now.pos <= now.tokens.len()
    &&& match r {
        Ok(s) => p.result == Ok::<StmtView, ParseError>(s@),
        Err(error) => p.result == Err::<StmtView, ParseError>(error),
    }
}

/// As [`yields_expr`], for a list of statements.
spec fn yields_stmts(before: Parser, now: Parser, r: Result<Vec<Stmt>, ParseError>, p: Parsed<
    Seq<StmtView>,
>) -> bool {
    &&& now.tokens == before.tokens
    &&& now.pos == before.pos + p.used
    &&& now.pos <= now.tokens.len()
    &&& match r {
        Ok(list) => p.result == Ok::<Seq<StmtView>, ParseError>(stmt_views(list@)),
        Err(error) => p.result == Err::<Seq<StmtView>, ParseError>(error),
    }
}

/// The model of a block is the block of the models.
pub proof fn lemma_block_view(stmts: Vec<Stmt>)
    ensures
        Stmt::Block(stmts)@ == StmtView::Block(stmt_views(stmts@)),
{
    let node = Stmt::Block(stmts);
    assert(node@->Block_0 =~= stmt_views(stmts@));
}

/// The model of a function declaration is the declaration of the models.
pub proof fn lemma_function_view(f: StmtFunction)
    ensures
        Stmt::Function(f)@ == StmtView::Function(f@),
{
    let node = Stmt::Function(f);
    assert(node@->Function_0.body =~= stmt_views(f.body@));
}

impl Parser {
    /// Parses an expression and the `;` behind it.
    fn parse_terminated(&mut self) -> (r: Result<Expr, ParseError>)
        requires
            old(self).wf(),
        ensures
            yields_expr(
                *old(self),
                *final(self),
                r,
                terminated(old(self).input(), old(self).at()),
            ),
    {
        reveal(terminated);
        let expr = match self.parse_expression() {
            Ok(e) => e,
            Err(error) => {
                return Err(error);
            },
        };
        if self.match_next(&TokenType::Semicolon) {
            Ok(expr)
        } else {
            Err(self.error_here(ParseErrorKind::MissingSemicolon))
        }
    }

    /// Parses an expression statement.
    fn parse_exprstmt(&mut self) -> (r: Result<Stmt, ParseError>)
        requires
            old(self).wf(),
        ensures
            yields_stmt(*old(self), *final(self), r, exprstmt(old(self).input(), old(self).at())),
    {
        reveal(exprstmt);
        match self.parse_terminated() {
            Ok(e) => Ok(Stmt::Expression(e)),
            Err(error) => Err(error),
        }
    }

    /// Parses what follows the word `print`.
    fn parse_print(&mut self) -> (r: Result<Stmt, ParseError>)
        requires
            old(self).wf(),
        ensures
            yields_stmt(
                *old(self),
                *final(self),
                r,
                print_rest(old(self).input(), old(self).at()),
            ),
    {
        reveal(print_rest);
        match self.parse_terminated() {
            Ok(e) => Ok(Stmt::Print(e)),
            Err(error) => Err(error),
        }
    }

    /// A token of the kind `token_type` on the line of the next token: what
    /// stands for a value that the source leaves out.
    fn implied_here(&self, token_type: TokenType) -> (r: Token)
        requires
            self.pos < self.tokens.len(),
        ensures
            r@ == implied(token_type@, self.input(), self.at()),
    {
        Token { token_type, line: self.tokens[self.pos].line }
    }

    /// Parses what follows the word `return`.
    fn parse_return(&mut self) -> (r: Result<Stmt, ParseError>)
        requires
            old(self).wf(),
        ensures
            yields_stmt(
                *old(self),
                *final(self),
                r,
                return_rest(old(self).input(), old(self).at()),
            ),
    {
        reveal(return_rest);
        if self.check(&TokenType::Semicolon) {
            let nil = Expr::Leaf(self.pos, self.implied_here(TokenType::Nil));
            self.pos = self.pos + 1;
            return Ok(Stmt::Return(nil));
        }
        match self.parse_terminated() {
            Ok(e) => Ok(Stmt::Return(e)),
            Err(error) => Err(error),
        }
    }

    /// Reads the next token if it is an identifier, and returns its name.
    fn parse_identifier(&mut self) -> (r: Option<String>)
        requires
            old(self).wf(),
        ensures
            final(self).tokens == old(self).tokens,
            final(self).wf(),
            match kind_at(old(self).input(), old(self).at()) {
                Some(TokenKind::Identifier(name)) => r is Some && r->0@ == name && final(self).pos
                    == old(self).pos + 1,
                _ => r is None && final(self).pos == old(self).pos,
            },
    {
        if self.pos >= self.tokens.len() {
            return None;
        }
        match &self.tokens[self.pos].token_type {
            TokenType::Identifier(name) => {
                let name = name.clone();
                self.pos = self.pos + 1;
                Some(name)
            },
            _ => None,
        }
    }

    /// Parses what follows the word `var`.
    fn parse_vardecl(&mut self) -> (r: Result<Stmt, ParseError>)
        requires
            old(self).wf(),
        ensures
            yields_stmt(*old(self), *final(self), r, var_rest(old(self).input(), old(self).at())),
    {
        reveal(var_rest);
        let ghost tokens = self.input();
        let ghost start = self.at();
        let id = self.pos;
        let name = match self.parse_identifier() {
            Some(name) => name,
            None => {
                return Err(self.error_here(ParseErrorKind::MalformedDeclaration));
            },
        };
        if self.match_next(&TokenType::Equal) {
            match self.parse_terminated() {
                Ok(e) => Ok(Stmt::Var(name, e)),
                Err(error) => Err(error),
            }
        } else if self.check(&TokenType::Semicolon) {
            let nil = Expr::Leaf(
                id,
                Token { token_type: TokenType::Nil, line: self.tokens[id].line },
            );
            self.pos = self.pos + 1;
            Ok(Stmt::Var(name, nil))
        } else {
            Err(self.error_here(ParseErrorKind::MissingSemicolon))
        }
    }

    /// Parses a condition in parentheses.
    fn parse_condition(&mut self) -> (r: Result<Expr, ParseError>)
        requires
            old(self).wf(),
        ensures
            yields_expr(*old(self), *final(self), r, condition(old(self).input(), old(self).at())),
    {
        reveal(condition);
        if !self.match_next(&TokenType::LeftParen) {
            return Err(self.error_here(ParseErrorKind::MissingLeftParen));
        }
        let cond = match self.parse_expression() {
            Ok(e) => e,
            Err(error) => {
                return Err(error);
            },
        };
        if self.match_next(&TokenType::RightParen) {
            Ok(cond)
        } else {
            Err(self.error_here(ParseErrorKind::MissingRightParen))
        }
    }

    /// Parses what follows the word `if`.
    fn parse_if(&mut self) -> (r: Result<Stmt, ParseError>)
        requires
            old(self).wf(),
        ensures
            yields_stmt(*old(self), *final(self), r, if_rest(old(self).input(), old(self).at())),
        decreases left(old(self).input(), old(self).at()), 20nat,
    {
        proof {
            lemma_condition_progress(self.input(), self.at());
        }
        let cond = match self.parse_condition() {
            Ok(e) => e,
            Err(error) => {
                return Err(error);
            },
        };
        let then_branch = match self.parse_stmt() {
            Ok(s) => s,
            Err(error) => {
                return Err(error);
            },
        };
        let else_branch = if self.match_next(&TokenType::Else) {
            match self.parse_stmt() {
                Ok(s) => Some(s),
                Err(error) => {
                    return Err(error);
                },
            }
        } else {
            None
        };
        Ok(Stmt::If(cond, Box::new(then_branch), Box::new(else_branch)))
    }

    /// Parses what follows the word `while`.
    fn parse_while(&mut self) -> (r: Result<Stmt, ParseError>)
        requires
            old(self).wf(),
        ensures
            yields_stmt(
                *old(self),
                *final(self),
                r,
                while_rest(old(self).input(), old(self).at()),
            ),
        decreases left(old(self).input(), old(self).at()), 20nat,
    {
        proof {
            lemma_condition_progress(self.input(), self.at());
        }
        let cond = match self.parse_condition() {
            Ok(e) => e,
            Err(error) => {
                return Err(error);
            },
        };
        match self.parse_stmt() {
            Ok(body) => Ok(Stmt::While(cond, Box::new(body))),
            Err(error) => Err(error),
        }
    }

    /// Parses the first clause of a `for`.
    fn parse_for_init(&mut self) -> (r: Result<Option<Stmt>, ParseError>)
        requires
            old(self).wf(),
        ensures
            final(self).tokens == old(self).tokens,
            final(self).wf(),
            ({
                let p = for_init(old(self).input(), old(self).at());
                &&& final(self).pos == old(self).pos + p.used
                &&& match r {
                    Ok(Some(s)) => p.result == Ok::<Option<StmtView>, ParseError>(Some(s@)),
                    Ok(None) => p.result == Ok::<Option<StmtView>, ParseError>(None),
                    Err(error) => p.result == Err::<Option<StmtView>, ParseError>(error),
                }
            }),
    {
        reveal(for_init);
        if self.match_next(&TokenType::Semicolon) {
            Ok(None)
        } else if self.match_next(&TokenType::Var) {
            match self.parse_vardecl() {
                Ok(s) => Ok(Some(s)),
                Err(error) => Err(error),
            }
        } else {
            match self.parse_exprstmt() {
                Ok(s) => Ok(Some(s)),
                Err(error) => Err(error),
            }
        }
    }

    /// Parses the second clause of a `for`.
    fn parse_for_cond(&mut self) -> (r: Result<Expr, ParseError>)
        requires
            old(self).wf(),
        ensures
            yields_expr(*old(self), *final(self), r, for_cond(old(self).input(), old(self).at())),
    {
        reveal(for_cond);
        if self.check(&TokenType::Semicolon) {
            let always = Expr::Leaf(self.pos, self.implied_here(TokenType::True));
            self.pos = self.pos + 1;
            Ok(always)
        } else {
            self.parse_terminated()
        }
    }

    /// Parses the third clause of a `for`, and the `)`.
    fn parse_for_step(&mut self) -> (r: Result<Option<Expr>, ParseError>)
        requires
            old(self).wf(),
        ensures
            final(self).tokens == old(self).tokens,
            final(self).wf(),
            ({
                let p = for_step(old(self).input(), old(self).at());
                &&& final(self).pos == old(self).pos + p.used
                &&& match r {
                    Ok(Some(e)) => p.result == Ok::<Option<ExprView>, ParseError>(Some(e@)),
                    Ok(None) => p.result == Ok::<Option<ExprView>, ParseError>(None),
                    Err(error) => p.result == Err::<Option<ExprView>, ParseError>(error),
                }
            }),
    {
        reveal(for_step);
        if self.match_next(&TokenType::RightParen) {
            return Ok(None);
        }
        let step = match self.parse_expression() {
            Ok(e) => e,
            Err(error) => {
                return Err(error);
            },
        };
        if self.match_next(&TokenType::RightParen) {
            Ok(Some(step))
        } else {
            Err(self.error_here(ParseErrorKind::MissingRightParen))
        }
    }

    /// Parses what follows the word `for`, and builds the loop that it
    /// stands for.
    fn parse_for(&mut self) -> (r: Result<Stmt, ParseError>)
        requires
            old(self).wf(),
        ensures
            yields_stmt(*old(self), *final(self), r, for_rest(old(self).input(), old(self).at())),
        decreases left(old(self).input(), old(self).at()), 22nat,
    {
        if !self.match_next(&TokenType::LeftParen) {
            return Err(self.error_here(ParseErrorKind::MissingLeftParen));
        }
        let initializer = match self.parse_for_init() {
            Ok(s) => s,
            Err(error) => {
                return Err(error);
            },
        };
        let cond = match self.parse_for_cond() {
            Ok(e) => e,
            Err(error) => {
                return Err(error);
            },
        };
        let increment = match self.parse_for_step() {
            Ok(e) => e,
            Err(error) => {
                return Err(error);
            },
        };
        let mut body = match self.parse_stmt() {
            Ok(s) => s,
            Err(error) => {
                return Err(error);
            },
        };
        Ok(desugar_for(initializer, cond, increment, body))
    }

    /// Parses the declarations of a block and its `}`.
    #[verifier::loop_isolation(false)]
    fn parse_block(&mut self) -> (r: Result<Vec<Stmt>, ParseError>)
        requires
            old(self).wf(),
        ensures
            yields_stmts(
                *old(self),
                *final(self),
                r,
                block_items(old(self).input(), old(self).at(), Seq::empty()),
            ),
        decreases left(old(self).input(), old(self).at()), 25nat,
    {
        let ghost tokens = self.input();
        let ghost start = self.at();
        let mut stmts: Vec<Stmt> = Vec::new();
        proof {
            assert(stmt_views(stmts@) =~= Seq::<StmtView>::empty());
        }
        loop
            invariant
                self.wf(),
                self.tokens == old(self).tokens,
                self.pos >= start,
                block_items(tokens, start, Seq::empty()) == after(
                    (self.pos - start) as nat,
                    block_items(tokens, self.at(), stmt_views(stmts@)),
                ),
            decreases left(tokens, self.at()),
        {
            let ghost before = stmt_views(stmts@);
            let ghost here = self.at();
            if self.pos >= self.tokens.len() || self.check(&TokenType::Eof) {
                return Err(self.error_here(ParseErrorKind::MissingRightBrace));
            }
            if self.match_next(&TokenType::RightBrace) {
                return Ok(stmts);
            }
            proof {
                lemma_decl_progress(tokens, here);
            }
            match self.parse_decl() {
                Ok(s) => {
                    stmts.push(s);
                    proof {
                        assert(stmt_views(stmts@) =~= before.push(s@));
                    }
                },
                Err(error) => {
                    return Err(error);
                },
            }
        }
    }

    /// Parses a statement.
    fn parse_stmt(&mut self) -> (r: Result<Stmt, ParseError>)
        requires
            old(self).wf(),
        ensures
            yields_stmt(*old(self), *final(self), r, stmt(old(self).input(), old(self).at())),
        decreases left(old(self).input(), old(self).at()), 23nat,
    {
        if self.match_next(&TokenType::Return) {
            return self.parse_return();
        }
        if self.match_next(&TokenType::For) {
            return self.parse_for();
        }
        if self.match_next(&TokenType::If) {
            return self.parse_if();
        }
        if self.match_next(&TokenType::Print) {
            return self.parse_print();
        }
        if self.match_next(&TokenType::While) {
            return self.parse_while();
        }
        if self.match_next(&TokenType::LeftBrace) {
            return match self.parse_block() {
                Ok(stmts) => {
                    proof {
                        lemma_block_view(stmts);
                    }
                    Ok(Stmt::Block(stmts))
                },
                Err(error) => Err(error),
            };
        }
        self.parse_exprstmt()
    }

    /// Parses the parameters of a function: names with commas between them.
    #[verifier::loop_isolation(false)]
    fn parse_params(&mut self) -> (r: Result<Vec<String>, ParseError>)
        requires
            old(self).wf(),
        ensures
            final(self).tokens == old(self).tokens,
            final(self).wf(),
            ({
                let p = params(old(self).input(), old(self).at(), Seq::empty());
                &&& final(self).pos == old(self).pos + p.used
                &&& match r {
                    Ok(names) => p.result == Ok::<Seq<Seq<char>>, ParseError>(name_views(names@)),
                    Err(error) => p.result == Err::<Seq<Seq<char>>, ParseError>(error),
                }
            }),
    {
        let ghost tokens = self.input();
        let ghost start = self.at();
        let mut names: Vec<String> = Vec::new();
        proof {
            assert(name_views(names@) =~= Seq::<Seq<char>>::empty());
        }
        loop
            invariant
                self.wf(),
                self.tokens == old(self).tokens,
                self.pos >= start,
                params(tokens, start, Seq::empty()) == after(
                    (self.pos - start) as nat,
                    params(tokens, self.at(), name_views(names@)),
                ),
            decreases left(tokens, self.at()),
        {
            let ghost before = name_views(names@);
            match self.parse_identifier() {
                Some(name) => {
                    names.push(name);
                    proof {
                        assert(name_views(names@) =~= before.push(name@));
                    }
                },
                None => {
                    return Err(self.error_here(ParseErrorKind::MalformedDeclaration));
                },
            }
            if !self.match_next(&TokenType::Comma) {
                return Ok(names);
            }
        }
    }

    /// Parses the parameter list of a function, from `(` to `)`.
    fn parse_param_list(&mut self) -> (r: Result<Vec<String>, ParseError>)
        requires
            old(self).wf(),
        ensures
            final(self).tokens == old(self).tokens,
            final(self).wf(),
            ({
                let p = param_list(old(self).input(), old(self).at());
                &&& final(self).pos == old(self).pos + p.used
                &&& match r {
                    Ok(names) => p.result == Ok::<Seq<Seq<char>>, ParseError>(name_views(names@)),
                    Err(error) => p.result == Err::<Seq<Seq<char>>, ParseError>(error),
                }
            }),
    {
        reveal(param_list);
        if !self.match_next(&TokenType::LeftParen) {
            return Err(self.error_here(ParseErrorKind::MissingLeftParen));
        }
        if self.match_next(&TokenType::RightParen) {
            let names: Vec<String> = Vec::new();
            proof {
                assert(name_views(names@) =~= Seq::<Seq<char>>::empty());
            }
            return Ok(names);
        }
        let names = match self.parse_params() {
            Ok(names) => names,
            Err(error) => {
                return Err(error);
            },
        };
        if self.match_next(&TokenType::RightParen) {
            Ok(names)
        } else {
            Err(self.error_here(ParseErrorKind::MissingRightParen))
        }
    }

    /// Parses what follows the word `fun`.
    fn parse_fun(&mut self) -> (r: Result<Stmt, ParseError>)
        requires
            old(self).wf(),
        ensures
            yields_stmt(*old(self), *final(self), r, fun_rest(old(self).input(), old(self).at())),
        decreases left(old(self).input(), old(self).at()), 26nat,
    {
        let id = self.pos;
        let name = match self.parse_identifier() {
            Some(name) => name,
            None => {
                return Err(self.error_here(ParseErrorKind::MalformedDeclaration));
            },
        };
        let params = match self.parse_param_list() {
            Ok(names) => names,
            Err(error) => {
                return Err(error);
            },
        };
        if !self.match_next(&TokenType::LeftBrace) {
            return Err(self.error_here(ParseErrorKind::MissingLeftBrace));
        }
        match self.parse_block() {
            Ok(body) => {
                let f = StmtFunction { id, name, params, body };
                proof {
                    lemma_function_view(f);
                }
                Ok(Stmt::Function(f))
            },
            Err(error) => Err(error),
        }
    }

    /// Parses a declaration.
    fn parse_decl(&mut self) -> (r: Result<Stmt, ParseError>)
        requires
            old(self).wf(),
        ensures
            yields_stmt(*old(self), *final(self), r, decl(old(self).input(), old(self).at())),
        decreases left(old(self).input(), old(self).at()), 24nat,
    {
        if self.match_next(&TokenType::Fun) {
            self.parse_fun()
        } else if self.match_next(&TokenType::Var) {
            self.parse_vardecl()
        } else {
            self.parse_stmt()
        }
    }
}

/// The loop that a `for` with these parts stands for.
fn desugar_for(initializer: Option<Stmt>, cond: Expr, increment: Option<Expr>, body: Stmt) -> (r:
    Stmt)
    ensures
        r@ == for_loop(
            match initializer {
                Some(s) => Some(s@),
                None => None,
            },
            cond@,
            match increment {
                Some(e) => Some(e@),
                None => None,
            },
            body@,
        ),
{
    let stepped = match increment {
        Some(e) => {
            let mut both: Vec<Stmt> = Vec::new();
            both.push(body);
            both.push(Stmt::Expression(e));
            proof {
                lemma_block_view(both);
                assert(stmt_views(both@) =~= seq![body@, StmtView::Expression(e@)]);
            }
            Stmt::Block(both)
        },
        None => body,
    };
    let looping = Stmt::While(cond, Box::new(stepped));
    match initializer {
        Some(s) => {
            let mut both: Vec<Stmt> = Vec::new();
            both.push(s);
            both.push(looping);
            proof {
                lemma_block_view(both);
                assert(stmt_views(both@) =~= seq![s@, looping@]);
            }
            Stmt::Block(both)
        },
        None => looping,
    }
}

/// What a parse returns: the statements that parsed, in order, one error for
/// each statement that was given up, and the warnings about calls and
/// functions that go over the limit of arguments or parameters.
#[derive(Debug, PartialEq)]
pub struct ParseOutput {
    pub statements: Vec<Stmt>,
    pub errors: Vec<ParseError>,
    pub warnings: Vec<ParseWarning>,
}

impl View for ParseOutput {
    type V = Program;

    open spec fn view(&self) -> Program {
        Program {
            statements: stmt_views(self.statements@),
            errors: self.errors@,
            warnings: self.warnings@,
        }
    }
}

/// Parses a whole program.
///
/// The statements and errors are those that the grammar gives for the
/// tokens: every declaration up to the end of input, where a declaration
/// that fails is left out, its error noted, and parsing resumed behind the
/// token at which it failed.
#[verifier::loop_isolation(false)]
pub fn parse(tokens: Vec<Token>) -> (output: ParseOutput)
    ensures
        output@ == crate::grammar::parse_tokens(token_views(tokens@)),
{
    reveal(program);
    let mut parser = Parser::new(tokens);
    let mut output = ParseOutput {
        statements: Vec::new(),
        errors: Vec::new(),
        warnings: Vec::new(),
    };
    let ghost input = parser.input();
    let ghost nothing = output@;
    proof {
        assert(nothing.statements =~= Seq::<StmtView>::empty());
    }
    let mut finished = false;
    while !finished
        invariant
            parser.wf(),
            parser.tokens == tokens,
            output.warnings@ == Seq::<ParseWarning>::empty(),
            program(input, 0, nothing) == program(input, parser.at(), output@),
            finished ==> program(input, parser.at(), output@) == output@,
        decreases left(input, parser.at()) + (if finished {
            0int
        } else {
            1int
        }),
    {
        if parser.pos >= parser.tokens.len() || parser.check(&TokenType::Eof) {
            finished = true;
        } else {
            let ghost before = output@;
            let ghost here = parser.at();
            proof {
                lemma_decl_progress(input, here);
            }
            match parser.parse_decl() {
                Ok(s) => {
                    output.statements.push(s);
                    proof {
                        assert(output@.statements =~= before.statements.push(s@));
                    }
                },
                Err(error) => {
                    output.errors.push(error);
                    if parser.pos < parser.tokens.len() {
                        parser.pos = parser.pos + 1;
                    } else {
                        assert(program(input, parser.at() + 1, output@) == output@) by {
                            reveal_with_fuel(program, 2);
                        }
                        assert(program(input, parser.at(), output@) == output@);
                        finished = true;
                    }
                },
            }
        }
    }
    output.warnings = arity_warnings(&output.statements);
    output
}

} // verus!

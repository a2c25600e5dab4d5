//! The grammar, as spec functions over a sequence of tokens.
//!
//! Every function takes the tokens and a position, and says how many tokens
//! are used from that position and what they form, or with which error the
//! attempt ends. The count includes the tokens read before an error.

use vstd::prelude::*;
use crate::limits::{stmts_warnings, ParseWarning};
use crate::parser::{ExprView, FunctionView, StmtView};
use crate::token::{TokenKind, TokenView};

verus! {

/// What is wrong with a statement that does not parse.
#[derive(Debug, PartialEq, Eq, Clone, Copy, Structural)]
pub enum ParseErrorKind {
    /// A `(` is missing.
    MissingLeftParen,
    /// A `)` is missing.
    MissingRightParen,
    /// A `{` is missing.
    MissingLeftBrace,
    /// A `}` is missing.
    MissingRightBrace,
    /// A `;` is missing.
    MissingSemicolon,
    /// An expression was expected.
    ExpectedExpression,
    /// The left side of an assignment is no plain variable.
    InvalidAssignmentTarget,
    /// A declaration lacks the name it declares.
    MalformedDeclaration,
}

/// A parse error: its kind, and the line of the token at which it was found.
#[derive(Debug, PartialEq, Eq, Clone, Copy, Structural)]
pub struct ParseError {
    pub kind: ParseErrorKind,
    pub line: usize,
}

/// The precedence levels of the binary operators, loosest first.
#[derive(Debug, PartialEq, Eq, Clone, Copy, Structural)]
pub enum Level {
    Or,
    And,
    Equality,
    Comparison,
    Term,
    Factor,
}

/// The outcome of one grammar function: the number of tokens used, and what
/// they form.
pub struct Parsed<T> {
    pub used: nat,
    pub result: Result<T, ParseError>,
}

/// The number of tokens from `pos` to the end.
pub open spec fn left(tokens: Seq<TokenView>, pos: int) -> nat {
    if pos <= tokens.len() {
        (tokens.len() - pos) as nat
    } else {
        0
    }
}

/// The kind of the token at `pos`, if there is one.
pub open spec fn kind_at(tokens: Seq<TokenView>, pos: int) -> Option<TokenKind> {
    if 0 <= pos < tokens.len() {
        Some(tokens[pos].kind)
    } else {
        None
    }
}

/// The line to report for `pos`: that of the token there, or of the last
/// token where `pos` is behind the end.
pub open spec fn line_at(tokens: Seq<TokenView>, pos: int) -> usize {
    if 0 <= pos < tokens.len() {
        tokens[pos].line
    } else if tokens.len() > 0 {
        tokens.last().line
    } else {
        0
    }
}

/// Success after `used` tokens.
pub open spec fn done<T>(used: nat, value: T) -> Parsed<T> {
    Parsed { used, result: Ok(value) }
}

/// Failure at the token `used` tokens after `pos`.
pub open spec fn fail<T>(
    tokens: Seq<TokenView>,
    pos: int,
    used: nat,
    kind: ParseErrorKind,
) -> Parsed<T> {
    Parsed { used, result: Err(ParseError { kind, line: line_at(tokens, pos + used) }) }
}

/// `parsed`, reached after `before` more tokens.
pub open spec fn after<T>(before: nat, parsed: Parsed<T>) -> Parsed<T> {
    Parsed { used: before + parsed.used, result: parsed.result }
}

/// Whether a token of this kind is an expression by itself.
pub open spec fn is_literal(kind: TokenKind) -> bool {
    kind is Number || kind is Text || kind is True || kind is False || kind is Nil
        || kind is Identifier
}

/// Whether `kind` is an operator of the precedence level `level`.
pub open spec fn level_has(level: Level, kind: TokenKind) -> bool {
    match level {
        Level::Or => kind is Or,
        Level::And => kind is And,
        Level::Equality => kind is EqualEqual || kind is BangEqual,
        Level::Comparison => kind is Greater || kind is GreaterEqual || kind is Less
            || kind is LessEqual,
        Level::Term => kind is Plus || kind is Minus,
        Level::Factor => kind is Slash || kind is Star,
    }
}

/// The next tighter level; the operands of the tightest are unary
/// expressions.
pub open spec fn tighter(level: Level) -> Option<Level> {
    match level {
        Level::Or => Some(Level::And),
        Level::And => Some(Level::Equality),
        Level::Equality => Some(Level::Comparison),
        Level::Comparison => Some(Level::Term),
        Level::Term => Some(Level::Factor),
        Level::Factor => None,
    }
}

/// The place of a level in the order of the grammar's functions.
pub open spec fn level_rank(level: Level) -> nat {
    match level {
        Level::Or => 15,
        Level::And => 13,
        Level::Equality => 11,
        Level::Comparison => 9,
        Level::Term => 7,
        Level::Factor => 5,
    }
}

/// The node for `left op right` on `level`.
pub open spec fn binary_node(
    level: Level,
    op: TokenView,
    left: ExprView,
    right: ExprView,
) -> ExprView {
    match level {
        Level::Or | Level::And => ExprView::Logical(op, Box::new(left), Box::new(right)),
        _ => ExprView::Binary(op, Box::new(left), Box::new(right)),
    }
}

/// A token of kind `kind` on the line of the token at `pos`: what stands for
/// a value that the source leaves out.
pub open spec fn implied(kind: TokenKind, tokens: Seq<TokenView>, pos: int) -> TokenView {
    TokenView { kind, line: tokens[pos].line }
}

/// primary: a literal, a name, or an expression in parentheses.
pub open spec fn primary(tokens: Seq<TokenView>, pos: int) -> Parsed<ExprView>
    decreases left(tokens, pos), 0nat,
{
    match kind_at(tokens, pos) {
        Some(TokenKind::LeftParen) => {
            let inner = expression(tokens, pos + 1);
            match inner.result {
                Err(error) => Parsed { used: 1 + inner.used, result: Err(error) },
                Ok(expr) => if kind_at(tokens, pos + 1 + inner.used) == Some(
                    TokenKind::RightParen,
                ) {
                    done(2 + inner.used, ExprView::Grouping(Box::new(expr)))
                } else {
                    fail(tokens, pos, 1 + inner.used, ParseErrorKind::MissingRightParen)
                },
            }
        },
        Some(kind) if is_literal(kind) => done(1, ExprView::Leaf(pos as usize, tokens[pos])),
        _ => fail(tokens, pos, 0, ParseErrorKind::ExpectedExpression),
    }
}

/// The arguments of a call: expressions with commas between them, added to
/// `args`.
pub open spec fn call_args(tokens: Seq<TokenView>, pos: int, args: Seq<ExprView>) -> Parsed<
    Seq<ExprView>,
>
    decreases left(tokens, pos), 18nat,
{
    let arg = expression(tokens, pos);
    match arg.result {
        Err(error) => Parsed { used: arg.used, result: Err(error) },
        Ok(expr) => if kind_at(tokens, pos + arg.used) == Some(TokenKind::Comma) {
            after(arg.used + 1, call_args(tokens, pos + arg.used + 1, args.push(expr)))
        } else {
            done(arg.used, args.push(expr))
        },
    }
}

/// An argument list: its closing parenthesis and its arguments.
pub struct ArgList {
    pub paren: TokenView,
    pub args: Seq<ExprView>,
}

/// An argument list after its `(`: the arguments, if any, and the `)`.
pub open spec fn arg_list(tokens: Seq<TokenView>, pos: int) -> Parsed<ArgList>
    decreases left(tokens, pos), 19nat,
{
    if kind_at(tokens, pos) == Some(TokenKind::RightParen) {
        done(1, ArgList { paren: tokens[pos], args: Seq::empty() })
    } else {
        let args = call_args(tokens, pos, Seq::empty());
        match args.result {
            Err(error) => Parsed { used: args.used, result: Err(error) },
            Ok(list) => if kind_at(tokens, pos + args.used) == Some(TokenKind::RightParen) {
                done(args.used + 1, ArgList { paren: tokens[pos + args.used], args: list })
            } else {
                fail(tokens, pos, args.used, ParseErrorKind::MissingRightParen)
            },
        }
    }
}

/// Any number of argument lists behind `callee`; each makes a call whose
/// callee is all that stands before it.
pub open spec fn call_tail(tokens: Seq<TokenView>, pos: int, callee: ExprView) -> Parsed<ExprView>
    decreases left(tokens, pos), 1nat,
{
    if kind_at(tokens, pos) == Some(TokenKind::LeftParen) {
        let list = arg_list(tokens, pos + 1);
        match list.result {
            Err(error) => Parsed { used: 1 + list.used, result: Err(error) },
            Ok(l) => after(
                1 + list.used,
                call_tail(
                    tokens,
                    pos + 1 + list.used,
                    ExprView::Call(l.paren, Box::new(callee), l.args),
                ),
            ),
        }
    } else {
        done(0, callee)
    }
}

/// call: a primary followed by any number of argument lists.
pub open spec fn call(tokens: Seq<TokenView>, pos: int) -> Parsed<ExprView>
    decreases left(tokens, pos), 2nat,
{
    let callee = primary(tokens, pos);
    match callee.result {
        Err(error) => Parsed { used: callee.used, result: Err(error) },
        Ok(expr) => after(callee.used, call_tail(tokens, pos + callee.used, expr)),
    }
}

/// unary: `!` or `-` before a unary, or a call.
pub open spec fn unary(tokens: Seq<TokenView>, pos: int) -> Parsed<ExprView>
    decreases left(tokens, pos), 3nat,
{
    if kind_at(tokens, pos) == Some(TokenKind::Bang) || kind_at(tokens, pos) == Some(
        TokenKind::Minus,
    ) {
        let operand = unary(tokens, pos + 1);
        match operand.result {
            Err(error) => Parsed { used: 1 + operand.used, result: Err(error) },
            Ok(expr) => done(1 + operand.used, ExprView::Unary(tokens[pos], Box::new(expr))),
        }
    } else {
        call(tokens, pos)
    }
}

/// An operand of the operators of `level`.
pub open spec fn operand(tokens: Seq<TokenView>, pos: int, level: Level) -> Parsed<ExprView>
    decreases left(tokens, pos), level_rank(level) - 1,
{
    match tighter(level) {
        Some(next) => binary(tokens, pos, next),
        None => unary(tokens, pos),
    }
}

/// Any number of operators of `level`, each with its right operand, behind
/// `lhs`: the operators associate to the left.
pub open spec fn binary_tail(
    tokens: Seq<TokenView>,
    pos: int,
    level: Level,
    lhs: ExprView,
) -> Parsed<ExprView>
    decreases left(tokens, pos), level_rank(level) - 1,
{
    if kind_at(tokens, pos) is Some && level_has(level, kind_at(tokens, pos)->0) {
        let rhs = operand(tokens, pos + 1, level);
        match rhs.result {
            Err(error) => Parsed { used: 1 + rhs.used, result: Err(error) },
            Ok(expr) => after(
                1 + rhs.used,
                binary_tail(
                    tokens,
                    pos + 1 + rhs.used,
                    level,
                    binary_node(level, tokens[pos], lhs, expr),
                ),
            ),
        }
    } else {
        done(0, lhs)
    }
}

/// The expressions of `level`: operands with operators of the level between
/// them.
pub open spec fn binary(tokens: Seq<TokenView>, pos: int, level: Level) -> Parsed<ExprView>
    decreases left(tokens, pos), level_rank(level),
{
    let first = match tighter(level) {
        Some(next) => binary(tokens, pos, next),
        None => unary(tokens, pos),
    };
    match first.result {
        Err(error) => Parsed { used: first.used, result: Err(error) },
        Ok(expr) => after(first.used, binary_tail(tokens, pos + first.used, level, expr)),
    }
}

/// assignment: a logical expression, or a name, `=` and an assignment.
pub open spec fn assignment(tokens: Seq<TokenView>, pos: int) -> Parsed<ExprView>
    decreases left(tokens, pos), 16nat,
{
    let target = binary(tokens, pos, Level::Or);
    match target.result {
        Err(error) => Parsed { used: target.used, result: Err(error) },
        Ok(expr) => if kind_at(tokens, pos + target.used) == Some(TokenKind::Equal) {
            let value = assignment(tokens, pos + target.used + 1);
            match value.result {
                Err(error) => Parsed { used: target.used + 1 + value.used, result: Err(error) },
                Ok(rhs) => match expr {
                    ExprView::Leaf(_, TokenView { kind: TokenKind::Identifier(name), .. }) => done(
                        target.used + 1 + value.used,
                        ExprView::Assign((pos + target.used) as usize, name, Box::new(rhs)),
                    ),
                    _ => fail(
                        tokens,
                        pos,
                        target.used + 1 + value.used,
                        ParseErrorKind::InvalidAssignmentTarget,
                    ),
                },
            }
        } else {
            done(target.used, expr)
        },
    }
}

/// expression: an assignment.
pub open spec fn expression(tokens: Seq<TokenView>, pos: int) -> Parsed<ExprView>
    decreases left(tokens, pos), 17nat,
{
    assignment(tokens, pos)
}

/// An expression and the `;` that ends it.
#[verifier::opaque]
pub open spec fn terminated(tokens: Seq<TokenView>, pos: int) -> Parsed<ExprView>
    decreases left(tokens, pos), 19nat,
{
    let expr = expression(tokens, pos);
    match expr.result {
        Err(error) => Parsed { used: expr.used, result: Err(error) },
        Ok(e) => if kind_at(tokens, pos + expr.used) == Some(TokenKind::Semicolon) {
            done(expr.used + 1, e)
        } else {
            fail(tokens, pos, expr.used, ParseErrorKind::MissingSemicolon)
        },
    }
}

/// An expression statement.
#[verifier::opaque]
pub open spec fn exprstmt(tokens: Seq<TokenView>, pos: int) -> Parsed<StmtView>
    decreases left(tokens, pos), 20nat,
{
    let expr = terminated(tokens, pos);
    match expr.result {
        Err(error) => Parsed { used: expr.used, result: Err(error) },
        Ok(e) => done(expr.used, StmtView::Expression(e)),
    }
}

/// What follows the word `print`.
#[verifier::opaque]
pub open spec fn print_rest(tokens: Seq<TokenView>, pos: int) -> Parsed<StmtView>
    decreases left(tokens, pos), 20nat,
{
    let expr = terminated(tokens, pos);
    match expr.result {
        Err(error) => Parsed { used: expr.used, result: Err(error) },
        Ok(e) => done(expr.used, StmtView::Print(e)),
    }
}

/// What follows the word `return`; without an expression the value is `nil`.
#[verifier::opaque]
pub open spec fn return_rest(tokens: Seq<TokenView>, pos: int) -> Parsed<StmtView>
    decreases left(tokens, pos), 20nat,
{
    if kind_at(tokens, pos) == Some(TokenKind::Semicolon) {
        done(
            1,
            StmtView::Return(ExprView::Leaf(pos as usize, implied(TokenKind::Nil, tokens, pos))),
        )
    } else {
        let expr = terminated(tokens, pos);
        match expr.result {
            Err(error) => Parsed { used: expr.used, result: Err(error) },
            Ok(e) => done(expr.used, StmtView::Return(e)),
        }
    }
}

/// What follows the word `var`; without an initializer the value is `nil`.
#[verifier::opaque]
pub open spec fn var_rest(tokens: Seq<TokenView>, pos: int) -> Parsed<StmtView>
    decreases left(tokens, pos), 20nat,
{
    match kind_at(tokens, pos) {
        Some(TokenKind::Identifier(name)) => if kind_at(tokens, pos + 1) == Some(TokenKind::Equal) {
            let init = terminated(tokens, pos + 2);
            match init.result {
                Err(error) => Parsed { used: 2 + init.used, result: Err(error) },
                Ok(e) => done(2 + init.used, StmtView::Var(name, e)),
            }
        } else if kind_at(tokens, pos + 1) == Some(TokenKind::Semicolon) {
            done(
                2,
                StmtView::Var(
                    name,
                    ExprView::Leaf(pos as usize, implied(TokenKind::Nil, tokens, pos)),
                ),
            )
        } else {
            fail(tokens, pos, 1, ParseErrorKind::MissingSemicolon)
        },
        _ => fail(tokens, pos, 0, ParseErrorKind::MalformedDeclaration),
    }
}

/// A condition in parentheses.
#[verifier::opaque]
pub open spec fn condition(tokens: Seq<TokenView>, pos: int) -> Parsed<ExprView>
    decreases left(tokens, pos), 19nat,
{
    if kind_at(tokens, pos) == Some(TokenKind::LeftParen) {
        let cond = expression(tokens, pos + 1);
        match cond.result {
            Err(error) => Parsed { used: 1 + cond.used, result: Err(error) },
            Ok(e) => if kind_at(tokens, pos + 1 + cond.used) == Some(TokenKind::RightParen) {
                done(2 + cond.used, e)
            } else {
                fail(tokens, pos, 1 + cond.used, ParseErrorKind::MissingRightParen)
            },
        }
    } else {
        fail(tokens, pos, 0, ParseErrorKind::MissingLeftParen)
    }
}

/// What follows the word `if`.
pub open spec fn if_rest(tokens: Seq<TokenView>, pos: int) -> Parsed<StmtView>
    decreases left(tokens, pos), 20nat,
{
    let cond = condition(tokens, pos);
    match cond.result {
        Err(error) => Parsed { used: cond.used, result: Err(error) },
        Ok(c) => {
            proof {
                reveal(condition);
            }
            let then_branch = stmt(tokens, pos + cond.used);
            match then_branch.result {
                Err(error) => Parsed { used: cond.used + then_branch.used, result: Err(error) },
                Ok(t) => {
                    let used = cond.used + then_branch.used;
                    if kind_at(tokens, pos + used) == Some(TokenKind::Else) {
                        let else_branch = stmt(tokens, pos + used + 1);
                        match else_branch.result {
                            Err(error) => Parsed {
                                used: used + 1 + else_branch.used,
                                result: Err(error),
                            },
                            Ok(e) => done(
                                used + 1 + else_branch.used,
                                StmtView::If(c, Box::new(t), Some(Box::new(e))),
                            ),
                        }
                    } else {
                        done(used, StmtView::If(c, Box::new(t), None))
                    }
                },
            }
        },
    }
}

/// What follows the word `while`.
pub open spec fn while_rest(tokens: Seq<TokenView>, pos: int) -> Parsed<StmtView>
    decreases left(tokens, pos), 20nat,
{
    let cond = condition(tokens, pos);
    match cond.result {
        Err(error) => Parsed { used: cond.used, result: Err(error) },
        Ok(c) => {
            proof {
                reveal(condition);
            }
            let body = stmt(tokens, pos + cond.used);
            match body.result {
                Err(error) => Parsed { used: cond.used + body.used, result: Err(error) },
                Ok(b) => done(cond.used + body.used, StmtView::While(c, Box::new(b))),
            }
        },
    }
}

/// The first clause of a `for`, with its `;`: nothing, a variable
/// declaration, or an expression statement.
#[verifier::opaque]
pub open spec fn for_init(tokens: Seq<TokenView>, pos: int) -> Parsed<Option<StmtView>>
    decreases left(tokens, pos), 21nat,
{
    if kind_at(tokens, pos) == Some(TokenKind::Semicolon) {
        done(1, None)
    } else if kind_at(tokens, pos) == Some(TokenKind::Var) {
        let decl = var_rest(tokens, pos + 1);
        match decl.result {
            Err(error) => Parsed { used: 1 + decl.used, result: Err(error) },
            Ok(s) => done(1 + decl.used, Some(s)),
        }
    } else {
        let init = exprstmt(tokens, pos);
        match init.result {
            Err(error) => Parsed { used: init.used, result: Err(error) },
            Ok(s) => done(init.used, Some(s)),
        }
    }
}

/// The second clause of a `for`, with its `;`: a condition, or nothing,
/// which stands for `true`.
#[verifier::opaque]
pub open spec fn for_cond(tokens: Seq<TokenView>, pos: int) -> Parsed<ExprView>
    decreases left(tokens, pos), 21nat,
{
    if kind_at(tokens, pos) == Some(TokenKind::Semicolon) {
        done(1, ExprView::Leaf(pos as usize, implied(TokenKind::True, tokens, pos)))
    } else {
        terminated(tokens, pos)
    }
}

/// The third clause of a `for`, with the `)`: an expression, or nothing.
#[verifier::opaque]
pub open spec fn for_step(tokens: Seq<TokenView>, pos: int) -> Parsed<Option<ExprView>>
    decreases left(tokens, pos), 21nat,
{
    if kind_at(tokens, pos) == Some(TokenKind::RightParen) {
        done(1, None)
    } else {
        let step = expression(tokens, pos);
        match step.result {
            Err(error) => Parsed { used: step.used, result: Err(error) },
            Ok(e) => if kind_at(tokens, pos + step.used) == Some(TokenKind::RightParen) {
                done(step.used + 1, Some(e))
            } else {
                fail(tokens, pos, step.used, ParseErrorKind::MissingRightParen)
            },
        }
    }
}

/// The loop that a `for` stands for: the initializer, if any, in a block
/// with a `while` whose body is the `for`'s body and then the step, if any.
pub open spec fn for_loop(
    init: Option<StmtView>,
    cond: ExprView,
    step: Option<ExprView>,
    body: StmtView,
) -> StmtView {
    let stepped = match step {
        Some(e) => StmtView::Block(seq![body, StmtView::Expression(e)]),
        None => body,
    };
    let looping = StmtView::While(cond, Box::new(stepped));
    match init {
        Some(s) => StmtView::Block(seq![s, looping]),
        None => looping,
    }
}

/// What follows the word `for`.
pub open spec fn for_rest(tokens: Seq<TokenView>, pos: int) -> Parsed<StmtView>
    decreases left(tokens, pos), 22nat,
{
    if kind_at(tokens, pos) == Some(TokenKind::LeftParen) {
        let init = for_init(tokens, pos + 1);
        match init.result {
            Err(error) => Parsed { used: 1 + init.used, result: Err(error) },
            Ok(i) => {
                let cond = for_cond(tokens, pos + 1 + init.used);
                match cond.result {
                    Err(error) => Parsed { used: 1 + init.used + cond.used, result: Err(error) },
                    Ok(c) => {
                        let step = for_step(tokens, pos + 1 + init.used + cond.used);
                        match step.result {
                            Err(error) => Parsed {
                                used: 1 + init.used + cond.used + step.used,
                                result: Err(error),
                            },
                            Ok(s) => {
                                let used = 1 + init.used + cond.used + step.used;
                                let body = stmt(tokens, pos + used);
                                match body.result {
                                    Err(error) => Parsed {
                                        used: used + body.used,
                                        result: Err(error),
                                    },
                                    Ok(b) => done(used + body.used, for_loop(i, c, s, b)),
                                }
                            },
                        }
                    },
                }
            },
        }
    } else {
        fail(tokens, pos, 0, ParseErrorKind::MissingLeftParen)
    }
}

/// The declarations of a block up to its `}`, added to `items`.
///
/// A declaration that parses uses at least one token
/// ([`lemma_decl_progress`]), so the branch for one that uses none is never
/// taken.
pub open spec fn block_items(tokens: Seq<TokenView>, pos: int, items: Seq<StmtView>) -> Parsed<
    Seq<StmtView>,
>
    decreases left(tokens, pos), 25nat,
{
    match kind_at(tokens, pos) {
        None => fail(tokens, pos, 0, ParseErrorKind::MissingRightBrace),
        Some(TokenKind::Eof) => fail(tokens, pos, 0, ParseErrorKind::MissingRightBrace),
        Some(TokenKind::RightBrace) => done(1, items),
        Some(_) => {
            let item = decl(tokens, pos);
            match item.result {
                Err(error) => Parsed { used: item.used, result: Err(error) },
                Ok(s) => if item.used == 0 {
                    fail(tokens, pos, 0, ParseErrorKind::ExpectedExpression)
                } else {
                    after(item.used, block_items(tokens, pos + item.used, items.push(s)))
                },
            }
        },
    }
}

/// statement: one of the statements that a keyword or a `{` begins, or an
/// expression statement.
pub open spec fn stmt(tokens: Seq<TokenView>, pos: int) -> Parsed<StmtView>
    decreases left(tokens, pos), 23nat,
{
    match kind_at(tokens, pos) {
        Some(TokenKind::Return) => after(1, return_rest(tokens, pos + 1)),
        Some(TokenKind::For) => after(1, for_rest(tokens, pos + 1)),
        Some(TokenKind::If) => after(1, if_rest(tokens, pos + 1)),
        Some(TokenKind::Print) => after(1, print_rest(tokens, pos + 1)),
        Some(TokenKind::While) => after(1, while_rest(tokens, pos + 1)),
        Some(TokenKind::LeftBrace) => {
            let items = block_items(tokens, pos + 1, Seq::empty());
            match items.result {
                Err(error) => Parsed { used: 1 + items.used, result: Err(error) },
                Ok(list) => done(1 + items.used, StmtView::Block(list)),
            }
        },
        _ => exprstmt(tokens, pos),
    }
}

/// The parameters of a function after the `(`: names with commas between
/// them, added to `names`.
pub open spec fn params(tokens: Seq<TokenView>, pos: int, names: Seq<Seq<char>>) -> Parsed<
    Seq<Seq<char>>,
>
    decreases left(tokens, pos),
{
    match kind_at(tokens, pos) {
        Some(TokenKind::Identifier(name)) => if kind_at(tokens, pos + 1) == Some(TokenKind::Comma) {
            after(2, params(tokens, pos + 2, names.push(name)))
        } else {
            done(1, names.push(name))
        },
        _ => fail(tokens, pos, 0, ParseErrorKind::MalformedDeclaration),
    }
}

/// The parameter list of a function, from its `(` to its `)`.
#[verifier::opaque]
pub open spec fn param_list(tokens: Seq<TokenView>, pos: int) -> Parsed<Seq<Seq<char>>> {
    if kind_at(tokens, pos) == Some(TokenKind::LeftParen) {
        if kind_at(tokens, pos + 1) == Some(TokenKind::RightParen) {
            done(2, Seq::empty())
        } else {
            let names = params(tokens, pos + 1, Seq::empty());
            match names.result {
                Err(error) => Parsed { used: 1 + names.used, result: Err(error) },
                Ok(list) => if kind_at(tokens, pos + 1 + names.used) == Some(
                    TokenKind::RightParen,
                ) {
                    done(2 + names.used, list)
                } else {
                    fail(tokens, pos, 1 + names.used, ParseErrorKind::MissingRightParen)
                },
            }
        }
    } else {
        fail(tokens, pos, 0, ParseErrorKind::MissingLeftParen)
    }
}

/// What follows the word `fun`: the name, the parameters and the body.
pub open spec fn fun_rest(tokens: Seq<TokenView>, pos: int) -> Parsed<StmtView>
    decreases left(tokens, pos), 26nat,
{
    match kind_at(tokens, pos) {
        Some(TokenKind::Identifier(name)) => {
            let list = param_list(tokens, pos + 1);
            match list.result {
                Err(error) => Parsed { used: 1 + list.used, result: Err(error) },
                Ok(names) => {
                    let used = 1 + list.used;
                    if kind_at(tokens, pos + used) == Some(TokenKind::LeftBrace) {
                        let body = block_items(tokens, pos + used + 1, Seq::empty());
                        match body.result {
                            Err(error) => Parsed { used: used + 1 + body.used, result: Err(error) },
                            Ok(items) => done(
                                used + 1 + body.used,
                                StmtView::Function(
                                    FunctionView {
                                        id: pos as usize,
                                        name,
                                        params: names,
                                        body: items,
                                    },
                                ),
                            ),
                        }
                    } else {
                        fail(tokens, pos, used, ParseErrorKind::MissingLeftBrace)
                    }
                },
            }
        },
        _ => fail(tokens, pos, 0, ParseErrorKind::MalformedDeclaration),
    }
}

/// declaration: a function, a variable, or a statement.
pub open spec fn decl(tokens: Seq<TokenView>, pos: int) -> Parsed<StmtView>
    decreases left(tokens, pos), 24nat,
{
    match kind_at(tokens, pos) {
        Some(TokenKind::Fun) => after(1, fun_rest(tokens, pos + 1)),
        Some(TokenKind::Var) => after(1, var_rest(tokens, pos + 1)),
        _ => stmt(tokens, pos),
    }
}

/// A condition that parses uses at least its two parentheses.
pub proof fn lemma_condition_progress(tokens: Seq<TokenView>, pos: int)
    ensures
        condition(tokens, pos).result is Ok ==> condition(tokens, pos).used >= 2,
{
    reveal(condition);
}

/// A unary expression that parses uses at least one token.
pub proof fn lemma_unary_progress(tokens: Seq<TokenView>, pos: int)
    ensures
        unary(tokens, pos).result is Ok ==> unary(tokens, pos).used >= 1,
{
    let p = primary(tokens, pos);
    assert(p.result is Ok ==> p.used >= 1);
    let c = call(tokens, pos);
    assert(c.result is Ok ==> c.used >= p.used && p.result is Ok);
}

/// An expression of a binary level that parses uses at least one token.
pub proof fn lemma_binary_progress(tokens: Seq<TokenView>, pos: int, level: Level)
    ensures
        binary(tokens, pos, level).result is Ok ==> binary(tokens, pos, level).used >= 1,
    decreases level_rank(level),
{
    match tighter(level) {
        Some(next) => {
            lemma_binary_progress(tokens, pos, next);
        },
        None => {
            lemma_unary_progress(tokens, pos);
        },
    }
}

/// An expression that parses uses at least one token.
pub proof fn lemma_expression_progress(tokens: Seq<TokenView>, pos: int)
    ensures
        expression(tokens, pos).result is Ok ==> expression(tokens, pos).used >= 1,
{
    lemma_binary_progress(tokens, pos, Level::Or);
}

/// A declaration that parses uses at least one token.
pub proof fn lemma_decl_progress(tokens: Seq<TokenView>, pos: int)
    ensures
        decl(tokens, pos).result is Ok ==> decl(tokens, pos).used >= 1,
{
    reveal(exprstmt);
    reveal(terminated);
    lemma_expression_progress(tokens, pos);
}

/// What a whole parse yields: the statements that parsed, one error for each
/// statement that was given up, and the warnings about the statements that
/// parsed.
pub struct Program {
    pub statements: Seq<StmtView>,
    pub errors: Seq<ParseError>,
    pub warnings: Seq<ParseWarning>,
}

/// The declarations from `pos` to the end of input, added to `so_far`.
///
/// A declaration that fails is left out and its error noted; parsing goes on
/// behind the token at which it failed.
pub open spec fn program(tokens: Seq<TokenView>, pos: int, so_far: Program) -> Program
    decreases left(tokens, pos),
{
    match kind_at(tokens, pos) {
        None => so_far,
        Some(TokenKind::Eof) => so_far,
        Some(_) => {
            let item = decl(tokens, pos);
            match item.result {
                Ok(s) => {
                    proof {
                        lemma_decl_progress(tokens, pos);
                    }
                    program(
                        tokens,
                        pos + item.used,
                        Program { statements: so_far.statements.push(s), ..so_far },
                    )
                },
                Err(error) => program(
                    tokens,
                    pos + item.used + 1,
                    Program { errors: so_far.errors.push(error), ..so_far },
                ),
            }
        },
    }
}

/// The outcome of a parse that has found nothing yet.
pub open spec fn nothing_yet() -> Program {
    Program { statements: Seq::empty(), errors: Seq::empty(), warnings: Seq::empty() }
}

/// The program that `tokens` spell, with the warnings it earns.
pub open spec fn parse_tokens(tokens: Seq<TokenView>) -> Program {
    let found = program(tokens, 0, nothing_yet());
    Program { warnings: stmts_warnings(found.statements), ..found }
}

} // verus!

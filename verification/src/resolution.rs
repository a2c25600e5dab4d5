//! Static resolution, as spec functions over the model of the syntax tree.
//!
//! Resolution walks the tree once with a chain of scopes that records, for
//! each declared name, whether its initializer has been passed. For every
//! variable reference and assignment it files how many scopes lie between the
//! reference and the declaration. A name that no scope declares is global and
//! gets no entry.

use vstd::prelude::*;
use crate::environment::{bind, defined, hops, innermost, lookup, Scopes};
use crate::parser::{ExprView, StmtView};
use crate::token::TokenKind;

verus! {

/// The state of a resolution.
pub struct Resolution {
    /// The scopes around the current place; a name maps to whether it is
    /// initialized yet.
    pub scopes: Scopes<bool>,
    /// The table: from the identity of an expression to its depth.
    pub locals: Map<usize, usize>,
    /// The identities of the expressions that use a variable inside its own
    /// initializer, in the order found.
    pub warnings: Seq<usize>,
}

/// The state after a use of `name` by the expression `id`.
pub open spec fn used(r: Resolution, id: usize, name: Seq<char>) -> Resolution {
    Resolution {
        scopes: r.scopes,
        locals: match hops(r.scopes, name) {
            Some(depth) => r.locals.insert(id, depth as usize),
            None => r.locals,
        },
        warnings: if lookup(r.scopes, name) == Some(false) {
            r.warnings.push(id)
        } else {
            r.warnings
        },
    }
}

/// The state after `name` is declared in the innermost scope, not yet
/// initialized.
pub open spec fn declared(r: Resolution, name: Seq<char>) -> Resolution {
    Resolution { scopes: defined(r.scopes, name, false), ..r }
}

/// The state after the innermost declaration of `name` is marked initialized.
pub open spec fn initialized(r: Resolution, name: Seq<char>) -> Resolution {
    Resolution {
        scopes: match innermost(r.scopes, name) {
            Some(i) => bind(r.scopes, i, name, true),
            None => r.scopes,
        },
        ..r
    }
}

/// The state inside a new scope.
pub open spec fn entered(r: Resolution) -> Resolution {
    Resolution { scopes: r.scopes.push(Map::empty()), ..r }
}

/// The state after the innermost scope is left.
pub open spec fn left_scope(r: Resolution) -> Resolution {
    Resolution {
        scopes: if r.scopes.len() > 0 {
            r.scopes.drop_last()
        } else {
            r.scopes
        },
        ..r
    }
}

/// The state after each of `names` is declared and initialized, in order.
pub open spec fn with_params(r: Resolution, names: Seq<Seq<char>>) -> Resolution
    decreases names.len(),
{
    if names.len() == 0 {
        r
    } else {
        initialized(declared(with_params(r, names.drop_last()), names.last()), names.last())
    }
}

/// The state after the expression `e` is resolved.
pub open spec fn resolve_expr(r: Resolution, e: ExprView) -> Resolution
    decreases e,
{
    match e {
        ExprView::Leaf(id, token) => match token.kind {
            TokenKind::Identifier(name) => used(r, id, name),
            _ => r,
        },
        ExprView::Assign(id, name, value) => used(resolve_expr(r, *value), id, name),
        ExprView::Unary(_, operand) => resolve_expr(r, *operand),
        ExprView::Binary(_, left, right) => resolve_expr(resolve_expr(r, *left), *right),
        ExprView::Logical(_, left, right) => resolve_expr(resolve_expr(r, *left), *right),
        ExprView::Grouping(inner) => resolve_expr(r, *inner),
        ExprView::Call(_, callee, args) => resolve_exprs(resolve_expr(r, *callee), args),
    }
}

/// The state after the expressions `es` are resolved, in order.
pub open spec fn resolve_exprs(r: Resolution, es: Seq<ExprView>) -> Resolution
    decreases es,
{
    if es.len() == 0 {
        r
    } else {
        resolve_expr(resolve_exprs(r, es.drop_last()), es.last())
    }
}

/// The state after the statement `s` is resolved.
pub open spec fn resolve_stmt(r: Resolution, s: StmtView) -> Resolution
    decreases s,
{
    match s {
        StmtView::Expression(e) => resolve_expr(r, e),
        StmtView::Print(e) => resolve_expr(r, e),
        StmtView::Return(e) => resolve_expr(r, e),
        StmtView::Var(name, e) => initialized(resolve_expr(declared(r, name), e), name),
        StmtView::Block(stmts) => left_scope(resolve_stmts(entered(r), stmts)),
        StmtView::Function(f) => left_scope(
            left_scope(resolve_stmts(entered(with_params(entered(r), f.params)), f.body)),
        ),
        StmtView::If(cond, then_branch, else_branch) => {
            let after_then = resolve_stmt(resolve_expr(r, cond), *then_branch);
            match else_branch {
                Some(s) => resolve_stmt(after_then, *s),
                None => after_then,
            }
        },
        StmtView::While(cond, body) => resolve_stmt(resolve_expr(r, cond), *body),
    }
}

/// The state after the statements `stmts` are resolved, in order.
pub open spec fn resolve_stmts(r: Resolution, stmts: Seq<StmtView>) -> Resolution
    decreases stmts,
{
    if stmts.len() == 0 {
        r
    } else {
        resolve_stmt(resolve_stmts(r, stmts.drop_last()), stmts.last())
    }
}

/// The state in which resolution starts: no scope, nothing filed.
pub open spec fn start() -> Resolution {
    Resolution { scopes: Seq::empty(), locals: Map::empty(), warnings: Seq::empty() }
}

/// The table that resolution files for a program.
pub open spec fn resolve_program(stmts: Seq<StmtView>) -> Resolution {
    resolve_stmts(start(), stmts)
}

} // verus!

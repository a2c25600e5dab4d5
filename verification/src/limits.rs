//! The limit on the arguments of a call and on the parameters of a function.
//!
//! The limit is a convention: a program that goes over it still parses and
//! runs, and a warning is given for each call and each function that does.

use vstd::prelude::*;
use crate::parser::{
    expr_views, lemma_block_view, lemma_call_view, lemma_function_view, stmt_views, Expr,
    ExprView, Stmt, StmtFunction, StmtView,
};

verus! {

/// The most arguments that a call should have, and the most parameters that
/// a function should have.
pub const MAX_ARITY: usize = 255;

/// A warning about a construct that goes over the limit.
#[derive(Debug, PartialEq, Eq, Clone, Copy, Structural)]
pub enum ParseWarning {
    /// A call with too many arguments; `line` is that of its closing
    /// parenthesis.
    TooManyArguments { line: usize },
    /// A function with too many parameters; `id` is its identity.
    TooManyParameters { id: usize },
}

/// The warning for a call with `count` arguments, if it earns one.
pub open spec fn call_warning(count: nat, line: usize) -> Seq<ParseWarning> {
    if count > MAX_ARITY {
        seq![ParseWarning::TooManyArguments { line }]
    } else {
        Seq::empty()
    }
}

/// The warning for a function with `count` parameters, if it earns one.
pub open spec fn function_warning(count: nat, id: usize) -> Seq<ParseWarning> {
    if count > MAX_ARITY {
        seq![ParseWarning::TooManyParameters { id }]
    } else {
        Seq::empty()
    }
}

/// The warnings for the calls in an expression: those of the parts of a call
/// before that of the call itself.
pub open spec fn expr_warnings(e: ExprView) -> Seq<ParseWarning>
    decreases e,
{
    match e {
        ExprView::Leaf(_, _) => Seq::empty(),
        ExprView::Assign(_, _, value) => expr_warnings(*value),
        ExprView::Unary(_, operand) => expr_warnings(*operand),
        ExprView::Binary(_, left, right) => expr_warnings(*left) + expr_warnings(*right),
        ExprView::Logical(_, left, right) => expr_warnings(*left) + expr_warnings(*right),
        ExprView::Grouping(inner) => expr_warnings(*inner),
        ExprView::Call(paren, callee, args) => expr_warnings(*callee) + exprs_warnings(args)
            + call_warning(args.len(), paren.line),
    }
}

/// The warnings for the expressions `es`, in order.
pub open spec fn exprs_warnings(es: Seq<ExprView>) -> Seq<ParseWarning>
    decreases es,
{
    if es.len() == 0 {
        Seq::empty()
    } else {
        exprs_warnings(es.drop_last()) + expr_warnings(es.last())
    }
}

/// The warnings for a statement: that of a function before those of its
/// body.
pub open spec fn stmt_warnings(s: StmtView) -> Seq<ParseWarning>
    decreases s,
{
    match s {
        StmtView::Expression(e) => expr_warnings(e),
        StmtView::Print(e) => expr_warnings(e),
        StmtView::Return(e) => expr_warnings(e),
        StmtView::Var(_, e) => expr_warnings(e),
        StmtView::Block(stmts) => stmts_warnings(stmts),
        StmtView::Function(f) => function_warning(f.params.len(), f.id) + stmts_warnings(f.body),
        StmtView::If(cond, then_branch, else_branch) => expr_warnings(cond) + stmt_warnings(
            *then_branch,
        ) + (match else_branch {
            Some(s) => stmt_warnings(*s),
            None => Seq::empty(),
        }),
        StmtView::While(cond, body) => expr_warnings(cond) + stmt_warnings(*body),
    }
}

/// The warnings for the statements `stmts`, in order.
pub open spec fn stmts_warnings(stmts: Seq<StmtView>) -> Seq<ParseWarning>
    decreases stmts,
{
    if stmts.len() == 0 {
        Seq::empty()
    } else {
        stmts_warnings(stmts.drop_last()) + stmt_warnings(stmts.last())
    }
}

/// Adds the warnings for `expr` to `out`.
fn check_expr(expr: &Expr, out: &mut Vec<ParseWarning>)
    ensures
        final(out)@ == old(out)@ + expr_warnings(expr@),
    decreases expr,
{
    let ghost before = out@;
    match expr {
        Expr::Leaf(_, _) => {
            assert(before + Seq::<ParseWarning>::empty() =~= before);
        },
        Expr::Assign(_, _, value) => {
            check_expr(value, out);
        },
        Expr::Unary(_, operand) => {
            check_expr(operand, out);
        },
        Expr::Binary(_, left, right) => {
            check_expr(left, out);
            check_expr(right, out);
            assert(before + expr_warnings(left@) + expr_warnings(right@) =~= before + (
            expr_warnings(left@) + expr_warnings(right@)));
        },
        Expr::Logical(_, left, right) => {
            check_expr(left, out);
            check_expr(right, out);
            assert(before + expr_warnings(left@) + expr_warnings(right@) =~= before + (
            expr_warnings(left@) + expr_warnings(right@)));
        },
        Expr::Grouping(inner) => {
            check_expr(inner, out);
        },
        Expr::Call(paren, callee, args) => {
            check_expr(callee, out);
            let ghost views = expr_views(args@);
            let ghost start = out@;
            proof {
                lemma_call_view(*paren, **callee, *args);
                assert(views.take(0) =~= Seq::<ExprView>::empty());
                assert(start + Seq::<ParseWarning>::empty() =~= start);
            }
            let mut i: usize = 0;
            while i < args.len()
                invariant
                    i <= args.len(),
                    views == expr_views(args@),
                    out@ == start + exprs_warnings(views.take(i as int)),
                    decreases_to!(expr => args),
                decreases args.len() - i,
            {
                let ghost so_far = exprs_warnings(views.take(i as int));
                check_expr(&args[i], out);
                proof {
                    assert(views.take(i + 1).drop_last() =~= views.take(i as int));
                    assert(views.take(i + 1).last() == args@[i as int]@);
                    assert(start + so_far + expr_warnings(args@[i as int]@) =~= start + (so_far
                        + expr_warnings(args@[i as int]@)));
                }
                i = i + 1;
            }
            proof {
                assert(views.take(args@.len() as int) =~= views);
            }
            if args.len() > MAX_ARITY {
                out.push(ParseWarning::TooManyArguments { line: paren.line });
            }
            proof {
                let own = call_warning(views.len(), paren.line);
                assert(out@ =~= before + (expr_warnings(callee@) + exprs_warnings(views) + own));
            }
        },
    }
}

/// Adds the warnings for the statements `stmts` to `out`.
fn check_all(stmts: &Vec<Stmt>, out: &mut Vec<ParseWarning>)
    ensures
        final(out)@ == old(out)@ + stmts_warnings(stmt_views(stmts@)),
    decreases stmts, 0nat,
{
    let ghost before = out@;
    let ghost views = stmt_views(stmts@);
    proof {
        assert(views.take(0) =~= Seq::<StmtView>::empty());
        assert(before + Seq::<ParseWarning>::empty() =~= before);
    }
    let mut i: usize = 0;
    while i < stmts.len()
        invariant
            i <= stmts.len(),
            views == stmt_views(stmts@),
            out@ == before + stmts_warnings(views.take(i as int)),
        decreases stmts.len() - i,
    {
        let ghost so_far = stmts_warnings(views.take(i as int));
        check_stmt(&stmts[i], out);
        proof {
            assert(views.take(i + 1).drop_last() =~= views.take(i as int));
            assert(views.take(i + 1).last() == stmts@[i as int]@);
            assert(before + so_far + stmt_warnings(stmts@[i as int]@) =~= before + (so_far
                + stmt_warnings(stmts@[i as int]@)));
        }
        i = i + 1;
    }
    proof {
        assert(views.take(stmts@.len() as int) =~= views);
    }
}

/// Adds the warnings for a function declaration to `out`.
fn check_function(declaration: &StmtFunction, out: &mut Vec<ParseWarning>)
    ensures
        final(out)@ == old(out)@ + (function_warning(declaration@.params.len(), declaration@.id)
            + stmts_warnings(declaration@.body)),
    decreases declaration, 1nat,
{
    let ghost before = out@;
    if declaration.params.len() > MAX_ARITY {
        out.push(ParseWarning::TooManyParameters { id: declaration.id });
    }
    let ghost own = function_warning(declaration@.params.len(), declaration@.id);
    proof {
        assert(out@ =~= before + own);
    }
    check_all(&declaration.body, out);
    proof {
        assert(before + own + stmts_warnings(declaration@.body) =~= before + (own
            + stmts_warnings(declaration@.body)));
    }
}

/// Adds the warnings for `stmt` to `out`.
fn check_stmt(stmt: &Stmt, out: &mut Vec<ParseWarning>)
    ensures
        final(out)@ == old(out)@ + stmt_warnings(stmt@),
    decreases stmt, 2nat,
{
    let ghost before = out@;
    match stmt {
        Stmt::Expression(e) => check_expr(e, out),
        Stmt::Print(e) => check_expr(e, out),
        Stmt::Return(e) => check_expr(e, out),
        Stmt::Var(_, e) => check_expr(e, out),
        Stmt::Block(stmts) => {
            proof {
                lemma_block_view(*stmts);
            }
            check_all(stmts, out)
        },
        Stmt::Function(declaration) => {
            proof {
                lemma_function_view(*declaration);
            }
            check_function(declaration, out)
        },
        Stmt::If(cond, then_branch, else_branch) => {
            check_expr(cond, out);
            check_stmt(then_branch, out);
            let ghost first = expr_warnings(cond@) + stmt_warnings(then_branch@);
            proof {
                assert(out@ =~= before + first);
            }
            match &**else_branch {
                Some(s) => {
                    check_stmt(s, out);
                    proof {
                        assert(before + first + stmt_warnings(s@) =~= before + (first
                            + stmt_warnings(s@)));
                    }
                },
                None => {
                    proof {
                        assert(before + first =~= before + (first + Seq::<ParseWarning>::empty()));
                    }
                },
            }
        },
        Stmt::While(cond, body) => {
            check_expr(cond, out);
            check_stmt(body, out);
            proof {
                assert(before + expr_warnings(cond@) + stmt_warnings(body@) =~= before + (
                expr_warnings(cond@) + stmt_warnings(body@)));
            }
        },
    }
}

/// The warnings for a program: one for each call with more than
/// [`MAX_ARITY`] arguments and each function with more than [`MAX_ARITY`]
/// parameters, in the order of the program.
pub fn arity_warnings(stmts: &Vec<Stmt>) -> (warnings: Vec<ParseWarning>)
    ensures
        warnings@ == stmts_warnings(stmt_views(stmts@)),
{
    let mut warnings: Vec<ParseWarning> = Vec::new();
    check_all(stmts, &mut warnings);
    assert(Seq::<ParseWarning>::empty() + stmts_warnings(stmt_views(stmts@)) =~= stmts_warnings(
        stmt_views(stmts@),
    ));
    warnings
}

} // verus!

//! The identities that the parser gives to expressions and functions.
//!
//! An identity is the position of a token that the node alone is built from.
//! The resolution table is keyed by it, so no two nodes of a program may
//! share one: this is proved here for everything that the grammar builds.

use vstd::prelude::*;
use crate::grammar::{
    arg_list, assignment, binary, binary_node, binary_tail, block_items, call, call_args,
    call_tail, condition, decl, expression, exprstmt, for_cond, for_init, for_loop, for_rest,
    for_step, fun_rest, if_rest, kind_at, left, lemma_decl_progress, level_rank, nothing_yet,
    operand, param_list, parse_tokens, primary, print_rest, program, return_rest, stmt, terminated,
    tighter, unary, var_rest, while_rest, Level, Program,
};
use crate::parser::{ExprView, StmtView};
use crate::token::{TokenKind, TokenView};

verus! {

/// The identities in an expression, one entry for each node that has one.
pub open spec fn expr_ids(e: ExprView) -> Seq<int>
    decreases e,
{
    match e {
        ExprView::Leaf(id, _) => seq![id as int],
        ExprView::Assign(id, _, value) => seq![id as int] + expr_ids(*value),
        ExprView::Unary(_, operand) => expr_ids(*operand),
        ExprView::Binary(_, left, right) => expr_ids(*left) + expr_ids(*right),
        ExprView::Logical(_, left, right) => expr_ids(*left) + expr_ids(*right),
        ExprView::Grouping(inner) => expr_ids(*inner),
        ExprView::Call(_, callee, args) => expr_ids(*callee) + exprs_ids(args),
    }
}

/// The identities in the expressions `es`.
pub open spec fn exprs_ids(es: Seq<ExprView>) -> Seq<int>
    decreases es,
{
    if es.len() == 0 {
        Seq::empty()
    } else {
        exprs_ids(es.drop_last()) + expr_ids(es.last())
    }
}

/// The identities in a statement: those of its expressions and of the
/// functions declared in it.
pub open spec fn stmt_ids(s: StmtView) -> Seq<int>
    decreases s,
{
    match s {
        StmtView::Expression(e) => expr_ids(e),
        StmtView::Print(e) => expr_ids(e),
        StmtView::Return(e) => expr_ids(e),
        StmtView::Var(_, e) => expr_ids(e),
        StmtView::Block(stmts) => stmts_ids(stmts),
        StmtView::Function(f) => seq![f.id as int] + stmts_ids(f.body),
        StmtView::If(cond, then_branch, else_branch) => expr_ids(cond) + stmt_ids(*then_branch) + (
        match else_branch {
            Some(s) => stmt_ids(*s),
            None => Seq::empty(),
        }),
        StmtView::While(cond, body) => expr_ids(cond) + stmt_ids(*body),
    }
}

/// The identities in the statements `stmts`.
pub open spec fn stmts_ids(stmts: Seq<StmtView>) -> Seq<int>
    decreases stmts,
{
    if stmts.len() == 0 {
        Seq::empty()
    } else {
        stmts_ids(stmts.drop_last()) + stmt_ids(stmts.last())
    }
}

/// Whether the entries of `ids` are all different and all in `lo..hi`.
pub open spec fn spread(ids: Seq<int>, lo: int, hi: int) -> bool {
    &&& forall|i: int| 0 <= i < ids.len() ==> lo <= #[trigger] ids[i] < hi
    &&& forall|i: int, j: int| 0 <= i < j < ids.len() ==> #[trigger] ids[i] != #[trigger] ids[j]
}

/// Entries from two ranges that do not overlap stay different when put
/// together, in either order.
pub proof fn lemma_join(a: Seq<int>, b: Seq<int>, lo: int, mid: int, hi: int)
    requires
        spread(a, lo, mid),
        spread(b, mid, hi),
        lo <= mid <= hi,
    ensures
        spread(a + b, lo, hi),
        spread(b + a, lo, hi),
{
    let ab = a + b;
    assert forall|i: int| 0 <= i < ab.len() implies lo <= #[trigger] ab[i] < hi by {
        if i < a.len() {
            assert(ab[i] == a[i]);
        } else {
            assert(ab[i] == b[i - a.len()]);
        }
    }
    assert forall|i: int, j: int| 0 <= i < j < ab.len() implies #[trigger] ab[i]
        != #[trigger] ab[j] by {
        if j < a.len() {
            assert(ab[i] == a[i] && ab[j] == a[j]);
        } else if i >= a.len() {
            assert(ab[i] == b[i - a.len()] && ab[j] == b[j - a.len()]);
        } else {
            assert(ab[i] == a[i] && ab[j] == b[j - a.len()]);
        }
    }
    let ba = b + a;
    assert forall|i: int| 0 <= i < ba.len() implies lo <= #[trigger] ba[i] < hi by {
        if i < b.len() {
            assert(ba[i] == b[i]);
        } else {
            assert(ba[i] == a[i - b.len()]);
        }
    }
    assert forall|i: int, j: int| 0 <= i < j < ba.len() implies #[trigger] ba[i]
        != #[trigger] ba[j] by {
        if j < b.len() {
            assert(ba[i] == b[i] && ba[j] == b[j]);
        } else if i >= b.len() {
            assert(ba[i] == a[i - b.len()] && ba[j] == a[j - b.len()]);
        } else {
            assert(ba[i] == b[i] && ba[j] == a[j - b.len()]);
        }
    }
}

/// Entries spread over a range are spread over any wider range.
pub proof fn lemma_widen(a: Seq<int>, lo: int, hi: int, lower: int, higher: int)
    requires
        spread(a, lo, hi),
        lower <= lo,
        hi <= higher,
    ensures
        spread(a, lower, higher),
{
}

/// One entry is spread over the range that holds just it.
pub proof fn lemma_single(id: int)
    ensures
        spread(seq![id], id, id + 1),
{
}

/// The identities of a list with one more expression.
proof fn lemma_exprs_ids_push(es: Seq<ExprView>, e: ExprView)
    ensures
        exprs_ids(es.push(e)) == exprs_ids(es) + expr_ids(e),
{
    assert(es.push(e).drop_last() =~= es);
}

/// Whether the tokens are few enough for their positions to be identities.
pub open spec fn countable(tokens: Seq<TokenView>) -> bool {
    tokens.len() <= usize::MAX
}

/// The identities in a primary expression are different positions of its
/// tokens.
pub proof fn lemma_primary_ids(tokens: Seq<TokenView>, pos: int)
    requires
        countable(tokens),
        0 <= pos,
    ensures
        primary(tokens, pos).result is Ok ==> spread(
            expr_ids(primary(tokens, pos).result->Ok_0),
            pos,
            pos + primary(tokens, pos).used,
        ),
    decreases left(tokens, pos), 0nat,
{
    match kind_at(tokens, pos) {
        Some(TokenKind::LeftParen) => {
            let inner = expression(tokens, pos + 1);
            lemma_expression_ids(tokens, pos + 1);
            if inner.result is Ok {
                lemma_widen(
                    expr_ids(inner.result->Ok_0),
                    pos + 1,
                    pos + 1 + inner.used,
                    pos,
                    pos + 2 + inner.used,
                );
            }
        },
        Some(kind) => {
            lemma_single(pos);
        },
        None => {},
    }
}

/// The identities in the arguments of a call.
pub proof fn lemma_call_args_ids(tokens: Seq<TokenView>, pos: int, args: Seq<ExprView>, lo: int)
    requires
        countable(tokens),
        0 <= lo <= pos,
        spread(exprs_ids(args), lo, pos),
    ensures
        call_args(tokens, pos, args).result is Ok ==> spread(
            exprs_ids(call_args(tokens, pos, args).result->Ok_0),
            lo,
            pos + call_args(tokens, pos, args).used,
        ),
    decreases left(tokens, pos), 18nat,
{
    let arg = expression(tokens, pos);
    lemma_expression_ids(tokens, pos);
    if arg.result is Ok {
        let expr = arg.result->Ok_0;
        lemma_exprs_ids_push(args, expr);
        lemma_join(exprs_ids(args), expr_ids(expr), lo, pos, pos + arg.used);
        if kind_at(tokens, pos + arg.used) == Some(TokenKind::Comma) {
            lemma_widen(exprs_ids(args.push(expr)), lo, pos + arg.used, lo, pos + arg.used + 1);
            lemma_call_args_ids(tokens, pos + arg.used + 1, args.push(expr), lo);
        }
    }
}

/// The identities in an argument list.
pub proof fn lemma_arg_list_ids(tokens: Seq<TokenView>, pos: int)
    requires
        countable(tokens),
        0 <= pos,
    ensures
        arg_list(tokens, pos).result is Ok ==> spread(
            exprs_ids(arg_list(tokens, pos).result->Ok_0.args),
            pos,
            pos + arg_list(tokens, pos).used,
        ),
    decreases left(tokens, pos), 19nat,
{
    if kind_at(tokens, pos) == Some(TokenKind::RightParen) {
    } else {
        let args = call_args(tokens, pos, Seq::empty());
        lemma_call_args_ids(tokens, pos, Seq::empty(), pos);
        if args.result is Ok {
            lemma_widen(
                exprs_ids(args.result->Ok_0),
                pos,
                pos + args.used,
                pos,
                pos + args.used + 1,
            );
        }
    }
}

/// The identities in a chain of calls.
pub proof fn lemma_call_tail_ids(tokens: Seq<TokenView>, pos: int, callee: ExprView, lo: int)
    requires
        countable(tokens),
        0 <= lo <= pos,
        spread(expr_ids(callee), lo, pos),
    ensures
        call_tail(tokens, pos, callee).result is Ok ==> spread(
            expr_ids(call_tail(tokens, pos, callee).result->Ok_0),
            lo,
            pos + call_tail(tokens, pos, callee).used,
        ),
    decreases left(tokens, pos), 1nat,
{
    if kind_at(tokens, pos) == Some(TokenKind::LeftParen) {
        let list = arg_list(tokens, pos + 1);
        lemma_arg_list_ids(tokens, pos + 1);
        if list.result is Ok {
            let found = list.result->Ok_0;
            let node = ExprView::Call(found.paren, Box::new(callee), found.args);
            lemma_widen(expr_ids(callee), lo, pos, lo, pos + 1);
            lemma_join(
                expr_ids(callee),
                exprs_ids(found.args),
                lo,
                pos + 1,
                pos + 1 + list.used,
            );
            lemma_call_tail_ids(tokens, pos + 1 + list.used, node, lo);
        }
    }
}

/// The identities in a call.
pub proof fn lemma_call_ids(tokens: Seq<TokenView>, pos: int)
    requires
        countable(tokens),
        0 <= pos,
    ensures
        call(tokens, pos).result is Ok ==> spread(
            expr_ids(call(tokens, pos).result->Ok_0),
            pos,
            pos + call(tokens, pos).used,
        ),
    decreases left(tokens, pos), 2nat,
{
    let callee = primary(tokens, pos);
    lemma_primary_ids(tokens, pos);
    if callee.result is Ok {
        lemma_call_tail_ids(tokens, pos + callee.used, callee.result->Ok_0, pos);
    }
}

/// The identities in a unary expression.
pub proof fn lemma_unary_ids(tokens: Seq<TokenView>, pos: int)
    requires
        countable(tokens),
        0 <= pos,
    ensures
        unary(tokens, pos).result is Ok ==> spread(
            expr_ids(unary(tokens, pos).result->Ok_0),
            pos,
            pos + unary(tokens, pos).used,
        ),
    decreases left(tokens, pos), 3nat,
{
    if kind_at(tokens, pos) == Some(TokenKind::Bang) || kind_at(tokens, pos) == Some(
        TokenKind::Minus,
    ) {
        let inner = unary(tokens, pos + 1);
        lemma_unary_ids(tokens, pos + 1);
        if inner.result is Ok {
            lemma_widen(
                expr_ids(inner.result->Ok_0),
                pos + 1,
                pos + 1 + inner.used,
                pos,
                pos + 1 + inner.used,
            );
        }
    } else {
        lemma_call_ids(tokens, pos);
    }
}

/// The identities in an operand of a binary level.
pub proof fn lemma_operand_ids(tokens: Seq<TokenView>, pos: int, level: Level)
    requires
        countable(tokens),
        0 <= pos,
    ensures
        operand(tokens, pos, level).result is Ok ==> spread(
            expr_ids(operand(tokens, pos, level).result->Ok_0),
            pos,
            pos + operand(tokens, pos, level).used,
        ),
    decreases left(tokens, pos), level_rank(level) - 1,
{
    match tighter(level) {
        Some(next) => {
            lemma_binary_ids(tokens, pos, next);
        },
        None => {
            lemma_unary_ids(tokens, pos);
        },
    }
}

/// The identities in a chain of binary operators.
pub proof fn lemma_binary_tail_ids(
    tokens: Seq<TokenView>,
    pos: int,
    level: Level,
    lhs: ExprView,
    lo: int,
)
    requires
        countable(tokens),
        0 <= lo <= pos,
        spread(expr_ids(lhs), lo, pos),
    ensures
        binary_tail(tokens, pos, level, lhs).result is Ok ==> spread(
            expr_ids(binary_tail(tokens, pos, level, lhs).result->Ok_0),
            lo,
            pos + binary_tail(tokens, pos, level, lhs).used,
        ),
    decreases left(tokens, pos), level_rank(level) - 1,
{
    if kind_at(tokens, pos) is Some && crate::grammar::level_has(level, kind_at(tokens, pos)->0) {
        let rhs = operand(tokens, pos + 1, level);
        lemma_operand_ids(tokens, pos + 1, level);
        if rhs.result is Ok {
            let node = binary_node(level, tokens[pos], lhs, rhs.result->Ok_0);
            lemma_widen(expr_ids(lhs), lo, pos, lo, pos + 1);
            lemma_join(
                expr_ids(lhs),
                expr_ids(rhs.result->Ok_0),
                lo,
                pos + 1,
                pos + 1 + rhs.used,
            );
            assert(expr_ids(node) == expr_ids(lhs) + expr_ids(rhs.result->Ok_0));
            lemma_binary_tail_ids(tokens, pos + 1 + rhs.used, level, node, lo);
        }
    }
}

/// The identities in an expression of a binary level.
pub proof fn lemma_binary_ids(tokens: Seq<TokenView>, pos: int, level: Level)
    requires
        countable(tokens),
        0 <= pos,
    ensures
        binary(tokens, pos, level).result is Ok ==> spread(
            expr_ids(binary(tokens, pos, level).result->Ok_0),
            pos,
            pos + binary(tokens, pos, level).used,
        ),
    decreases left(tokens, pos), level_rank(level),
{
    let first = match tighter(level) {
        Some(next) => binary(tokens, pos, next),
        None => unary(tokens, pos),
    };
    match tighter(level) {
        Some(next) => {
            lemma_binary_ids(tokens, pos, next);
        },
        None => {
            lemma_unary_ids(tokens, pos);
        },
    }
    if first.result is Ok {
        lemma_binary_tail_ids(tokens, pos + first.used, level, first.result->Ok_0, pos);
    }
}

/// The identities in an assignment.
pub proof fn lemma_assignment_ids(tokens: Seq<TokenView>, pos: int)
    requires
        countable(tokens),
        0 <= pos,
    ensures
        assignment(tokens, pos).result is Ok ==> spread(
            expr_ids(assignment(tokens, pos).result->Ok_0),
            pos,
            pos + assignment(tokens, pos).used,
        ),
    decreases left(tokens, pos), 16nat,
{
    let target = binary(tokens, pos, Level::Or);
    lemma_binary_ids(tokens, pos, Level::Or);
    if target.result is Ok {
        let at = pos + target.used;
        if kind_at(tokens, at) == Some(TokenKind::Equal) {
            let value = assignment(tokens, at + 1);
            lemma_assignment_ids(tokens, at + 1);
            if value.result is Ok {
                lemma_single(at);
                lemma_join(
                    seq![at],
                    expr_ids(value.result->Ok_0),
                    at,
                    at + 1,
                    at + 1 + value.used,
                );
                lemma_widen(
                    seq![at] + expr_ids(value.result->Ok_0),
                    at,
                    at + 1 + value.used,
                    pos,
                    at + 1 + value.used,
                );
            }
        }
    }
}

/// The identities in an expression are different positions of its tokens.
pub proof fn lemma_expression_ids(tokens: Seq<TokenView>, pos: int)
    requires
        countable(tokens),
        0 <= pos,
    ensures
        expression(tokens, pos).result is Ok ==> spread(
            expr_ids(expression(tokens, pos).result->Ok_0),
            pos,
            pos + expression(tokens, pos).used,
        ),
    decreases left(tokens, pos), 17nat,
{
    lemma_assignment_ids(tokens, pos);
}

/// The identities of a list with one more statement.
proof fn lemma_stmts_ids_push(stmts: Seq<StmtView>, s: StmtView)
    ensures
        stmts_ids(stmts.push(s)) == stmts_ids(stmts) + stmt_ids(s),
{
    assert(stmts.push(s).drop_last() =~= stmts);
}

/// The identities of a list of two statements.
proof fn lemma_stmts_ids_pair(a: StmtView, b: StmtView)
    ensures
        stmts_ids(seq![a, b]) == stmt_ids(a) + stmt_ids(b),
{
    let none = Seq::<StmtView>::empty();
    assert(stmts_ids(none) =~= Seq::<int>::empty());
    lemma_stmts_ids_push(none, a);
    assert(none.push(a) =~= seq![a]);
    assert(stmts_ids(none) + stmt_ids(a) =~= stmt_ids(a));
    lemma_stmts_ids_push(seq![a], b);
    assert(seq![a].push(b) =~= seq![a, b]);
}

/// The identities in an expression with its `;`.
pub proof fn lemma_terminated_ids(tokens: Seq<TokenView>, pos: int)
    requires
        countable(tokens),
        0 <= pos,
    ensures
        terminated(tokens, pos).result is Ok ==> spread(
            expr_ids(terminated(tokens, pos).result->Ok_0),
            pos,
            pos + terminated(tokens, pos).used,
        ),
{
    reveal(terminated);
    let expr = expression(tokens, pos);
    lemma_expression_ids(tokens, pos);
    if expr.result is Ok {
        lemma_widen(expr_ids(expr.result->Ok_0), pos, pos + expr.used, pos, pos + expr.used + 1);
    }
}

/// The identities in a condition.
pub proof fn lemma_condition_ids(tokens: Seq<TokenView>, pos: int)
    requires
        countable(tokens),
        0 <= pos,
    ensures
        condition(tokens, pos).result is Ok ==> spread(
            expr_ids(condition(tokens, pos).result->Ok_0),
            pos,
            pos + condition(tokens, pos).used,
        ),
{
    reveal(condition);
    let cond = expression(tokens, pos + 1);
    lemma_expression_ids(tokens, pos + 1);
    if cond.result is Ok {
        lemma_widen(
            expr_ids(cond.result->Ok_0),
            pos + 1,
            pos + 1 + cond.used,
            pos,
            pos + 2 + cond.used,
        );
    }
}

/// The identities in what follows `return`.
pub proof fn lemma_return_ids(tokens: Seq<TokenView>, pos: int)
    requires
        countable(tokens),
        0 <= pos,
    ensures
        return_rest(tokens, pos).result is Ok ==> spread(
            stmt_ids(return_rest(tokens, pos).result->Ok_0),
            pos,
            pos + return_rest(tokens, pos).used,
        ),
{
    reveal(return_rest);
    lemma_terminated_ids(tokens, pos);
    lemma_single(pos);
}

/// The identities in what follows `var`.
pub proof fn lemma_var_ids(tokens: Seq<TokenView>, pos: int)
    requires
        countable(tokens),
        0 <= pos,
    ensures
        var_rest(tokens, pos).result is Ok ==> spread(
            stmt_ids(var_rest(tokens, pos).result->Ok_0),
            pos,
            pos + var_rest(tokens, pos).used,
        ),
{
    reveal(var_rest);
    lemma_single(pos);
    lemma_widen(seq![pos], pos, pos + 1, pos, pos + 2);
    let init = terminated(tokens, pos + 2);
    lemma_terminated_ids(tokens, pos + 2);
    if init.result is Ok {
        lemma_widen(
            expr_ids(init.result->Ok_0),
            pos + 2,
            pos + 2 + init.used,
            pos,
            pos + 2 + init.used,
        );
    }
}

/// The identities in the first clause of a `for`.
pub proof fn lemma_for_init_ids(tokens: Seq<TokenView>, pos: int)
    requires
        countable(tokens),
        0 <= pos,
    ensures
        for_init(tokens, pos).result is Ok ==> spread(
            match for_init(tokens, pos).result->Ok_0 {
                Some(s) => stmt_ids(s),
                None => Seq::empty(),
            },
            pos,
            pos + for_init(tokens, pos).used,
        ),
{
    reveal(for_init);
    reveal(exprstmt);
    lemma_terminated_ids(tokens, pos);
    let declared = var_rest(tokens, pos + 1);
    lemma_var_ids(tokens, pos + 1);
    if declared.result is Ok {
        lemma_widen(
            stmt_ids(declared.result->Ok_0),
            pos + 1,
            pos + 1 + declared.used,
            pos,
            pos + 1 + declared.used,
        );
    }
}

/// The identities in the second clause of a `for`.
pub proof fn lemma_for_cond_ids(tokens: Seq<TokenView>, pos: int)
    requires
        countable(tokens),
        0 <= pos,
    ensures
        for_cond(tokens, pos).result is Ok ==> spread(
            expr_ids(for_cond(tokens, pos).result->Ok_0),
            pos,
            pos + for_cond(tokens, pos).used,
        ),
{
    reveal(for_cond);
    lemma_terminated_ids(tokens, pos);
    lemma_single(pos);
}

/// The identities in the third clause of a `for`.
pub proof fn lemma_for_step_ids(tokens: Seq<TokenView>, pos: int)
    requires
        countable(tokens),
        0 <= pos,
    ensures
        for_step(tokens, pos).result is Ok ==> spread(
            match for_step(tokens, pos).result->Ok_0 {
                Some(e) => expr_ids(e),
                None => Seq::empty(),
            },
            pos,
            pos + for_step(tokens, pos).used,
        ),
{
    reveal(for_step);
    let step = expression(tokens, pos);
    lemma_expression_ids(tokens, pos);
    if step.result is Ok {
        lemma_widen(expr_ids(step.result->Ok_0), pos, pos + step.used, pos, pos + step.used + 1);
    }
}

/// The identities in the loop that a `for` stands for, whose parts come from
/// four stretches of tokens one after the other.
proof fn lemma_for_loop_ids(
    init: Option<StmtView>,
    cond: ExprView,
    step: Option<ExprView>,
    body: StmtView,
    mark0: int,
    mark1: int,
    mark2: int,
    mark3: int,
    mark4: int,
)
    requires
        mark0 <= mark1 <= mark2 <= mark3 <= mark4,
        spread(
            match init {
                Some(s) => stmt_ids(s),
                None => Seq::empty(),
            },
            mark0,
            mark1,
        ),
        spread(expr_ids(cond), mark1, mark2),
        spread(
            match step {
                Some(e) => expr_ids(e),
                None => Seq::empty(),
            },
            mark2,
            mark3,
        ),
        spread(stmt_ids(body), mark3, mark4),
    ensures
        spread(stmt_ids(for_loop(init, cond, step, body)), mark0, mark4),
{
    let stepped = match step {
        Some(e) => StmtView::Block(seq![body, StmtView::Expression(e)]),
        None => body,
    };
    match step {
        Some(e) => {
            lemma_stmts_ids_pair(body, StmtView::Expression(e));
            lemma_join(expr_ids(e), stmt_ids(body), mark2, mark3, mark4);
        },
        None => {
            lemma_widen(stmt_ids(body), mark3, mark4, mark2, mark4);
        },
    }
    assert(spread(stmt_ids(stepped), mark2, mark4));
    let looping = StmtView::While(cond, Box::new(stepped));
    lemma_join(expr_ids(cond), stmt_ids(stepped), mark1, mark2, mark4);
    assert(stmt_ids(looping) == expr_ids(cond) + stmt_ids(stepped));
    match init {
        Some(s) => {
            lemma_stmts_ids_pair(s, looping);
            lemma_join(stmt_ids(s), stmt_ids(looping), mark0, mark1, mark4);
        },
        None => {
            lemma_widen(stmt_ids(looping), mark1, mark4, mark0, mark4);
        },
    }
}

/// The identities in what follows `if`.
pub proof fn lemma_if_ids(tokens: Seq<TokenView>, pos: int)
    requires
        countable(tokens),
        0 <= pos,
    ensures
        if_rest(tokens, pos).result is Ok ==> spread(
            stmt_ids(if_rest(tokens, pos).result->Ok_0),
            pos,
            pos + if_rest(tokens, pos).used,
        ),
    decreases left(tokens, pos), 20nat,
{
    reveal(condition);
    let cond = condition(tokens, pos);
    lemma_condition_ids(tokens, pos);
    if cond.result is Ok {
        let mark1 = pos + cond.used;
        let then_branch = stmt(tokens, mark1);
        lemma_stmt_ids(tokens, mark1);
        if then_branch.result is Ok {
            let mark2 = mark1 + then_branch.used;
            let c = expr_ids(cond.result->Ok_0);
            let t = stmt_ids(then_branch.result->Ok_0);
            lemma_join(c, t, pos, mark1, mark2);
            if kind_at(tokens, mark2) == Some(TokenKind::Else) {
                let else_branch = stmt(tokens, mark2 + 1);
                lemma_stmt_ids(tokens, mark2 + 1);
                if else_branch.result is Ok {
                    lemma_widen(c + t, pos, mark2, pos, mark2 + 1);
                    lemma_join(
                        c + t,
                        stmt_ids(else_branch.result->Ok_0),
                        pos,
                        mark2 + 1,
                        mark2 + 1 + else_branch.used,
                    );
                }
            } else {
                assert(c + t + Seq::<int>::empty() =~= c + t);
            }
        }
    }
}

/// The identities in what follows `while`.
pub proof fn lemma_while_ids(tokens: Seq<TokenView>, pos: int)
    requires
        countable(tokens),
        0 <= pos,
    ensures
        while_rest(tokens, pos).result is Ok ==> spread(
            stmt_ids(while_rest(tokens, pos).result->Ok_0),
            pos,
            pos + while_rest(tokens, pos).used,
        ),
    decreases left(tokens, pos), 20nat,
{
    reveal(condition);
    let cond = condition(tokens, pos);
    lemma_condition_ids(tokens, pos);
    if cond.result is Ok {
        let mark1 = pos + cond.used;
        let body = stmt(tokens, mark1);
        lemma_stmt_ids(tokens, mark1);
        if body.result is Ok {
            lemma_join(
                expr_ids(cond.result->Ok_0),
                stmt_ids(body.result->Ok_0),
                pos,
                mark1,
                mark1 + body.used,
            );
        }
    }
}

/// The identities in what follows `for`.
pub proof fn lemma_for_ids(tokens: Seq<TokenView>, pos: int)
    requires
        countable(tokens),
        0 <= pos,
    ensures
        for_rest(tokens, pos).result is Ok ==> spread(
            stmt_ids(for_rest(tokens, pos).result->Ok_0),
            pos,
            pos + for_rest(tokens, pos).used,
        ),
    decreases left(tokens, pos), 22nat,
{
    if kind_at(tokens, pos) == Some(TokenKind::LeftParen) {
        let init = for_init(tokens, pos + 1);
        lemma_for_init_ids(tokens, pos + 1);
        if init.result is Ok {
            let mark1 = pos + 1 + init.used;
            let cond = for_cond(tokens, mark1);
            lemma_for_cond_ids(tokens, mark1);
            if cond.result is Ok {
                let mark2 = mark1 + cond.used;
                let step = for_step(tokens, mark2);
                lemma_for_step_ids(tokens, mark2);
                if step.result is Ok {
                    let mark3 = mark2 + step.used;
                    let body = stmt(tokens, mark3);
                    lemma_stmt_ids(tokens, mark3);
                    if body.result is Ok {
                        let mark4 = mark3 + body.used;
                        lemma_for_loop_ids(
                            init.result->Ok_0,
                            cond.result->Ok_0,
                            step.result->Ok_0,
                            body.result->Ok_0,
                            pos + 1,
                            mark1,
                            mark2,
                            mark3,
                            mark4,
                        );
                        lemma_widen(
                            stmt_ids(
                                for_loop(
                                    init.result->Ok_0,
                                    cond.result->Ok_0,
                                    step.result->Ok_0,
                                    body.result->Ok_0,
                                ),
                            ),
                            pos + 1,
                            mark4,
                            pos,
                            mark4,
                        );
                    }
                }
            }
        }
    }
}

/// The identities in the declarations of a block.
pub proof fn lemma_block_items_ids(
    tokens: Seq<TokenView>,
    pos: int,
    items: Seq<StmtView>,
    lo: int,
)
    requires
        countable(tokens),
        0 <= lo <= pos,
        spread(stmts_ids(items), lo, pos),
    ensures
        block_items(tokens, pos, items).result is Ok ==> spread(
            stmts_ids(block_items(tokens, pos, items).result->Ok_0),
            lo,
            pos + block_items(tokens, pos, items).used,
        ),
    decreases left(tokens, pos), 25nat,
{
    match kind_at(tokens, pos) {
        None => {},
        Some(TokenKind::Eof) => {},
        Some(TokenKind::RightBrace) => {
            lemma_widen(stmts_ids(items), lo, pos, lo, pos + 1);
        },
        Some(_) => {
            let item = decl(tokens, pos);
            lemma_decl_ids(tokens, pos);
            if item.result is Ok && item.used > 0 {
                let s = item.result->Ok_0;
                lemma_stmts_ids_push(items, s);
                lemma_join(stmts_ids(items), stmt_ids(s), lo, pos, pos + item.used);
                lemma_block_items_ids(tokens, pos + item.used, items.push(s), lo);
            }
        },
    }
}

/// The identities in a statement are different positions of its tokens.
pub proof fn lemma_stmt_ids(tokens: Seq<TokenView>, pos: int)
    requires
        countable(tokens),
        0 <= pos,
    ensures
        stmt(tokens, pos).result is Ok ==> spread(
            stmt_ids(stmt(tokens, pos).result->Ok_0),
            pos,
            pos + stmt(tokens, pos).used,
        ),
    decreases left(tokens, pos), 23nat,
{
    match kind_at(tokens, pos) {
        Some(TokenKind::Return) => {
            let rest = return_rest(tokens, pos + 1);
            lemma_return_ids(tokens, pos + 1);
            if rest.result is Ok {
                lemma_widen(
                    stmt_ids(rest.result->Ok_0),
                    pos + 1,
                    pos + 1 + rest.used,
                    pos,
                    pos + 1 + rest.used,
                );
            }
        },
        Some(TokenKind::For) => {
            let rest = for_rest(tokens, pos + 1);
            lemma_for_ids(tokens, pos + 1);
            if rest.result is Ok {
                lemma_widen(
                    stmt_ids(rest.result->Ok_0),
                    pos + 1,
                    pos + 1 + rest.used,
                    pos,
                    pos + 1 + rest.used,
                );
            }
        },
        Some(TokenKind::If) => {
            let rest = if_rest(tokens, pos + 1);
            lemma_if_ids(tokens, pos + 1);
            if rest.result is Ok {
                lemma_widen(
                    stmt_ids(rest.result->Ok_0),
                    pos + 1,
                    pos + 1 + rest.used,
                    pos,
                    pos + 1 + rest.used,
                );
            }
        },
        Some(TokenKind::Print) => {
            reveal(print_rest);
            let rest = terminated(tokens, pos + 1);
            lemma_terminated_ids(tokens, pos + 1);
            if rest.result is Ok {
                lemma_widen(
                    expr_ids(rest.result->Ok_0),
                    pos + 1,
                    pos + 1 + rest.used,
                    pos,
                    pos + 1 + rest.used,
                );
            }
        },
        Some(TokenKind::While) => {
            let rest = while_rest(tokens, pos + 1);
            lemma_while_ids(tokens, pos + 1);
            if rest.result is Ok {
                lemma_widen(
                    stmt_ids(rest.result->Ok_0),
                    pos + 1,
                    pos + 1 + rest.used,
                    pos,
                    pos + 1 + rest.used,
                );
            }
        },
        Some(TokenKind::LeftBrace) => {
            let items = block_items(tokens, pos + 1, Seq::empty());
            lemma_block_items_ids(tokens, pos + 1, Seq::empty(), pos + 1);
            if items.result is Ok {
                lemma_widen(
                    stmts_ids(items.result->Ok_0),
                    pos + 1,
                    pos + 1 + items.used,
                    pos,
                    pos + 1 + items.used,
                );
            }
        },
        _ => {
            reveal(exprstmt);
            lemma_terminated_ids(tokens, pos);
        },
    }
}

/// The identities in what follows `fun`.
pub proof fn lemma_fun_ids(tokens: Seq<TokenView>, pos: int)
    requires
        countable(tokens),
        0 <= pos,
    ensures
        fun_rest(tokens, pos).result is Ok ==> spread(
            stmt_ids(fun_rest(tokens, pos).result->Ok_0),
            pos,
            pos + fun_rest(tokens, pos).used,
        ),
    decreases left(tokens, pos), 26nat,
{
    match kind_at(tokens, pos) {
        Some(TokenKind::Identifier(name)) => {
            let list = param_list(tokens, pos + 1);
            if list.result is Ok {
                let used = 1 + list.used;
                if kind_at(tokens, pos + used) == Some(TokenKind::LeftBrace) {
                    let body = block_items(tokens, pos + used + 1, Seq::empty());
                    lemma_block_items_ids(tokens, pos + used + 1, Seq::empty(), pos + used + 1);
                    if body.result is Ok {
                        lemma_single(pos);
                        lemma_widen(seq![pos], pos, pos + 1, pos, pos + used + 1);
                        lemma_join(
                            seq![pos],
                            stmts_ids(body.result->Ok_0),
                            pos,
                            pos + used + 1,
                            pos + used + 1 + body.used,
                        );
                    }
                }
            }
        },
        _ => {},
    }
}

/// The identities in a declaration are different positions of its tokens.
pub proof fn lemma_decl_ids(tokens: Seq<TokenView>, pos: int)
    requires
        countable(tokens),
        0 <= pos,
    ensures
        decl(tokens, pos).result is Ok ==> spread(
            stmt_ids(decl(tokens, pos).result->Ok_0),
            pos,
            pos + decl(tokens, pos).used,
        ),
    decreases left(tokens, pos), 24nat,
{
    match kind_at(tokens, pos) {
        Some(TokenKind::Fun) => {
            let rest = fun_rest(tokens, pos + 1);
            lemma_fun_ids(tokens, pos + 1);
            if rest.result is Ok {
                lemma_widen(
                    stmt_ids(rest.result->Ok_0),
                    pos + 1,
                    pos + 1 + rest.used,
                    pos,
                    pos + 1 + rest.used,
                );
            }
        },
        Some(TokenKind::Var) => {
            let rest = var_rest(tokens, pos + 1);
            lemma_var_ids(tokens, pos + 1);
            if rest.result is Ok {
                lemma_widen(
                    stmt_ids(rest.result->Ok_0),
                    pos + 1,
                    pos + 1 + rest.used,
                    pos,
                    pos + 1 + rest.used,
                );
            }
        },
        _ => {
            lemma_stmt_ids(tokens, pos);
        },
    }
}

/// Whether the entries of `ids` are all different.
pub open spec fn distinct(ids: Seq<int>) -> bool {
    forall|i: int, j: int| 0 <= i < j < ids.len() ==> #[trigger] ids[i] != #[trigger] ids[j]
}

/// The identities in the statements of a program, from a position on.
proof fn lemma_program_ids(tokens: Seq<TokenView>, pos: int, so_far: Program)
    requires
        countable(tokens),
        0 <= pos,
        spread(stmts_ids(so_far.statements), 0, pos),
    ensures
        distinct(stmts_ids(program(tokens, pos, so_far).statements)),
    decreases left(tokens, pos),
{
    reveal(program);
    match kind_at(tokens, pos) {
        None => {},
        Some(TokenKind::Eof) => {},
        Some(_) => {
            let item = decl(tokens, pos);
            lemma_decl_ids(tokens, pos);
            lemma_decl_progress(tokens, pos);
            match item.result {
                Ok(s) => {
                    let next = pos + item.used;
                    let more = Program { statements: so_far.statements.push(s), ..so_far };
                    lemma_stmts_ids_push(so_far.statements, s);
                    lemma_join(stmts_ids(so_far.statements), stmt_ids(s), 0, pos, next);
                    lemma_program_ids(tokens, next, more);
                },
                Err(error) => {
                    let next = pos + item.used + 1;
                    let more = Program { errors: so_far.errors.push(error), ..so_far };
                    lemma_widen(stmts_ids(so_far.statements), 0, pos, 0, next);
                    lemma_program_ids(tokens, next, more);
                },
            }
        },
    }
}

/// No two nodes of a program share an identity: among the expressions and
/// the functions of the statements that a parse yields, every identity
/// occurs once.
pub proof fn theorem_identities_are_distinct(tokens: Seq<TokenView>)
    requires
        countable(tokens),
    ensures
        stmts_ids(parse_tokens(tokens).statements).no_duplicates(),
{
    lemma_program_ids(tokens, 0, nothing_yet());
    let ids = stmts_ids(parse_tokens(tokens).statements);
    assert forall|i: int, j: int| 0 <= i < ids.len() && 0 <= j < ids.len() && i != j implies ids[i]
        != ids[j] by {
        if i < j {
            assert(ids[i] != ids[j]);
        } else {
            assert(ids[j] != ids[i]);
        }
    }
}

} // verus!

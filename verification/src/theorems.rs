//! What holds of the language, proved from the definitions of its grammar and
//! its semantics.

use vstd::prelude::*;
use crate::callable::{arity_of, CallableView};
use crate::environment::lemma_innermost;
use crate::grammar::{
    decl, kind_at, left, lemma_decl_progress, nothing_yet, parse_tokens, program, Program,
};
use crate::parser::{ExprView, FunctionView, ParseOutput, StmtView};
use crate::resolution::{
    declared, entered, resolve_expr, resolve_exprs, resolve_stmt, resolve_stmts, with_params,
    Resolution,
};
use crate::scanner::{scanned, LexError};
use crate::semantics::{
    advance, after_stmt, apply_binary, apply_value, arithmetic, at_rest, balanced, base_depth,
    eval_expr, exec_stmt, failure, go, invoke, kept, params_scope, resting, resting_depth, step,
    supplied, unwind, ArithOp, ControlView, FrameView, MachineView, RequestView,
};
use crate::token::{token_views, Token, TokenKind, TokenView};
use crate::value::{truthy, values_equal, ErView, RuntimeError, ValueView};

verus! {

/// Scanning is a function of the source text: two scans of the same
/// characters both fail with the same error, or give tokens with the same
/// models, and those tokens spell the same program.
pub proof fn theorem_front_end_is_deterministic(
    source: Seq<char>,
    first: Result<Vec<Token>, LexError>,
    second: Result<Vec<Token>, LexError>,
)
    requires
        scanned(source, first),
        scanned(source, second),
    ensures
        match (first, second) {
            (Ok(a), Ok(b)) => token_views(a@) == token_views(b@) && parse_tokens(token_views(a@))
                == parse_tokens(token_views(b@)),
            (Err(a), Err(b)) => a == b,
            _ => false,
        },
{
}

/// Parsing is a function of the tokens: two parses of token sequences with
/// the same models give the same statements and the same errors.
pub proof fn theorem_parse_is_deterministic(
    first_tokens: Seq<Token>,
    second_tokens: Seq<Token>,
    first: ParseOutput,
    second: ParseOutput,
)
    requires
        token_views(first_tokens) == token_views(second_tokens),
        first@ == parse_tokens(token_views(first_tokens)),
        second@ == parse_tokens(token_views(second_tokens)),
    ensures
        first@.statements == second@.statements,
        first@.errors == second@.errors,
{
}

/// Arithmetic on two numbers is never done on anything but the two numbers:
/// for each of `+ - * /` the host is asked for the result of that operation
/// on exactly these operands.
pub proof fn theorem_arithmetic_on_numbers(op: TokenKind, a: u64, b: u64)
    requires
        op is Plus || op is Minus || op is Star || op is Slash,
    ensures
        apply_binary(op, ValueView::Number(a), ValueView::Number(b)) == ControlView::Await(
            RequestView::Arithmetic(arithmetic(op)->0, a, b),
        ),
        op is Plus ==> arithmetic(op) == Some(ArithOp::Add),
        op is Minus ==> arithmetic(op) == Some(ArithOp::Subtract),
        op is Star ==> arithmetic(op) == Some(ArithOp::Multiply),
        op is Slash ==> arithmetic(op) == Some(ArithOp::Divide),
{
    reveal(apply_binary);
}

/// `+` on two texts is their concatenation.
pub proof fn theorem_plus_joins_texts(a: Seq<char>, b: Seq<char>)
    ensures
        apply_binary(TokenKind::Plus, ValueView::Text(a), ValueView::Text(b)) == ControlView::Value(
            ValueView::Text(a + b),
        ),
{
    reveal(apply_binary);
}

/// Nothing is coerced: an arithmetic operator on operands that are not two
/// numbers, nor, for `+`, two texts, is a type error.
pub proof fn theorem_no_coercion(op: TokenKind, left: ValueView, right: ValueView)
    requires
        op is Plus || op is Minus || op is Star || op is Slash,
        !(left is Number && right is Number),
        !(op is Plus && left is Text && right is Text),
    ensures
        apply_binary(op, left, right) == failure(RuntimeError::TypeMismatch),
{
    reveal(apply_binary);
}

/// A comparison of operands that are not two numbers is a type error.
pub proof fn theorem_comparison_wants_numbers(op: TokenKind, left: ValueView, right: ValueView)
    requires
        op is Less || op is LessEqual || op is Greater || op is GreaterEqual,
        !(left is Number && right is Number),
    ensures
        apply_binary(op, left, right) == failure(RuntimeError::TypeMismatch),
{
    reveal(apply_binary);
}

/// Only `nil` and `false` are falsy.
pub proof fn theorem_truthiness(v: ValueView)
    ensures
        truthy(v) <==> !(v is Nil) && v != ValueView::Boolean(false),
{
}

/// `nil` equals `nil`, a text equals itself, and values of different kinds
/// are never equal.
pub proof fn theorem_equality(a: ValueView, b: ValueView)
    ensures
        values_equal(ValueView::Nil, ValueView::Nil),
        a is Text ==> values_equal(a, a),
        a is Boolean ==> values_equal(a, a),
        values_equal(a, b) ==> (a is Nil <==> b is Nil) && (a is Text <==> b is Text) && (a
            is Number <==> b is Number) && (a is Boolean <==> b is Boolean) && (a is Callable
            <==> b is Callable),
        values_equal(a, b) == values_equal(b, a),
{
}

/// A call with a number of arguments other than the callee's arity fails
/// with an arity mismatch and changes nothing else.
pub proof fn theorem_wrong_arity_fails(m: MachineView, callee: CallableView, args: Seq<ValueView>)
    requires
        args.len() != arity_of(callee),
    ensures
        invoke(m, callee, args) == go(m, failure(RuntimeError::ArityMismatch)),
{
    reveal(invoke);
}

/// A call runs over the scopes that were live where the function was
/// declared, however deeply the call is nested: two machines that agree on
/// those scopes have the same scopes at the start of the call.
pub proof fn theorem_call_runs_over_declaring_scopes(
    near: MachineView,
    far: MachineView,
    declaration: FunctionView,
    depth: usize,
    args: Seq<ValueView>,
)
    requires
        depth <= near.scopes.len(),
        depth <= far.scopes.len(),
        near.scopes.take(depth as int) == far.scopes.take(depth as int),
    ensures
        args.len() == declaration.params.len() ==> invoke(
            near,
            CallableView::Function(declaration, depth),
            args,
        ).machine.scopes == invoke(
            far,
            CallableView::Function(declaration, depth),
            args,
        ).machine.scopes,
        args.len() == declaration.params.len() ==> invoke(
            near,
            CallableView::Function(declaration, depth),
            args,
        ).machine.scopes == near.scopes.take(depth as int).push(
            params_scope(declaration.params, args),
        ).push(Map::empty()),
{
    reveal(invoke);
}

/// A call whose body ends without a `return` yields `nil`, and a `return`
/// that reaches the call yields its value.
pub proof fn theorem_value_of_a_call(
    m: MachineView,
    saved: Seq<Map<Seq<char>, ValueView>>,
    v: ValueView,
)
    requires
        m.scopes.len() > 0,
    ensures
        after_stmt(m, FrameView::Call(saved)).machine.control == ControlView::Value(ValueView::Nil),
        unwind(m, FrameView::Call(saved), ErView::Return(v)).machine.control == ControlView::Value(
            v,
        ),
{
    reveal(after_stmt);
    reveal(unwind);
}

/// Leaving the frames `frames` and then `frame` is leaving `frame` first.
proof fn lemma_base_depth_push(frames: Seq<FrameView>, frame: FrameView, depth: int)
    ensures
        base_depth(frames.push(frame), depth) == (match frame {
            FrameView::Block(_, _) => if depth >= 1 {
                base_depth(frames, depth - 1)
            } else {
                None
            },
            FrameView::Call(saved) => if depth >= 1 {
                base_depth(frames, depth - 1 + saved.len())
            } else {
                None
            },
            _ => base_depth(frames, depth),
        }),
{
    assert(frames.push(frame).drop_last() =~= frames);
    assert(frames.push(frame).last() == frame);
}

/// The start of a call keeps the balance of the scopes.
proof fn lemma_invoke_keeps_balance(m: MachineView, callee: CallableView, args: Seq<ValueView>)
    requires
        balanced(m),
    ensures
        balanced(invoke(m, callee, args).machine),
        resting_depth(invoke(m, callee, args).machine) == resting_depth(m),
{
    reveal(invoke);
    match callee {
        CallableView::Function(f, depth) => {
            if args.len() == arity_of(callee) {
                let keep = kept(m.scopes, depth);
                let saved = m.scopes.skip(keep);
                let call = FrameView::Call(saved);
                let block = FrameView::Block(f.body, 0);
                lemma_base_depth_push(m.frames, call, keep + 1);
                lemma_base_depth_push(m.frames.push(call), block, keep + 2);
            }
        },
        CallableView::Clock => {},
    }
}

/// Every push has its pop: a step of a balanced machine leaves it balanced,
/// and the depth to which the scope chain returns at the end of the work in
/// hand stays what it was. Whatever happens in a block or a call, be it a
/// normal end, a `return` or an error, the scopes it entered are left again.
pub proof fn theorem_step_keeps_balance(m: MachineView)
    requires
        balanced(m),
    ensures
        balanced(step(m).machine),
        resting_depth(step(m).machine) == resting_depth(m),
{
    let depth = m.scopes.len() as int;
    if m.frames.len() > 0 {
        assert(m.frames.drop_last().push(m.frames.last()) =~= m.frames);
        lemma_base_depth_push(m.frames.drop_last(), m.frames.last(), depth);
    }
    match m.control {
        ControlView::Idle => {},
        ControlView::Await(_) => {},
        ControlView::Exec(s) => {
            reveal(exec_stmt);
            lemma_exec_keeps_balance(at_rest(m), s);
        },
        ControlView::Eval(e) => {
            reveal(eval_expr);
            lemma_eval_keeps_balance(at_rest(m), e);
        },
        ControlView::Value(v) => {
            if m.frames.len() > 0 {
                lemma_value_keeps_balance(resting(m), m.frames.last(), v);
            }
        },
        ControlView::Done => {
            if m.frames.len() > 0 {
                lemma_after_keeps_balance(resting(m), m.frames.last());
            }
        },
        ControlView::Raise(er) => {
            if m.frames.len() > 0 {
                lemma_unwind_keeps_balance(resting(m), m.frames.last(), er);
            }
        },
    }
}

/// The first step of a statement keeps the balance.
proof fn lemma_exec_keeps_balance(m: MachineView, s: StmtView)
    requires
        balanced(m),
    ensures
        balanced(exec_stmt(m, s).machine),
        resting_depth(exec_stmt(m, s).machine) == resting_depth(m),
{
    reveal(exec_stmt);
    let depth = m.scopes.len() as int;
    let after = exec_stmt(m, s).machine;
    if after.frames.len() > m.frames.len() {
        assert(after.frames.drop_last() =~= m.frames);
        lemma_base_depth_push(m.frames, after.frames.last(), after.scopes.len() as int);
    }
}

/// The first step of an expression keeps the balance.
proof fn lemma_eval_keeps_balance(m: MachineView, e: ExprView)
    requires
        balanced(m),
    ensures
        balanced(eval_expr(m, e).machine),
        resting_depth(eval_expr(m, e).machine) == resting_depth(m),
{
    reveal(eval_expr);
    let after = eval_expr(m, e).machine;
    if after.frames.len() > m.frames.len() {
        assert(after.frames.drop_last() =~= m.frames);
        lemma_base_depth_push(m.frames, after.frames.last(), after.scopes.len() as int);
    }
}

/// What a frame does when the statement above it has ended keeps the
/// balance.
proof fn lemma_after_keeps_balance(m: MachineView, frame: FrameView)
    requires
        base_depth(m.frames.push(frame), m.scopes.len() as int) is Some,
    ensures
        balanced(after_stmt(m, frame).machine),
        resting_depth(after_stmt(m, frame).machine) == base_depth(
            m.frames.push(frame),
            m.scopes.len() as int,
        )->0,
{
    reveal(after_stmt);
    let depth = m.scopes.len() as int;
    lemma_base_depth_push(m.frames, frame, depth);
    let after = after_stmt(m, frame).machine;
    if after.frames.len() > m.frames.len() {
        assert(after.frames.drop_last() =~= m.frames);
        lemma_base_depth_push(m.frames, after.frames.last(), after.scopes.len() as int);
    }
}

/// What a frame does when an error or a `return` passes it keeps the
/// balance.
proof fn lemma_unwind_keeps_balance(m: MachineView, frame: FrameView, er: ErView)
    requires
        base_depth(m.frames.push(frame), m.scopes.len() as int) is Some,
    ensures
        balanced(unwind(m, frame, er).machine),
        resting_depth(unwind(m, frame, er).machine) == base_depth(
            m.frames.push(frame),
            m.scopes.len() as int,
        )->0,
{
    reveal(unwind);
    lemma_base_depth_push(m.frames, frame, m.scopes.len() as int);
}

/// What a frame does with a value keeps the balance.
proof fn lemma_value_keeps_balance(m: MachineView, frame: FrameView, v: ValueView)
    requires
        base_depth(m.frames.push(frame), m.scopes.len() as int) is Some,
    ensures
        balanced(apply_value(m, frame, v).machine),
        resting_depth(apply_value(m, frame, v).machine) == base_depth(
            m.frames.push(frame),
            m.scopes.len() as int,
        )->0,
{
    reveal(apply_value);
    let depth = m.scopes.len() as int;
    lemma_base_depth_push(m.frames, frame, depth);
    let after = apply_value(m, frame, v).machine;
    match frame {
        FrameView::WhileBody(_, _) => {
            assert(apply_value(m, frame, v) == after_stmt(m, frame));
            lemma_after_keeps_balance(m, frame);
        },
        FrameView::Block(_, _) => {
            assert(apply_value(m, frame, v) == after_stmt(m, frame));
            lemma_after_keeps_balance(m, frame);
        },
        FrameView::Call(_) => {
            assert(apply_value(m, frame, v) == after_stmt(m, frame));
            lemma_after_keeps_balance(m, frame);
        },
        FrameView::Callee(args) => {
            match v {
                ValueView::Callable(callee) => {
                    if args.len() == 0 {
                        lemma_invoke_keeps_balance(m, callee, Seq::empty());
                    } else {
                        assert(after.frames.drop_last() =~= m.frames);
                        lemma_base_depth_push(m.frames, after.frames.last(), depth);
                    }
                },
                _ => {},
            }
        },
        FrameView::Assign(_, name) => {
            lemma_innermost(m.scopes, name);
        },
        FrameView::Args(callee, args, values) => {
            if values.len() + 1 < args.len() {
                assert(after.frames.drop_last() =~= m.frames);
                lemma_base_depth_push(m.frames, after.frames.last(), depth);
            } else {
                lemma_invoke_keeps_balance(m, callee, values.push(v));
            }
        },
        _ => {
            if after.frames.len() > m.frames.len() {
                assert(after.frames.drop_last() =~= m.frames);
                lemma_base_depth_push(m.frames, after.frames.last(), after.scopes.len() as int);
            }
        },
    }
}

/// Any number of steps keeps the balance.
pub proof fn theorem_advance_keeps_balance(m: MachineView, budget: nat)
    requires
        balanced(m),
    ensures
        balanced(advance(m, budget).machine),
        resting_depth(advance(m, budget).machine) == resting_depth(m),
    decreases budget,
{
    if budget > 0 {
        theorem_step_keeps_balance(m);
        if step(m).action is Continue {
            theorem_advance_keeps_balance(step(m).machine, (budget - 1) as nat);
        }
    }
}

/// When the work in hand ends, in whatever way, the scope chain has the
/// depth to which the machine was bound to return.
pub proof fn theorem_end_restores_depth(m: MachineView)
    requires
        balanced(m),
        step(m).action is Finished,
    ensures
        step(m).machine.scopes.len() == resting_depth(m),
        step(m).machine.frames.len() == 0,
{
    theorem_step_keeps_balance(m);
    reveal(exec_stmt);
    reveal(eval_expr);
    reveal(apply_value);
    reveal(after_stmt);
    reveal(unwind);
    reveal(invoke);
}

/// Supplying a number keeps the balance.
pub proof fn theorem_supply_keeps_balance(m: MachineView, number: u64)
    requires
        balanced(m),
    ensures
        balanced(supplied(m, number)),
        resting_depth(supplied(m, number)) == resting_depth(m),
{
}

/// Declaring parameters neither enters nor leaves a scope.
proof fn lemma_params_keep_depth(r: Resolution, names: Seq<Seq<char>>)
    ensures
        with_params(r, names).scopes.len() == r.scopes.len(),
    decreases names.len(),
{
    if names.len() > 0 {
        lemma_params_keep_depth(r, names.drop_last());
        let before = declared(with_params(r, names.drop_last()), names.last());
        lemma_innermost(before.scopes, names.last());
    }
}

/// Resolving an expression neither enters nor leaves a scope, and changes
/// no scope.
pub proof fn theorem_resolving_an_expression_keeps_scopes(r: Resolution, e: ExprView)
    ensures
        resolve_expr(r, e).scopes == r.scopes,
    decreases e,
{
    match e {
        ExprView::Leaf(_, _) => {},
        ExprView::Assign(_, _, value) => {
            theorem_resolving_an_expression_keeps_scopes(r, *value);
        },
        ExprView::Unary(_, operand) => {
            theorem_resolving_an_expression_keeps_scopes(r, *operand);
        },
        ExprView::Binary(_, left, right) => {
            theorem_resolving_an_expression_keeps_scopes(r, *left);
            theorem_resolving_an_expression_keeps_scopes(resolve_expr(r, *left), *right);
        },
        ExprView::Logical(_, left, right) => {
            theorem_resolving_an_expression_keeps_scopes(r, *left);
            theorem_resolving_an_expression_keeps_scopes(resolve_expr(r, *left), *right);
        },
        ExprView::Grouping(inner) => {
            theorem_resolving_an_expression_keeps_scopes(r, *inner);
        },
        ExprView::Call(_, callee, args) => {
            theorem_resolving_an_expression_keeps_scopes(r, *callee);
            lemma_resolving_expressions_keeps_scopes(resolve_expr(r, *callee), args);
        },
    }
}

proof fn lemma_resolving_expressions_keeps_scopes(r: Resolution, es: Seq<ExprView>)
    ensures
        resolve_exprs(r, es).scopes == r.scopes,
    decreases es,
{
    if es.len() > 0 {
        lemma_resolving_expressions_keeps_scopes(r, es.drop_last());
        theorem_resolving_an_expression_keeps_scopes(resolve_exprs(r, es.drop_last()), es.last());
    }
}

/// The resolver's scopes mirror the structure of the program: after a
/// statement is resolved, every scope entered for it has been left, and the
/// chain is as deep as it was before.
pub proof fn theorem_resolving_a_statement_keeps_depth(r: Resolution, s: StmtView)
    ensures
        resolve_stmt(r, s).scopes.len() == r.scopes.len(),
    decreases s,
{
    match s {
        StmtView::Expression(e) => {
            theorem_resolving_an_expression_keeps_scopes(r, e);
        },
        StmtView::Print(e) => {
            theorem_resolving_an_expression_keeps_scopes(r, e);
        },
        StmtView::Return(e) => {
            theorem_resolving_an_expression_keeps_scopes(r, e);
        },
        StmtView::Var(name, e) => {
            theorem_resolving_an_expression_keeps_scopes(declared(r, name), e);
            lemma_innermost(resolve_expr(declared(r, name), e).scopes, name);
        },
        StmtView::Block(stmts) => {
            lemma_resolving_statements_keeps_depth(entered(r), stmts);
        },
        StmtView::Function(f) => {
            lemma_params_keep_depth(entered(r), f.params);
            lemma_resolving_statements_keeps_depth(
                entered(with_params(entered(r), f.params)),
                f.body,
            );
        },
        StmtView::If(cond, then_branch, else_branch) => {
            theorem_resolving_an_expression_keeps_scopes(r, cond);
            theorem_resolving_a_statement_keeps_depth(resolve_expr(r, cond), *then_branch);
            match else_branch {
                Some(other) => {
                    theorem_resolving_a_statement_keeps_depth(
                        resolve_stmt(resolve_expr(r, cond), *then_branch),
                        *other,
                    );
                },
                None => {},
            }
        },
        StmtView::While(cond, body) => {
            theorem_resolving_an_expression_keeps_scopes(r, cond);
            theorem_resolving_a_statement_keeps_depth(resolve_expr(r, cond), *body);
        },
    }
}

proof fn lemma_resolving_statements_keeps_depth(r: Resolution, stmts: Seq<StmtView>)
    ensures
        resolve_stmts(r, stmts).scopes.len() == r.scopes.len(),
    decreases stmts,
{
    if stmts.len() > 0 {
        lemma_resolving_statements_keeps_depth(r, stmts.drop_last());
        theorem_resolving_a_statement_keeps_depth(
            resolve_stmts(r, stmts.drop_last()),
            stmts.last(),
        );
    }
}

/// What was parsed before a position has no part in what is parsed from it
/// on: the declarations from `pos` on are found as they would be found with
/// nothing before them, and are added to what was found before. So a
/// statement given up costs the statements behind it nothing once parsing
/// has resumed.
pub proof fn theorem_recovery_is_local(tokens: Seq<TokenView>, pos: int, so_far: Program)
    ensures
        program(tokens, pos, so_far).statements == so_far.statements + program(
            tokens,
            pos,
            nothing_yet(),
        ).statements,
        program(tokens, pos, so_far).errors == so_far.errors + program(
            tokens,
            pos,
            nothing_yet(),
        ).errors,
    decreases left(tokens, pos),
{
    reveal(program);
    let fresh = nothing_yet();
    match kind_at(tokens, pos) {
        None => {
            assert(so_far.statements + fresh.statements =~= so_far.statements);
            assert(so_far.errors + fresh.errors =~= so_far.errors);
        },
        Some(TokenKind::Eof) => {
            assert(so_far.statements + fresh.statements =~= so_far.statements);
            assert(so_far.errors + fresh.errors =~= so_far.errors);
        },
        Some(_) => {
            let item = decl(tokens, pos);
            lemma_decl_progress(tokens, pos);
            match item.result {
                Ok(s) => {
                    let next = pos + item.used;
                    let more = Program { statements: so_far.statements.push(s), ..so_far };
                    let alone = Program { statements: fresh.statements.push(s), ..fresh };
                    theorem_recovery_is_local(tokens, next, more);
                    theorem_recovery_is_local(tokens, next, alone);
                    let rest = program(tokens, next, fresh);
                    assert(more.statements + rest.statements =~= so_far.statements + (
                    alone.statements + rest.statements));
                    assert(more.errors + rest.errors =~= so_far.errors + (alone.errors
                        + rest.errors));
                },
                Err(error) => {
                    let next = pos + item.used + 1;
                    let more = Program { errors: so_far.errors.push(error), ..so_far };
                    let alone = Program { errors: fresh.errors.push(error), ..fresh };
                    theorem_recovery_is_local(tokens, next, more);
                    theorem_recovery_is_local(tokens, next, alone);
                    let rest = program(tokens, next, fresh);
                    assert(more.statements + rest.statements =~= so_far.statements + (
                    alone.statements + rest.statements));
                    assert(more.errors + rest.errors =~= so_far.errors + (alone.errors
                        + rest.errors));
                },
            }
        },
    }
}

} // verus!

//! The meaning of programs: an abstract machine, as spec functions over the
//! models of statements, expressions and values.
//!
//! The machine holds a scope chain, the resolution table, a stack of frames
//! that say what is still to be done with the result of the work in hand, and
//! a control state that says what the work in hand is. Each step takes the
//! machine to its next state and yields an action for the host. What the
//! machine cannot do itself it asks of the host: to write a line, to do
//! arithmetic on doubles, to read a numeric literal, to read the clock.

use vstd::prelude::*;
use crate::callable::{arity_of, CallableView};
use crate::environment::{bind, defined, innermost, lookup, lookup_at, Scopes};
use crate::parser::{ExprView, StmtView};
use crate::token::{TokenKind, TokenView};
use crate::value::{
    negated, number_equal, number_less, rendered, truthy, values_equal, ErView, OutputView,
    RuntimeError, ValueView,
};

verus! {

/// The arithmetic that the host does on doubles.
#[derive(Debug, PartialEq, Eq, Clone, Copy, Structural)]
pub enum ArithOp {
    Add,
    Subtract,
    Multiply,
    Divide,
}

/// The model of a request to the host, which answers with a number.
pub enum RequestView {
    /// The result of an operation on two doubles.
    Arithmetic(ArithOp, u64, u64),
    /// The double that a numeric literal denotes.
    Parse(Seq<char>),
    /// The current time in milliseconds, as a double.
    Clock,
}

/// The model of what a step hands to the host.
pub enum ActionView {
    /// Nothing: the machine wants another step.
    Continue,
    /// A line to write.
    Print(OutputView),
    /// A number is wanted: the machine waits until it is supplied.
    Request(RequestView),
    /// The statement in hand has ended, well or with an error.
    Finished(Result<(), RuntimeError>),
    /// Nothing is in hand.
    Idle,
}

/// The model of the control state.
pub enum ControlView {
    /// Nothing is in hand.
    Idle,
    /// A statement is to be executed.
    Exec(StmtView),
    /// An expression is to be evaluated.
    Eval(ExprView),
    /// An expression has yielded this value.
    Value(ValueView),
    /// A statement has ended normally.
    Done,
    /// An error, or a `return`, is on its way up.
    Raise(ErView),
    /// The host has been asked for a number.
    Await(RequestView),
}

/// The model of a frame: what is to be done when the work above it ends.
pub enum FrameView {
    /// Apply the unary operator to the operand's value.
    Unary(TokenView),
    /// Keep the left operand's value and evaluate the right operand.
    BinaryRight(TokenView, ExprView),
    /// Apply the binary operator to the kept value and the right operand's.
    BinaryApply(TokenView, ValueView),
    /// Decide by the left operand's value whether the right is evaluated.
    LogicalRight(TokenView, ExprView),
    /// Assign the value to the variable.
    Assign(usize, Seq<char>),
    /// Take the callee's value and evaluate the arguments.
    Callee(Seq<ExprView>),
    /// Keep one more argument's value; call when all are there.
    Args(CallableView, Seq<ExprView>, Seq<ValueView>),
    /// Drop the value of an expression statement.
    Discard,
    /// Print the value.
    Print,
    /// Define the variable with the value.
    Var(Seq<char>),
    /// Return the value.
    Return,
    /// Choose a branch by the condition's value.
    If(StmtView, Option<StmtView>),
    /// Run the body again if the condition's value is truthy.
    WhileTest(ExprView, StmtView),
    /// Test the condition again after the body.
    WhileBody(ExprView, StmtView),
    /// Go on with the statement at the index; after the last, leave the
    /// block's scope.
    Block(Seq<StmtView>, int),
    /// Leave the call's scope and bring back the scopes set aside for it.
    Call(Scopes<ValueView>),
}

/// The model of the machine.
pub struct MachineView {
    pub scopes: Scopes<ValueView>,
    pub locals: Map<usize, usize>,
    pub frames: Seq<FrameView>,
    pub control: ControlView,
}

/// A machine after a step, and the action of the step.
pub struct Stepped {
    pub machine: MachineView,
    pub action: ActionView,
}

/// The action that goes with a control state: the request while the machine
/// waits, else none.
pub open spec fn action_of(control: ControlView) -> ActionView {
    match control {
        ControlView::Await(request) => ActionView::Request(request),
        _ => ActionView::Continue,
    }
}

/// `m` with the control state `control`, and the action that goes with it.
pub open spec fn go(m: MachineView, control: ControlView) -> Stepped {
    Stepped { machine: MachineView { control, ..m }, action: action_of(control) }
}

/// `m` with the frame `frame` on top and the control state `control`.
pub open spec fn go_under(m: MachineView, frame: FrameView, control: ControlView) -> Stepped {
    go(MachineView { frames: m.frames.push(frame), ..m }, control)
}

/// The control state that raises the error `kind`.
pub open spec fn failure(kind: RuntimeError) -> ControlView {
    ControlView::Raise(ErView::Code(kind))
}

/// What the variable `name`, referred to by the expression `id`, is bound to:
/// looked up at the resolved depth where the table has one, else from the
/// innermost scope outward.
pub open spec fn variable(m: MachineView, id: usize, name: Seq<char>) -> Option<ValueView> {
    if m.locals.contains_key(id) {
        lookup_at(m.scopes, m.locals[id], name)
    } else {
        lookup(m.scopes, name)
    }
}

/// The scopes after the assignment of `value` to `name` by the expression
/// `id`, or `None` where the variable is not bound.
pub open spec fn assigned(m: MachineView, id: usize, name: Seq<char>, value: ValueView) -> Option<
    Scopes<ValueView>,
> {
    if m.locals.contains_key(id) {
        if lookup_at(m.scopes, m.locals[id], name) is Some {
            Some(bind(m.scopes, m.scopes.len() - 1 - m.locals[id], name, value))
        } else {
            None
        }
    } else {
        match innermost(m.scopes, name) {
            Some(i) => Some(bind(m.scopes, i, name, value)),
            None => None,
        }
    }
}

/// The machine at the start of a block: in a new scope, with the block's
/// frame on the stack.
pub open spec fn entered_block(m: MachineView, stmts: Seq<StmtView>) -> Stepped {
    go_under(
        MachineView { scopes: m.scopes.push(Map::empty()), ..m },
        FrameView::Block(stmts, 0),
        ControlView::Done,
    )
}

/// The first step of a statement.
#[verifier::opaque]
pub open spec fn exec_stmt(m: MachineView, s: StmtView) -> Stepped {
    match s {
        StmtView::Expression(e) => go_under(m, FrameView::Discard, ControlView::Eval(e)),
        StmtView::Print(e) => go_under(m, FrameView::Print, ControlView::Eval(e)),
        StmtView::Return(e) => go_under(m, FrameView::Return, ControlView::Eval(e)),
        StmtView::Var(name, e) => go_under(m, FrameView::Var(name), ControlView::Eval(e)),
        StmtView::Function(f) => go(
            MachineView {
                scopes: defined(
                    m.scopes,
                    f.name,
                    ValueView::Callable(CallableView::Function(f, m.scopes.len() as usize)),
                ),
                ..m
            },
            ControlView::Done,
        ),
        StmtView::Block(stmts) => entered_block(m, stmts),
        StmtView::If(cond, then_branch, else_branch) => go_under(
            m,
            FrameView::If(
                *then_branch,
                match else_branch {
                    Some(s) => Some(*s),
                    None => None,
                },
            ),
            ControlView::Eval(cond),
        ),
        StmtView::While(cond, body) => go_under(
            m,
            FrameView::WhileTest(cond, *body),
            ControlView::Eval(cond),
        ),
    }
}

/// The control state that a literal or a variable reference leads to.
pub open spec fn leaf(m: MachineView, id: usize, token: TokenView) -> ControlView {
    match token.kind {
        TokenKind::Text(s) => ControlView::Value(ValueView::Text(s)),
        TokenKind::Number(lexeme) => ControlView::Await(RequestView::Parse(lexeme)),
        TokenKind::True => ControlView::Value(ValueView::Boolean(true)),
        TokenKind::False => ControlView::Value(ValueView::Boolean(false)),
        TokenKind::Nil => ControlView::Value(ValueView::Nil),
        TokenKind::Identifier(name) => match variable(m, id, name) {
            Some(value) => ControlView::Value(value),
            None => failure(RuntimeError::UndefinedVariable),
        },
        _ => failure(RuntimeError::InvalidOperator),
    }
}

/// The first step of an expression.
#[verifier::opaque]
pub open spec fn eval_expr(m: MachineView, e: ExprView) -> Stepped {
    match e {
        ExprView::Leaf(id, token) => go(m, leaf(m, id, token)),
        ExprView::Assign(id, name, value) => go_under(
            m,
            FrameView::Assign(id, name),
            ControlView::Eval(*value),
        ),
        ExprView::Unary(op, operand) => go_under(
            m,
            FrameView::Unary(op),
            ControlView::Eval(*operand),
        ),
        ExprView::Binary(op, left, right) => go_under(
            m,
            FrameView::BinaryRight(op, *right),
            ControlView::Eval(*left),
        ),
        ExprView::Logical(op, left, right) => go_under(
            m,
            FrameView::LogicalRight(op, *right),
            ControlView::Eval(*left),
        ),
        ExprView::Grouping(inner) => go(m, ControlView::Eval(*inner)),
        ExprView::Call(_, callee, args) => go_under(
            m,
            FrameView::Callee(args),
            ControlView::Eval(*callee),
        ),
    }
}

/// A unary operator applied: `-` negates a number, `!` negates the
/// truthiness of any value.
pub open spec fn apply_unary(op: TokenKind, v: ValueView) -> ControlView {
    match op {
        TokenKind::Minus => match v {
            ValueView::Number(bits) => ControlView::Value(ValueView::Number(negated(bits))),
            _ => failure(RuntimeError::TypeMismatch),
        },
        TokenKind::Bang => ControlView::Value(ValueView::Boolean(!truthy(v))),
        _ => failure(RuntimeError::InvalidOperator),
    }
}

/// The arithmetic that an operator token asks for.
pub open spec fn arithmetic(op: TokenKind) -> Option<ArithOp> {
    match op {
        TokenKind::Plus => Some(ArithOp::Add),
        TokenKind::Minus => Some(ArithOp::Subtract),
        TokenKind::Star => Some(ArithOp::Multiply),
        TokenKind::Slash => Some(ArithOp::Divide),
        _ => None,
    }
}

/// Whether a token is one of the comparison operators `> >= < <=`.
pub open spec fn is_comparison(op: TokenKind) -> bool {
    op is Greater || op is GreaterEqual || op is Less || op is LessEqual
}

/// The outcome of a comparison operator on two numbers.
pub open spec fn comparison(op: TokenKind, a: u64, b: u64) -> bool {
    match op {
        TokenKind::Greater => number_less(b, a),
        TokenKind::GreaterEqual => number_less(b, a) || number_equal(a, b),
        TokenKind::Less => number_less(a, b),
        _ => number_less(a, b) || number_equal(a, b),
    }
}

/// A binary operator applied to the values of its operands.
///
/// Arithmetic on two numbers is asked of the host. `+` on two texts joins
/// them. A comparison of two numbers, and an equality test of any two
/// values, yields a boolean. Operands of other kinds are a type error.
#[verifier::opaque]
pub open spec fn apply_binary(op: TokenKind, left: ValueView, right: ValueView) -> ControlView {
    if op is EqualEqual {
        ControlView::Value(ValueView::Boolean(values_equal(left, right)))
    } else if op is BangEqual {
        ControlView::Value(ValueView::Boolean(!values_equal(left, right)))
    } else if arithmetic(op) is Some {
        match (left, right) {
            (ValueView::Number(a), ValueView::Number(b)) => ControlView::Await(
                RequestView::Arithmetic(arithmetic(op)->0, a, b),
            ),
            (ValueView::Text(a), ValueView::Text(b)) => if op is Plus {
                ControlView::Value(ValueView::Text(a + b))
            } else {
                failure(RuntimeError::TypeMismatch)
            },
            _ => failure(RuntimeError::TypeMismatch),
        }
    } else if is_comparison(op) {
        match (left, right) {
            (ValueView::Number(a), ValueView::Number(b)) => ControlView::Value(
                ValueView::Boolean(comparison(op, a, b)),
            ),
            _ => failure(RuntimeError::TypeMismatch),
        }
    } else {
        failure(RuntimeError::InvalidOperator)
    }
}

/// A logical operator after its left operand: the left value decides, and is
/// itself the result where it does; else the right operand is evaluated.
pub open spec fn apply_logical(op: TokenKind, left: ValueView, right: ExprView) -> ControlView {
    match op {
        TokenKind::Or => if truthy(left) {
            ControlView::Value(left)
        } else {
            ControlView::Eval(right)
        },
        TokenKind::And => if !truthy(left) {
            ControlView::Value(left)
        } else {
            ControlView::Eval(right)
        },
        _ => failure(RuntimeError::InvalidOperator),
    }
}

/// The scope of a call: each parameter bound to its argument, in order.
pub open spec fn params_scope(names: Seq<Seq<char>>, args: Seq<ValueView>) -> Map<
    Seq<char>,
    ValueView,
>
    decreases names.len(),
{
    if names.len() == 0 || args.len() == 0 {
        Map::empty()
    } else {
        params_scope(names.drop_last(), args.drop_last()).insert(names.last(), args.last())
    }
}

/// The number of scopes that a call of a function declared at `depth` keeps.
pub open spec fn kept(scopes: Scopes<ValueView>, depth: usize) -> int {
    if depth <= scopes.len() {
        depth as int
    } else {
        scopes.len() as int
    }
}

/// The machine at the start of a call of `callee` with the values `args`.
///
/// A call of a function sets the scopes above the function's declaration
/// aside, enters a scope with the parameters, and runs the body as a block.
#[verifier::opaque]
pub open spec fn invoke(m: MachineView, callee: CallableView, args: Seq<ValueView>) -> Stepped {
    if args.len() != arity_of(callee) {
        go(m, failure(RuntimeError::ArityMismatch))
    } else {
        match callee {
            CallableView::Clock => go(m, ControlView::Await(RequestView::Clock)),
            CallableView::Function(f, depth) => {
                let keep = kept(m.scopes, depth);
                go(
                    MachineView {
                        scopes: m.scopes.take(keep).push(params_scope(f.params, args)).push(
                            Map::empty(),
                        ),
                        frames: m.frames.push(FrameView::Call(m.scopes.skip(keep))).push(
                            FrameView::Block(f.body, 0),
                        ),
                        ..m
                    },
                    ControlView::Done,
                )
            },
        }
    }
}

/// The scopes after the innermost is left, or `None` where there is none.
pub open spec fn popped(scopes: Scopes<ValueView>) -> Option<Scopes<ValueView>> {
    if scopes.len() > 0 {
        Some(scopes.drop_last())
    } else {
        None
    }
}

/// What a frame does with the value that the work above it yielded. `m` is
/// the machine without the frame.
#[verifier::opaque]
pub open spec fn apply_value(m: MachineView, frame: FrameView, v: ValueView) -> Stepped {
    match frame {
        FrameView::Unary(op) => go(m, apply_unary(op.kind, v)),
        FrameView::BinaryRight(op, right) => go_under(
            m,
            FrameView::BinaryApply(op, v),
            ControlView::Eval(right),
        ),
        FrameView::BinaryApply(op, left) => go(m, apply_binary(op.kind, left, v)),
        FrameView::LogicalRight(op, right) => go(m, apply_logical(op.kind, v, right)),
        FrameView::Assign(id, name) => match assigned(m, id, name, v) {
            Some(scopes) => go(MachineView { scopes, ..m }, ControlView::Value(v)),
            None => go(m, failure(RuntimeError::UndefinedVariable)),
        },
        FrameView::Callee(args) => match v {
            ValueView::Callable(callee) => if args.len() == 0 {
                invoke(m, callee, Seq::empty())
            } else {
                go_under(m, FrameView::Args(callee, args, Seq::empty()), ControlView::Eval(args[0]))
            },
            _ => go(m, failure(RuntimeError::NotCallable)),
        },
        FrameView::Args(callee, args, values) => if values.len() + 1 < args.len() {
            go_under(
                m,
                FrameView::Args(callee, args, values.push(v)),
                ControlView::Eval(args[values.len() + 1 as int]),
            )
        } else {
            invoke(m, callee, values.push(v))
        },
        FrameView::Discard => go(m, ControlView::Done),
        FrameView::Print => Stepped {
            machine: MachineView { control: ControlView::Done, ..m },
            action: ActionView::Print(rendered(v)),
        },
        FrameView::Var(name) => go(
            MachineView { scopes: defined(m.scopes, name, v), ..m },
            ControlView::Done,
        ),
        FrameView::Return => go(m, ControlView::Raise(ErView::Return(v))),
        FrameView::If(then_branch, else_branch) => if truthy(v) {
            go(m, ControlView::Exec(then_branch))
        } else {
            match else_branch {
                Some(s) => go(m, ControlView::Exec(s)),
                None => go(m, ControlView::Done),
            }
        },
        FrameView::WhileTest(cond, body) => if truthy(v) {
            go_under(m, FrameView::WhileBody(cond, body), ControlView::Exec(body))
        } else {
            go(m, ControlView::Done)
        },
        FrameView::WhileBody(_, _) => after_stmt(m, frame),
        FrameView::Block(_, _) => after_stmt(m, frame),
        FrameView::Call(_) => after_stmt(m, frame),
    }
}

/// What a frame does when the statement above it has ended. `m` is the
/// machine without the frame.
#[verifier::opaque]
pub open spec fn after_stmt(m: MachineView, frame: FrameView) -> Stepped {
    match frame {
        FrameView::WhileBody(cond, body) => go_under(
            m,
            FrameView::WhileTest(cond, body),
            ControlView::Eval(cond),
        ),
        FrameView::Block(stmts, next) => if 0 <= next < stmts.len() {
            go_under(m, FrameView::Block(stmts, next + 1), ControlView::Exec(stmts[next]))
        } else {
            match popped(m.scopes) {
                Some(scopes) => go(MachineView { scopes, ..m }, ControlView::Done),
                None => go(m, failure(RuntimeError::ScopeUnderflow)),
            }
        },
        FrameView::Call(saved) => match popped(m.scopes) {
            Some(scopes) => go(
                MachineView { scopes: scopes + saved, ..m },
                ControlView::Value(ValueView::Nil),
            ),
            None => go(
                MachineView { scopes: saved, ..m },
                failure(RuntimeError::ScopeUnderflow),
            ),
        },
        _ => go(m, ControlView::Done),
    }
}

/// What a frame does when an error or a `return` passes it. `m` is the
/// machine without the frame.
///
/// A block leaves its scope. A call leaves its scope, brings back the scopes
/// set aside, and turns a `return` into the value of the call. Every other
/// frame is dropped.
#[verifier::opaque]
pub open spec fn unwind(m: MachineView, frame: FrameView, er: ErView) -> Stepped {
    match frame {
        FrameView::Block(_, _) => match popped(m.scopes) {
            Some(scopes) => go(MachineView { scopes, ..m }, ControlView::Raise(er)),
            None => go(m, ControlView::Raise(er)),
        },
        FrameView::Call(saved) => {
            let scopes = match popped(m.scopes) {
                Some(scopes) => scopes + saved,
                None => saved,
            };
            match er {
                ErView::Return(v) => go(MachineView { scopes, ..m }, ControlView::Value(v)),
                ErView::Code(_) => go(MachineView { scopes, ..m }, ControlView::Raise(er)),
            }
        },
        _ => go(m, ControlView::Raise(er)),
    }
}

/// The machine with nothing in its control state and without its top frame,
/// if it has one: what a step starts from.
pub open spec fn resting(m: MachineView) -> MachineView {
    MachineView {
        frames: if m.frames.len() > 0 {
            m.frames.drop_last()
        } else {
            m.frames
        },
        control: ControlView::Idle,
        ..m
    }
}

/// The machine with nothing in its control state.
pub open spec fn at_rest(m: MachineView) -> MachineView {
    MachineView { control: ControlView::Idle, ..m }
}

/// The end of the statement in hand, with `result`.
pub open spec fn finish(m: MachineView, result: Result<(), RuntimeError>) -> Stepped {
    Stepped {
        machine: MachineView { control: ControlView::Idle, ..m },
        action: ActionView::Finished(result),
    }
}

/// How an error channel's content ends a statement that no call caught it
/// in: a `return` outside of a function is an error of its own.
pub open spec fn escaped(er: ErView) -> RuntimeError {
    match er {
        ErView::Code(kind) => kind,
        ErView::Return(_) => RuntimeError::TopLevelReturn,
    }
}

/// One step of the machine.
pub open spec fn step(m: MachineView) -> Stepped {
    match m.control {
        ControlView::Idle => Stepped { machine: m, action: ActionView::Idle },
        ControlView::Await(request) => Stepped { machine: m, action: ActionView::Request(request) },
        ControlView::Exec(s) => exec_stmt(at_rest(m), s),
        ControlView::Eval(e) => eval_expr(at_rest(m), e),
        ControlView::Value(v) => if m.frames.len() == 0 {
            finish(m, Ok(()))
        } else {
            apply_value(resting(m), m.frames.last(), v)
        },
        ControlView::Done => if m.frames.len() == 0 {
            finish(m, Ok(()))
        } else {
            after_stmt(resting(m), m.frames.last())
        },
        ControlView::Raise(er) => if m.frames.len() == 0 {
            finish(m, Err(escaped(er)))
        } else {
            unwind(resting(m), m.frames.last(), er)
        },
    }
}

/// Up to `budget` steps of the machine: steps are taken until one hands out
/// an action other than [`ActionView::Continue`], or the budget is spent.
pub open spec fn advance(m: MachineView, budget: nat) -> Stepped
    decreases budget,
{
    if budget == 0 {
        Stepped { machine: m, action: ActionView::Continue }
    } else {
        let first = step(m);
        if first.action is Continue {
            advance(first.machine, (budget - 1) as nat)
        } else {
            first
        }
    }
}

/// The machine after the host has supplied `number`: where the machine
/// waited, the number is the value it waited for; else nothing changes.
pub open spec fn supplied(m: MachineView, number: u64) -> MachineView {
    match m.control {
        ControlView::Await(_) => MachineView {
            control: ControlView::Value(ValueView::Number(number)),
            ..m
        },
        _ => m,
    }
}

/// Whether nothing is in hand.
pub open spec fn idle(m: MachineView) -> bool {
    m.control is Idle && m.frames.len() == 0
}

/// The machine with the statement `s` in hand, where nothing was.
pub open spec fn loaded(m: MachineView, s: StmtView) -> MachineView {
    if idle(m) {
        MachineView { control: ControlView::Exec(s), ..m }
    } else {
        m
    }
}

/// The machine with the block of `stmts` in hand, where nothing was.
pub open spec fn loaded_block(m: MachineView, stmts: Seq<StmtView>) -> MachineView {
    if idle(m) {
        entered_block(m, stmts).machine
    } else {
        m
    }
}

/// The depth that the scope chain has once every frame has been left, for
/// frames `frames` over a chain of `depth` scopes: a block gives back one
/// scope, a call gives back one and brings back those it set aside. `None`
/// where a frame would leave a scope that is not there.
pub open spec fn base_depth(frames: Seq<FrameView>, depth: int) -> Option<int>
    decreases frames.len(),
{
    if frames.len() == 0 {
        Some(depth)
    } else {
        match frames.last() {
            FrameView::Block(_, _) => if depth >= 1 {
                base_depth(frames.drop_last(), depth - 1)
            } else {
                None
            },
            FrameView::Call(saved) => if depth >= 1 {
                base_depth(frames.drop_last(), depth - 1 + saved.len())
            } else {
                None
            },
            _ => base_depth(frames.drop_last(), depth),
        }
    }
}

/// Whether every scope that a frame of `m` will leave is there.
pub open spec fn balanced(m: MachineView) -> bool {
    base_depth(m.frames, m.scopes.len() as int) is Some
}

/// The depth to which the scope chain of `m` returns when the work in hand
/// ends.
pub open spec fn resting_depth(m: MachineView) -> int {
    base_depth(m.frames, m.scopes.len() as int)->0
}

} // verus!

//! The evaluator: the abstract machine of the semantics, in executable form.
//!
//! The host loads a statement, then steps the machine until it reports the
//! statement finished. Between steps the host does what the machine asked
//! for: it writes the line of a `print`, or supplies the number requested.

use vstd::prelude::*;
use vstd::string::StringExecFns;
use std::collections::HashMap;
use crate::callable::{Callable, CallableView, Function};
use crate::environment::{
    bind, defined, innermost, lemma_innermost, lookup, lookup_at, scope_of, EnvStack, Scopes,
};
use crate::globals::{Clock, Globals};
use crate::parser::{
    expr_views, lemma_block_view, lemma_call_view, lemma_function_view, name_views, stmt_views,
    Expr, Stmt, StmtFunction,
};
use crate::semantics::{
    advance, after_stmt, apply_binary, apply_logical, apply_unary, apply_value, arithmetic,
    assigned, comparison, entered_block, eval_expr, exec_stmt, failure, go, go_under, idle, invoke,
    is_comparison, leaf, loaded, loaded_block, params_scope, popped, step, supplied, unwind,
    variable, ActionView, ArithOp, ControlView, FrameView, MachineView, RequestView, Stepped,
};
use crate::token::{Token, TokenType};
use crate::value::{
    cast_to_num, cast_to_string, equal, is_equal, is_truthy, less, negate, value_views, Er, Output,
    RuntimeError, Value, ValueView,
};

verus! {

broadcast use vstd::std_specs::hash::group_hash_axioms;

/// A request to the host, which answers with a number.
#[derive(Debug, PartialEq)]
pub enum Request {
    /// The result of an operation on two doubles, given by their bits.
    Arithmetic(ArithOp, u64, u64),
    /// The double that a numeric literal denotes.
    Parse(String),
    /// The current time in milliseconds, as a double.
    Clock,
}

impl View for Request {
    type V = RequestView;

    open spec fn view(&self) -> RequestView {
        match self {
            Request::Arithmetic(op, a, b) => RequestView::Arithmetic(*op, *a, *b),
            Request::Parse(lexeme) => RequestView::Parse(lexeme@),
            Request::Clock => RequestView::Clock,
        }
    }
}

impl Clone for Request {
    fn clone(&self) -> (r: Self)
        ensures
            r == *self,
    {
        match self {
            Request::Arithmetic(op, a, b) => Request::Arithmetic(*op, *a, *b),
            Request::Parse(lexeme) => Request::Parse(lexeme.clone()),
            Request::Clock => Request::Clock,
        }
    }
}

/// What a step hands to the host.
#[derive(Debug, PartialEq)]
pub enum Action {
    /// Nothing: the machine wants another step.
    Continue,
    /// A line to write.
    Print(Output),
    /// A number is wanted: the machine waits until it is supplied.
    Request(Request),
    /// The statement in hand has ended, well or with an error.
    Finished(Result<(), RuntimeError>),
    /// Nothing is in hand.
    Idle,
}

impl View for Action {
    type V = ActionView;

    open spec fn view(&self) -> ActionView {
        match self {
            Action::Continue => ActionView::Continue,
            Action::Print(output) => ActionView::Print(output@),
            Action::Request(request) => ActionView::Request(request@),
            Action::Finished(result) => ActionView::Finished(*result),
            Action::Idle => ActionView::Idle,
        }
    }
}

/// The control state: the work in hand.
enum Control<'a> {
    Idle,
    Exec(&'a Stmt),
    Eval(&'a Expr),
    Value(Value<'a>),
    Done,
    Raise(Er<'a>),
    Await(Request),
}

impl<'a> View for Control<'a> {
    type V = ControlView;

    closed spec fn view(&self) -> ControlView {
        match self {
            Control::Idle => ControlView::Idle,
            Control::Exec(s) => ControlView::Exec(s@),
            Control::Eval(e) => ControlView::Eval(e@),
            Control::Value(v) => ControlView::Value(v@),
            Control::Done => ControlView::Done,
            Control::Raise(er) => ControlView::Raise(er@),
            Control::Await(request) => ControlView::Await(request@),
        }
    }
}

/// A frame: what is to be done when the work above it ends.
enum Frame<'a> {
    Unary(&'a Token),
    BinaryRight(&'a Token, &'a Expr),
    BinaryApply(&'a Token, Value<'a>),
    LogicalRight(&'a Token, &'a Expr),
    Assign(usize, &'a String),
    Callee(&'a Vec<Expr>),
    Args(Callable<'a>, &'a Vec<Expr>, Vec<Value<'a>>),
    Discard,
    Print,
    Var(&'a String),
    Return,
    If(&'a Stmt, &'a Option<Stmt>),
    WhileTest(&'a Expr, &'a Stmt),
    WhileBody(&'a Expr, &'a Stmt),
    Block(&'a Vec<Stmt>, usize),
    Call(EnvStack<Value<'a>>),
}

/// The model of one scope of values.
pub open spec fn env_view(env: Map<Seq<char>, Value>) -> Map<Seq<char>, ValueView> {
    Map::new(|name: Seq<char>| env.contains_key(name), |name: Seq<char>| env[name]@)
}

/// The model of a chain of scopes of values.
pub open spec fn scopes_view(scopes: Scopes<Value>) -> Scopes<ValueView> {
    Seq::new(scopes.len(), |i: int| env_view(scopes[i]))
}

impl<'a> View for Frame<'a> {
    type V = FrameView;

    closed spec fn view(&self) -> FrameView {
        match self {
            Frame::Unary(op) => FrameView::Unary(op@),
            Frame::BinaryRight(op, right) => FrameView::BinaryRight(op@, right@),
            Frame::BinaryApply(op, left) => FrameView::BinaryApply(op@, left@),
            Frame::LogicalRight(op, right) => FrameView::LogicalRight(op@, right@),
            Frame::Assign(id, name) => FrameView::Assign(*id, name@),
            Frame::Callee(args) => FrameView::Callee(expr_views(args@)),
            Frame::Args(callee, args, values) => FrameView::Args(
                callee@,
                expr_views(args@),
                value_views(values@),
            ),
            Frame::Discard => FrameView::Discard,
            Frame::Print => FrameView::Print,
            Frame::Var(name) => FrameView::Var(name@),
            Frame::Return => FrameView::Return,
            Frame::If(then_branch, else_branch) => FrameView::If(
                then_branch@,
                match else_branch {
                    Some(s) => Some(s@),
                    None => None,
                },
            ),
            Frame::WhileTest(cond, body) => FrameView::WhileTest(cond@, body@),
            Frame::WhileBody(cond, body) => FrameView::WhileBody(cond@, body@),
            Frame::Block(stmts, next) => FrameView::Block(stmt_views(stmts@), *next as int),
            Frame::Call(saved) => FrameView::Call(scopes_view(saved@)),
        }
    }
}

/// The models of a stack of frames, bottom first.
spec fn frames_view(frames: Seq<Frame>) -> Seq<FrameView> {
    Seq::new(frames.len(), |i: int| frames[i]@)
}

/// The model of a chain with one more scope is the model with one more.
proof fn lemma_view_push(scopes: Scopes<Value>, env: Map<Seq<char>, Value>)
    ensures
        scopes_view(scopes.push(env)) == scopes_view(scopes).push(env_view(env)),
        env_view(Map::empty()) == Map::<Seq<char>, ValueView>::empty(),
{
    assert(scopes_view(scopes.push(env)) =~= scopes_view(scopes).push(env_view(env)));
    assert(env_view(Map::empty()) =~= Map::<Seq<char>, ValueView>::empty());
}

/// The model of a binding is the binding in the model.
proof fn lemma_view_bind(scopes: Scopes<Value>, i: int, name: Seq<char>, value: Value)
    requires
        0 <= i < scopes.len(),
    ensures
        scopes_view(bind(scopes, i, name, value)) == bind(scopes_view(scopes), i, name, value@),
        scopes_view(defined(scopes, name, value)) == defined(scopes_view(scopes), name, value@),
{
    assert(env_view(scopes[i].insert(name, value)) =~= env_view(scopes[i]).insert(name, value@));
    assert(scopes_view(bind(scopes, i, name, value)) =~= bind(
        scopes_view(scopes),
        i,
        name,
        value@,
    ));
    let last = scopes.len() - 1;
    assert(env_view(scopes[last].insert(name, value)) =~= env_view(scopes[last]).insert(
        name,
        value@,
    ));
    assert(scopes_view(defined(scopes, name, value)) =~= defined(
        scopes_view(scopes),
        name,
        value@,
    ));
}

/// A name is found in the model of a chain where it is found in the chain,
/// bound to the model of what it is bound to there.
proof fn lemma_view_lookup(scopes: Scopes<Value>, name: Seq<char>)
    ensures
        innermost(scopes_view(scopes), name) == innermost(scopes, name),
        lookup(scopes_view(scopes), name) == match lookup(scopes, name) {
            Some(value) => Some(value@),
            None => None,
        },
    decreases scopes.len(),
{
    lemma_innermost(scopes, name);
    if scopes.len() > 0 {
        assert(scopes_view(scopes).drop_last() =~= scopes_view(scopes.drop_last()));
        lemma_view_lookup(scopes.drop_last(), name);
    }
}

/// The evaluator.
pub struct Interpreter<'a> {
    envs: EnvStack<Value<'a>>,
    locals: HashMap<usize, usize>,
    frames: Vec<Frame<'a>>,
    control: Control<'a>,
}

impl<'a> View for Interpreter<'a> {
    type V = MachineView;

    closed spec fn view(&self) -> MachineView {
        MachineView {
            scopes: scopes_view(self.envs@),
            locals: self.locals@,
            frames: frames_view(self.frames@),
            control: self.control@,
        }
    }
}

impl<'a> Interpreter<'a> {
    /// An evaluator with nothing in hand, an empty resolution table, and one
    /// scope, the global scope, which holds `globals`.
    pub fn new(globals: &Globals<'a>) -> (interpreter: Interpreter<'a>)
        ensures
            idle(interpreter@),
            interpreter@.locals == Map::<usize, usize>::empty(),
            interpreter@.scopes == seq![env_view(scope_of(globals.functions@))],
    {
        let interpreter = Interpreter {
            envs: EnvStack::with_globals(&globals.functions),
            locals: HashMap::new(),
            frames: Vec::new(),
            control: Control::Idle,
        };
        proof {
            assert(interpreter@.locals =~= Map::<usize, usize>::empty());
            assert(interpreter.envs@[0] =~= scope_of(globals.functions@));
            assert(interpreter@.scopes =~= seq![env_view(scope_of(globals.functions@))]);
        }
        interpreter
    }

    /// Files the depth `depth` for the expression `id`.
    pub fn resolve(&mut self, id: usize, depth: usize)
        ensures
            final(self)@ == (MachineView {
                locals: old(self)@.locals.insert(id, depth),
                ..old(self)@
            }),
    {
        self.locals.insert(id, depth);
    }

    /// Replaces the resolution table by `table`.
    pub fn install(&mut self, table: HashMap<usize, usize>)
        ensures
            final(self)@ == (MachineView { locals: table@, ..old(self)@ }),
    {
        self.locals = table;
    }

    /// Whether nothing is in hand.
    pub fn is_idle(&self) -> (r: bool)
        ensures
            r == idle(self@),
    {
        self.frames.len() == 0 && matches!(self.control, Control::Idle)
    }

    /// The number of live scopes.
    pub fn depth(&self) -> (n: usize)
        ensures
            n == self@.scopes.len(),
    {
        self.envs.len()
    }

    /// Takes the statement `stmt` in hand, where nothing was in hand, and
    /// says whether it did.
    pub fn evaluate(&mut self, stmt: &'a Stmt) -> (r: bool)
        ensures
            r == idle(old(self)@),
            final(self)@ == loaded(old(self)@, stmt@),
    {
        if self.is_idle() {
            self.control = Control::Exec(stmt);
            true
        } else {
            false
        }
    }

    /// Supplies the number that the machine asked the host for. Where the
    /// machine did not wait for one, nothing changes.
    pub fn supply(&mut self, number: u64)
        ensures
            final(self)@ == supplied(old(self)@, number),
    {
        match &self.control {
            Control::Await(_) => {
                self.control = Control::Value(Value::Number(number));
            },
            _ => {},
        }
    }

    /// Puts `control` in hand and returns the action that goes with it.
    fn announce(&mut self, control: Control<'a>) -> (action: Action)
        ensures
            (Stepped { machine: final(self)@, action: action@ }) == go(old(self)@, control@),
    {
        let action = match &control {
            Control::Await(request) => Action::Request(request.clone()),
            _ => Action::Continue,
        };
        self.control = control;
        action
    }

    /// Puts `frame` on the stack and `control` in hand.
    fn announce_under(&mut self, frame: Frame<'a>, control: Control<'a>) -> (action: Action)
        ensures
            (Stepped { machine: final(self)@, action: action@ }) == go_under(
                old(self)@,
                frame@,
                control@,
            ),
    {
        self.frames.push(frame);
        assert(frames_view(self.frames@) =~= frames_view(old(self).frames@).push(frame@));
        self.announce(control)
    }

    /// What the variable `name`, referred to by the expression `id`, is bound
    /// to.
    fn read(&self, id: usize, name: &String) -> (r: Option<Value<'a>>)
        ensures
            match r {
                Some(value) => variable(self@, id, name@) == Some(value@),
                None => variable(self@, id, name@) is None,
            },
    {
        proof {
            lemma_view_lookup(self.envs@, name@);
        }
        let found = match self.locals.get(&id) {
            Some(depth) => self.envs.get_at(*depth, name.as_str()),
            None => self.envs.get(name.as_str()),
        };
        match found {
            Ok(value) => Some(value.clone()),
            Err(_) => None,
        }
    }

    /// Evaluates a literal or a variable reference.
    fn eval_leaf(&self, id: usize, token: &'a Token) -> (r: Control<'a>)
        ensures
            r@ == leaf(self@, id, token@),
    {
        match &token.token_type {
            TokenType::Text(s) => Control::Value(Value::Text(s.clone())),
            TokenType::Number(lexeme) => Control::Await(Request::Parse(lexeme.clone())),
            TokenType::True => Control::Value(Value::Boolean(true)),
            TokenType::False => Control::Value(Value::Boolean(false)),
            TokenType::Nil => Control::Value(Value::Nil),
            TokenType::Identifier(name) => match self.read(id, name) {
                Some(value) => Control::Value(value),
                None => Control::Raise(Er::Code(RuntimeError::UndefinedVariable)),
            },
            _ => Control::Raise(Er::Code(RuntimeError::InvalidOperator)),
        }
    }

    /// Assigns `value` to the variable `name` for the expression `id`.
    fn eval_assign(&mut self, id: usize, name: &String, value: Value<'a>) -> (action: Action)
        ensures
            (Stepped { machine: final(self)@, action: action@ }) == (match assigned(
                old(self)@,
                id,
                name@,
                value@,
            ) {
                Some(scopes) => go(
                    MachineView { scopes, ..old(self)@ },
                    ControlView::Value(value@),
                ),
                None => go(old(self)@, failure(RuntimeError::UndefinedVariable)),
            }),
    {
        proof {
            lemma_view_lookup(self.envs@, name@);
            lemma_innermost(self.envs@, name@);
            match innermost(self.envs@, name@) {
                Some(i) => {
                    lemma_view_bind(self.envs@, i, name@, value);
                },
                None => {},
            }
            if self.locals@.contains_key(id) && lookup_at(self.envs@, self.locals@[id], name@)
                is Some {
                lemma_view_bind(
                    self.envs@,
                    self.envs@.len() - 1 - self.locals@[id],
                    name@,
                    value,
                );
            }
        }
        let stored = value.clone();
        let outcome = match self.locals.get(&id) {
            Some(depth) => self.envs.assign_at(*depth, name.as_str(), stored),
            None => self.envs.assign(name.as_str(), stored),
        };
        match outcome {
            Ok(_) => self.announce(Control::Value(value)),
            Err(_) => self.announce(Control::Raise(Er::Code(RuntimeError::UndefinedVariable))),
        }
    }
}

/// Applies a unary operator to the value of its operand.
fn eval_unary<'a>(op: &Token, v: Value<'a>) -> (r: Control<'a>)
    ensures
        r@ == apply_unary(op@.kind, v@),
{
    match &op.token_type {
        TokenType::Minus => match cast_to_num(&v) {
            Ok(bits) => Control::Value(Value::Number(negate(bits))),
            Err(kind) => Control::Raise(Er::Code(kind)),
        },
        TokenType::Bang => Control::Value(Value::Boolean(!is_truthy(&v))),
        _ => Control::Raise(Er::Code(RuntimeError::InvalidOperator)),
    }
}

/// The arithmetic that an operator token asks for.
fn arithmetic_of(op: &TokenType) -> (r: Option<ArithOp>)
    ensures
        r == arithmetic(op@),
{
    match op {
        TokenType::Plus => Some(ArithOp::Add),
        TokenType::Minus => Some(ArithOp::Subtract),
        TokenType::Star => Some(ArithOp::Multiply),
        TokenType::Slash => Some(ArithOp::Divide),
        _ => None,
    }
}

/// The outcome of a comparison operator on two numbers, or `None` for a
/// token that is no comparison operator.
fn compare(op: &TokenType, a: u64, b: u64) -> (r: Option<bool>)
    ensures
        r is Some == is_comparison(op@),
        r is Some ==> r->0 == comparison(op@, a, b),
{
    match op {
        TokenType::Greater => Some(less(b, a)),
        TokenType::GreaterEqual => Some(less(b, a) || equal(a, b)),
        TokenType::Less => Some(less(a, b)),
        TokenType::LessEqual => Some(less(a, b) || equal(a, b)),
        _ => None,
    }
}

/// Applies a binary operator to the values of its operands.
fn eval_binary<'a>(op: &Token, lhs: Value<'a>, rhs: Value<'a>) -> (r: Control<'a>)
    ensures
        r@ == apply_binary(op@.kind, lhs@, rhs@),
{
    reveal(apply_binary);
    match &op.token_type {
        TokenType::EqualEqual => {
            return Control::Value(Value::Boolean(is_equal(&lhs, &rhs)));
        },
        TokenType::BangEqual => {
            return Control::Value(Value::Boolean(!is_equal(&lhs, &rhs)));
        },
        _ => {},
    }
    match arithmetic_of(&op.token_type) {
        Some(operation) => {
            match (cast_to_num(&lhs), cast_to_num(&rhs)) {
                (Ok(a), Ok(b)) => {
                    return Control::Await(Request::Arithmetic(operation, a, b));
                },
                _ => {},
            }
            return match operation {
                ArithOp::Add => match (cast_to_string(&lhs), cast_to_string(&rhs)) {
                    (Ok(a), Ok(b)) => Control::Value(Value::Text(a.clone().concat(b.as_str()))),
                    _ => Control::Raise(Er::Code(RuntimeError::TypeMismatch)),
                },
                _ => Control::Raise(Er::Code(RuntimeError::TypeMismatch)),
            };
        },
        None => {},
    }
    match (cast_to_num(&lhs), cast_to_num(&rhs)) {
        (Ok(a), Ok(b)) => match compare(&op.token_type, a, b) {
            Some(outcome) => Control::Value(Value::Boolean(outcome)),
            None => Control::Raise(Er::Code(RuntimeError::InvalidOperator)),
        },
        _ => match compare(&op.token_type, 0, 0) {
            Some(_) => Control::Raise(Er::Code(RuntimeError::TypeMismatch)),
            None => Control::Raise(Er::Code(RuntimeError::InvalidOperator)),
        },
    }
}

/// Applies a logical operator after its left operand.
fn eval_logical<'a>(op: &Token, lhs: Value<'a>, rhs: &'a Expr) -> (r: Control<'a>)
    ensures
        r@ == apply_logical(op@.kind, lhs@, rhs@),
{
    match &op.token_type {
        TokenType::Or => if is_truthy(&lhs) {
            Control::Value(lhs)
        } else {
            Control::Eval(rhs)
        },
        TokenType::And => if !is_truthy(&lhs) {
            Control::Value(lhs)
        } else {
            Control::Eval(rhs)
        },
        _ => Control::Raise(Er::Code(RuntimeError::InvalidOperator)),
    }
}

impl<'a> Function<'a> {
    /// Starts a call of the function with the values `args`.
    ///
    /// The scopes above the function's declaration are set aside, a scope
    /// with the parameters is entered, and the body is taken up as a block.
    fn call(&self, interpreter: &mut Interpreter<'a>, args: Vec<Value<'a>>) -> (action: Action)
        ensures
            (Stepped { machine: final(interpreter)@, action: action@ }) == invoke(
                old(interpreter)@,
                CallableView::Function(self.declaration@, self.depth),
                value_views(args@),
            ),
    {
        reveal(invoke);
        let params = &self.declaration.params;
        if args.len() != params.len() {
            return interpreter.announce(Control::Raise(Er::Code(RuntimeError::ArityMismatch)));
        }
        let ghost before = interpreter@;
        let live = interpreter.envs.len();
        let keep = if self.depth <= live {
            self.depth
        } else {
            live
        };
        let saved = interpreter.envs.split_off(keep);
        let ghost base = before.scopes.take(keep as int);
        let ghost names = name_views(params@);
        let ghost values = value_views(args@);
        proof {
            assert(scopes_view(interpreter.envs@) =~= base);
            assert(scopes_view(saved@) =~= before.scopes.skip(keep as int));
            lemma_view_push(interpreter.envs@, Map::empty());
        }
        interpreter.envs.push_default();
        let mut i: usize = 0;
        while i < params.len()
            invariant
                i <= params.len(),
                args.len() == params.len(),
                params == &self.declaration.params,
                names == name_views(params@),
                values == value_views(args@),
                interpreter.envs@.len() == keep + 1,
                scopes_view(interpreter.envs@) == base.push(
                    params_scope(names.take(i as int), values.take(i as int)),
                ),
                interpreter.locals == old(interpreter).locals,
                interpreter.frames == old(interpreter).frames,
                interpreter.control == old(interpreter).control,
            decreases params.len() - i,
        {
            let ghost scopes = interpreter.envs@;
            let value = args[i].clone();
            interpreter.envs.define(params[i].as_str(), value);
            proof {
                lemma_view_bind(scopes, keep as int, params@[i as int]@, value);
                assert(names.take(i + 1).drop_last() =~= names.take(i as int));
                assert(values.take(i + 1).drop_last() =~= values.take(i as int));
                assert(defined(scopes_view(scopes), params@[i as int]@, value@) =~= base.push(
                    params_scope(names.take(i + 1), values.take(i + 1)),
                ));
            }
            i = i + 1;
        }
        proof {
            assert(names.take(params@.len() as int) =~= names);
            assert(values.take(params@.len() as int) =~= values);
            lemma_view_push(interpreter.envs@, Map::empty());
        }
        interpreter.frames.push(Frame::Call(saved));
        interpreter.envs.push_default();
        interpreter.frames.push(Frame::Block(&self.declaration.body, 0));
        proof {
            assert(frames_view(interpreter.frames@) =~= before.frames.push(
                FrameView::Call(before.scopes.skip(keep as int)),
            ).push(FrameView::Block(self.declaration@.body, 0)));
        }
        interpreter.announce(Control::Done)
    }
}

impl Clock {
    /// Starts a call of the clock: the host is asked for the time.
    fn call<'a>(&self, interpreter: &mut Interpreter<'a>, args: Vec<Value<'a>>) -> (action: Action)
        ensures
            (Stepped { machine: final(interpreter)@, action: action@ }) == invoke(
                old(interpreter)@,
                CallableView::Clock,
                value_views(args@),
            ),
    {
        reveal(invoke);
        if args.len() != self.arity() {
            interpreter.announce(Control::Raise(Er::Code(RuntimeError::ArityMismatch)))
        } else {
            interpreter.announce(Control::Await(Request::Clock))
        }
    }
}

impl<'a> Callable<'a> {
    /// Starts a call of the callable with the values `args`; a call with the
    /// wrong number of arguments fails.
    fn call(&self, interpreter: &mut Interpreter<'a>, args: Vec<Value<'a>>) -> (action: Action)
        ensures
            (Stepped { machine: final(interpreter)@, action: action@ }) == invoke(
                old(interpreter)@,
                self@,
                value_views(args@),
            ),
    {
        match self {
            Callable::Function(f) => f.call(interpreter, args),
            Callable::Native(clock) => clock.call(interpreter, args),
        }
    }
}

impl<'a> Interpreter<'a> {
    /// Declares a function: binds its name, in the innermost scope, to the
    /// function made at the present depth.
    fn eval_fun_decl(&mut self, declaration: &'a StmtFunction) -> (action: Action)
        ensures
            (Stepped { machine: final(self)@, action: action@ }) == go(
                MachineView {
                    scopes: defined(
                        old(self)@.scopes,
                        declaration@.name,
                        ValueView::Callable(
                            CallableView::Function(
                                declaration@,
                                old(self)@.scopes.len() as usize,
                            ),
                        ),
                    ),
                    ..old(self)@
                },
                ControlView::Done,
            ),
    {
        let function = Value::Callable(
            Callable::Function(Function { declaration, depth: self.envs.len() }),
        );
        proof {
            if self.envs@.len() > 0 {
                lemma_view_bind(self.envs@, self.envs@.len() - 1, declaration.name@, function);
            }
        }
        self.envs.define(declaration.name.as_str(), function);
        self.announce(Control::Done)
    }

    /// Defines the variable `name` with `value` in the innermost scope.
    fn eval_decl(&mut self, name: &String, value: Value<'a>) -> (action: Action)
        ensures
            (Stepped { machine: final(self)@, action: action@ }) == go(
                MachineView { scopes: defined(old(self)@.scopes, name@, value@), ..old(self)@ },
                ControlView::Done,
            ),
    {
        proof {
            if self.envs@.len() > 0 {
                lemma_view_bind(self.envs@, self.envs@.len() - 1, name@, value);
            }
        }
        self.envs.define(name.as_str(), value);
        self.announce(Control::Done)
    }

    /// Prints `value`: the host is handed its canonical form.
    fn eval_print(&mut self, value: Value<'a>) -> (action: Action)
        ensures
            final(self)@ == (MachineView { control: ControlView::Done, ..old(self)@ }),
            action@ == ActionView::Print(crate::value::rendered(value@)),
    {
        self.control = Control::Done;
        Action::Print(value.render())
    }

    /// Enters a block: a new scope, and the block's frame.
    fn enter_block(&mut self, stmts: &'a Vec<Stmt>) -> (action: Action)
        ensures
            (Stepped { machine: final(self)@, action: action@ }) == entered_block(
                old(self)@,
                stmt_views(stmts@),
            ),
    {
        proof {
            lemma_view_push(self.envs@, Map::empty());
        }
        self.envs.push_default();
        self.announce_under(Frame::Block(stmts, 0), Control::Done)
    }

    /// Takes the block of `stmts` in hand, where nothing was in hand, and
    /// says whether it did.
    pub fn eval_block(&mut self, stmts: &'a Vec<Stmt>) -> (r: bool)
        ensures
            r == idle(old(self)@),
            final(self)@ == loaded_block(old(self)@, stmt_views(stmts@)),
    {
        if self.is_idle() {
            let _ = self.enter_block(stmts);
            true
        } else {
            false
        }
    }

    /// Chooses a branch of an `if` by the value of its condition.
    fn eval_if(
        &mut self,
        v: Value<'a>,
        then_branch: &'a Stmt,
        else_branch: &'a Option<Stmt>,
    ) -> (action: Action)
        ensures
            (Stepped { machine: final(self)@, action: action@ }) == go(
                old(self)@,
                if crate::value::truthy(v@) {
                    ControlView::Exec(then_branch@)
                } else {
                    match else_branch {
                        Some(s) => ControlView::Exec(s@),
                        None => ControlView::Done,
                    }
                },
            ),
    {
        if is_truthy(&v) {
            self.announce(Control::Exec(then_branch))
        } else {
            match else_branch {
                Some(s) => self.announce(Control::Exec(s)),
                None => self.announce(Control::Done),
            }
        }
    }

    /// Runs the body of a `while` once more, or ends the loop, by the value
    /// of its condition.
    fn eval_while(&mut self, v: Value<'a>, cond: &'a Expr, body: &'a Stmt) -> (action: Action)
        ensures
            (Stepped { machine: final(self)@, action: action@ }) == (if crate::value::truthy(v@) {
                go_under(old(self)@, FrameView::WhileBody(cond@, body@), ControlView::Exec(body@))
            } else {
                go(old(self)@, ControlView::Done)
            }),
    {
        if is_truthy(&v) {
            self.announce_under(Frame::WhileBody(cond, body), Control::Exec(body))
        } else {
            self.announce(Control::Done)
        }
    }

    /// Takes the first step of a statement.
    fn exec_stmt(&mut self, stmt: &'a Stmt) -> (action: Action)
        ensures
            (Stepped { machine: final(self)@, action: action@ }) == exec_stmt(old(self)@, stmt@),
    {
        reveal(exec_stmt);
        match stmt {
            Stmt::Expression(e) => self.announce_under(Frame::Discard, Control::Eval(e)),
            Stmt::Print(e) => self.announce_under(Frame::Print, Control::Eval(e)),
            Stmt::Return(e) => self.announce_under(Frame::Return, Control::Eval(e)),
            Stmt::Var(name, e) => self.announce_under(Frame::Var(name), Control::Eval(e)),
            Stmt::Function(declaration) => {
                proof {
                    lemma_function_view(*declaration);
                }
                self.eval_fun_decl(declaration)
            },
            Stmt::Block(stmts) => {
                proof {
                    lemma_block_view(*stmts);
                }
                self.enter_block(stmts)
            },
            Stmt::If(cond, then_branch, else_branch) => self.announce_under(
                Frame::If(then_branch, else_branch),
                Control::Eval(cond),
            ),
            Stmt::While(cond, body) => self.announce_under(
                Frame::WhileTest(cond, body),
                Control::Eval(cond),
            ),
        }
    }

    /// Takes the first step of an expression.
    fn eval_expr(&mut self, expr: &'a Expr) -> (action: Action)
        ensures
            (Stepped { machine: final(self)@, action: action@ }) == eval_expr(old(self)@, expr@),
    {
        reveal(eval_expr);
        match expr {
            Expr::Leaf(id, token) => {
                let control = self.eval_leaf(*id, token);
                self.announce(control)
            },
            Expr::Assign(id, name, value) => self.announce_under(
                Frame::Assign(*id, name),
                Control::Eval(value),
            ),
            Expr::Unary(op, operand) => self.announce_under(
                Frame::Unary(op),
                Control::Eval(operand),
            ),
            Expr::Binary(op, left, right) => self.announce_under(
                Frame::BinaryRight(op, right),
                Control::Eval(left),
            ),
            Expr::Logical(op, left, right) => self.announce_under(
                Frame::LogicalRight(op, right),
                Control::Eval(left),
            ),
            Expr::Grouping(inner) => self.announce(Control::Eval(inner)),
            Expr::Call(paren, callee, args) => {
                proof {
                    lemma_call_view(*paren, **callee, *args);
                }
                self.announce_under(Frame::Callee(args), Control::Eval(callee))
            },
        }
    }

    /// Takes the value of a callee: a callable is called at once where the
    /// call has no arguments, else its arguments are evaluated first; any
    /// other value is not callable.
    fn eval_call(&mut self, callee: Value<'a>, args: &'a Vec<Expr>) -> (action: Action)
        ensures
            (Stepped { machine: final(self)@, action: action@ }) == (match callee@ {
                ValueView::Callable(c) => if args@.len() == 0 {
                    invoke(old(self)@, c, Seq::empty())
                } else {
                    go_under(
                        old(self)@,
                        FrameView::Args(c, expr_views(args@), Seq::empty()),
                        ControlView::Eval(expr_views(args@)[0]),
                    )
                },
                _ => go(old(self)@, failure(RuntimeError::NotCallable)),
            }),
    {
        match callee {
            Value::Callable(c) => {
                let values: Vec<Value<'a>> = Vec::new();
                proof {
                    assert(value_views(values@) =~= Seq::<ValueView>::empty());
                }
                if args.len() == 0 {
                    c.call(self, values)
                } else {
                    self.announce_under(Frame::Args(c, args, values), Control::Eval(&args[0]))
                }
            },
            _ => self.announce(Control::Raise(Er::Code(RuntimeError::NotCallable))),
        }
    }

    /// Takes the value of one more argument: the next argument is evaluated,
    /// or, with all values there, the call is made.
    fn eval_argument(
        &mut self,
        callee: Callable<'a>,
        args: &'a Vec<Expr>,
        values: Vec<Value<'a>>,
        v: Value<'a>,
    ) -> (action: Action)
        ensures
            (Stepped { machine: final(self)@, action: action@ }) == (if values@.len() + 1
                < args@.len() {
                go_under(
                    old(self)@,
                    FrameView::Args(callee@, expr_views(args@), value_views(values@).push(v@)),
                    ControlView::Eval(expr_views(args@)[values@.len() + 1 as int]),
                )
            } else {
                invoke(old(self)@, callee@, value_views(values@).push(v@))
            }),
    {
        let mut values = values;
        let ghost before = value_views(values@);
        values.push(v);
        proof {
            assert(value_views(values@) =~= before.push(v@));
        }
        if values.len() < args.len() {
            let next = &args[values.len()];
            self.announce_under(Frame::Args(callee, args, values), Control::Eval(next))
        } else {
            callee.call(self, values)
        }
    }

    /// Leaves the innermost scope, if there is one, and says whether there
    /// was.
    fn leave_scope(&mut self) -> (r: bool)
        ensures
            match popped(old(self)@.scopes) {
                Some(scopes) => r && final(self)@ == (MachineView { scopes, ..old(self)@ }),
                None => !r && final(self)@ == old(self)@,
            },
    {
        let ghost scopes = self.envs@;
        match self.envs.pop() {
            Ok(_) => {
                assert(scopes_view(scopes.drop_last()) =~= scopes_view(scopes).drop_last());
                true
            },
            Err(_) => false,
        }
    }

    /// Leaves the scope of a call and brings back the scopes set aside for
    /// it.
    fn leave_call(&mut self, saved: EnvStack<Value<'a>>) -> (r: bool)
        ensures
            match popped(old(self)@.scopes) {
                Some(scopes) => r && final(self)@ == (MachineView {
                    scopes: scopes + scopes_view(saved@),
                    ..old(self)@
                }),
                None => !r && final(self)@ == (MachineView {
                    scopes: scopes_view(saved@),
                    ..old(self)@
                }),
            },
    {
        let r = self.leave_scope();
        let ghost scopes = self.envs@;
        self.envs.append(saved);
        proof {
            assert(scopes_view(scopes + saved@) =~= scopes_view(scopes) + scopes_view(saved@));
            if !r {
                assert(scopes_view(scopes) + scopes_view(saved@) =~= scopes_view(saved@));
            }
        }
        r
    }

    /// Does what `frame` wants done with the value `v`.
    fn apply_value(&mut self, frame: Frame<'a>, v: Value<'a>) -> (action: Action)
        ensures
            (Stepped { machine: final(self)@, action: action@ }) == apply_value(
                old(self)@,
                frame@,
                v@,
            ),
    {
        reveal(apply_value);
        match frame {
            Frame::Unary(op) => {
                let control = eval_unary(op, v);
                self.announce(control)
            },
            Frame::BinaryRight(op, right) => self.announce_under(
                Frame::BinaryApply(op, v),
                Control::Eval(right),
            ),
            Frame::BinaryApply(op, left) => {
                let control = eval_binary(op, left, v);
                self.announce(control)
            },
            Frame::LogicalRight(op, right) => {
                let control = eval_logical(op, v, right);
                self.announce(control)
            },
            Frame::Assign(id, name) => self.eval_assign(id, name, v),
            Frame::Callee(args) => self.eval_call(v, args),
            Frame::Args(callee, args, values) => self.eval_argument(callee, args, values, v),
            Frame::Discard => self.announce(Control::Done),
            Frame::Print => self.eval_print(v),
            Frame::Var(name) => self.eval_decl(name, v),
            Frame::Return => self.announce(Control::Raise(Er::Return(v))),
            Frame::If(then_branch, else_branch) => self.eval_if(v, then_branch, else_branch),
            Frame::WhileTest(cond, body) => self.eval_while(v, cond, body),
            Frame::WhileBody(cond, body) => self.after_stmt(Frame::WhileBody(cond, body)),
            Frame::Block(stmts, next) => self.after_stmt(Frame::Block(stmts, next)),
            Frame::Call(saved) => self.after_stmt(Frame::Call(saved)),
        }
    }

    /// Does what `frame` wants done when the statement above it has ended.
    fn after_stmt(&mut self, frame: Frame<'a>) -> (action: Action)
        ensures
            (Stepped { machine: final(self)@, action: action@ }) == after_stmt(old(self)@, frame@),
    {
        reveal(after_stmt);
        match frame {
            Frame::WhileBody(cond, body) => self.announce_under(
                Frame::WhileTest(cond, body),
                Control::Eval(cond),
            ),
            Frame::Block(stmts, next) => {
                if next < stmts.len() {
                    let stmt = &stmts[next];
                    self.announce_under(Frame::Block(stmts, next + 1), Control::Exec(stmt))
                } else if self.leave_scope() {
                    self.announce(Control::Done)
                } else {
                    self.announce(Control::Raise(Er::Code(RuntimeError::ScopeUnderflow)))
                }
            },
            Frame::Call(saved) => {
                if self.leave_call(saved) {
                    self.announce(Control::Value(Value::Nil))
                } else {
                    self.announce(Control::Raise(Er::Code(RuntimeError::ScopeUnderflow)))
                }
            },
            _ => self.announce(Control::Done),
        }
    }

    /// Does what `frame` does when the error or `return` `er` passes it.
    fn unwind(&mut self, frame: Frame<'a>, er: Er<'a>) -> (action: Action)
        ensures
            (Stepped { machine: final(self)@, action: action@ }) == unwind(
                old(self)@,
                frame@,
                er@,
            ),
    {
        reveal(unwind);
        match frame {
            Frame::Block(_, _) => {
                let _ = self.leave_scope();
                self.announce(Control::Raise(er))
            },
            Frame::Call(saved) => {
                let _ = self.leave_call(saved);
                match er {
                    Er::Return(v) => self.announce(Control::Value(v)),
                    Er::Code(kind) => self.announce(Control::Raise(Er::Code(kind))),
                }
            },
            _ => self.announce(Control::Raise(er)),
        }
    }

    /// Takes the top frame off the stack, if there is one.
    fn pop_frame(&mut self) -> (r: Option<Frame<'a>>)
        ensures
            final(self)@ == (MachineView {
                frames: if old(self)@.frames.len() > 0 {
                    old(self)@.frames.drop_last()
                } else {
                    old(self)@.frames
                },
                ..old(self)@
            }),
            match r {
                Some(frame) => old(self)@.frames.len() > 0 && frame@ == old(self)@.frames.last(),
                None => old(self)@.frames.len() == 0,
            },
    {
        let ghost frames = self.frames@;
        let r = self.frames.pop();
        proof {
            if frames.len() > 0 {
                assert(frames_view(frames.drop_last()) =~= frames_view(frames).drop_last());
            }
        }
        r
    }

    /// Takes one step.
    ///
    /// The machine goes to the state, and hands out the action, that the
    /// semantics give for its present state. While the machine waits for a
    /// number from the host, a step repeats the request and changes nothing.
    pub fn step(&mut self) -> (action: Action)
        ensures
            (Stepped { machine: final(self)@, action: action@ }) == step(old(self)@),
    {
        let mut control = Control::Idle;
        std::mem::swap(&mut self.control, &mut control);
        match control {
            Control::Idle => Action::Idle,
            Control::Await(request) => {
                let action = Action::Request(request.clone());
                self.control = Control::Await(request);
                action
            },
            Control::Exec(stmt) => self.exec_stmt(stmt),
            Control::Eval(expr) => self.eval_expr(expr),
            Control::Value(v) => match self.pop_frame() {
                Some(frame) => self.apply_value(frame, v),
                None => Action::Finished(Ok(())),
            },
            Control::Done => match self.pop_frame() {
                Some(frame) => self.after_stmt(frame),
                None => Action::Finished(Ok(())),
            },
            Control::Raise(er) => match self.pop_frame() {
                Some(frame) => self.unwind(frame, er),
                None => Action::Finished(
                    Err(
                        match er {
                            Er::Code(kind) => kind,
                            Er::Return(_) => RuntimeError::TopLevelReturn,
                        },
                    ),
                ),
            },
        }
    }

    /// Takes steps until one hands out an action for the host to act on, or
    /// `budget` steps are taken; in the latter case the action is
    /// [`Action::Continue`].
    pub fn advance(&mut self, budget: usize) -> (action: Action)
        ensures
            (Stepped { machine: final(self)@, action: action@ }) == advance(
                old(self)@,
                budget as nat,
            ),
    {
        let mut left = budget;
        while left > 0
            invariant
                advance(old(self)@, budget as nat) == advance(self@, left as nat),
            decreases left,
        {
            let action = self.step();
            match action {
                Action::Continue => {
                    left = left - 1;
                },
                _ => {
                    return action;
                },
            }
        }
        Action::Continue
    }
}

} // verus!

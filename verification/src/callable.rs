//! What can be called: a function declared in the program, or the native
//! clock.

use vstd::prelude::*;
use crate::globals::Clock;
use crate::parser::{FunctionView, StmtFunction};

verus! {

/// A function value: its declaration, and the number of scopes that were
/// live where it was declared.
#[derive(Debug, Clone, Copy)]
pub struct Function<'a> {
    pub declaration: &'a StmtFunction,
    pub depth: usize,
}

/// A callable value.
#[derive(Debug, Clone, Copy)]
pub enum Callable<'a> {
    Function(Function<'a>),
    Native(Clock),
}

/// The mathematical model of a [`Callable`].
pub enum CallableView {
    Function(FunctionView, usize),
    Clock,
}

impl<'a> View for Callable<'a> {
    type V = CallableView;

    open spec fn view(&self) -> CallableView {
        match self {
            Callable::Function(f) => CallableView::Function(f.declaration@, f.depth),
            Callable::Native(_) => CallableView::Clock,
        }
    }
}

/// The number of arguments that a callable takes.
pub open spec fn arity_of(c: CallableView) -> nat {
    match c {
        CallableView::Function(f, _) => f.params.len(),
        CallableView::Clock => 0,
    }
}

/// Whether two callables are the same: the clock, or functions of one
/// declaration made at one depth.
pub open spec fn same_callable(a: CallableView, b: CallableView) -> bool {
    match (a, b) {
        (CallableView::Clock, CallableView::Clock) => true,
        (CallableView::Function(f, d), CallableView::Function(g, e)) => f.id == g.id && d == e,
        _ => false,
    }
}

impl<'a> Function<'a> {
    /// The number of parameters.
    pub fn arity(&self) -> (n: usize)
        ensures
            n == self.declaration@.params.len(),
    {
        self.declaration.params.len()
    }
}

impl<'a> Callable<'a> {
    /// The number of arguments that the callable takes.
    pub fn arity(&self) -> (n: usize)
        ensures
            n == arity_of(self@),
    {
        match self {
            Callable::Function(f) => f.arity(),
            Callable::Native(clock) => clock.arity(),
        }
    }

    /// Whether `self` and `other` are the same callable.
    pub fn same(&self, other: &Callable<'a>) -> (r: bool)
        ensures
            r == same_callable(self@, other@),
    {
        match (self, other) {
            (Callable::Native(_), Callable::Native(_)) => true,
            (Callable::Function(f), Callable::Function(g)) => f.declaration.id == g.declaration.id
                && f.depth == g.depth,
            _ => false,
        }
    }
}

} // verus!

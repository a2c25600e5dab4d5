//! The native bindings that the global scope starts with.

use vstd::prelude::*;
use vstd::string::StringExecFns;
use crate::callable::{Callable, CallableView};
use crate::value::{Value, ValueView};

verus! {

/// The native clock: a function of no arguments that returns the current
/// time in milliseconds.
#[derive(Debug, Clone, Copy)]
pub struct Clock {}

impl Clock {
    /// The clock takes no arguments.
    pub fn arity(&self) -> (n: usize)
        ensures
            n == 0,
    {
        0
    }
}

/// The native bindings, by name.
pub struct Globals<'a> {
    pub functions: Vec<(String, Value<'a>)>,
}

impl<'a> Globals<'a> {
    /// The one native binding: `clock`.
    pub fn new() -> (globals: Globals<'a>)
        ensures
            globals.functions@.len() == 1,
            globals.functions@[0].0@ == "clock"@,
            globals.functions@[0].1@ == ValueView::Callable(CallableView::Clock),
    {
        let mut functions: Vec<(String, Value<'a>)> = Vec::new();
        functions.push((String::from_str("clock"), Value::Callable(Callable::Native(Clock {  }))));
        Globals { functions }
    }
}

} // verus!

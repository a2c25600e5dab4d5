//! Runtime values and the error channel of the evaluator.
//!
//! A number is held as the 64 bits of its IEEE 754 double. Negation,
//! comparison and equality are defined here on those bits. The four
//! arithmetic operations, and the conversions between numbers and text, are
//! the host's work.

use vstd::prelude::*;
use vstd::string::StringExecFns;
use crate::callable::{Callable, CallableView};

verus! {

/// The kinds of failure of an evaluation.
#[derive(Debug, PartialEq, Eq, Clone, Copy, Structural)]
pub enum RuntimeError {
    /// An operand of the wrong kind: a non-number in arithmetic or in a
    /// comparison, a non-text in a concatenation.
    TypeMismatch,
    /// A variable that no scope binds was read or assigned.
    UndefinedVariable,
    /// A call with a number of arguments other than the number of parameters.
    ArityMismatch,
    /// A call of a value that is no function.
    NotCallable,
    /// A scope was left that had not been entered.
    ScopeUnderflow,
    /// A token that is no operator stood where an operator belongs, or a token
    /// that is no literal where a literal belongs.
    InvalidOperator,
    /// A `return` outside of any function.
    TopLevelReturn,
}

/// A runtime value.
#[derive(Debug)]
pub enum Value<'a> {
    Text(String),
    /// A number, as the bits of its double.
    Number(u64),
    Boolean(bool),
    Nil,
    Callable(Callable<'a>),
}

/// The mathematical model of a [`Value`].
pub enum ValueView {
    Text(Seq<char>),
    Number(u64),
    Boolean(bool),
    Nil,
    Callable(CallableView),
}

impl<'a> View for Value<'a> {
    type V = ValueView;

    open spec fn view(&self) -> ValueView {
        match self {
            Value::Text(s) => ValueView::Text(s@),
            Value::Number(bits) => ValueView::Number(*bits),
            Value::Boolean(b) => ValueView::Boolean(*b),
            Value::Nil => ValueView::Nil,
            Value::Callable(c) => ValueView::Callable(c@),
        }
    }
}

impl<'a> Clone for Value<'a> {
    fn clone(&self) -> (r: Self)
        ensures
            r == *self,
    {
        match self {
            Value::Text(s) => Value::Text(s.clone()),
            Value::Number(bits) => Value::Number(*bits),
            Value::Boolean(b) => Value::Boolean(*b),
            Value::Nil => Value::Nil,
            Value::Callable(c) => Value::Callable(*c),
        }
    }
}

/// What travels up the error channel: a failure, or the value of a `return`
/// on its way to the call it returns from.
#[derive(Debug)]
pub enum Er<'a> {
    Code(RuntimeError),
    Return(Value<'a>),
}

/// The mathematical model of an [`Er`].
pub enum ErView {
    Code(RuntimeError),
    Return(ValueView),
}

impl<'a> View for Er<'a> {
    type V = ErView;

    open spec fn view(&self) -> ErView {
        match self {
            Er::Code(kind) => ErView::Code(*kind),
            Er::Return(value) => ErView::Return(value@),
        }
    }
}

/// What `print` hands to the host: text to write as it is, or a number for
/// the host to write in its usual form.
#[derive(Debug, PartialEq)]
pub enum Output {
    Text(String),
    Number(u64),
}

/// The mathematical model of an [`Output`].
pub enum OutputView {
    Text(Seq<char>),
    Number(u64),
}

impl View for Output {
    type V = OutputView;

    open spec fn view(&self) -> OutputView {
        match self {
            Output::Text(s) => OutputView::Text(s@),
            Output::Number(bits) => OutputView::Number(*bits),
        }
    }
}

/// The models of a sequence of values, in order.
pub open spec fn value_views(values: Seq<Value>) -> Seq<ValueView> {
    Seq::new(values.len(), |i: int| values[i]@)
}

/// The bits of a double without its sign.
pub open spec fn magnitude(bits: u64) -> u64 {
    bits & 0x7fff_ffff_ffff_ffff
}

/// Whether the sign bit of a double is set.
pub open spec fn is_negative(bits: u64) -> bool {
    bits & 0x8000_0000_0000_0000 != 0
}

/// Whether the bits are those of a NaN: the exponent all ones, the fraction
/// not zero.
pub open spec fn is_nan(bits: u64) -> bool {
    magnitude(bits) > 0x7ff0_0000_0000_0000
}

/// The place of a double that is no NaN in the order of the doubles: its
/// magnitude, below zero where the sign is set. Both zeros have the place 0.
pub open spec fn order_key(bits: u64) -> int {
    if is_negative(bits) {
        -(magnitude(bits) as int)
    } else {
        magnitude(bits) as int
    }
}

/// `a < b` as doubles: never with a NaN.
pub open spec fn number_less(a: u64, b: u64) -> bool {
    !is_nan(a) && !is_nan(b) && order_key(a) < order_key(b)
}

/// `a == b` as doubles: never with a NaN, and the two zeros are equal.
pub open spec fn number_equal(a: u64, b: u64) -> bool {
    !is_nan(a) && !is_nan(b) && order_key(a) == order_key(b)
}

/// `-a` as a double: the sign bit flipped.
pub open spec fn negated(bits: u64) -> u64 {
    bits ^ 0x8000_0000_0000_0000
}

/// Truthiness: `nil` and `false` are falsy, everything else is truthy.
pub open spec fn truthy(v: ValueView) -> bool {
    match v {
        ValueView::Nil => false,
        ValueView::Boolean(b) => b,
        _ => true,
    }
}

/// Equality of values: never across kinds; `nil` equals `nil`; texts and
/// booleans by content; numbers as doubles; callables by identity.
pub open spec fn values_equal(a: ValueView, b: ValueView) -> bool {
    match (a, b) {
        (ValueView::Nil, ValueView::Nil) => true,
        (ValueView::Text(x), ValueView::Text(y)) => x == y,
        (ValueView::Number(x), ValueView::Number(y)) => number_equal(x, y),
        (ValueView::Boolean(x), ValueView::Boolean(y)) => x == y,
        (ValueView::Callable(x), ValueView::Callable(y)) => crate::callable::same_callable(x, y),
        _ => false,
    }
}

/// The canonical form in which a value is printed.
pub open spec fn rendered(v: ValueView) -> OutputView {
    match v {
        ValueView::Text(s) => OutputView::Text(s),
        ValueView::Number(bits) => OutputView::Number(bits),
        ValueView::Boolean(b) => OutputView::Text(
            if b {
                "true"@
            } else {
                "false"@
            },
        ),
        ValueView::Nil => OutputView::Text("null"@),
        ValueView::Callable(_) => OutputView::Text("Callable"@),
    }
}

fn key_of(bits: u64) -> (key: i128)
    ensures
        key == order_key(bits),
{
    let m = bits & 0x7fff_ffff_ffff_ffff;
    if bits & 0x8000_0000_0000_0000 != 0 {
        -(m as i128)
    } else {
        m as i128
    }
}

fn nan(bits: u64) -> (r: bool)
    ensures
        r == is_nan(bits),
{
    bits & 0x7fff_ffff_ffff_ffff > 0x7ff0_0000_0000_0000
}

/// Whether `a < b` as doubles.
pub fn less(a: u64, b: u64) -> (r: bool)
    ensures
        r == number_less(a, b),
{
    !nan(a) && !nan(b) && key_of(a) < key_of(b)
}

/// Whether `a == b` as doubles.
pub fn equal(a: u64, b: u64) -> (r: bool)
    ensures
        r == number_equal(a, b),
{
    !nan(a) && !nan(b) && key_of(a) == key_of(b)
}

/// `-a` as a double.
pub fn negate(bits: u64) -> (r: u64)
    ensures
        r == negated(bits),
{
    bits ^ 0x8000_0000_0000_0000
}

/// The number that `v` is, or a type error.
pub fn cast_to_num(v: &Value) -> (r: Result<u64, RuntimeError>)
    ensures
        match v@ {
            ValueView::Number(bits) => r == Ok::<u64, RuntimeError>(bits),
            _ => r == Err::<u64, RuntimeError>(RuntimeError::TypeMismatch),
        },
{
    match v {
        Value::Number(bits) => Ok(*bits),
        _ => Err(RuntimeError::TypeMismatch),
    }
}

/// The text that `v` is, or a type error.
pub fn cast_to_string<'v>(v: &'v Value) -> (r: Result<&'v String, RuntimeError>)
    ensures
        match v@ {
            ValueView::Text(s) => r is Ok && r->Ok_0@ == s,
            _ => r == Err::<&String, RuntimeError>(RuntimeError::TypeMismatch),
        },
{
    match v {
        Value::Text(s) => Ok(s),
        _ => Err(RuntimeError::TypeMismatch),
    }
}

/// Whether `v` counts as true.
pub fn is_truthy(v: &Value) -> (r: bool)
    ensures
        r == truthy(v@),
{
    match v {
        Value::Text(_) => true,
        Value::Number(_) => true,
        Value::Boolean(b) => *b,
        Value::Nil => false,
        Value::Callable(_) => true,
    }
}

/// Whether two values are equal.
pub fn is_equal(lhs: &Value, rhs: &Value) -> (r: bool)
    ensures
        r == values_equal(lhs@, rhs@),
{
    match (lhs, rhs) {
        (Value::Nil, Value::Nil) => true,
        (Value::Text(x), Value::Text(y)) => *x == *y,
        (Value::Number(x), Value::Number(y)) => equal(*x, *y),
        (Value::Boolean(x), Value::Boolean(y)) => *x == *y,
        (Value::Callable(x), Value::Callable(y)) => x.same(y),
        _ => false,
    }
}

impl<'a> Value<'a> {
    /// The canonical text of a value that is no number: a text itself,
    /// `true` or `false`, `null` for `nil`, and a fixed word for a callable.
    /// Of a number the text is the host's to make: `None`.
    pub fn to_string(&self) -> (r: Option<String>)
        ensures
            match rendered(self@) {
                OutputView::Text(s) => r is Some && r->0@ == s,
                OutputView::Number(_) => r is None,
            },
    {
        match self {
            Value::Text(s) => Some(s.clone()),
            Value::Number(_) => None,
            Value::Boolean(b) => if *b {
                Some(String::from_str("true"))
            } else {
                Some(String::from_str("false"))
            },
            Value::Nil => Some(String::from_str("null")),
            Value::Callable(_) => Some(String::from_str("Callable")),
        }
    }

    /// What `print` hands to the host for this value.
    pub fn render(&self) -> (r: Output)
        ensures
            r@ == rendered(self@),
    {
        match self {
            Value::Number(bits) => Output::Number(*bits),
            _ => match self.to_string() {
                Some(text) => Output::Text(text),
                None => Output::Text(String::new()),
            },
        }
    }
}

} // verus!

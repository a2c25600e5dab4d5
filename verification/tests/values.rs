use lox::callable::{Callable, Function};
use lox::globals::{Clock, Globals};
use lox::parser::StmtFunction;
use lox::value::{
    cast_to_num, cast_to_string, equal, is_equal, is_truthy, less, negate, Output, RuntimeError,
    Value,
};

fn samples() -> Vec<f64> {
    vec![
        0.0,
        -0.0,
        1.0,
        -1.0,
        0.5,
        -0.5,
        1.5,
        2.0,
        1e300,
        -1e300,
        5e-324,
        -5e-324,
        f64::MAX,
        f64::MIN,
        f64::MIN_POSITIVE,
        f64::INFINITY,
        f64::NEG_INFINITY,
        f64::NAN,
        -f64::NAN,
        f64::from_bits(0x7ff0_0000_0000_0001),
        f64::from_bits(0xfff8_0000_0000_0001),
        3.141592653589793,
        1234.0,
    ]
}

#[test]
fn less_is_the_order_of_doubles() {
    for a in samples() {
        for b in samples() {
            assert_eq!(less(a.to_bits(), b.to_bits()), a < b, "{:?} < {:?}", a, b);
        }
    }
}

#[test]
fn equal_is_the_equality_of_doubles() {
    for a in samples() {
        for b in samples() {
            assert_eq!(equal(a.to_bits(), b.to_bits()), a == b, "{:?} == {:?}", a, b);
        }
    }
}

#[test]
fn negate_is_the_negation_of_doubles() {
    for a in samples() {
        assert_eq!(negate(a.to_bits()), (-a).to_bits(), "-{:?}", a);
    }
    assert_eq!(negate(1.0f64.to_bits()), (-1.0f64).to_bits());
    assert_eq!(negate(0), 0x8000_0000_0000_0000);
}

#[test]
fn casts_check_the_kind() {
    assert_eq!(cast_to_num(&Value::Number(7)), Ok(7));
    assert_eq!(cast_to_num(&Value::Nil), Err(RuntimeError::TypeMismatch));
    assert_eq!(cast_to_num(&Value::Text("1".to_string())), Err(RuntimeError::TypeMismatch));
    assert_eq!(cast_to_num(&Value::Boolean(true)), Err(RuntimeError::TypeMismatch));
    assert_eq!(cast_to_string(&Value::Text("t".to_string())), Ok(&"t".to_string()));
    assert_eq!(cast_to_string(&Value::Number(1)), Err(RuntimeError::TypeMismatch));
    assert_eq!(cast_to_string(&Value::Nil), Err(RuntimeError::TypeMismatch));
}

#[test]
fn only_nil_and_false_are_falsy() {
    assert!(!is_truthy(&Value::Nil));
    assert!(!is_truthy(&Value::Boolean(false)));
    assert!(is_truthy(&Value::Boolean(true)));
    assert!(is_truthy(&Value::Number(0)));
    assert!(is_truthy(&Value::Number(f64::NAN.to_bits())));
    assert!(is_truthy(&Value::Text(String::new())));
    assert!(is_truthy(&Value::Callable(Callable::Native(Clock {}))));
}

#[test]
fn equality_of_values() {
    let one = Value::Number(1.0f64.to_bits());
    let text = |s: &str| Value::Text(s.to_string());
    assert!(is_equal(&Value::Nil, &Value::Nil));
    assert!(!is_equal(&one, &text("1")));
    assert!(!is_equal(&text("1"), &one));
    assert!(is_equal(&text("a"), &text("a")));
    assert!(!is_equal(&text("a"), &text("b")));
    assert!(is_equal(&one, &Value::Number(1.0f64.to_bits())));
    assert!(!is_equal(&one, &Value::Number(2.0f64.to_bits())));
    assert!(is_equal(&Value::Number(0.0f64.to_bits()), &Value::Number((-0.0f64).to_bits())));
    assert!(!is_equal(&Value::Number(f64::NAN.to_bits()), &Value::Number(f64::NAN.to_bits())));
    assert!(is_equal(&Value::Boolean(true), &Value::Boolean(true)));
    assert!(!is_equal(&Value::Boolean(true), &Value::Boolean(false)));
    assert!(!is_equal(&Value::Nil, &Value::Boolean(false)));
    assert!(!is_equal(&Value::Boolean(false), &Value::Number(0)));
    assert!(!is_equal(&Value::Nil, &text("")));
}

#[test]
fn callables_are_equal_by_identity() {
    let f = StmtFunction { id: 1, name: "f".to_string(), params: vec![], body: vec![] };
    let g = StmtFunction { id: 9, name: "f".to_string(), params: vec![], body: vec![] };
    let value = |declaration, depth| Value::Callable(Callable::Function(Function { declaration, depth }));
    let clock = Value::Callable(Callable::Native(Clock {}));
    assert!(is_equal(&value(&f, 1), &value(&f, 1)));
    assert!(!is_equal(&value(&f, 1), &value(&f, 2)));
    assert!(!is_equal(&value(&f, 1), &value(&g, 1)));
    assert!(!is_equal(&value(&f, 1), &clock));
    assert!(is_equal(&clock, &Value::Callable(Callable::Native(Clock {}))));
    assert!(!is_equal(&clock, &Value::Nil));
}

#[test]
fn arity() {
    let f = StmtFunction {
        id: 1,
        name: "f".to_string(),
        params: vec!["a".to_string(), "b".to_string()],
        body: vec![],
    };
    let function = Function { declaration: &f, depth: 1 };
    assert_eq!(function.arity(), 2);
    assert_eq!(Callable::Function(function).arity(), 2);
    assert_eq!(Clock {}.arity(), 0);
    assert_eq!(Callable::Native(Clock {}).arity(), 0);
}

#[test]
fn canonical_text() {
    assert_eq!(Value::Text("abc".to_string()).to_string(), Some("abc".to_string()));
    assert_eq!(Value::Boolean(true).to_string(), Some("true".to_string()));
    assert_eq!(Value::Boolean(false).to_string(), Some("false".to_string()));
    assert_eq!(Value::Nil.to_string(), Some("null".to_string()));
    assert_eq!(
        Value::Callable(Callable::Native(Clock {})).to_string(),
        Some("Callable".to_string())
    );
    assert_eq!(Value::Number(1.5f64.to_bits()).to_string(), None);
    assert_eq!(Value::Number(7).render(), Output::Number(7));
    assert_eq!(Value::Nil.render(), Output::Text("null".to_string()));
    assert_eq!(Value::Text("t".to_string()).render(), Output::Text("t".to_string()));
}

#[test]
fn clone_keeps_the_value() {
    let values = vec![
        Value::Text("abc".to_string()),
        Value::Number(42),
        Value::Boolean(true),
        Value::Nil,
        Value::Callable(Callable::Native(Clock {})),
    ];
    for value in &values {
        assert!(is_equal(value, &value.clone()) || matches!(value, Value::Number(_)));
        assert_eq!(value.to_string(), value.clone().to_string());
    }
}

#[test]
fn the_globals_hold_the_clock() {
    let globals = Globals::new();
    assert_eq!(globals.functions.len(), 1);
    assert_eq!(globals.functions[0].0, "clock");
    assert!(matches!(globals.functions[0].1, Value::Callable(Callable::Native(_))));
}

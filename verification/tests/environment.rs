use lox::environment::{EnvStack, Environment};
use lox::value::RuntimeError;

#[test]
fn one_scope_defines_assigns_and_gets() {
    let mut env: Environment<u32> = Environment::default();
    assert_eq!(env.get("a"), Err(RuntimeError::UndefinedVariable));
    assert_eq!(env.assign("a", 1), Err(RuntimeError::UndefinedVariable));
    assert!(!env.contains("a"));
    env.define("a", 1);
    assert_eq!(env.get("a"), Ok(&1));
    assert_eq!(env.assign("a", 2), Ok(()));
    assert_eq!(env.get("a"), Ok(&2));
    env.define("a", 3);
    assert_eq!(env.get("a"), Ok(&3));
    assert!(env.contains("a"));
}

#[test]
fn a_chain_without_scopes() {
    let mut stack: EnvStack<u32> = EnvStack::default();
    assert_eq!(stack.len(), 0);
    assert_eq!(stack.pop(), Err(RuntimeError::ScopeUnderflow));
    stack.define("a", 1);
    assert_eq!(stack.get("a"), Err(RuntimeError::UndefinedVariable));
    assert_eq!(stack.assign("a", 1), Err(RuntimeError::UndefinedVariable));
    assert_eq!(stack.resolve_depth("a"), None);
}

#[test]
fn push_and_pop() {
    let mut stack: EnvStack<u32> = EnvStack::default();
    stack.push_default();
    stack.push_default();
    assert_eq!(stack.len(), 2);
    assert_eq!(stack.pop(), Ok(()));
    assert_eq!(stack.pop(), Ok(()));
    assert_eq!(stack.pop(), Err(RuntimeError::ScopeUnderflow));
    let mut scope = Environment::default();
    scope.define("a", 7);
    stack.push(scope);
    assert_eq!(stack.get("a"), Ok(&7));
}

#[test]
fn define_shadows_and_pop_unshadows() {
    let mut stack: EnvStack<&str> = EnvStack::default();
    stack.push_default();
    stack.define("x", "outer");
    stack.push_default();
    assert_eq!(stack.get("x"), Ok(&"outer"));
    stack.define("x", "inner");
    assert_eq!(stack.get("x"), Ok(&"inner"));
    assert_eq!(stack.pop(), Ok(()));
    assert_eq!(stack.get("x"), Ok(&"outer"));
}

#[test]
fn assign_goes_to_the_innermost_binding() {
    let mut stack: EnvStack<u32> = EnvStack::default();
    stack.push_default();
    stack.define("x", 1);
    stack.define("y", 1);
    stack.push_default();
    stack.define("x", 2);
    stack.push_default();
    assert_eq!(stack.assign("x", 3), Ok(()));
    assert_eq!(stack.assign("y", 4), Ok(()));
    assert_eq!(stack.assign("z", 5), Err(RuntimeError::UndefinedVariable));
    assert_eq!(stack.get("x"), Ok(&3));
    assert_eq!(stack.get_at(1, "x"), Ok(&3));
    assert_eq!(stack.get_at(2, "x"), Ok(&1));
    assert_eq!(stack.get_at(2, "y"), Ok(&4));
}

#[test]
fn depth_counts_hops_from_the_innermost_scope() {
    let mut stack: EnvStack<bool> = EnvStack::default();
    stack.push_default();
    stack.define("a", true);
    stack.push_default();
    stack.define("b", true);
    stack.push_default();
    stack.define("c", true);
    assert_eq!(stack.resolve_depth("c"), Some(0));
    assert_eq!(stack.resolve_depth("b"), Some(1));
    assert_eq!(stack.resolve_depth("a"), Some(2));
    assert_eq!(stack.resolve_depth("d"), None);
    stack.define("a", false);
    assert_eq!(stack.resolve_depth("a"), Some(0));
}

#[test]
fn a_lookup_does_not_depend_on_nesting() {
    let mut stack: EnvStack<u32> = EnvStack::default();
    stack.push_default();
    stack.define("a", 5);
    let before = stack.resolve_depth("a").unwrap();
    let value = *stack.get("a").unwrap();
    stack.push_default();
    stack.define("other", 0);
    stack.push_default();
    assert_eq!(stack.get("a"), Ok(&value));
    assert_eq!(stack.resolve_depth("a"), Some(before + 2));
    assert_eq!(stack.get_at(before + 2, "a"), Ok(&value));
}

#[test]
fn lookups_at_a_depth() {
    let mut stack: EnvStack<u32> = EnvStack::default();
    stack.push_default();
    stack.define("a", 1);
    stack.push_default();
    assert_eq!(stack.get_at(0, "a"), Err(RuntimeError::UndefinedVariable));
    assert_eq!(stack.get_at(1, "a"), Ok(&1));
    assert_eq!(stack.get_at(2, "a"), Err(RuntimeError::UndefinedVariable));
    assert_eq!(stack.assign_at(0, "a", 9), Err(RuntimeError::UndefinedVariable));
    assert_eq!(stack.assign_at(5, "a", 9), Err(RuntimeError::UndefinedVariable));
    assert_eq!(stack.assign_at(1, "a", 9), Ok(()));
    assert_eq!(stack.get("a"), Ok(&9));
}

#[test]
fn globals_make_the_first_scope() {
    let globals = vec![
        ("a".to_string(), 1u32),
        ("b".to_string(), 2),
        ("a".to_string(), 3),
    ];
    let stack = EnvStack::with_globals(&globals);
    assert_eq!(stack.len(), 1);
    assert_eq!(stack.get("a"), Ok(&3));
    assert_eq!(stack.get("b"), Ok(&2));
    assert_eq!(stack.get("c"), Err(RuntimeError::UndefinedVariable));
    assert_eq!(stack.resolve_depth("a"), Some(0));
    let empty: EnvStack<u32> = EnvStack::with_globals(&vec![]);
    assert_eq!(empty.len(), 1);
}

#[test]
fn splitting_and_appending() {
    let mut stack: EnvStack<u32> = EnvStack::default();
    stack.push_default();
    stack.define("a", 1);
    stack.push_default();
    stack.define("b", 2);
    stack.push_default();
    stack.define("c", 3);
    let rest = stack.split_off(1);
    assert_eq!(stack.len(), 1);
    assert_eq!(rest.len(), 2);
    assert_eq!(stack.get("c"), Err(RuntimeError::UndefinedVariable));
    assert_eq!(rest.get("c"), Ok(&3));
    assert_eq!(rest.resolve_depth("b"), Some(1));
    stack.append(rest);
    assert_eq!(stack.len(), 3);
    assert_eq!(stack.resolve_depth("a"), Some(2));
    let none = stack.split_off(7);
    assert_eq!(none.len(), 0);
    assert_eq!(stack.len(), 3);
    let all = stack.split_off(0);
    assert_eq!(stack.len(), 0);
    assert_eq!(all.len(), 3);
}

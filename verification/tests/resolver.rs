use lox::parser::parse;
use lox::resolver::Resolver;
use lox::scanner::scan_tokens;
use std::collections::HashMap;

fn resolved(source: &str) -> (HashMap<usize, usize>, Vec<usize>) {
    let output = parse(scan_tokens(source.chars()).unwrap());
    assert!(output.errors.is_empty());
    let mut resolver = Resolver::new();
    for stmt in &output.statements {
        resolver.resolve_stmt(stmt);
    }
    let warnings = resolver.warnings().clone();
    assert_eq!(resolver.locals().len(), resolver.locals().clone().len());
    (resolver.into_locals(), warnings)
}

fn table(entries: &[(usize, usize)]) -> HashMap<usize, usize> {
    entries.iter().cloned().collect()
}

#[test]
fn globals_get_no_entry() {
    assert_eq!(resolved("var a = 1; print a; a = 2;").0, table(&[]));
    assert_eq!(resolved("print missing;").0, table(&[]));
    assert_eq!(resolved("{ print missing; }").0, table(&[]));
}

#[test]
fn a_local_is_found_in_its_own_scope() {
    // { var a = 1 ; print a ; }
    // 0 1   2 3 4 5 6     7 8 9
    assert_eq!(resolved("{ var a = 1; print a; }").0, table(&[(7, 0)]));
}

#[test]
fn depth_counts_the_scopes_in_between() {
    // { var a ; { { print a ; a = 1 ; } } }
    // 0 1   2 3 4 5 6     7 8 9 10 11 12 13 14 15
    assert_eq!(resolved("{ var a; { { print a; a = 1; } } }").0, table(&[(7, 2), (10, 2)]));
}

#[test]
fn shadowing_resolves_to_the_nearest_declaration() {
    // { var a ; { var a ; print a ; } print a ; }
    // 0 1   2 3 4 5   6 7 8     9 10 11 12   13 14 15
    assert_eq!(resolved("{ var a; { var a; print a; } print a; }").0, table(&[(9, 0), (13, 0)]));
}

#[test]
fn parameters_and_body_are_two_scopes() {
    // fun f ( a ) { print a ; }
    // 0   1 2 3 4 5 6     7 8 9
    assert_eq!(resolved("fun f(a) { print a; }").0, table(&[(7, 1)]));
    // fun f ( a ) { var b = a ; print b ; }
    // 0   1 2 3 4 5 6   7 8 9 10 11   12 13 14
    assert_eq!(resolved("fun f(a) { var b = a; print b; }").0, table(&[(9, 1), (12, 0)]));
}

#[test]
fn a_free_variable_of_a_function_resolves_where_the_function_is_declared() {
    // { var a ; fun f ( ) { print a ; } { { f ( ) ; } } }
    // 0 1   2 3 4   5 6 7 8 9     10 ...
    let (locals, _) = resolved("{ var a; fun f() { print a; } { { f(); } } }");
    assert_eq!(locals.get(&10), Some(&2));
}

#[test]
fn conditions_and_branches_are_resolved() {
    // { var a ; if ( a ) print a ; else print a ; while ( a ) a = a ; }
    // 0 1   2 3 4  5 6 7 8     9 10 11  12    13 14 15   16 17 18 19 20 21 22 23
    assert_eq!(
        resolved("{ var a; if (a) print a; else print a; while (a) a = a; }").0,
        table(&[(6, 0), (9, 0), (13, 0), (17, 0), (20, 0), (21, 0)])
    );
}

#[test]
fn reading_a_variable_in_its_own_initializer_is_noted() {
    // { var a = 1 ; { var a = a ; } }
    // 0 1   2 3 4 5 6 7   8 9 10 11 12 13
    let (locals, warnings) = resolved("{ var a = 1; { var a = a; } }");
    assert_eq!(warnings, vec![10]);
    assert_eq!(locals, table(&[(10, 0)]));
    assert_eq!(resolved("{ var a = 1; { var b = a; } }").1, Vec::<usize>::new());
    assert_eq!(resolved("var a = a;").1, Vec::<usize>::new());
}

#[test]
fn arguments_of_calls_are_resolved() {
    // { var a ; var b ; f ( a , g ( b ) ) ; }
    // 0 1   2 3 4   5 6 7 8 9 10 11 12 13 ...
    assert_eq!(
        resolved("{ var a; var b; f(a, g(b)); }").0,
        table(&[(9, 0), (13, 0)])
    );
}

#[test]
fn scopes_are_left_again() {
    let output = parse(scan_tokens("{ var a; } { print a; }".chars()).unwrap());
    let mut resolver = Resolver::new();
    for stmt in &output.statements {
        resolver.resolve_stmt(stmt);
    }
    assert_eq!(resolver.into_locals(), table(&[]));
}

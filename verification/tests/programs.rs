use lox::globals::Globals;
use lox::grammar::{ParseError, ParseErrorKind};
use lox::interpreter::{Action, Interpreter, Request};
use lox::parser::parse;
use lox::resolver::Resolver;
use lox::scanner::scan_tokens;
use lox::semantics::ArithOp;
use lox::value::{Output, RuntimeError};

const CLOCK_MILLIS: f64 = 1234.0;

fn answer(request: &Request) -> u64 {
    match request {
        Request::Arithmetic(op, a, b) => {
            let (x, y) = (f64::from_bits(*a), f64::from_bits(*b));
            let z = match op {
                ArithOp::Add => x + y,
                ArithOp::Subtract => x - y,
                ArithOp::Multiply => x * y,
                ArithOp::Divide => x / y,
            };
            z.to_bits()
        }
        Request::Parse(lexeme) => lexeme.parse::<f64>().unwrap().to_bits(),
        Request::Clock => CLOCK_MILLIS.to_bits(),
    }
}

struct Run {
    lines: Vec<String>,
    results: Vec<Result<(), RuntimeError>>,
    parse_errors: Vec<ParseError>,
    warnings: Vec<usize>,
    depth_after: usize,
}

fn run(source: &str) -> Run {
    let tokens = scan_tokens(source.chars()).unwrap();
    let output = parse(tokens);
    let mut resolver = Resolver::new();
    for stmt in &output.statements {
        resolver.resolve_stmt(stmt);
    }
    let warnings = resolver.warnings().clone();
    let globals = Globals::new();
    let mut interpreter = Interpreter::new(&globals);
    interpreter.install(resolver.into_locals());
    let mut lines = vec![];
    let mut results = vec![];
    for stmt in &output.statements {
        assert!(interpreter.evaluate(stmt));
        let mut steps = 0u64;
        loop {
            steps += 1;
            assert!(steps < 10_000_000);
            match interpreter.step() {
                Action::Continue => {}
                Action::Print(Output::Text(text)) => lines.push(text),
                Action::Print(Output::Number(bits)) => lines.push(f64::from_bits(bits).to_string()),
                Action::Request(request) => interpreter.supply(answer(&request)),
                Action::Finished(result) => {
                    results.push(result);
                    break;
                }
                Action::Idle => unreachable!(),
            }
        }
        assert!(interpreter.is_idle());
    }
    Run {
        lines,
        results,
        parse_errors: output.errors,
        warnings,
        depth_after: interpreter.depth(),
    }
}

fn printed(source: &str) -> Vec<String> {
    let run = run(source);
    assert!(run.parse_errors.is_empty());
    for result in &run.results {
        assert_eq!(*result, Ok(()));
    }
    assert_eq!(run.depth_after, 1);
    run.lines
}

fn only_result(source: &str) -> Result<(), RuntimeError> {
    let run = run(source);
    assert!(run.parse_errors.is_empty());
    assert_eq!(run.results.len(), 1);
    assert_eq!(run.depth_after, 1);
    run.results[0]
}

#[test]
fn arithmetic_gives_the_double_result() {
    assert_eq!(printed("print 1 + 2;"), vec!["3"]);
    assert_eq!(printed("print 7 - 10;"), vec!["-3"]);
    assert_eq!(printed("print 1.5 * 4;"), vec!["6"]);
    assert_eq!(printed("print 1 / 4;"), vec!["0.25"]);
    assert_eq!(printed("print 0.1 + 0.2;"), vec![(0.1f64 + 0.2f64).to_string()]);
    assert_eq!(printed("print 1 / 0;"), vec!["inf"]);
    assert_eq!(printed("print 2 + 3 * 4 - 6 / 2;"), vec!["11"]);
    assert_eq!(printed("print (2 + 3) * 4;"), vec!["20"]);
    assert_eq!(printed("print 10 - 4 - 3;"), vec!["3"]);
}

#[test]
fn plus_joins_texts() {
    assert_eq!(printed("print \"x\" + \"y\";"), vec!["xy"]);
    assert_eq!(printed("print \"\" + \"\";"), vec![""]);
    assert_eq!(printed("print \"a\" + \"b\" + \"c\";"), vec!["abc"]);
}

#[test]
fn mixed_operands_are_a_type_error() {
    assert_eq!(only_result("print 1 + \"x\";"), Err(RuntimeError::TypeMismatch));
    assert_eq!(only_result("print \"x\" + 1;"), Err(RuntimeError::TypeMismatch));
    assert_eq!(only_result("print \"x\" - \"y\";"), Err(RuntimeError::TypeMismatch));
    assert_eq!(only_result("print nil * 2;"), Err(RuntimeError::TypeMismatch));
    assert_eq!(only_result("print true / 2;"), Err(RuntimeError::TypeMismatch));
    assert_eq!(only_result("print 1 < \"2\";"), Err(RuntimeError::TypeMismatch));
    assert_eq!(only_result("print -\"x\";"), Err(RuntimeError::TypeMismatch));
}

#[test]
fn truthiness() {
    assert_eq!(printed("if (0) print \"a\"; else print \"b\";"), vec!["a"]);
    assert_eq!(printed("if (nil) print \"a\"; else print \"b\";"), vec!["b"]);
    assert_eq!(printed("if (false) print \"a\"; else print \"b\";"), vec!["b"]);
    assert_eq!(printed("if (\"\") print \"a\"; else print \"b\";"), vec!["a"]);
    assert_eq!(printed("if (true) print \"a\"; else print \"b\";"), vec!["a"]);
    assert_eq!(printed("if (clock) print \"a\"; else print \"b\";"), vec!["a"]);
    assert_eq!(printed("if (nil) print \"a\";"), Vec::<String>::new());
}

#[test]
fn equality() {
    assert_eq!(printed("print nil == nil;"), vec!["true"]);
    assert_eq!(printed("print 1 == \"1\";"), vec!["false"]);
    assert_eq!(printed("print \"a\" == \"a\";"), vec!["true"]);
    assert_eq!(printed("print \"a\" != \"b\";"), vec!["true"]);
    assert_eq!(printed("print 1 == 1;"), vec!["true"]);
    assert_eq!(printed("print 1 != 1;"), vec!["false"]);
    assert_eq!(printed("print nil == false;"), vec!["false"]);
    assert_eq!(printed("print true == true;"), vec!["true"]);
    assert_eq!(printed("print 0 == -0;"), vec!["true"]);
    assert_eq!(printed("print (0 / 0) == (0 / 0);"), vec!["false"]);
    assert_eq!(printed("print clock == clock;"), vec!["true"]);
    assert_eq!(printed("fun f() {} fun g() {} print f == f; print f == g;"), vec!["true", "false"]);
}

#[test]
fn comparisons() {
    assert_eq!(printed("print 1 < 2; print 2 < 1; print 1 < 1;"), vec!["true", "false", "false"]);
    assert_eq!(printed("print 1 <= 1; print 2 <= 1;"), vec!["true", "false"]);
    assert_eq!(printed("print 2 > 1; print 1 > 1;"), vec!["true", "false"]);
    assert_eq!(printed("print 1 >= 1; print 0 >= 1;"), vec!["true", "false"]);
    assert_eq!(printed("print -1 < 0; print -2 < -1; print -1 < -2;"), vec!["true", "true", "false"]);
    assert_eq!(printed("print (0 / 0) < 1; print (0 / 0) >= 1;"), vec!["false", "false"]);
}

#[test]
fn unary_operators() {
    assert_eq!(printed("print -3; print --3; print -(1 + 2);"), vec!["-3", "3", "-3"]);
    assert_eq!(printed("print !true; print !false; print !nil; print !0; print !\"\";"),
        vec!["false", "true", "true", "false", "false"]);
    assert_eq!(printed("print !!nil;"), vec!["false"]);
}

#[test]
fn logical_operators_short_circuit() {
    assert_eq!(printed("print nil or \"x\";"), vec!["x"]);
    assert_eq!(printed("print 1 or missing;"), vec!["1"]);
    assert_eq!(printed("print nil and missing;"), vec!["null"]);
    assert_eq!(printed("print 1 and 2;"), vec!["2"]);
    assert_eq!(printed("print false or false;"), vec!["false"]);
    assert_eq!(only_result("print nil or missing;"), Err(RuntimeError::UndefinedVariable));
}

#[test]
fn printing_uses_the_canonical_forms() {
    assert_eq!(printed("print nil; print true; print false; print \"t\"; print 2.50; print clock;"),
        vec!["null", "true", "false", "t", "2.5", "Callable"]);
    assert_eq!(printed("fun f() {} print f;"), vec!["Callable"]);
}

#[test]
fn scoping_and_shadowing() {
    assert_eq!(printed("var x = 1; { var x = 2; print x; } print x;"), vec!["2", "1"]);
    assert_eq!(printed("var x = 1; { x = 2; } print x;"), vec!["2"]);
    assert_eq!(printed("var x = 1; { var y = x + 1; { var x = y + 1; print x; } print x; }"),
        vec!["3", "1"]);
    assert_eq!(printed("var x; print x;"), vec!["null"]);
}

#[test]
fn variables_that_are_not_defined() {
    assert_eq!(only_result("print missing;"), Err(RuntimeError::UndefinedVariable));
    assert_eq!(only_result("missing = 1;"), Err(RuntimeError::UndefinedVariable));
    let run = run("{ var inner = 1; } print inner;");
    assert_eq!(run.results, vec![Ok(()), Err(RuntimeError::UndefinedVariable)]);
}

#[test]
fn assignment_yields_the_value() {
    assert_eq!(printed("var a; var b; a = b = 3; print a; print b; print a = 4;"),
        vec!["3", "3", "4"]);
}

#[test]
fn functions() {
    assert_eq!(printed("fun add(a, b) { return a + b; } print add(2, 3);"), vec!["5"]);
    assert_eq!(printed("fun nothing() { } print nothing();"), vec!["null"]);
    assert_eq!(printed("fun early(x) { if (x) return \"yes\"; return \"no\"; } print early(1); print early(nil);"),
        vec!["yes", "no"]);
    assert_eq!(printed("fun bare() { return; } print bare();"), vec!["null"]);
    assert_eq!(printed("fun f() { return g; } fun g() { return 7; } print f()();"), vec!["7"]);
}

#[test]
fn wrong_arity_is_an_error() {
    assert_eq!(only_result("fun add(a, b) { return a + b; }").is_ok(), true);
    let run1 = run("fun add(a, b) { return a + b; } print add(1);");
    assert_eq!(run1.results, vec![Ok(()), Err(RuntimeError::ArityMismatch)]);
    let run2 = run("fun add(a, b) { return a + b; } print add(1, 2, 3);");
    assert_eq!(run2.results, vec![Ok(()), Err(RuntimeError::ArityMismatch)]);
    assert_eq!(only_result("clock(1);"), Err(RuntimeError::ArityMismatch));
}

#[test]
fn calling_what_is_no_function_is_an_error() {
    assert_eq!(only_result("\"text\"();"), Err(RuntimeError::NotCallable));
    assert_eq!(only_result("nil(1, 2);"), Err(RuntimeError::NotCallable));
    assert_eq!(only_result("3();"), Err(RuntimeError::NotCallable));
}

#[test]
fn arguments_are_evaluated_left_to_right() {
    assert_eq!(
        printed("fun show(x) { print x; return x; } fun three(a, b, c) { return c; } print three(show(1), show(2), show(3));"),
        vec!["1", "2", "3", "3"]
    );
}

#[test]
fn recursion() {
    assert_eq!(
        printed("fun fib(n) { if (n < 2) return n; return fib(n - 1) + fib(n - 2); } print fib(10);"),
        vec!["55"]
    );
    assert_eq!(
        printed("fun count(n) { if (n > 0) { print n; count(n - 1); } } count(3);"),
        vec!["3", "2", "1"]
    );
}

#[test]
fn free_variables_resolve_to_the_declaring_scope_at_any_call_depth() {
    let source = "var a = \"global\";
        {
            var a = \"outer\";
            fun show() { print a; }
            show();
            { var b = 1; { var c = 2; show(); } }
        }";
    assert_eq!(printed(source), vec!["outer", "outer"]);
    let global = "var a = \"global\"; fun show() { print a; } show(); { var a = \"inner\"; { show(); } }";
    assert_eq!(printed(global), vec!["global", "global"]);
}

#[test]
fn nested_functions_see_the_enclosing_call() {
    let source = "fun outer(x) { var y = x + 1; fun inner(z) { return x + y + z; } return inner(10); } print outer(1);";
    assert_eq!(printed(source), vec!["13"]);
}

#[test]
fn loops() {
    assert_eq!(printed("for (var i = 0; i < 3; i = i + 1) print i;"), vec!["0", "1", "2"]);
    assert_eq!(
        printed("{ var i = 0; while (i < 3) { print i; i = i + 1; } }"),
        printed("for (var i = 0; i < 3; i = i + 1) print i;")
    );
    assert_eq!(printed("var n = 0; while (n < 3) n = n + 1; print n;"), vec!["3"]);
    assert_eq!(printed("var i = 5; for (; i < 7; ) { print i; i = i + 1; }"), vec!["5", "6"]);
    assert_eq!(printed("var i; for (i = 1; i < 100; i = i * 3) print i;"),
        vec!["1", "3", "9", "27", "81"]);
    assert_eq!(printed("while (false) print 1;"), Vec::<String>::new());
}

#[test]
fn loop_without_a_condition_runs_until_return() {
    assert_eq!(
        printed("fun first() { for (var i = 0; ; i = i + 1) { if (i == 3) return i; } } print first();"),
        vec!["3"]
    );
}

#[test]
fn return_leaves_loops_and_blocks_and_restores_the_scopes() {
    let source = "fun find() { var i = 0; while (true) { { { if (i == 2) return i; } } i = i + 1; } } print find(); print find();";
    assert_eq!(printed(source), vec!["2", "2"]);
}

#[test]
fn an_error_inside_blocks_restores_the_scopes_and_the_next_statement_runs() {
    let run = run("{ var a = 1; { var b = 2; print a + nil; } print \"never\"; } print \"next\";");
    assert_eq!(run.results, vec![Err(RuntimeError::TypeMismatch), Ok(())]);
    assert_eq!(run.lines, vec!["next"]);
    assert_eq!(run.depth_after, 1);
}

#[test]
fn an_error_inside_a_call_restores_the_scopes() {
    let run = run("fun bad() { { return 1 + nil; } } { { bad(); } } print 1;");
    assert_eq!(run.results, vec![Ok(()), Err(RuntimeError::TypeMismatch), Ok(())]);
    assert_eq!(run.lines, vec!["1"]);
    assert_eq!(run.depth_after, 1);
}

#[test]
fn return_outside_a_function_is_an_error() {
    assert_eq!(only_result("return 1;"), Err(RuntimeError::TopLevelReturn));
    assert_eq!(only_result("{ { return; } }"), Err(RuntimeError::TopLevelReturn));
}

#[test]
fn the_clock_is_a_native_function_of_no_arguments() {
    assert_eq!(printed("print clock();"), vec![CLOCK_MILLIS.to_string()]);
    assert_eq!(printed("print clock() - clock();"), vec!["0"]);
}

#[test]
fn a_malformed_statement_is_skipped_and_the_rest_runs() {
    let first = run("print 1; var = 2; print 3; print 4;");
    assert_eq!(
        first.parse_errors,
        vec![ParseError { kind: ParseErrorKind::MalformedDeclaration, line: 1 }]
    );
    assert_eq!(first.lines, vec!["1", "3", "4"]);
    let second = run("print (1; print 2; print 3;");
    assert_eq!(
        second.parse_errors,
        vec![ParseError { kind: ParseErrorKind::MissingRightParen, line: 1 }]
    );
    assert_eq!(second.lines, vec!["2", "3"]);
    let third = run("var ;\nprint 5;\nprint ;\nprint 6;");
    assert_eq!(
        third.parse_errors,
        vec![
            ParseError { kind: ParseErrorKind::MalformedDeclaration, line: 1 },
            ParseError { kind: ParseErrorKind::ExpectedExpression, line: 3 },
        ]
    );
    assert_eq!(third.lines, vec!["5", "6"]);
}

#[test]
fn use_of_a_variable_in_its_own_initializer_is_warned_about() {
    let warned = run("{ var a = 1; { var a = a; } }");
    assert_eq!(warned.warnings.len(), 1);
    let clean = run("{ var a = 1; { var b = a; } }");
    assert!(clean.warnings.is_empty());
}

#[test]
fn running_a_program_twice_gives_the_same_output() {
    let source = "var t = 0; for (var i = 1; i <= 10; i = i + 1) t = t + i; print t;";
    assert_eq!(printed(source), vec!["55"]);
    assert_eq!(printed(source), printed(source));
}

#[test]
fn a_function_called_after_its_scope_is_gone_does_not_find_its_variables() {
    let source = "fun make() { var i = 0; fun count() { i = i + 1; return i; } return count; }
        var counter = make();
        print counter();";
    let run = run(source);
    assert_eq!(run.results, vec![Ok(()), Ok(()), Err(RuntimeError::UndefinedVariable)]);
    assert_eq!(run.depth_after, 1);
    assert_eq!(
        printed("var f; { fun g() { return 1; } f = g; } print f();"),
        vec!["1"]
    );
}

#[test]
fn many_nested_calls_need_no_deep_stack() {
    assert_eq!(
        printed("fun down(n) { if (n == 0) return 0; return 1 + down(n - 1); } print down(20000);"),
        vec!["20000"]
    );
}

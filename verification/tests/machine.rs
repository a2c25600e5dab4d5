use lox::globals::Globals;
use lox::interpreter::{Action, Interpreter, Request};
use lox::parser::{parse, Expr, Stmt};
use lox::scanner::scan_tokens;
use lox::semantics::ArithOp;
use lox::token::{Token, TokenType};
use lox::value::{Output, RuntimeError};

fn program(source: &str) -> Vec<Stmt> {
    let output = parse(scan_tokens(source.chars()).unwrap());
    assert!(output.errors.is_empty());
    output.statements
}

fn actions(interpreter: &mut Interpreter, numbers: &[f64]) -> Vec<Action> {
    let mut supplied = numbers.iter();
    let mut seen = vec![];
    for _ in 0..10_000 {
        let action = interpreter.step();
        match &action {
            Action::Continue => continue,
            Action::Request(_) => interpreter.supply(supplied.next().unwrap().to_bits()),
            Action::Finished(_) => {
                seen.push(action);
                return seen;
            }
            _ => {}
        }
        seen.push(action);
    }
    panic!("the statement did not end");
}

#[test]
fn a_new_machine_is_idle() {
    let globals = Globals::new();
    let mut interpreter = Interpreter::new(&globals);
    assert!(interpreter.is_idle());
    assert_eq!(interpreter.depth(), 1);
    assert_eq!(interpreter.step(), Action::Idle);
    assert_eq!(interpreter.step(), Action::Idle);
    interpreter.supply(7);
    assert!(interpreter.is_idle());
}

#[test]
fn only_an_idle_machine_takes_a_statement() {
    let statements = program("print 1; print 2;");
    let globals = Globals::new();
    let mut interpreter = Interpreter::new(&globals);
    assert!(interpreter.evaluate(&statements[0]));
    assert!(!interpreter.is_idle());
    assert!(!interpreter.evaluate(&statements[1]));
    assert_eq!(
        actions(&mut interpreter, &[1.0]),
        vec![
            Action::Request(Request::Parse("1".to_string())),
            Action::Print(Output::Number(1.0f64.to_bits())),
            Action::Finished(Ok(())),
        ]
    );
    assert!(interpreter.is_idle());
    assert!(interpreter.evaluate(&statements[1]));
}

#[test]
fn a_request_is_repeated_until_it_is_answered() {
    let statements = program("print 1 + 2;");
    let globals = Globals::new();
    let mut interpreter = Interpreter::new(&globals);
    assert!(interpreter.evaluate(&statements[0]));
    let mut action = interpreter.step();
    while action == Action::Continue {
        action = interpreter.step();
    }
    assert_eq!(action, Action::Request(Request::Parse("1".to_string())));
    assert_eq!(interpreter.step(), Action::Request(Request::Parse("1".to_string())));
    assert_eq!(interpreter.step(), Action::Request(Request::Parse("1".to_string())));
    interpreter.supply(1.0f64.to_bits());
    assert_eq!(
        actions(&mut interpreter, &[2.0, 3.0]),
        vec![
            Action::Request(Request::Parse("2".to_string())),
            Action::Request(Request::Arithmetic(ArithOp::Add, 1.0f64.to_bits(), 2.0f64.to_bits())),
            Action::Print(Output::Number(3.0f64.to_bits())),
            Action::Finished(Ok(())),
        ]
    );
}

#[test]
fn the_host_is_asked_for_each_operation_with_its_operands() {
    let statements = program("print 8 - 2; print 8 * 2; print 8 / 2;");
    let globals = Globals::new();
    let mut interpreter = Interpreter::new(&globals);
    let (a, b) = (8.0f64.to_bits(), 2.0f64.to_bits());
    for (stmt, op) in statements.iter().zip([ArithOp::Subtract, ArithOp::Multiply, ArithOp::Divide]) {
        assert!(interpreter.evaluate(stmt));
        let seen = actions(&mut interpreter, &[8.0, 2.0, 99.0]);
        assert_eq!(seen[2], Action::Request(Request::Arithmetic(op, a, b)));
        assert_eq!(seen[3], Action::Print(Output::Number(99.0f64.to_bits())));
    }
}

#[test]
fn the_clock_is_asked_of_the_host() {
    let statements = program("print clock();");
    let globals = Globals::new();
    let mut interpreter = Interpreter::new(&globals);
    assert!(interpreter.evaluate(&statements[0]));
    assert_eq!(
        actions(&mut interpreter, &[5.0]),
        vec![
            Action::Request(Request::Clock),
            Action::Print(Output::Number(5.0f64.to_bits())),
            Action::Finished(Ok(())),
        ]
    );
}

#[test]
fn a_number_supplied_unasked_is_ignored() {
    let statements = program("print \"a\";");
    let globals = Globals::new();
    let mut interpreter = Interpreter::new(&globals);
    assert!(interpreter.evaluate(&statements[0]));
    interpreter.supply(1);
    assert_eq!(interpreter.step(), Action::Continue);
    interpreter.supply(2);
    assert_eq!(
        actions(&mut interpreter, &[]),
        vec![Action::Print(Output::Text("a".to_string())), Action::Finished(Ok(()))]
    );
}

#[test]
fn a_block_can_be_taken_in_hand_directly() {
    let statements = program("var a = \"x\"; print a; return a;");
    let globals = Globals::new();
    let mut interpreter = Interpreter::new(&globals);
    assert!(interpreter.eval_block(&statements));
    assert!(!interpreter.eval_block(&statements));
    assert_eq!(interpreter.depth(), 2);
    assert_eq!(
        actions(&mut interpreter, &[]),
        vec![
            Action::Print(Output::Text("x".to_string())),
            Action::Finished(Err(RuntimeError::TopLevelReturn)),
        ]
    );
    assert_eq!(interpreter.depth(), 1);
    assert!(interpreter.is_idle());
}

#[test]
fn resolved_depths_are_used() {
    let statements = program("{ var a = \"outer\"; { var a = \"inner\"; print a; } }");
    let globals = Globals::new();
    let print_a = 13;
    let mut plain = Interpreter::new(&globals);
    assert!(plain.evaluate(&statements[0]));
    assert_eq!(actions(&mut plain, &[])[0], Action::Print(Output::Text("inner".to_string())));
    let mut outer = Interpreter::new(&globals);
    outer.resolve(print_a, 1);
    assert!(outer.evaluate(&statements[0]));
    assert_eq!(actions(&mut outer, &[])[0], Action::Print(Output::Text("outer".to_string())));
    let mut nowhere = Interpreter::new(&globals);
    nowhere.resolve(print_a, 2);
    assert!(nowhere.evaluate(&statements[0]));
    assert_eq!(
        actions(&mut nowhere, &[]),
        vec![Action::Finished(Err(RuntimeError::UndefinedVariable))]
    );
    assert_eq!(nowhere.depth(), 1);
}

#[test]
fn an_operator_token_that_is_none_is_an_error() {
    let text = |s: &str| Expr::Leaf(0, Token { token_type: TokenType::Text(s.to_string()), line: 1 });
    let comma = || Token { token_type: TokenType::Comma, line: 1 };
    let statements = vec![
        Stmt::Expression(Expr::Binary(comma(), Box::new(text("a")), Box::new(text("b")))),
        Stmt::Expression(Expr::Unary(comma(), Box::new(text("a")))),
        Stmt::Expression(Expr::Logical(comma(), Box::new(text("a")), Box::new(text("b")))),
        Stmt::Expression(Expr::Leaf(0, comma())),
    ];
    let globals = Globals::new();
    let mut interpreter = Interpreter::new(&globals);
    for stmt in &statements {
        assert!(interpreter.evaluate(stmt));
        assert_eq!(
            actions(&mut interpreter, &[]),
            vec![Action::Finished(Err(RuntimeError::InvalidOperator))]
        );
    }
}

#[test]
fn advancing_stops_at_the_first_action_for_the_host() {
    let statements = program("{ { { print \"deep\"; } } } while (true) { }");
    let globals = Globals::new();
    let mut interpreter = Interpreter::new(&globals);
    assert_eq!(interpreter.advance(100), Action::Idle);
    assert!(interpreter.evaluate(&statements[0]));
    assert_eq!(interpreter.advance(0), Action::Continue);
    assert_eq!(interpreter.advance(1), Action::Continue);
    assert_eq!(interpreter.advance(1000), Action::Print(Output::Text("deep".to_string())));
    assert_eq!(interpreter.advance(1000), Action::Finished(Ok(())));
    assert_eq!(interpreter.depth(), 1);
    assert!(interpreter.evaluate(&statements[1]));
    assert_eq!(interpreter.advance(1000), Action::Continue);
    assert_eq!(interpreter.advance(1000), Action::Continue);
    assert!(!interpreter.is_idle());
}

#[test]
fn advancing_and_stepping_agree() {
    let statements = program("var t = \"\"; for (var i = 0; i < 3; i = i + 1) t = t + \"x\"; print t;");
    let globals = Globals::new();
    let mut stepped = Interpreter::new(&globals);
    let mut advanced = Interpreter::new(&globals);
    for stmt in &statements {
        assert!(stepped.evaluate(stmt));
        assert!(advanced.evaluate(stmt));
        loop {
            let mut action = stepped.step();
            while action == Action::Continue {
                action = stepped.step();
            }
            assert_eq!(advanced.advance(usize::MAX), action);
            match action {
                Action::Request(Request::Parse(lexeme)) => {
                    let bits = lexeme.parse::<f64>().unwrap().to_bits();
                    stepped.supply(bits);
                    advanced.supply(bits);
                }
                Action::Request(Request::Arithmetic(ArithOp::Add, a, b)) => {
                    let bits = (f64::from_bits(a) + f64::from_bits(b)).to_bits();
                    stepped.supply(bits);
                    advanced.supply(bits);
                }
                Action::Finished(result) => {
                    assert_eq!(result, Ok(()));
                    break;
                }
                Action::Print(output) => assert_eq!(output, Output::Text("xxx".to_string())),
                other => panic!("not expected: {:?}", other),
            }
        }
    }
}

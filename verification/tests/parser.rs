use lox::grammar::{ParseError, ParseErrorKind};
use lox::limits::{arity_warnings, ParseWarning, MAX_ARITY};
use lox::parser::{parse, Expr, ParseOutput, Stmt, StmtFunction};
use lox::scanner::scan_tokens;
use lox::token::{Token, TokenType};

fn parse_source(source: &str) -> ParseOutput {
    parse(scan_tokens(source.chars()).unwrap())
}

fn statements(source: &str) -> Vec<Stmt> {
    let output = parse_source(source);
    assert_eq!(output.errors, vec![]);
    output.statements
}

fn errors(source: &str) -> Vec<ParseError> {
    parse_source(source).errors
}

fn token(token_type: TokenType) -> Token {
    Token { token_type, line: 1 }
}

fn number(id: usize, lexeme: &str) -> Expr {
    Expr::Leaf(id, token(TokenType::Number(lexeme.to_string())))
}

fn name(id: usize, text: &str) -> Expr {
    Expr::Leaf(id, token(TokenType::Identifier(text.to_string())))
}

fn binary(op: TokenType, left: Expr, right: Expr) -> Expr {
    Expr::Binary(token(op), Box::new(left), Box::new(right))
}

#[test]
fn factors_bind_tighter_than_terms() {
    assert_eq!(
        statements("1 + 2 * 3;"),
        vec![Stmt::Expression(binary(
            TokenType::Plus,
            number(0, "1"),
            binary(TokenType::Star, number(2, "2"), number(4, "3")),
        ))]
    );
    assert_eq!(
        statements("1 * 2 + 3;"),
        vec![Stmt::Expression(binary(
            TokenType::Plus,
            binary(TokenType::Star, number(0, "1"), number(2, "2")),
            number(4, "3"),
        ))]
    );
}

#[test]
fn binary_operators_associate_to_the_left() {
    assert_eq!(
        statements("1 - 2 - 3;"),
        vec![Stmt::Expression(binary(
            TokenType::Minus,
            binary(TokenType::Minus, number(0, "1"), number(2, "2")),
            number(4, "3"),
        ))]
    );
    assert_eq!(
        statements("8 / 4 / 2;"),
        vec![Stmt::Expression(binary(
            TokenType::Slash,
            binary(TokenType::Slash, number(0, "8"), number(2, "4")),
            number(4, "2"),
        ))]
    );
}

#[test]
fn the_whole_precedence_ladder() {
    // a = b or c and d == e < f + g * -h(i)
    let call = Expr::Call(
        token(TokenType::RightParen),
        Box::new(name(15, "h")),
        vec![name(17, "i")],
    );
    let unary = Expr::Unary(token(TokenType::Minus), Box::new(call));
    let product = binary(TokenType::Star, name(12, "g"), unary);
    let sum = binary(TokenType::Plus, name(10, "f"), product);
    let comparison = binary(TokenType::Less, name(8, "e"), sum);
    let equality = binary(TokenType::EqualEqual, name(6, "d"), comparison);
    let and = Expr::Logical(token(TokenType::And), Box::new(name(4, "c")), Box::new(equality));
    let or = Expr::Logical(token(TokenType::Or), Box::new(name(2, "b")), Box::new(and));
    let assign = Expr::Assign(1, "a".to_string(), Box::new(or));
    assert_eq!(
        statements("a = b or c and d == e < f + g * -h(i);"),
        vec![Stmt::Expression(assign)]
    );
}

#[test]
fn assignment_associates_to_the_right() {
    assert_eq!(
        statements("a = b = 1;"),
        vec![Stmt::Expression(Expr::Assign(
            1,
            "a".to_string(),
            Box::new(Expr::Assign(3, "b".to_string(), Box::new(number(4, "1")))),
        ))]
    );
}

#[test]
fn assignment_wants_a_plain_variable_on_the_left() {
    assert_eq!(
        errors("1 = 2;"),
        vec![ParseError { kind: ParseErrorKind::InvalidAssignmentTarget, line: 1 }]
    );
    assert_eq!(
        parse_source("(a) = 2;").errors[0].kind,
        ParseErrorKind::InvalidAssignmentTarget
    );
    assert_eq!(
        parse_source("a + b = 2;").errors[0].kind,
        ParseErrorKind::InvalidAssignmentTarget
    );
}

#[test]
fn grouping_and_unary() {
    assert_eq!(
        statements("!(-1);"),
        vec![Stmt::Expression(Expr::Unary(
            token(TokenType::Bang),
            Box::new(Expr::Grouping(Box::new(Expr::Unary(
                token(TokenType::Minus),
                Box::new(number(3, "1")),
            )))),
        ))]
    );
}

#[test]
fn calls_chain_to_the_left() {
    let first = Expr::Call(token(TokenType::RightParen), Box::new(name(0, "f")), vec![]);
    let second = Expr::Call(
        token(TokenType::RightParen),
        Box::new(first),
        vec![number(4, "1"), number(6, "2")],
    );
    assert_eq!(statements("f()(1, 2);"), vec![Stmt::Expression(second)]);
}

#[test]
fn declarations_without_a_value_default_to_nil() {
    assert_eq!(
        statements("var x;"),
        vec![Stmt::Var("x".to_string(), Expr::Leaf(1, token(TokenType::Nil)))]
    );
    assert_eq!(
        statements("var x = 1;"),
        vec![Stmt::Var("x".to_string(), number(3, "1"))]
    );
    assert_eq!(
        statements("fun f() { return; }"),
        vec![Stmt::Function(StmtFunction {
            id: 1,
            name: "f".to_string(),
            params: vec![],
            body: vec![Stmt::Return(Expr::Leaf(6, token(TokenType::Nil)))],
        })]
    );
}

#[test]
fn function_declarations() {
    assert_eq!(
        statements("fun add(a, b) { print a; }"),
        vec![Stmt::Function(StmtFunction {
            id: 1,
            name: "add".to_string(),
            params: vec!["a".to_string(), "b".to_string()],
            body: vec![Stmt::Print(name(9, "a"))],
        })]
    );
}

#[test]
fn if_with_and_without_else() {
    assert_eq!(
        statements("if (a) print 1; else print 2;"),
        vec![Stmt::If(
            name(2, "a"),
            Box::new(Stmt::Print(number(5, "1"))),
            Box::new(Some(Stmt::Print(number(9, "2")))),
        )]
    );
    assert_eq!(
        statements("if (a) print 1;"),
        vec![Stmt::If(name(2, "a"), Box::new(Stmt::Print(number(5, "1"))), Box::new(None))]
    );
}

#[test]
fn else_belongs_to_the_nearest_if() {
    assert_eq!(
        statements("if (a) if (b) print 1; else print 2;"),
        vec![Stmt::If(
            name(2, "a"),
            Box::new(Stmt::If(
                name(6, "b"),
                Box::new(Stmt::Print(number(9, "1"))),
                Box::new(Some(Stmt::Print(number(13, "2")))),
            )),
            Box::new(None),
        )]
    );
}

#[test]
fn for_is_a_block_around_a_while() {
    let for_tree = statements("for (var i = 0; i < 3; i = i + 1) print i;");
    assert_eq!(
        for_tree,
        vec![Stmt::Block(vec![
            Stmt::Var("i".to_string(), number(5, "0")),
            Stmt::While(
                binary(TokenType::Less, name(7, "i"), number(9, "3")),
                Box::new(Stmt::Block(vec![
                    Stmt::Print(name(18, "i")),
                    Stmt::Expression(Expr::Assign(
                        12,
                        "i".to_string(),
                        Box::new(binary(TokenType::Plus, name(13, "i"), number(15, "1"))),
                    )),
                ])),
            ),
        ])]
    );
}

#[test]
fn for_without_clauses_is_a_bare_while_true() {
    assert_eq!(
        statements("for (;;) print 1;"),
        vec![Stmt::While(
            Expr::Leaf(3, token(TokenType::True)),
            Box::new(Stmt::Print(number(6, "1"))),
        )]
    );
    assert_eq!(
        statements("for (a; ; ) print 1;"),
        vec![Stmt::Block(vec![
            Stmt::Expression(name(2, "a")),
            Stmt::While(
                Expr::Leaf(4, token(TokenType::True)),
                Box::new(Stmt::Print(number(7, "1"))),
            ),
        ])]
    );
}

#[test]
fn blocks_nest() {
    assert_eq!(
        statements("{ { } print 1; }"),
        vec![Stmt::Block(vec![Stmt::Block(vec![]), Stmt::Print(number(4, "1"))])]
    );
}

#[test]
fn every_error_kind() {
    let kind = |source: &str| parse_source(source).errors[0].kind;
    assert_eq!(kind("if a) print 1;"), ParseErrorKind::MissingLeftParen);
    assert_eq!(kind("while a) print 1;"), ParseErrorKind::MissingLeftParen);
    assert_eq!(kind("for var i = 0;;) print 1;"), ParseErrorKind::MissingLeftParen);
    assert_eq!(kind("fun f { }"), ParseErrorKind::MissingLeftParen);
    assert_eq!(kind("print (1;"), ParseErrorKind::MissingRightParen);
    assert_eq!(kind("if (a print 1;"), ParseErrorKind::MissingRightParen);
    assert_eq!(kind("f(1, 2;"), ParseErrorKind::MissingRightParen);
    assert_eq!(kind("for (;; i = 1 print 1;"), ParseErrorKind::MissingRightParen);
    assert_eq!(kind("fun f(a, b { }"), ParseErrorKind::MissingRightParen);
    assert_eq!(kind("fun f() print 1;"), ParseErrorKind::MissingLeftBrace);
    assert_eq!(kind("{ print 1;"), ParseErrorKind::MissingRightBrace);
    assert_eq!(kind("fun f() { print 1;"), ParseErrorKind::MissingRightBrace);
    assert_eq!(kind("print 1"), ParseErrorKind::MissingSemicolon);
    assert_eq!(kind("var x = 1"), ParseErrorKind::MissingSemicolon);
    assert_eq!(kind("var x 1;"), ParseErrorKind::MissingSemicolon);
    assert_eq!(kind("return 1"), ParseErrorKind::MissingSemicolon);
    assert_eq!(kind("for (var i = 0; i < 1) print 1;"), ParseErrorKind::MissingSemicolon);
    assert_eq!(kind("print ;"), ParseErrorKind::ExpectedExpression);
    assert_eq!(kind("1 + ;"), ParseErrorKind::ExpectedExpression);
    assert_eq!(kind(")"), ParseErrorKind::ExpectedExpression);
    assert_eq!(kind("var 1 = 2;"), ParseErrorKind::MalformedDeclaration);
    assert_eq!(kind("fun (a) { }"), ParseErrorKind::MalformedDeclaration);
    assert_eq!(kind("fun f(1) { }"), ParseErrorKind::MalformedDeclaration);
    assert_eq!(kind("fun f(a,) { }"), ParseErrorKind::MalformedDeclaration);
    assert_eq!(kind("1 = 2;"), ParseErrorKind::InvalidAssignmentTarget);
}

#[test]
fn errors_carry_the_line_of_the_offending_token() {
    assert_eq!(
        errors("print 1;\nprint 2\nprint 3;"),
        vec![ParseError { kind: ParseErrorKind::MissingSemicolon, line: 3 }]
    );
    assert_eq!(
        errors("\n\nprint (1 + 2"),
        vec![ParseError { kind: ParseErrorKind::MissingRightParen, line: 3 }]
    );
}

#[test]
fn recovery_leaves_out_the_failed_statement_only() {
    let output = parse_source("print 1; print ; print 2; var = 3; print 4;");
    assert_eq!(
        output.errors,
        vec![
            ParseError { kind: ParseErrorKind::ExpectedExpression, line: 1 },
            ParseError { kind: ParseErrorKind::MalformedDeclaration, line: 1 },
        ]
    );
    assert_eq!(
        output.statements,
        vec![
            Stmt::Print(number(1, "1")),
            Stmt::Print(number(6, "2")),
            Stmt::Expression(number(10, "3")),
            Stmt::Print(number(13, "4")),
        ]
    );
}

#[test]
fn tokens_without_an_end_marker_parse_too() {
    let tokens = vec![
        token(TokenType::Print),
        token(TokenType::Number("1".to_string())),
        token(TokenType::Semicolon),
    ];
    let output = parse(tokens);
    assert_eq!(output.errors, vec![]);
    assert_eq!(output.statements, vec![Stmt::Print(number(1, "1"))]);
    assert_eq!(
        parse(vec![]),
        ParseOutput { statements: vec![], errors: vec![], warnings: vec![] }
    );
    assert_eq!(
        parse(vec![token(TokenType::Print)]).errors,
        vec![ParseError { kind: ParseErrorKind::ExpectedExpression, line: 1 }]
    );
}

#[test]
fn parsing_twice_gives_the_same_tree() {
    let source = "fun f(a) { for (var i = 0; i < a; i = i + 1) { print i; } return a; } print f(3);";
    assert_eq!(parse_source(source), parse_source(source));
}

#[test]
fn identities_are_token_positions() {
    let output = statements("x = y;");
    assert_eq!(
        output,
        vec![Stmt::Expression(Expr::Assign(1, "x".to_string(), Box::new(name(2, "y"))))]
    );
}

fn call_with(count: usize) -> String {
    let args: Vec<String> = (0..count).map(|i| i.to_string()).collect();
    format!("f({});", args.join(", "))
}

fn function_with(count: usize) -> String {
    let params: Vec<String> = (0..count).map(|i| format!("p{}", i)).collect();
    format!("fun f({}) {{ }}", params.join(", "))
}

#[test]
fn the_limit_is_255() {
    assert_eq!(MAX_ARITY, 255);
}

#[test]
fn a_call_over_the_limit_parses_and_is_warned_about() {
    let at_limit = parse_source(&call_with(255));
    assert_eq!(at_limit.errors, vec![]);
    assert_eq!(at_limit.warnings, vec![]);
    let over = parse_source(&format!("\n{}", call_with(256)));
    assert_eq!(over.errors, vec![]);
    assert_eq!(over.statements.len(), 1);
    assert_eq!(over.warnings, vec![ParseWarning::TooManyArguments { line: 2 }]);
    match &over.statements[0] {
        Stmt::Expression(Expr::Call(_, _, args)) => assert_eq!(args.len(), 256),
        other => panic!("not a call: {:?}", other),
    }
}

#[test]
fn a_function_over_the_limit_parses_and_is_warned_about() {
    let at_limit = parse_source(&function_with(255));
    assert_eq!(at_limit.errors, vec![]);
    assert_eq!(at_limit.warnings, vec![]);
    let over = parse_source(&function_with(256));
    assert_eq!(over.errors, vec![]);
    assert_eq!(over.warnings, vec![ParseWarning::TooManyParameters { id: 1 }]);
}

#[test]
fn warnings_come_in_the_order_of_the_program() {
    let inner = call_with(256);
    let inner = inner.trim_end_matches(';');
    let source = format!(
        "fun f({}) {{\n print g({});\n }}\n if (true) {{ {} ; }} else while (false) {} ;",
        (0..256).map(|i| format!("p{}", i)).collect::<Vec<String>>().join(", "),
        inner,
        inner,
        inner
    );
    let output = parse_source(&source);
    assert_eq!(output.errors, vec![]);
    assert_eq!(
        output.warnings,
        vec![
            ParseWarning::TooManyParameters { id: 1 },
            ParseWarning::TooManyArguments { line: 2 },
            ParseWarning::TooManyArguments { line: 4 },
            ParseWarning::TooManyArguments { line: 4 },
        ]
    );
    assert_eq!(arity_warnings(&output.statements), output.warnings);
    assert_eq!(arity_warnings(&vec![]), vec![]);
}

use lox::scanner::{is_alpha, is_digit, scan_tokens, LexError, ScanState};
use lox::token::{keyword_to_token_type, Token, TokenType};

fn kinds(source: &str) -> Vec<TokenType> {
    scan_tokens(source.chars()).unwrap().into_iter().map(|t| t.token_type).collect()
}

#[test]
fn empty_source_is_one_end_token() {
    assert_eq!(scan_tokens("".chars()), Ok(vec![Token { token_type: TokenType::Eof, line: 1 }]));
}

#[test]
fn punctuation_and_operators() {
    assert_eq!(
        kinds("(){},.-+;*/ ! != = == < <= > >="),
        vec![
            TokenType::LeftParen,
            TokenType::RightParen,
            TokenType::LeftBrace,
            TokenType::RightBrace,
            TokenType::Comma,
            TokenType::Dot,
            TokenType::Minus,
            TokenType::Plus,
            TokenType::Semicolon,
            TokenType::Star,
            TokenType::Slash,
            TokenType::Bang,
            TokenType::BangEqual,
            TokenType::Equal,
            TokenType::EqualEqual,
            TokenType::Less,
            TokenType::LessEqual,
            TokenType::Greater,
            TokenType::GreaterEqual,
            TokenType::Eof,
        ]
    );
}

#[test]
fn operator_does_not_swallow_what_follows() {
    assert_eq!(
        kinds("!x"),
        vec![TokenType::Bang, TokenType::Identifier("x".to_string()), TokenType::Eof]
    );
    assert_eq!(
        kinds("a<b"),
        vec![
            TokenType::Identifier("a".to_string()),
            TokenType::Less,
            TokenType::Identifier("b".to_string()),
            TokenType::Eof
        ]
    );
}

#[test]
fn numbers_keep_their_lexeme() {
    assert_eq!(
        kinds("12 3.25 7. .5"),
        vec![
            TokenType::Number("12".to_string()),
            TokenType::Number("3.25".to_string()),
            TokenType::Number("7".to_string()),
            TokenType::Dot,
            TokenType::Dot,
            TokenType::Number("5".to_string()),
            TokenType::Eof,
        ]
    );
}

#[test]
fn number_with_two_points_stops_at_the_second() {
    assert_eq!(
        kinds("1.2.3"),
        vec![
            TokenType::Number("1.2".to_string()),
            TokenType::Dot,
            TokenType::Number("3".to_string()),
            TokenType::Eof,
        ]
    );
}

#[test]
fn identifiers_and_keywords() {
    assert_eq!(
        kinds("var x_1 = nil; while whilst"),
        vec![
            TokenType::Var,
            TokenType::Identifier("x_1".to_string()),
            TokenType::Equal,
            TokenType::Nil,
            TokenType::Semicolon,
            TokenType::While,
            TokenType::Identifier("whilst".to_string()),
            TokenType::Eof,
        ]
    );
}

#[test]
fn every_keyword_is_found() {
    let table = [
        ("and", TokenType::And),
        ("class", TokenType::Class),
        ("else", TokenType::Else),
        ("false", TokenType::False),
        ("for", TokenType::For),
        ("fun", TokenType::Fun),
        ("if", TokenType::If),
        ("nil", TokenType::Nil),
        ("or", TokenType::Or),
        ("print", TokenType::Print),
        ("return", TokenType::Return),
        ("super", TokenType::Super),
        ("this", TokenType::This),
        ("true", TokenType::True),
        ("var", TokenType::Var),
        ("while", TokenType::While),
    ];
    for (word, kind) in table {
        assert_eq!(keyword_to_token_type(&word.to_string()), Some(kind));
    }
    assert_eq!(keyword_to_token_type(&"iff".to_string()), None);
    assert_eq!(keyword_to_token_type(&"".to_string()), None);
    assert_eq!(keyword_to_token_type(&"And".to_string()), None);
}

#[test]
fn strings_span_lines_and_count_them() {
    let tokens = scan_tokens("\"a\nb\" x".chars()).unwrap();
    assert_eq!(
        tokens,
        vec![
            Token { token_type: TokenType::Text("a\nb".to_string()), line: 2 },
            Token { token_type: TokenType::Identifier("x".to_string()), line: 2 },
            Token { token_type: TokenType::Eof, line: 2 },
        ]
    );
}

#[test]
fn unterminated_string_is_an_error() {
    assert_eq!(
        scan_tokens("print \"abc\n".chars()),
        Err(LexError::UnterminatedString { line: 2 })
    );
}

#[test]
fn unrecognized_character_is_an_error() {
    assert_eq!(
        scan_tokens("var x = 1;\n  @".chars()),
        Err(LexError::UnrecognizedCharacter { character: '@', line: 2 })
    );
}

#[test]
fn comments_and_blanks_are_dropped() {
    let tokens = scan_tokens("// first\n1 // second\n\t\r\n// last".chars()).unwrap();
    assert_eq!(
        tokens,
        vec![
            Token { token_type: TokenType::Number("1".to_string()), line: 2 },
            Token { token_type: TokenType::Eof, line: 4 },
        ]
    );
}

#[test]
fn trailing_blanks_end_the_input() {
    assert_eq!(kinds("1 \n "), vec![TokenType::Number("1".to_string()), TokenType::Eof]);
}

#[test]
fn lines_are_counted_from_one() {
    let tokens = scan_tokens("a\nb\n\nc".chars()).unwrap();
    let lines: Vec<usize> = tokens.iter().map(|t| t.line).collect();
    assert_eq!(lines, vec![1, 2, 4, 4]);
}

#[test]
fn scanning_twice_gives_the_same_tokens() {
    let source = "fun f(a) { return a + 1; } print f(2); // done";
    assert_eq!(scan_tokens(source.chars()), scan_tokens(source.chars()));
}

#[test]
fn digit_and_letter_classes() {
    assert!(is_digit('0') && is_digit('9') && !is_digit('a') && !is_digit('/'));
    assert!(is_alpha('a') && is_alpha('Z') && is_alpha('_') && !is_alpha('1') && !is_alpha('-'));
}

#[test]
fn long_runs_of_blanks_and_comments_are_skipped() {
    let mut source = String::new();
    for _ in 0..200_000 {
        source.push_str("   \n// note\n\t");
    }
    source.push('x');
    let tokens = scan_tokens(source.chars()).unwrap();
    assert_eq!(
        tokens,
        vec![
            Token { token_type: TokenType::Identifier("x".to_string()), line: 400_001 },
            Token { token_type: TokenType::Eof, line: 400_001 },
        ]
    );
}

#[test]
fn a_slash_is_a_comment_only_when_doubled() {
    assert_eq!(
        kinds("a / b // c / d\n/ e"),
        vec![
            TokenType::Identifier("a".to_string()),
            TokenType::Slash,
            TokenType::Identifier("b".to_string()),
            TokenType::Slash,
            TokenType::Identifier("e".to_string()),
            TokenType::Eof,
        ]
    );
    assert_eq!(kinds("/"), vec![TokenType::Slash, TokenType::Eof]);
    assert_eq!(kinds("//"), vec![TokenType::Eof]);
    assert_eq!(kinds("///\n/"), vec![TokenType::Slash, TokenType::Eof]);
}

#[test]
fn tokens_can_be_read_one_at_a_time() {
    let mut state = ScanState::new("a + 1".chars());
    assert_eq!(state.advance(), Ok(true));
    assert_eq!(state.advance(), Ok(true));
    assert_eq!(state.advance(), Ok(true));
    assert_eq!(state.advance(), Ok(false));
    assert_eq!(state.into_tokens(), scan_tokens("a + 1".chars()).unwrap());
    let mut empty = ScanState::new("".chars());
    assert_eq!(empty.advance(), Ok(false));
    assert_eq!(empty.into_tokens(), vec![Token { token_type: TokenType::Eof, line: 1 }]);
    let mut bad = ScanState::new("a #".chars());
    assert_eq!(bad.advance(), Ok(true));
    assert_eq!(bad.advance(), Err(LexError::UnrecognizedCharacter { character: '#', line: 1 }));
    assert_eq!(
        bad.into_tokens(),
        vec![Token { token_type: TokenType::Identifier("a".to_string()), line: 1 }]
    );
}

use rlox::ast::{Token, TokenInstance};
use rlox::scan::{scan, ScanError};
use rlox::value::{ArithOp, FloatArithmetic};

struct HostFloat;

impl FloatArithmetic for HostFloat {
    fn apply(&self, op: ArithOp, a: u64, b: u64) -> u64 {
        let (x, y) = (f64::from_bits(a), f64::from_bits(b));
        let r = match op {
            ArithOp::Add => x + y,
            ArithOp::Sub => x - y,
            ArithOp::Mul => x * y,
            ArithOp::Div => x / y,
        };
        r.to_bits()
    }

    fn from_decimal(&self, numeral: &str) -> u64 {
        numeral.parse::<f64>().unwrap().to_bits()
    }
}

#[test]
fn lib_scan_test_arithmetic_operators() {
    let input = "=+".to_string();

    let expected = vec![
        TokenInstance {
            token_type: Token::Equal,
            lexeme: "=".to_string(),
            line: 1,
        },
        TokenInstance {
            token_type: Token::Plus,
            lexeme: "+".to_string(),
            line: 1,
        },
        TokenInstance {
            token_type: Token::Eof,
            lexeme: "".to_string(),
            line: 1,
        },
    ];

    assert_eq!(scan(&input, &HostFloat).unwrap(), expected);
}

#[test]
fn lib_scan_test_arithmetic_expression_with_spaces() {
    let input = " a = 1 + 2 ; ".to_string();

    let expected = vec![
        TokenInstance {
            token_type: Token::Identifier("a".to_string()),
            lexeme: "a".to_string(),
            line: 1,
        },
        TokenInstance {
            token_type: Token::Equal,
            lexeme: "=".to_string(),
            line: 1,
        },
        TokenInstance {
            token_type: Token::Number(1.0f64.to_bits()),
            lexeme: "1".to_string(),
            line: 1,
        },
        TokenInstance {
            token_type: Token::Plus,
            lexeme: "+".to_string(),
            line: 1,
        },
        TokenInstance {
            token_type: Token::Number(2.0f64.to_bits()),
            lexeme: "2".to_string(),
            line: 1,
        },
        TokenInstance {
            token_type: Token::Semicolon,
            lexeme: ";".to_string(),
            line: 1,
        },
        TokenInstance {
            token_type: Token::Eof,
            lexeme: "".to_string(),
            line: 1,
        },
    ];

    assert_eq!(scan(&input, &HostFloat).unwrap(), expected);
}

#[test]
fn lib_scan_test_arithmetic_expression() {
    let input = "a=1+2;".to_string();

    let expected = vec![
        TokenInstance {
            token_type: Token::Identifier("a".to_string()),
            lexeme: "a".to_string(),
            line: 1,
        },
        TokenInstance {
            token_type: Token::Equal,
            lexeme: "=".to_string(),
            line: 1,
        },
        TokenInstance {
            token_type: Token::Number(1.0f64.to_bits()),
            lexeme: "1".to_string(),
            line: 1,
        },
        TokenInstance {
            token_type: Token::Plus,
            lexeme: "+".to_string(),
            line: 1,
        },
        TokenInstance {
            token_type: Token::Number(2.0f64.to_bits()),
            lexeme: "2".to_string(),
            line: 1,
        },
        TokenInstance {
            token_type: Token::Semicolon,
            lexeme: ";".to_string(),
            line: 1,
        },
        TokenInstance {
            token_type: Token::Eof,
            lexeme: "".to_string(),
            line: 1,
        },
    ];

    assert_eq!(scan(&input, &HostFloat).unwrap(), expected);
}

#[test]
fn lib_scan_test_new_lines() {
    let input = "a=\r\nb+c".to_string();

    let expected = vec![
        TokenInstance {
            token_type: Token::Identifier("a".to_string()),
            lexeme: "a".to_string(),
            line: 1,
        },
        TokenInstance {
            token_type: Token::Equal,
            lexeme: "=".to_string(),
            line: 1,
        },
        TokenInstance {
            token_type: Token::Identifier("b".to_string()),
            lexeme: "b".to_string(),
            line: 2,
        },
        TokenInstance {
            token_type: Token::Plus,
            lexeme: "+".to_string(),
            line: 2,
        },
        TokenInstance {
            token_type: Token::Identifier("c".to_string()),
            lexeme: "c".to_string(),
            line: 2,
        },
        TokenInstance {
            token_type: Token::Eof,
            lexeme: "".to_string(),
            line: 2,
        },
    ];

    assert_eq!(scan(&input, &HostFloat).unwrap(), expected);
}

#[test]
fn lib_scan_test_function() {
    let input = "fun addPair(a, b) {\nreturn a + b;\n}".to_string();

    let expected = vec![
        TokenInstance {
            token_type: Token::Fun,
            lexeme: "fun".to_string(),
            line: 1,
        },
        TokenInstance {
            token_type: Token::Identifier("addPair".to_string()),
            lexeme: "addPair".to_string(),
            line: 1,
        },
        TokenInstance {
            token_type: Token::LeftParen,
            lexeme: "(".to_string(),
            line: 1,
        },
        TokenInstance {
            token_type: Token::Identifier("a".to_string()),
            lexeme: "a".to_string(),
            line: 1,
        },
        TokenInstance {
            token_type: Token::Comma,
            lexeme: ",".to_string(),
            line: 1,
        },
        TokenInstance {
            token_type: Token::Identifier("b".to_string()),
            lexeme: "b".to_string(),
            line: 1,
        },
        TokenInstance {
            token_type: Token::RightParen,
            lexeme: ")".to_string(),
            line: 1,
        },
        TokenInstance {
            token_type: Token::LeftBrace,
            lexeme: "{".to_string(),
            line: 1,
        },
        TokenInstance {
            token_type: Token::Return,
            lexeme: "return".to_string(),
            line: 2,
        },
        TokenInstance {
            token_type: Token::Identifier("a".to_string()),
            lexeme: "a".to_string(),
            line: 2,
        },
        TokenInstance {
            token_type: Token::Plus,
            lexeme: "+".to_string(),
            line: 2,
        },
        TokenInstance {
            token_type: Token::Identifier("b".to_string()),
            lexeme: "b".to_string(),
            line: 2,
        },
        TokenInstance {
            token_type: Token::Semicolon,
            lexeme: ";".to_string(),
            line: 2,
        },
        TokenInstance {
            token_type: Token::RightBrace,
            lexeme: "}".to_string(),
            line: 3,
        },
        TokenInstance {
            token_type: Token::Eof,
            lexeme: "".to_string(),
            line: 3,
        },
    ];

    assert_eq!(scan(&input, &HostFloat).unwrap(), expected);
}

#[test]
fn lib_scan_test_numerics() {
    let input = "120,120.5,121".to_string();

    let expected = vec![
        TokenInstance {
            token_type: Token::Number(120.0f64.to_bits()),
            lexeme: "120".to_string(),
            line: 1,
        },
        TokenInstance {
            token_type: Token::Comma,
            lexeme: ",".to_string(),
            line: 1,
        },
        TokenInstance {
            token_type: Token::Number(120.5f64.to_bits()),
            lexeme: "120.5".to_string(),
            line: 1,
        },
        TokenInstance {
            token_type: Token::Comma,
            lexeme: ",".to_string(),
            line: 1,
        },
        TokenInstance {
            token_type: Token::Number(121.0f64.to_bits()),
            lexeme: "121".to_string(),
            line: 1,
        },
        TokenInstance {
            token_type: Token::Eof,
            lexeme: "".to_string(),
            line: 1,
        },
    ];

    assert_eq!(scan(&input, &HostFloat).unwrap(), expected);
}

#[test]
fn scan_scan_test_arithmetic_operators() {
    let input = "=+".to_string();

    let expected = vec![
        TokenInstance {
            token_type: Token::Equal,
            lexeme: "=".to_string(),
            line: 1,
        },
        TokenInstance {
            token_type: Token::Plus,
            lexeme: "+".to_string(),
            line: 1,
        },
        TokenInstance {
            token_type: Token::Eof,
            lexeme: "".to_string(),
            line: 1,
        },
    ];

    assert_eq!(scan(&input, &HostFloat).unwrap(), expected);
}

#[test]
fn scan_scan_test_arithmetic_expression_with_spaces() {
    let input = " a = 1 + 2 ; ".to_string();

    let expected = vec![
        TokenInstance {
            token_type: Token::Identifier("a".to_string()),
            lexeme: "a".to_string(),
            line: 1,
        },
        TokenInstance {
            token_type: Token::Equal,
            lexeme: "=".to_string(),
            line: 1,
        },
        TokenInstance {
            token_type: Token::Number(1.0f64.to_bits()),
            lexeme: "1".to_string(),
            line: 1,
        },
        TokenInstance {
            token_type: Token::Plus,
            lexeme: "+".to_string(),
            line: 1,
        },
        TokenInstance {
            token_type: Token::Number(2.0f64.to_bits()),
            lexeme: "2".to_string(),
            line: 1,
        },
        TokenInstance {
            token_type: Token::Semicolon,
            lexeme: ";".to_string(),
            line: 1,
        },
        TokenInstance {
            token_type: Token::Eof,
            lexeme: "".to_string(),
            line: 1,
        },
    ];

    assert_eq!(scan(&input, &HostFloat).unwrap(), expected);
}

#[test]
fn scan_scan_test_arithmetic_expression() {
    let input = "a=1+2;".to_string();

    let expected = vec![
        TokenInstance {
            token_type: Token::Identifier("a".to_string()),
            lexeme: "a".to_string(),
            line: 1,
        },
        TokenInstance {
            token_type: Token::Equal,
            lexeme: "=".to_string(),
            line: 1,
        },
        TokenInstance {
            token_type: Token::Number(1.0f64.to_bits()),
            lexeme: "1".to_string(),
            line: 1,
        },
        TokenInstance {
            token_type: Token::Plus,
            lexeme: "+".to_string(),
            line: 1,
        },
        TokenInstance {
            token_type: Token::Number(2.0f64.to_bits()),
            lexeme: "2".to_string(),
            line: 1,
        },
        TokenInstance {
            token_type: Token::Semicolon,
            lexeme: ";".to_string(),
            line: 1,
        },
        TokenInstance {
            token_type: Token::Eof,
            lexeme: "".to_string(),
            line: 1,
        },
    ];

    assert_eq!(scan(&input, &HostFloat).unwrap(), expected);
}

#[test]
fn scan_scan_test_new_lines() {
    let input = "a=\r\nb+c".to_string();

    let expected = vec![
        TokenInstance {
            token_type: Token::Identifier("a".to_string()),
            lexeme: "a".to_string(),
            line: 1,
        },
        TokenInstance {
            token_type: Token::Equal,
            lexeme: "=".to_string(),
            line: 1,
        },
        TokenInstance {
            token_type: Token::Identifier("b".to_string()),
            lexeme: "b".to_string(),
            line: 2,
        },
        TokenInstance {
            token_type: Token::Plus,
            lexeme: "+".to_string(),
            line: 2,
        },
        TokenInstance {
            token_type: Token::Identifier("c".to_string()),
            lexeme: "c".to_string(),
            line: 2,
        },
        TokenInstance {
            token_type: Token::Eof,
            lexeme: "".to_string(),
            line: 2,
        },
    ];

    assert_eq!(scan(&input, &HostFloat).unwrap(), expected);
}

#[test]
fn scan_scan_test_function() {
    let input = "fun addPair(a, b) {\nreturn a + b;\n}".to_string();

    let expected = vec![
        TokenInstance {
            token_type: Token::Fun,
            lexeme: "fun".to_string(),
            line: 1,
        },
        TokenInstance {
            token_type: Token::Identifier("addPair".to_string()),
            lexeme: "addPair".to_string(),
            line: 1,
        },
        TokenInstance {
            token_type: Token::LeftParen,
            lexeme: "(".to_string(),
            line: 1,
        },
        TokenInstance {
            token_type: Token::Identifier("a".to_string()),
            lexeme: "a".to_string(),
            line: 1,
        },
        TokenInstance {
            token_type: Token::Comma,
            lexeme: ",".to_string(),
            line: 1,
        },
        TokenInstance {
            token_type: Token::Identifier("b".to_string()),
            lexeme: "b".to_string(),
            line: 1,
        },
        TokenInstance {
            token_type: Token::RightParen,
            lexeme: ")".to_string(),
            line: 1,
        },
        TokenInstance {
            token_type: Token::LeftBrace,
            lexeme: "{".to_string(),
            line: 1,
        },
        TokenInstance {
            token_type: Token::Return,
            lexeme: "return".to_string(),
            line: 2,
        },
        TokenInstance {
            token_type: Token::Identifier("a".to_string()),
            lexeme: "a".to_string(),
            line: 2,
        },
        TokenInstance {
            token_type: Token::Plus,
            lexeme: "+".to_string(),
            line: 2,
        },
        TokenInstance {
            token_type: Token::Identifier("b".to_string()),
            lexeme: "b".to_string(),
            line: 2,
        },
        TokenInstance {
            token_type: Token::Semicolon,
            lexeme: ";".to_string(),
            line: 2,
        },
        TokenInstance {
            token_type: Token::RightBrace,
            lexeme: "}".to_string(),
            line: 3,
        },
        TokenInstance {
            token_type: Token::Eof,
            lexeme: "".to_string(),
            line: 3,
        },
    ];

    assert_eq!(scan(&input, &HostFloat).unwrap(), expected);
}

#[test]
fn scan_scan_test_numerics() {
    let input = "120,120.5,121".to_string();

    let expected = vec![
        TokenInstance {
            token_type: Token::Number(120.0f64.to_bits()),
            lexeme: "120".to_string(),
            line: 1,
        },
        TokenInstance {
            token_type: Token::Comma,
            lexeme: ",".to_string(),
            line: 1,
        },
        TokenInstance {
            token_type: Token::Number(120.5f64.to_bits()),
            lexeme: "120.5".to_string(),
            line: 1,
        },
        TokenInstance {
            token_type: Token::Comma,
            lexeme: ",".to_string(),
            line: 1,
        },
        TokenInstance {
            token_type: Token::Number(121.0f64.to_bits()),
            lexeme: "121".to_string(),
            line: 1,
        },
        TokenInstance {
            token_type: Token::Eof,
            lexeme: "".to_string(),
            line: 1,
        },
    ];

    assert_eq!(scan(&input, &HostFloat).unwrap(), expected);
}

#[test]
fn lib_test_scan_quoted_string() {
    let input = "\"Justin\"";
    let token = Token::String("Justin".to_string());
    let items = scan(input, &HostFloat).unwrap();
    assert_eq!(items[0].token_type, token);
    assert_eq!(items[0].lexeme, "Justin");
    assert_eq!(items.len(), 2);
}

#[test]
fn lib_test_scan_quoted_string_fail() {
    let input = "\"Justin";
    let r = scan(input, &HostFloat);
    assert!(r.is_err());
    assert_eq!(r, Err(ScanError::UnterminatedString(1)));
}

#[test]
fn lib_test_scan_assignment_statement() {
    let input = "string \"Justin\"";
    let items = scan(input, &HostFloat).unwrap();
    println!("{:?}", items);
    assert!(items.len() == 3);
}

#[test]
fn lib_test_scan_multiple_quoted_string() {
    let input = "\"Justin\"\"Was\"\"Here\"";
    let items = scan(input, &HostFloat).unwrap();
    println!("{:?}", items);
    assert!(items.len() == 4);
}

#[test]
fn scan_test_scan_quoted_string() {
    let input = "\"Justin\"";
    let token = Token::String("Justin".to_string());
    let items = scan(input, &HostFloat).unwrap();
    assert_eq!(items[0].token_type, token);
    assert_eq!(items[0].lexeme, "Justin");
    assert_eq!(items.len(), 2);
}

#[test]
fn scan_test_scan_quoted_string_fail() {
    let input = "\"Justin";
    let r = scan(input, &HostFloat);
    assert!(r.is_err());
    assert_eq!(r, Err(ScanError::UnterminatedString(1)));
}

#[test]
fn scan_test_scan_assignment_statement() {
    let input = "string \"Justin\"";
    let items = scan(input, &HostFloat).unwrap();
    println!("{:?}", items);
    assert!(items.len() == 3);
}

#[test]
fn scan_test_scan_multiple_quoted_string() {
    let input = "\"Justin\"\"Was\"\"Here\"";
    let items = scan(input, &HostFloat).unwrap();
    println!("{:?}", items);
    assert!(items.len() == 4);
}

#[test]
fn scan_comment_and_keywords() {
    let items = scan("var x = nil; // trailing words\nwhile", &HostFloat).unwrap();
    let kinds: Vec<Token> = items.into_iter().map(|t| t.token_type).collect();
    assert_eq!(
        kinds,
        vec![
            Token::Var,
            Token::Identifier("x".to_string()),
            Token::Equal,
            Token::Nil,
            Token::Semicolon,
            Token::While,
            Token::Eof,
        ]
    );
}

#[test]
fn scan_two_character_operators() {
    let items = scan("!= == >= <= ! < > / ", &HostFloat).unwrap();
    let kinds: Vec<Token> = items.into_iter().map(|t| t.token_type).collect();
    assert_eq!(
        kinds,
        vec![
            Token::BangEqual,
            Token::EqualEqual,
            Token::GreaterEqual,
            Token::LessEqual,
            Token::Bang,
            Token::Less,
            Token::Greater,
            Token::Slash,
            Token::Eof,
        ]
    );
}

#[test]
fn scan_unexpected_character() {
    assert_eq!(scan("a\n @", &HostFloat), Err(ScanError::UnexpectedChar('@', 2)));
}

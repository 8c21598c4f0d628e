use rlox::ast::{Expr, Stmt, Token, TokenInstance};
use rlox::env::EvalState;
use rlox::error::{RuntimeError, RuntimeErrorKind};
use rlox::eval::{eval_expression, eval_statement, eval_statements};
use rlox::reparse::{is_renderable, render_tokens};
use rlox::grammar::ParseErrorKind;
use rlox::parse::{parse, ParseError};
use rlox::scan::scan;
use rlox::value::{ArithOp, FloatArithmetic, Operator, Value};

struct HostFloat;

impl FloatArithmetic for HostFloat {
    fn apply(&self, op: ArithOp, a: u64, b: u64) -> u64 {
        let (x, y) = (f64::from_bits(a), f64::from_bits(b));
        let r = match op {
            ArithOp::Add => x + y,
            ArithOp::Sub => x - y,
            ArithOp::Mul => x * y,
            ArithOp::Div => x / y,
        };
        r.to_bits()
    }

    fn from_decimal(&self, numeral: &str) -> u64 {
        numeral.parse::<f64>().unwrap().to_bits()
    }
}

/// Arithmetic that must never be asked for a result.
struct NoArithmetic;

impl FloatArithmetic for NoArithmetic {
    fn apply(&self, _op: ArithOp, _a: u64, _b: u64) -> u64 {
        panic!("arithmetic was evaluated")
    }

    fn from_decimal(&self, numeral: &str) -> u64 {
        numeral.parse::<f64>().unwrap().to_bits()
    }
}

fn num(x: f64) -> Value {
    Value::Number(x.to_bits())
}

fn lit(x: f64) -> Box<Expr> {
    Box::new(Expr::Literal(num(x)))
}

fn parse_source(source: &str) -> Result<Vec<Stmt>, ParseError> {
    let tokens = scan(source, &HostFloat).unwrap();
    parse(&tokens)
}

fn run_in(source: &str, state: &mut EvalState, arith: &impl FloatArithmetic) -> (Result<(), RuntimeError>, Vec<Value>) {
    let program = parse_source(source).unwrap();
    let mut out = Vec::new();
    let r = eval_statements(&program, state, arith, &mut out, 1_000);
    (r, out)
}

fn run(source: &str) -> (Result<(), RuntimeError>, Vec<Value>) {
    let mut state = EvalState::new();
    run_in(source, &mut state, &HostFloat)
}

fn error_kind(source: &str) -> RuntimeErrorKind {
    run(source).0.unwrap_err().kind
}

fn parse_error_kind(source: &str) -> ParseErrorKind {
    parse_source(source).unwrap_err().kind
}

#[test]
fn precedence_groups_factor_under_term() {
    let program = parse_source("1 + 2 * 3;").unwrap();
    let expected = vec![Stmt::Expression(Expr::Binary(
        lit(1.0),
        Operator::Plus,
        Box::new(Expr::Binary(lit(2.0), Operator::Star, lit(3.0))),
    ))];
    assert_eq!(program, expected);
}

#[test]
fn subtraction_is_left_associative() {
    let program = parse_source("1 - 2 - 3;").unwrap();
    let expected = vec![Stmt::Expression(Expr::Binary(
        Box::new(Expr::Binary(lit(1.0), Operator::Minus, lit(2.0))),
        Operator::Minus,
        lit(3.0),
    ))];
    assert_eq!(program, expected);
    assert_eq!(run("print 1 - 2 - 3;").1, vec![num(-4.0)]);
}

#[test]
fn eval_expression_of_parsed_subtraction() {
    let program = parse_source("1 - 2 - 3;").unwrap();
    let mut state = EvalState::new();
    match &program[0] {
        Stmt::Expression(e) => assert_eq!(eval_expression(e, &mut state, &HostFloat), Ok(num(-4.0))),
        _ => panic!("expected an expression statement"),
    }
}

#[test]
fn equality_across_kinds_is_false() {
    assert_eq!(run("print 1 == \"1\";").1, vec![Value::Boolean(false)]);
    assert_eq!(run("print 1 != \"1\";").1, vec![Value::Boolean(true)]);
    assert_eq!(run("print nil == false;").1, vec![Value::Boolean(false)]);
    assert_eq!(run("print nil == nil;").1, vec![Value::Boolean(true)]);
    assert_eq!(run("print \"a\" == \"a\";").1, vec![Value::Boolean(true)]);
}

#[test]
fn and_short_circuits() {
    let mut state = EvalState::new();
    let (r, out) = run_in("print false and (1/0);", &mut state, &NoArithmetic);
    assert_eq!(r, Ok(()));
    assert_eq!(out, vec![Value::Boolean(false)]);
}

#[test]
fn or_short_circuits_and_returns_operand() {
    let mut state = EvalState::new();
    let (r, out) = run_in("print \"yes\" or (1/0);", &mut state, &NoArithmetic);
    assert_eq!(r, Ok(()));
    assert_eq!(out, vec![Value::String("yes".to_string())]);
    assert_eq!(run("print nil or \"x\";").1, vec![Value::String("x".to_string())]);
    assert_eq!(run("print \"\" or \"x\";").1, vec![Value::String("".to_string())]);
    assert_eq!(run("print 1 and 2;").1, vec![num(2.0)]);
}

#[test]
fn inner_declaration_does_not_leak() {
    let (r, out) = run("var a = 1;\n{ var a = 2; }\nprint a;");
    assert_eq!(r, Ok(()));
    assert_eq!(out, vec![num(1.0)]);
}

#[test]
fn assignment_in_block_mutates_outer_binding() {
    let (r, out) = run("var a = 1;\n{ a = 2; }\nprint a;");
    assert_eq!(r, Ok(()));
    assert_eq!(out, vec![num(2.0)]);
}

#[test]
fn uninitialized_read_differs_from_unknown_read() {
    assert_eq!(
        error_kind("var a; print a;"),
        RuntimeErrorKind::UninitializedVariable("a".to_string())
    );
    assert_eq!(error_kind("print b;"), RuntimeErrorKind::UnknownVariable("b".to_string()));
}

#[test]
fn for_loop_prints_in_order_and_scopes_its_variable() {
    let (r, out) = run("for (var i = 0; i < 3; i = i + 1) print i;");
    assert_eq!(r, Ok(()));
    assert_eq!(out, vec![num(0.0), num(1.0), num(2.0)]);
    let (r, out) = run("for (var i = 0; i < 3; i = i + 1) print i;\nprint i;");
    assert_eq!(out, vec![num(0.0), num(1.0), num(2.0)]);
    assert_eq!(r.unwrap_err().kind, RuntimeErrorKind::UnknownVariable("i".to_string()));
}

#[test]
fn for_loop_is_desugared() {
    let program = parse_source("for (var i = 0; i < 3; i = i + 1) print i;").unwrap();
    let expected = vec![Stmt::Block(vec![
        Stmt::VarDecl("i".to_string(), Some(Expr::Literal(num(0.0)))),
        Stmt::While(
            Expr::Binary(Box::new(Expr::Variable("i".to_string())), Operator::Less, lit(3.0)),
            vec![
                Stmt::Print(Expr::Variable("i".to_string())),
                Stmt::Expression(Expr::Assign(
                    "i".to_string(),
                    Box::new(Expr::Binary(
                        Box::new(Expr::Variable("i".to_string())),
                        Operator::Plus,
                        lit(1.0),
                    )),
                )),
            ],
        ),
    ])];
    assert_eq!(program, expected);
}

#[test]
fn for_loop_without_clauses() {
    let program = parse_source("for (;;) print 1;").unwrap();
    let expected = vec![Stmt::While(
        Expr::Literal(Value::Boolean(true)),
        vec![Stmt::Print(Expr::Literal(num(1.0)))],
    )];
    assert_eq!(program, expected);
    assert_eq!(error_kind("for (;;) print 1;"), RuntimeErrorKind::StepLimitReached);
}

#[test]
fn while_loop_counts() {
    let (r, out) = run("var n = 0; while (n < 2) { n = n + 1; print n; }");
    assert_eq!(r, Ok(()));
    assert_eq!(out, vec![num(1.0), num(2.0)]);
}

#[test]
fn step_limit_stops_endless_loop() {
    let program = parse_source("while (true) {}").unwrap();
    let mut state = EvalState::new();
    let mut out = Vec::new();
    let r = eval_statements(&program, &mut state, &HostFloat, &mut out, 10);
    assert_eq!(r.unwrap_err().kind, RuntimeErrorKind::StepLimitReached);
}

#[test]
fn if_else_follows_truthiness() {
    assert_eq!(run("if (nil) print 1; else print 2;").1, vec![num(2.0)]);
    assert_eq!(run("if (0) print 1; else print 2;").1, vec![num(1.0)]);
    assert_eq!(run("if (false) print 1;").1, vec![]);
}

#[test]
fn string_concatenation_and_its_errors() {
    assert_eq!(run("print \"a\" + \"b\";").1, vec![Value::String("ab".to_string())]);
    assert_eq!(
        error_kind("print \"x\" + 1;"),
        RuntimeErrorKind::Arithmetic(Operator::Plus, Value::String("x".to_string()), num(1.0))
    );
    assert_eq!(
        error_kind("print 1 + \"x\";"),
        RuntimeErrorKind::Arithmetic(Operator::Plus, num(1.0), Value::String("x".to_string()))
    );
}

#[test]
fn arithmetic_results() {
    assert_eq!(run("print 7 * 6; print 1 / 4; print 2 - 5;").1, vec![num(42.0), num(0.25), num(-3.0)]);
    assert_eq!(run("print 1 / 0;").1, vec![num(f64::INFINITY)]);
    assert_eq!(run("print -(3);").1, vec![num(-3.0)]);
}

#[test]
fn number_comparisons_follow_ieee() {
    assert_eq!(
        run("print 1 < 2; print 2 <= 2; print 3 > 4; print 4 >= 5;").1,
        vec![Value::Boolean(true), Value::Boolean(true), Value::Boolean(false), Value::Boolean(false)]
    );
    assert_eq!(run("print 0/0 == 0/0;").1, vec![Value::Boolean(false)]);
    assert_eq!(run("print 0/0 < 1; print 0/0 >= 1;").1, vec![Value::Boolean(false), Value::Boolean(false)]);
    assert_eq!(run("print -0 == 0;").1, vec![Value::Boolean(true)]);
    assert_eq!(run("print -1 < -0.5;").1, vec![Value::Boolean(true)]);
}

#[test]
fn unary_operators() {
    assert_eq!(run("print !nil; print !0; print !!true;").1, vec![
        Value::Boolean(true),
        Value::Boolean(false),
        Value::Boolean(true),
    ]);
    assert_eq!(error_kind("print -\"a\";"), RuntimeErrorKind::Negation(Value::String("a".to_string())));
}

#[test]
fn comparison_error_names_operator_and_operands() {
    assert_eq!(
        error_kind("print 1 < \"a\";"),
        RuntimeErrorKind::Comparison(Operator::Less, num(1.0), Value::String("a".to_string()))
    );
}

#[test]
fn assignment_to_undeclared_name_fails() {
    assert_eq!(error_kind("b = 1;"), RuntimeErrorKind::UnknownAssignmentTarget("b".to_string()));
}

#[test]
fn assignment_is_an_expression() {
    assert_eq!(run("var a; var b; a = b = 3; print a; print b;").1, vec![num(3.0), num(3.0)]);
}

#[test]
fn calls_parse_but_do_not_evaluate() {
    let program = parse_source("f(1, 2);").unwrap();
    let expected = vec![Stmt::Expression(Expr::Call(
        Box::new(Expr::Variable("f".to_string())),
        vec![Expr::Literal(num(1.0)), Expr::Literal(num(2.0))],
    ))];
    assert_eq!(program, expected);
    assert_eq!(error_kind("f(1, 2);"), RuntimeErrorKind::UnsupportedCall);
}

#[test]
fn call_argument_limit() {
    let args = vec!["1"; 255].join(", ");
    assert!(parse_source(&format!("f({});", args)).is_ok());
    let args = vec!["1"; 256].join(", ");
    assert_eq!(parse_error_kind(&format!("f({});", args)), ParseErrorKind::TooManyArguments);
}

#[test]
fn runtime_error_stops_the_statement_list() {
    let (r, out) = run("print 1; print x; print 2;");
    assert_eq!(out, vec![num(1.0)]);
    assert_eq!(r.unwrap_err().kind, RuntimeErrorKind::UnknownVariable("x".to_string()));
}

#[test]
fn global_scope_persists_between_runs() {
    let mut state = EvalState::new();
    let (r, _) = run_in("var a = 5;", &mut state, &HostFloat);
    assert_eq!(r, Ok(()));
    let (r, _) = run_in("print a + b;", &mut state, &HostFloat);
    assert!(r.is_err());
    let (r, out) = run_in("print a;", &mut state, &HostFloat);
    assert_eq!(r, Ok(()));
    assert_eq!(out, vec![num(5.0)]);
}

#[test]
fn scope_chain_methods() {
    let mut state = EvalState::new();
    state.declare(&"a".to_string(), Some(num(1.0)));
    let mut child = EvalState::new_from_parent(state);
    assert_eq!(child.depth(), 2);
    assert_eq!(child.lookup("a"), Ok(num(1.0)));
    child.declare(&"a".to_string(), None);
    assert_eq!(
        child.lookup("a").unwrap_err().kind,
        RuntimeErrorKind::UninitializedVariable("a".to_string())
    );
    assert_eq!(child.assign("a", &num(2.0)), Ok(num(2.0)));
    child.pop_scope();
    assert_eq!(child.lookup("a"), Ok(num(1.0)));
    assert_eq!(
        child.assign("zzz", &num(2.0)).unwrap_err().kind,
        RuntimeErrorKind::UnknownAssignmentTarget("zzz".to_string())
    );
}

#[test]
fn parse_errors_name_the_offending_token() {
    let e = parse_source("print (1;").unwrap_err();
    assert_eq!(e.kind, ParseErrorKind::Expected(Token::RightParen));
    assert_eq!(e.lexeme, ";");
    assert_eq!(e.line, 1);
    let e = parse_source("var a = 1;\n1 = 2;").unwrap_err();
    assert_eq!(e.kind, ParseErrorKind::InvalidAssignmentTarget);
    assert_eq!(e.lexeme, "=");
    assert_eq!(e.line, 2);
    assert_eq!(parse_error_kind("var 1;"), ParseErrorKind::ExpectedIdentifier);
    assert_eq!(parse_error_kind("{ var a;"), ParseErrorKind::UnclosedBlock);
    assert_eq!(parse_error_kind("print ;"), ParseErrorKind::ExpectedExpression);
    assert_eq!(parse_error_kind("print 1 print 2;"), ParseErrorKind::Expected(Token::Semicolon));
    assert_eq!(parse_error_kind("while 1) print 1;"), ParseErrorKind::Expected(Token::LeftParen));
}

#[test]
fn statement_terminator_is_required_at_end() {
    assert_eq!(parse_error_kind("print 1"), ParseErrorKind::Expected(Token::Semicolon));
    assert_eq!(parse_error_kind("var x"), ParseErrorKind::Expected(Token::Semicolon));
    assert_eq!(parse_error_kind("var x = 1"), ParseErrorKind::Expected(Token::Semicolon));
    assert_eq!(run("print 1;").1, vec![num(1.0)]);
    let tokens = vec![TokenInstance { token_type: Token::Eof, lexeme: String::new(), line: 1 }];
    assert_eq!(parse(&tokens), Ok(vec![]));
}

#[test]
fn reparse_of_fully_parenthesised_rendering() {
    let program = parse_source("((1 + 2) * (-3));").unwrap();
    let expected = vec![Stmt::Expression(Expr::Grouping(Box::new(Expr::Binary(
        Box::new(Expr::Grouping(Box::new(Expr::Binary(lit(1.0), Operator::Plus, lit(2.0))))),
        Operator::Star,
        Box::new(Expr::Grouping(Box::new(Expr::Unary(Operator::Minus, lit(3.0))))),
    ))))];
    assert_eq!(program, expected);
    let program = parse_source("((true and nil) or (!false));").unwrap();
    let expected = vec![Stmt::Expression(Expr::Grouping(Box::new(Expr::Logical(
        Box::new(Expr::Grouping(Box::new(Expr::Logical(
            Box::new(Expr::Literal(Value::Boolean(true))),
            Operator::And,
            Box::new(Expr::Literal(Value::Nil)),
        )))),
        Operator::Or,
        Box::new(Expr::Grouping(Box::new(Expr::Unary(
            Operator::Bang,
            Box::new(Expr::Literal(Value::Boolean(false))),
        )))),
    ))))];
    assert_eq!(program, expected);
}

#[test]
fn grouping_overrides_precedence() {
    assert_eq!(run("print (1 + 2) * 3;").1, vec![num(9.0)]);
    assert_eq!(run("print 1 + 2 * 3;").1, vec![num(7.0)]);
}

#[test]
fn equality_binds_looser_than_comparison() {
    let program = parse_source("1 < 2 == true;").unwrap();
    let expected = vec![Stmt::Expression(Expr::Binary(
        Box::new(Expr::Binary(lit(1.0), Operator::Less, lit(2.0))),
        Operator::EqualEqual,
        Box::new(Expr::Literal(Value::Boolean(true))),
    ))];
    assert_eq!(program, expected);
}

#[test]
fn and_binds_tighter_than_or() {
    let program = parse_source("a or b and c;").unwrap();
    let var = |n: &str| Box::new(Expr::Variable(n.to_string()));
    let expected = vec![Stmt::Expression(Expr::Logical(
        var("a"),
        Operator::Or,
        Box::new(Expr::Logical(var("b"), Operator::And, var("c"))),
    ))];
    assert_eq!(program, expected);
}

#[test]
fn unsupported_operator_positions_are_errors() {
    let mut state = EvalState::new();
    let e = Expr::Unary(Operator::Plus, lit(1.0));
    assert_eq!(
        eval_expression(&e, &mut state, &HostFloat).unwrap_err().kind,
        RuntimeErrorKind::UnsupportedOperator(Operator::Plus)
    );
    let e = Expr::Binary(lit(1.0), Operator::And, lit(2.0));
    assert_eq!(
        eval_expression(&e, &mut state, &HostFloat).unwrap_err().kind,
        RuntimeErrorKind::UnsupportedOperator(Operator::And)
    );
    let e = Expr::Logical(lit(1.0), Operator::Plus, lit(2.0));
    assert_eq!(
        eval_expression(&e, &mut state, &HostFloat).unwrap_err().kind,
        RuntimeErrorKind::UnsupportedOperator(Operator::Plus)
    );
}

#[test]
fn block_scope_shadowing_and_while_bodies() {
    let (r, out) = run("var a = 1; { var a = a + 1; print a; { a = 10; var a = 3; print a; } print a; } print a;");
    assert_eq!(r, Ok(()));
    assert_eq!(out, vec![num(2.0), num(3.0), num(10.0), num(1.0)]);
}

#[test]
fn default_scope_chain_is_one_empty_scope() {
    let state = EvalState::default();
    assert_eq!(state.depth(), 1);
    assert_eq!(state.lookup("a").unwrap_err().kind, RuntimeErrorKind::UnknownVariable("a".to_string()));
}

#[test]
fn rendered_tokens_parse_back_up_to_groupings() {
    let e = Expr::Binary(
        Box::new(Expr::Binary(lit(1.0), Operator::Minus, lit(2.0))),
        Operator::Minus,
        Box::new(Expr::Unary(Operator::Minus, lit(3.0))),
    );
    assert!(is_renderable(&e));
    let tokens = render_tokens(&e);
    assert_eq!(
        tokens,
        vec![
            Token::LeftParen,
            Token::LeftParen,
            Token::Number(1.0f64.to_bits()),
            Token::Minus,
            Token::Number(2.0f64.to_bits()),
            Token::RightParen,
            Token::Minus,
            Token::LeftParen,
            Token::Minus,
            Token::Number(3.0f64.to_bits()),
            Token::RightParen,
            Token::RightParen,
        ]
    );
    let mut instances: Vec<TokenInstance> = tokens
        .into_iter()
        .map(|t| TokenInstance { token_type: t, lexeme: String::new(), line: 1 })
        .collect();
    instances.push(TokenInstance { token_type: Token::Semicolon, lexeme: ";".to_string(), line: 1 });
    instances.push(TokenInstance { token_type: Token::Eof, lexeme: String::new(), line: 1 });
    let expected = vec![Stmt::Expression(Expr::Grouping(Box::new(Expr::Binary(
        Box::new(Expr::Grouping(Box::new(Expr::Binary(lit(1.0), Operator::Minus, lit(2.0))))),
        Operator::Minus,
        Box::new(Expr::Grouping(Box::new(Expr::Unary(Operator::Minus, lit(3.0))))),
    ))))];
    assert_eq!(parse(&instances), Ok(expected));
    assert!(!is_renderable(&Expr::Variable("x".to_string())));
}

#[test]
fn eval_statement_runs_one_statement() {
    let program = parse_source("var a = 2; print a * 3;").unwrap();
    let mut state = EvalState::new();
    let mut out = Vec::new();
    for s in &program {
        assert_eq!(eval_statement(s, &mut state, &HostFloat, &mut out, 10), Ok(()));
    }
    assert_eq!(out, vec![num(6.0)]);
}

#[test]
fn mixed_precedence_levels() {
    let program = parse_source("1 * 2 + 3;").unwrap();
    let expected = vec![Stmt::Expression(Expr::Binary(
        Box::new(Expr::Binary(lit(1.0), Operator::Star, lit(2.0))),
        Operator::Plus,
        lit(3.0),
    ))];
    assert_eq!(program, expected);
    let program = parse_source("a == b or c;").unwrap();
    let var = |n: &str| Box::new(Expr::Variable(n.to_string()));
    let expected = vec![Stmt::Expression(Expr::Logical(
        Box::new(Expr::Binary(var("a"), Operator::EqualEqual, var("b"))),
        Operator::Or,
        var("c"),
    ))];
    assert_eq!(program, expected);
}

#[test]
fn declarations_are_not_statements() {
    let e = parse_source("if (a) var x;").unwrap_err();
    assert_eq!(e.kind, ParseErrorKind::ExpectedExpression);
    assert_eq!(e.lexeme, "var");
    assert_eq!(parse_error_kind("if (a) print 1; else var x;"), ParseErrorKind::ExpectedExpression);
    assert_eq!(parse_error_kind("while (a) var x;"), ParseErrorKind::ExpectedExpression);
    assert_eq!(parse_error_kind("for (;;) var x;"), ParseErrorKind::ExpectedExpression);
    let program = parse_source("if (a) { var x; }").unwrap();
    let expected = vec![Stmt::If(
        Expr::Variable("a".to_string()),
        vec![Stmt::Block(vec![Stmt::VarDecl("x".to_string(), None)])],
        vec![],
    )];
    assert_eq!(program, expected);
}

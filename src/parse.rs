//! The recursive-descent parser: one cursor over an immutable token slice,
//! one token of lookahead, no recovery.
use vstd::prelude::*;
use crate::ast::{Expr, Stmt, Token, TokenInstance};
use crate::grammar;
use grammar::{Failure, ParseErrorKind, MAX_ARGUMENTS};
use crate::value::{Operator, Value};

verus! {

/// A parse failure: what went wrong, and the text and line of the token at
/// which it was found.
#[derive(Debug, Clone, PartialEq)]
pub struct ParseError {
    pub kind: ParseErrorKind,
    pub lexeme: String,
    pub line: usize,
}

impl ParseError {
    /// The error reports the failure `f` of the model on the tokens `ts`.
    pub open spec fn reports(self, ts: Seq<TokenInstance>, f: Failure) -> bool {
        &&& self.kind == f.kind
        &&& 0 <= f.at < ts.len()
        &&& self.lexeme@ == ts[f.at].lexeme@
        &&& self.line == ts[f.at].line
    }
}

/// An expression parse ended as the model says: the same tree and end
/// position, or an error that reports the model's failure.
pub open spec fn expr_outcome(
    r: Result<Expr, ParseError>,
    s: Result<(crate::ast::ExprModel, int), Failure>,
    ts: Seq<TokenInstance>,
    end: int,
) -> bool {
    match s {
        Ok((m, p)) => r is Ok && r->Ok_0@ == m && end == p,
        Err(f) => r is Err && r->Err_0.reports(ts, f),
    }
}

/// A statement parse ended as the model says.
pub open spec fn stmt_outcome(
    r: Result<Stmt, ParseError>,
    s: Result<(crate::ast::StmtModel, int), Failure>,
    ts: Seq<TokenInstance>,
    end: int,
) -> bool {
    match s {
        Ok((m, p)) => r is Ok && r->Ok_0@ == m && end == p,
        Err(f) => r is Err && r->Err_0.reports(ts, f),
    }
}

/// A statement list of one statement.
fn single(stmt: Stmt) -> (v: Vec<Stmt>)
    ensures
        crate::ast::stmts_model(v@) == seq![stmt@],
{
    let mut v: Vec<Stmt> = Vec::new();
    let ghost m = stmt@;
    v.push(stmt);
    proof {
        crate::ast::lemma_stmts_model_push(Seq::empty(), v@[0]);
        assert(Seq::<Stmt>::empty().push(v@[0]) =~= v@);
        assert(Seq::<crate::ast::StmtModel>::empty().push(m) =~= seq![m]);
    }
    v
}

fn error_at(ts: &[TokenInstance], pos: usize, kind: ParseErrorKind) -> (e: ParseError)
    requires
        pos < ts@.len(),
    ensures
        e.reports(ts@, Failure { kind, at: pos as int }),
{
    ParseError { kind, lexeme: ts[pos].lexeme.clone(), line: ts[pos].line }
}

fn is_eof(ts: &[TokenInstance], pos: usize) -> (r: bool)
    requires
        pos < ts@.len(),
    ensures
        r == (grammar::tok(ts@, pos as int) == Token::Eof),
{
    matches!(ts[pos].token_type, Token::Eof)
}

/// The current token; the cursor does not move.
fn peek<'a>(ts: &'a [TokenInstance], pos: usize) -> (r: &'a Token)
    requires
        pos < ts@.len(),
    ensures
        *r == grammar::tok(ts@, pos as int),
{
    &ts[pos].token_type
}

/// Returns the current token and moves the cursor past it, unless it is the
/// end marker: at the end the cursor stays.
fn advance<'a>(ts: &'a [TokenInstance], pos: &mut usize) -> (r: &'a TokenInstance)
    requires
        grammar::tokens_wf(ts@),
        *old(pos) < ts@.len(),
    ensures
        *r == ts@[*old(pos) as int],
        *final(pos) == grammar::after(ts@, *old(pos) as int),
        *final(pos) < ts@.len(),
{
    let current = *pos;
    if !is_eof(ts, current) {
        *pos = current + 1;
    }
    &ts[current]
}

/// Whether two tokens are the same.
fn same_token(a: &Token, b: &Token) -> (r: bool)
    ensures
        r == grammar::same_token(*a, *b),
{
    match (a, b) {
        (Token::Identifier(x), Token::Identifier(y)) => x.eq(y),
        (Token::String(x), Token::String(y)) => x.eq(y),
        (Token::Number(x), Token::Number(y)) => *x == *y,
        (Token::Equal, Token::Equal) => true,
        (Token::LeftParen, Token::LeftParen) => true,
        (Token::RightParen, Token::RightParen) => true,
        (Token::LeftBrace, Token::LeftBrace) => true,
        (Token::RightBrace, Token::RightBrace) => true,
        (Token::Comma, Token::Comma) => true,
        (Token::Dot, Token::Dot) => true,
        (Token::Minus, Token::Minus) => true,
        (Token::Plus, Token::Plus) => true,
        (Token::Semicolon, Token::Semicolon) => true,
        (Token::Star, Token::Star) => true,
        (Token::Bang, Token::Bang) => true,
        (Token::BangEqual, Token::BangEqual) => true,
        (Token::EqualEqual, Token::EqualEqual) => true,
        (Token::Greater, Token::Greater) => true,
        (Token::GreaterEqual, Token::GreaterEqual) => true,
        (Token::Less, Token::Less) => true,
        (Token::LessEqual, Token::LessEqual) => true,
        (Token::Slash, Token::Slash) => true,
        (Token::And, Token::And) => true,
        (Token::Class, Token::Class) => true,
        (Token::Else, Token::Else) => true,
        (Token::False, Token::False) => true,
        (Token::Fun, Token::Fun) => true,
        (Token::For, Token::For) => true,
        (Token::If, Token::If) => true,
        (Token::Nil, Token::Nil) => true,
        (Token::Or, Token::Or) => true,
        (Token::Print, Token::Print) => true,
        (Token::Return, Token::Return) => true,
        (Token::Super, Token::Super) => true,
        (Token::This, Token::This) => true,
        (Token::True, Token::True) => true,
        (Token::Var, Token::Var) => true,
        (Token::While, Token::While) => true,
        (Token::Eof, Token::Eof) => true,
        _ => false,
    }
}

/// Consumes the required token `t`; otherwise the cursor stays and the error
/// names `t`.
fn expect(ts: &[TokenInstance], pos: &mut usize, t: Token) -> (r: Result<(), ParseError>)
    requires
        grammar::tokens_wf(ts@),
        *old(pos) < ts@.len(),
    ensures
        *final(pos) < ts@.len(),
        match grammar::expect(ts@, t, *old(pos) as int) {
            Ok(p) => r is Ok && *final(pos) == p,
            Err(f) => r is Err && r->Err_0.reports(ts@, f) && *final(pos) == *old(pos),
        },
{
    let start = *pos;
    if same_token(peek(ts, start), &t) {
        advance(ts, pos);
        Ok(())
    } else {
        Err(error_at(ts, start, ParseErrorKind::Expected(t)))
    }
}

/// Whether the parser accepts the token sequence: it must end with the end
/// marker.
pub fn tokens_are_well_formed(ts: &[TokenInstance]) -> (r: bool)
    ensures
        r == grammar::tokens_wf(ts@),
{
    ts.len() > 0 && ts.len() < usize::MAX && matches!(ts[ts.len() - 1].token_type, Token::Eof)
}

/// Parses a whole program: declarations up to the end marker.
pub fn parse(input: &[TokenInstance]) -> (r: Result<Vec<Stmt>, ParseError>)
    requires
        grammar::tokens_wf(input@),
    ensures
        match grammar::program(input@, Seq::empty(), 0) {
            Ok(m) => r is Ok && crate::ast::stmts_model(r->Ok_0@) == m,
            Err(f) => r is Err && r->Err_0.reports(input@, f),
        },
{
    let mut statements: Vec<Stmt> = Vec::new();
    let mut pos: usize = 0;
    loop
        invariant
            grammar::tokens_wf(input@),
            pos < input@.len(),
            grammar::program(input@, crate::ast::stmts_model(statements@), pos as int)
                == grammar::program(input@, Seq::empty(), 0),
        decreases input@.len() - pos,
    {
        if is_eof(input, pos) {
            return Ok(statements);
        }
        let stmt = match parse_declaration(input, &mut pos) {
            Ok(s) => s,
            Err(e) => return Err(e),
        };
        proof {
            crate::ast::lemma_stmts_model_push(statements@, stmt);
        }
        statements.push(stmt);
    }
}

fn parse_expression(ts: &[TokenInstance], pos: &mut usize) -> (r: Result<Expr, ParseError>)
    requires
        grammar::tokens_wf(ts@),
        *old(pos) < ts@.len(),
    ensures
        *final(pos) < ts@.len(),
        r is Ok ==> *old(pos) < *final(pos),
        expr_outcome(r, grammar::expression(ts@, *old(pos) as int), ts@, *final(pos) as int),
    decreases ts@.len() - *old(pos), 16nat,
{
    parse_assignment(ts, pos)
}

fn parse_assignment(ts: &[TokenInstance], pos: &mut usize) -> (r: Result<Expr, ParseError>)
    requires
        grammar::tokens_wf(ts@),
        *old(pos) < ts@.len(),
    ensures
        *final(pos) < ts@.len(),
        r is Ok ==> *old(pos) < *final(pos),
        expr_outcome(r, grammar::assignment(ts@, *old(pos) as int), ts@, *final(pos) as int),
    decreases ts@.len() - *old(pos), 15nat,
{
    let expr = parse_or(ts, pos)?;
    if matches!(peek(ts, *pos), Token::Equal) {
        let equal_at = *pos;
        advance(ts, pos);
        let value = parse_assignment(ts, pos)?;
        match expr {
            Expr::Variable(name) => Ok(Expr::Assign(name, Box::new(value))),
            _ => Err(error_at(ts, equal_at, ParseErrorKind::InvalidAssignmentTarget)),
        }
    } else {
        Ok(expr)
    }
}

fn parse_or(ts: &[TokenInstance], pos: &mut usize) -> (r: Result<Expr, ParseError>)
    requires
        grammar::tokens_wf(ts@),
        *old(pos) < ts@.len(),
    ensures
        *final(pos) < ts@.len(),
        r is Ok ==> *old(pos) < *final(pos),
        expr_outcome(r, grammar::logic_or(ts@, *old(pos) as int), ts@, *final(pos) as int),
    decreases ts@.len() - *old(pos), 14nat,
{
    let ghost start = *pos as int;
    let mut expr = parse_and(ts, pos)?;
    loop
        invariant
            grammar::tokens_wf(ts@),
            start == *old(pos) as int,
            start < *pos < ts@.len(),
            grammar::logical_rest(ts@, Operator::Or, expr@, *pos as int)
                == grammar::logic_or(ts@, start),
        decreases ts@.len() - *pos,
    {
        if !matches!(peek(ts, *pos), Token::Or) {
            return Ok(expr);
        }
        advance(ts, pos);
        let right = parse_and(ts, pos)?;
        expr = Expr::Logical(Box::new(expr), Operator::Or, Box::new(right));
    }
}

fn parse_and(ts: &[TokenInstance], pos: &mut usize) -> (r: Result<Expr, ParseError>)
    requires
        grammar::tokens_wf(ts@),
        *old(pos) < ts@.len(),
    ensures
        *final(pos) < ts@.len(),
        r is Ok ==> *old(pos) < *final(pos),
        expr_outcome(r, grammar::logic_and(ts@, *old(pos) as int), ts@, *final(pos) as int),
    decreases ts@.len() - *old(pos), 13nat,
{
    let ghost start = *pos as int;
    let mut expr = parse_binary(ts, 0, pos)?;
    loop
        invariant
            grammar::tokens_wf(ts@),
            start == *old(pos) as int,
            start < *pos < ts@.len(),
            grammar::logical_rest(ts@, Operator::And, expr@, *pos as int)
                == grammar::logic_and(ts@, start),
        decreases ts@.len() - *pos,
    {
        if !matches!(peek(ts, *pos), Token::And) {
            return Ok(expr);
        }
        advance(ts, pos);
        let right = parse_binary(ts, 0, pos)?;
        expr = Expr::Logical(Box::new(expr), Operator::And, Box::new(right));
    }
}

/// The operator of the given precedence level that the token stands for.
fn binary_operator(level: u8, t: &Token) -> (r: Option<Operator>)
    ensures
        r == grammar::level_operator(level, *t),
{
    match (level, t) {
        (0, Token::BangEqual) => Some(Operator::BangEqual),
        (0, Token::EqualEqual) => Some(Operator::EqualEqual),
        (1, Token::Greater) => Some(Operator::Greater),
        (1, Token::GreaterEqual) => Some(Operator::GreaterEqual),
        (1, Token::Less) => Some(Operator::Less),
        (1, Token::LessEqual) => Some(Operator::LessEqual),
        (2, Token::Minus) => Some(Operator::Minus),
        (2, Token::Plus) => Some(Operator::Plus),
        (3, Token::Slash) => Some(Operator::Slash),
        (3, Token::Star) => Some(Operator::Star),
        _ => None,
    }
}

fn parse_operand(ts: &[TokenInstance], level: u8, pos: &mut usize) -> (r: Result<Expr, ParseError>)
    requires
        grammar::tokens_wf(ts@),
        *old(pos) < ts@.len(),
        level <= 3,
    ensures
        *final(pos) < ts@.len(),
        r is Ok ==> *old(pos) < *final(pos),
        expr_outcome(r, grammar::operand(ts@, level, *old(pos) as int), ts@, *final(pos) as int),
    decreases ts@.len() - *old(pos), 2 * (3 - level) as nat + 5,
{
    if level < 3 {
        parse_binary(ts, level + 1, pos)
    } else {
        parse_unary(ts, pos)
    }
}

/// One binary precedence level (0 equality, 1 comparison, 2 term,
/// 3 factor): operands joined by the level's operators, grouping to the left.
fn parse_binary(ts: &[TokenInstance], level: u8, pos: &mut usize) -> (r: Result<Expr, ParseError>)
    requires
        grammar::tokens_wf(ts@),
        *old(pos) < ts@.len(),
        level <= 3,
    ensures
        *final(pos) < ts@.len(),
        r is Ok ==> *old(pos) < *final(pos),
        expr_outcome(r, grammar::binary(ts@, level, *old(pos) as int), ts@, *final(pos) as int),
    decreases ts@.len() - *old(pos), 2 * (3 - level) as nat + 6,
{
    let ghost start = *pos as int;
    let mut expr = parse_operand(ts, level, pos)?;
    loop
        invariant
            grammar::tokens_wf(ts@),
            level <= 3,
            start == *old(pos) as int,
            start < *pos < ts@.len(),
            grammar::binary_rest(ts@, level, expr@, *pos as int) == grammar::binary(ts@, level, start),
        decreases ts@.len() - *pos,
    {
        match binary_operator(level, peek(ts, *pos)) {
            None => return Ok(expr),
            Some(op) => {
                advance(ts, pos);
                let right = parse_operand(ts, level, pos)?;
                expr = Expr::Binary(Box::new(expr), op, Box::new(right));
            },
        }
    }
}

fn parse_unary(ts: &[TokenInstance], pos: &mut usize) -> (r: Result<Expr, ParseError>)
    requires
        grammar::tokens_wf(ts@),
        *old(pos) < ts@.len(),
    ensures
        *final(pos) < ts@.len(),
        r is Ok ==> *old(pos) < *final(pos),
        expr_outcome(r, grammar::unary(ts@, *old(pos) as int), ts@, *final(pos) as int),
    decreases ts@.len() - *old(pos), 3nat,
{
    let op = match peek(ts, *pos) {
        Token::Bang => Some(Operator::Bang),
        Token::Minus => Some(Operator::Minus),
        _ => None,
    };
    match op {
        Some(o) => {
            advance(ts, pos);
            let operand = parse_unary(ts, pos)?;
            Ok(Expr::Unary(o, Box::new(operand)))
        },
        None => parse_call(ts, pos),
    }
}

fn parse_call(ts: &[TokenInstance], pos: &mut usize) -> (r: Result<Expr, ParseError>)
    requires
        grammar::tokens_wf(ts@),
        *old(pos) < ts@.len(),
    ensures
        *final(pos) < ts@.len(),
        r is Ok ==> *old(pos) < *final(pos),
        expr_outcome(r, grammar::call(ts@, *old(pos) as int), ts@, *final(pos) as int),
    decreases ts@.len() - *old(pos), 2nat,
{
    let ghost start = *pos as int;
    let mut expr = parse_primary(ts, pos)?;
    loop
        invariant
            grammar::tokens_wf(ts@),
            start == *old(pos) as int,
            start < *pos < ts@.len(),
            grammar::call_rest(ts@, expr@, *pos as int) == grammar::call(ts@, start),
        decreases ts@.len() - *pos,
    {
        if !matches!(peek(ts, *pos), Token::LeftParen) {
            return Ok(expr);
        }
        advance(ts, pos);
        expr = finish_call(expr, ts, pos)?;
    }
}

/// The arguments of a call and its closing ")", after the "(".
#[verifier::rlimit(60)]
fn finish_call(callee: Expr, ts: &[TokenInstance], pos: &mut usize) -> (r: Result<Expr, ParseError>)
    requires
        grammar::tokens_wf(ts@),
        *old(pos) < ts@.len(),
    ensures
        *final(pos) < ts@.len(),
        r is Ok ==> *old(pos) < *final(pos),
        expr_outcome(
            r,
            grammar::arguments(ts@, callee@, Seq::empty(), *old(pos) as int),
            ts@,
            *final(pos) as int,
        ),
    decreases ts@.len() - *old(pos), 17nat,
{
    let ghost start = *pos as int;
    let ghost callee_model = callee@;
    let mut arguments: Vec<Expr> = Vec::new();
    if matches!(peek(ts, *pos), Token::RightParen) {
        advance(ts, pos);
        return Ok(Expr::Call(Box::new(callee), arguments));
    }
    loop
        invariant
            grammar::tokens_wf(ts@),
            start == *old(pos) as int,
            start <= *pos < ts@.len(),
            arguments.len() == 0 ==> *pos == start && grammar::tok(ts@, start) != Token::RightParen,
            arguments.len() <= MAX_ARGUMENTS,
            callee@ == callee_model,
            grammar::arguments(ts@, callee_model, crate::ast::exprs_model(arguments@), *pos as int)
                == grammar::arguments(ts@, callee_model, Seq::empty(), start),
        decreases ts@.len() - *pos,
    {
        proof {
            crate::ast::lemma_exprs_model_len(arguments@);
        }
        if arguments.len() == MAX_ARGUMENTS {
            return Err(error_at(ts, *pos, ParseErrorKind::TooManyArguments));
        }
        let argument = parse_expression(ts, pos)?;
        proof {
            crate::ast::lemma_exprs_model_push(arguments@, argument);
        }
        arguments.push(argument);
        if matches!(peek(ts, *pos), Token::Comma) {
            advance(ts, pos);
        } else if matches!(peek(ts, *pos), Token::RightParen) {
            advance(ts, pos);
            return Ok(Expr::Call(Box::new(callee), arguments));
        } else {
            return Err(error_at(ts, *pos, ParseErrorKind::Expected(Token::RightParen)));
        }
    }
}

fn parse_primary(ts: &[TokenInstance], pos: &mut usize) -> (r: Result<Expr, ParseError>)
    requires
        grammar::tokens_wf(ts@),
        *old(pos) < ts@.len(),
    ensures
        *final(pos) < ts@.len(),
        r is Ok ==> *old(pos) < *final(pos),
        expr_outcome(r, grammar::primary(ts@, *old(pos) as int), ts@, *final(pos) as int),
    decreases ts@.len() - *old(pos), 1nat,
{
    let expr = match peek(ts, *pos) {
        Token::True => Expr::Literal(Value::Boolean(true)),
        Token::False => Expr::Literal(Value::Boolean(false)),
        Token::Nil => Expr::Literal(Value::Nil),
        Token::Number(n) => Expr::Literal(Value::Number(*n)),
        Token::String(s) => Expr::Literal(Value::String(s.clone())),
        Token::Identifier(name) => Expr::Variable(name.clone()),
        Token::LeftParen => {
            advance(ts, pos);
            let inner = parse_expression(ts, pos)?;
            if !matches!(peek(ts, *pos), Token::RightParen) {
                return Err(error_at(ts, *pos, ParseErrorKind::Expected(Token::RightParen)));
            }
            Expr::Grouping(Box::new(inner))
        },
        _ => return Err(error_at(ts, *pos, ParseErrorKind::ExpectedExpression)),
    };
    advance(ts, pos);
    Ok(expr)
}

/// Consumes the ";" that ends a statement.
fn finish_statement(ts: &[TokenInstance], pos: &mut usize, stmt: Stmt) -> (r: Result<Stmt, ParseError>)
    requires
        grammar::tokens_wf(ts@),
        *old(pos) < ts@.len(),
    ensures
        *final(pos) < ts@.len(),
        *old(pos) <= *final(pos),
        stmt_outcome(r, grammar::terminated(ts@, stmt@, *old(pos) as int), ts@, *final(pos) as int),
{
    if matches!(peek(ts, *pos), Token::Semicolon) {
        advance(ts, pos);
        Ok(stmt)
    } else {
        Err(error_at(ts, *pos, ParseErrorKind::Expected(Token::Semicolon)))
    }
}

fn parse_expression_statement(ts: &[TokenInstance], pos: &mut usize) -> (r: Result<Stmt, ParseError>)
    requires
        grammar::tokens_wf(ts@),
        *old(pos) < ts@.len(),
    ensures
        *final(pos) < ts@.len(),
        r is Ok ==> *old(pos) < *final(pos),
        stmt_outcome(r, grammar::expression_statement(ts@, *old(pos) as int), ts@, *final(pos) as int),
    decreases ts@.len() - *old(pos), 17nat,
{
    let expr = parse_expression(ts, pos)?;
    finish_statement(ts, pos, Stmt::Expression(expr))
}

fn parse_statement(ts: &[TokenInstance], pos: &mut usize) -> (r: Result<Stmt, ParseError>)
    requires
        grammar::tokens_wf(ts@),
        *old(pos) < ts@.len(),
    ensures
        *final(pos) < ts@.len(),
        r is Ok ==> *old(pos) < *final(pos),
        stmt_outcome(r, grammar::statement(ts@, *old(pos) as int), ts@, *final(pos) as int),
    decreases ts@.len() - *old(pos), 18nat,
{
    match peek(ts, *pos) {
        Token::LeftBrace => {
            advance(ts, pos);
            parse_block(ts, pos)
        },
        Token::Print => {
            advance(ts, pos);
            let expr = parse_expression(ts, pos)?;
            finish_statement(ts, pos, Stmt::Print(expr))
        },
        Token::For => {
            advance(ts, pos);
            parse_for(ts, pos)
        },
        Token::While => {
            advance(ts, pos);
            parse_while(ts, pos)
        },
        Token::If => {
            advance(ts, pos);
            parse_if(ts, pos)
        },
        _ => parse_expression_statement(ts, pos),
    }
}

/// "(" expression ")"
fn parse_condition(ts: &[TokenInstance], pos: &mut usize) -> (r: Result<Expr, ParseError>)
    requires
        grammar::tokens_wf(ts@),
        *old(pos) < ts@.len(),
    ensures
        *final(pos) < ts@.len(),
        r is Ok ==> *old(pos) < *final(pos),
        expr_outcome(r, grammar::condition(ts@, *old(pos) as int), ts@, *final(pos) as int),
    decreases ts@.len() - *old(pos), 0nat,
{
    expect(ts, pos, Token::LeftParen)?;
    let cond = parse_expression(ts, pos)?;
    expect(ts, pos, Token::RightParen)?;
    Ok(cond)
}

/// The rest of a `while`, after the keyword.
fn parse_while(ts: &[TokenInstance], pos: &mut usize) -> (r: Result<Stmt, ParseError>)
    requires
        grammar::tokens_wf(ts@),
        *old(pos) < ts@.len(),
    ensures
        *final(pos) < ts@.len(),
        r is Ok ==> *old(pos) < *final(pos),
        stmt_outcome(r, grammar::while_statement(ts@, *old(pos) as int), ts@, *final(pos) as int),
    decreases ts@.len() - *old(pos), 1nat,
{
    let cond = parse_condition(ts, pos)?;
    let body = parse_statement(ts, pos)?;
    Ok(Stmt::While(cond, single(body)))
}

/// The rest of an `if`, after the keyword.
fn parse_if(ts: &[TokenInstance], pos: &mut usize) -> (r: Result<Stmt, ParseError>)
    requires
        grammar::tokens_wf(ts@),
        *old(pos) < ts@.len(),
    ensures
        *final(pos) < ts@.len(),
        r is Ok ==> *old(pos) < *final(pos),
        stmt_outcome(r, grammar::if_statement(ts@, *old(pos) as int), ts@, *final(pos) as int),
    decreases ts@.len() - *old(pos), 1nat,
{
    let cond = parse_condition(ts, pos)?;
    let then_branch = parse_statement(ts, pos)?;
    let then_stmts = single(then_branch);
    if matches!(peek(ts, *pos), Token::Else) {
        advance(ts, pos);
        let else_branch = parse_statement(ts, pos)?;
        Ok(Stmt::If(cond, then_stmts, single(else_branch)))
    } else {
        let else_stmts: Vec<Stmt> = Vec::new();
        proof {
            assert(crate::ast::stmts_model(else_stmts@) =~= Seq::<crate::ast::StmtModel>::empty());
        }
        Ok(Stmt::If(cond, then_stmts, else_stmts))
    }
}

fn parse_for_initializer(ts: &[TokenInstance], pos: &mut usize) -> (r: Result<Option<Stmt>, ParseError>)
    requires
        grammar::tokens_wf(ts@),
        *old(pos) < ts@.len(),
    ensures
        *final(pos) < ts@.len(),
        r is Ok ==> *old(pos) < *final(pos),
        match grammar::for_initializer(ts@, *old(pos) as int) {
            Ok((m, p)) => r is Ok && *final(pos) == p && match (r->Ok_0, m) {
                (Some(s), Some(sm)) => s@ == sm,
                (None, None) => true,
                _ => false,
            },
            Err(f) => r is Err && r->Err_0.reports(ts@, f),
        },
    decreases ts@.len() - *old(pos), 20nat,
{
    if matches!(peek(ts, *pos), Token::Semicolon) {
        advance(ts, pos);
        Ok(None)
    } else if matches!(peek(ts, *pos), Token::Var) {
        let s = parse_declaration(ts, pos)?;
        Ok(Some(s))
    } else {
        let s = parse_expression_statement(ts, pos)?;
        Ok(Some(s))
    }
}

fn parse_for_condition(ts: &[TokenInstance], pos: &mut usize) -> (r: Result<Expr, ParseError>)
    requires
        grammar::tokens_wf(ts@),
        *old(pos) < ts@.len(),
    ensures
        *final(pos) < ts@.len(),
        r is Ok ==> *old(pos) < *final(pos),
        expr_outcome(r, grammar::for_condition(ts@, *old(pos) as int), ts@, *final(pos) as int),
    decreases ts@.len() - *old(pos), 17nat,
{
    let cond = if matches!(peek(ts, *pos), Token::Semicolon) {
        Expr::Literal(Value::Boolean(true))
    } else {
        parse_expression(ts, pos)?
    };
    expect(ts, pos, Token::Semicolon)?;
    Ok(cond)
}

fn parse_for_increment(ts: &[TokenInstance], pos: &mut usize) -> (r: Result<Option<Expr>, ParseError>)
    requires
        grammar::tokens_wf(ts@),
        *old(pos) < ts@.len(),
    ensures
        *final(pos) < ts@.len(),
        r is Ok ==> *old(pos) < *final(pos),
        match grammar::for_increment(ts@, *old(pos) as int) {
            Ok((m, p)) => r is Ok && *final(pos) == p && match (r->Ok_0, m) {
                (Some(e), Some(em)) => e@ == em,
                (None, None) => true,
                _ => false,
            },
            Err(f) => r is Err && r->Err_0.reports(ts@, f),
        },
    decreases ts@.len() - *old(pos), 17nat,
{
    if matches!(peek(ts, *pos), Token::RightParen) {
        advance(ts, pos);
        Ok(None)
    } else {
        let incr = parse_expression(ts, pos)?;
        expect(ts, pos, Token::RightParen)?;
        Ok(Some(incr))
    }
}

/// The block and `While` that a `for` loop stands for.
fn desugar_for(initializer: Option<Stmt>, condition: Expr, increment: Option<Expr>, body: Stmt) -> (r: Stmt)
    ensures
        r@ == grammar::desugar_for(
            match initializer {
                Some(s) => Some(s@),
                None => None,
            },
            condition@,
            match increment {
                Some(e) => Some(e@),
                None => None,
            },
            body@,
        ),
{
    let ghost body_model = body@;
    let mut body_stmts = single(body);
    match increment {
        Some(incr) => {
            let step = Stmt::Expression(incr);
            proof {
                crate::ast::lemma_stmts_model_push(body_stmts@, step);
                assert(seq![body_model].push(step@) =~= seq![body_model, step@]);
            }
            body_stmts.push(step);
        },
        None => {},
    }
    let while_stmt = Stmt::While(condition, body_stmts);
    match initializer {
        Some(init) => {
            let ghost init_model = init@;
            let mut block = single(init);
            proof {
                crate::ast::lemma_stmts_model_push(block@, while_stmt);
                assert(seq![init_model].push(while_stmt@) =~= seq![init_model, while_stmt@]);
            }
            block.push(while_stmt);
            Stmt::Block(block)
        },
        None => while_stmt,
    }
}

/// The rest of a `for`, after the keyword, rewritten into a block that holds
/// the initializer and a `While` whose body ends with the increment.
fn parse_for(ts: &[TokenInstance], pos: &mut usize) -> (r: Result<Stmt, ParseError>)
    requires
        grammar::tokens_wf(ts@),
        *old(pos) < ts@.len(),
    ensures
        *final(pos) < ts@.len(),
        r is Ok ==> *old(pos) < *final(pos),
        stmt_outcome(r, grammar::for_statement(ts@, *old(pos) as int), ts@, *final(pos) as int),
    decreases ts@.len() - *old(pos), 1nat,
{
    expect(ts, pos, Token::LeftParen)?;
    let initializer = parse_for_initializer(ts, pos)?;
    let condition = parse_for_condition(ts, pos)?;
    let increment = parse_for_increment(ts, pos)?;
    let body = parse_statement(ts, pos)?;
    Ok(desugar_for(initializer, condition, increment, body))
}

/// The rest of a `var` declaration, after the keyword.
fn parse_var_declaration(ts: &[TokenInstance], pos: &mut usize) -> (r: Result<Stmt, ParseError>)
    requires
        grammar::tokens_wf(ts@),
        *old(pos) < ts@.len(),
    ensures
        *final(pos) < ts@.len(),
        r is Ok ==> *old(pos) < *final(pos),
        stmt_outcome(r, grammar::var_declaration(ts@, *old(pos) as int), ts@, *final(pos) as int),
    decreases ts@.len() - *old(pos), 0nat,
{
    let name = match peek(ts, *pos) {
        Token::Identifier(name) => name.clone(),
        _ => return Err(error_at(ts, *pos, ParseErrorKind::ExpectedIdentifier)),
    };
    advance(ts, pos);
    if matches!(peek(ts, *pos), Token::Equal) {
        advance(ts, pos);
        let init = parse_expression(ts, pos)?;
        finish_statement(ts, pos, Stmt::VarDecl(name, Some(init)))
    } else {
        finish_statement(ts, pos, Stmt::VarDecl(name, None))
    }
}

fn parse_declaration(ts: &[TokenInstance], pos: &mut usize) -> (r: Result<Stmt, ParseError>)
    requires
        grammar::tokens_wf(ts@),
        *old(pos) < ts@.len(),
    ensures
        *final(pos) < ts@.len(),
        r is Ok ==> *old(pos) < *final(pos),
        stmt_outcome(r, grammar::declaration(ts@, *old(pos) as int), ts@, *final(pos) as int),
    decreases ts@.len() - *old(pos), 19nat,
{
    match peek(ts, *pos) {

        Token::Var => {
            advance(ts, pos);
            parse_var_declaration(ts, pos)
        },
        _ => parse_statement(ts, pos),
    }
}

/// The declarations of a block and its "}", after the "{".
fn parse_block(ts: &[TokenInstance], pos: &mut usize) -> (r: Result<Stmt, ParseError>)
    requires
        grammar::tokens_wf(ts@),
        *old(pos) < ts@.len(),
    ensures
        *final(pos) < ts@.len(),
        r is Ok ==> *old(pos) < *final(pos),
        stmt_outcome(r, grammar::block_rest(ts@, Seq::empty(), *old(pos) as int), ts@, *final(pos) as int),
    decreases ts@.len() - *old(pos), 20nat,
{
    let ghost start = *pos as int;
    let mut statements: Vec<Stmt> = Vec::new();
    loop
        invariant
            grammar::tokens_wf(ts@),
            start == *old(pos) as int,
            start <= *pos < ts@.len(),
            grammar::block_rest(ts@, crate::ast::stmts_model(statements@), *pos as int)
                == grammar::block_rest(ts@, Seq::empty(), start),
        decreases ts@.len() - *pos,
    {
        if matches!(peek(ts, *pos), Token::RightBrace) {
            advance(ts, pos);
            return Ok(Stmt::Block(statements));
        }
        if is_eof(ts, *pos) {
            return Err(error_at(ts, *pos, ParseErrorKind::UnclosedBlock));
        }
        let stmt = parse_declaration(ts, pos)?;
        proof {
            crate::ast::lemma_stmts_model_push(statements@, stmt);
        }
        statements.push(stmt);
    }
}

} // verus!

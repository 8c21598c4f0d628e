//! The grammar as spec functions over a token sequence: each returns the tree
//! that its rule derives from a position and the position after it, or the
//! error and the position of the offending token.
use vstd::prelude::*;
use crate::ast::{ExprModel, StmtModel, Token, TokenInstance};
use crate::value::{Operator, ValueModel};

verus! {

/// What went wrong while parsing.
#[derive(Debug, Clone, PartialEq)]
pub enum ParseErrorKind {
    /// No expression can start with the token.
    ExpectedExpression,
    /// A particular token was required here.
    Expected(Token),
    /// `var` must be followed by a name.
    ExpectedIdentifier,
    /// End of input inside a `{ ... }` block.
    UnclosedBlock,
    /// The left side of `=` is not a variable.
    InvalidAssignmentTarget,
    /// A call with more than 255 arguments.
    TooManyArguments,
}

/// A parse failure in the model: its kind and the index of the offending token.
pub struct Failure {
    pub kind: ParseErrorKind,
    pub at: int,
}

/// The largest number of arguments that a call may have.
pub const MAX_ARGUMENTS: usize = 255;

/// The result of a rule that derives an expression.
pub type ExprParse = Result<(ExprModel, int), Failure>;

/// The result of a rule that derives a statement.
pub type StmtParse = Result<(StmtModel, int), Failure>;

/// A token sequence that the parser accepts: it ends with the end marker.
pub open spec fn tokens_wf(ts: Seq<TokenInstance>) -> bool {
    &&& ts.len() > 0
    &&& ts.last().token_type == Token::Eof
    &&& ts.len() < usize::MAX
}

/// The token at `pos`; past the end the input reads as the end marker.
pub open spec fn tok(ts: Seq<TokenInstance>, pos: int) -> Token {
    if 0 <= pos < ts.len() {
        ts[pos].token_type
    } else {
        Token::Eof
    }
}

/// Where the cursor stands after consuming the token at `pos`: it never
/// moves past the end marker.
pub open spec fn after(ts: Seq<TokenInstance>, pos: int) -> int {
    if tok(ts, pos) == Token::Eof {
        pos
    } else {
        pos + 1
    }
}

/// A failure of the given kind at the token at `at`.
pub open spec fn fail<T>(kind: ParseErrorKind, at: int) -> Result<T, Failure> {
    Err(Failure { kind, at })
}

/// A rule that succeeded at `pos` and ended at `p` moved forward and stayed
/// within the input. Every rule that succeeds consumes a token, so this holds
/// of every success (the parser proves it of each rule it runs); the rules
/// test it before they repeat, which makes their recursion terminate.
pub open spec fn advanced(ts: Seq<TokenInstance>, pos: int, p: int) -> bool {
    pos < p <= ts.len()
}

/// The operator that a token stands for at the given binary precedence
/// level: 0 equality, 1 comparison, 2 term, 3 factor.
pub open spec fn level_operator(level: u8, t: Token) -> Option<Operator> {
    match (level, t) {
        (0, Token::BangEqual) => Some(Operator::BangEqual),
        (0, Token::EqualEqual) => Some(Operator::EqualEqual),
        (1, Token::Greater) => Some(Operator::Greater),
        (1, Token::GreaterEqual) => Some(Operator::GreaterEqual),
        (1, Token::Less) => Some(Operator::Less),
        (1, Token::LessEqual) => Some(Operator::LessEqual),
        (2, Token::Minus) => Some(Operator::Minus),
        (2, Token::Plus) => Some(Operator::Plus),
        (3, Token::Slash) => Some(Operator::Slash),
        (3, Token::Star) => Some(Operator::Star),
        _ => None,
    }
}

/// expression -> assignment
pub open spec fn expression(ts: Seq<TokenInstance>, pos: int) -> ExprParse
    decreases ts.len() - pos, 16nat,
{
    assignment(ts, pos)
}

/// assignment -> IDENTIFIER "=" assignment | logic_or; the target is checked
/// after the right side is parsed.
pub open spec fn assignment(ts: Seq<TokenInstance>, pos: int) -> ExprParse
    decreases ts.len() - pos, 15nat,
{
    match logic_or(ts, pos) {
        Err(f) => Err(f),
        Ok((left, p)) => if tok(ts, p) == Token::Equal && advanced(ts, pos, p) {
            match assignment(ts, p + 1) {
                Err(f) => Err(f),
                Ok((value, q)) => match left {
                    ExprModel::Variable(name) => Ok((ExprModel::Assign(name, Box::new(value)), q)),
                    _ => fail(ParseErrorKind::InvalidAssignmentTarget, p),
                },
            }
        } else {
            Ok((left, p))
        },
    }
}

/// logic_or -> logic_and ("or" logic_and)*
pub open spec fn logic_or(ts: Seq<TokenInstance>, pos: int) -> ExprParse
    decreases ts.len() - pos, 14nat,
{
    match logic_and(ts, pos) {
        Err(f) => Err(f),
        Ok((left, p)) => if advanced(ts, pos, p) {
            logical_rest(ts, Operator::Or, left, p)
        } else {
            fail(ParseErrorKind::ExpectedExpression, pos)
        },
    }
}

/// logic_and -> equality ("and" equality)*
pub open spec fn logic_and(ts: Seq<TokenInstance>, pos: int) -> ExprParse
    decreases ts.len() - pos, 13nat,
{
    match binary(ts, 0, pos) {
        Err(f) => Err(f),
        Ok((left, p)) => if advanced(ts, pos, p) {
            logical_rest(ts, Operator::And, left, p)
        } else {
            fail(ParseErrorKind::ExpectedExpression, pos)
        },
    }
}

/// The token that stands for a logical operator.
pub open spec fn logical_token(op: Operator) -> Token {
    if op == Operator::Or {
        Token::Or
    } else {
        Token::And
    }
}

/// The repetition of a logical level: each further operand joins the tree
/// built so far as its right child, so the operator groups to the left.
pub open spec fn logical_rest(ts: Seq<TokenInstance>, op: Operator, left: ExprModel, pos: int) -> ExprParse
    decreases ts.len() - pos, 0nat,
{
    if tok(ts, pos) == logical_token(op) {
        let operand = if op == Operator::Or {
            logic_and(ts, pos + 1)
        } else {
            binary(ts, 0, pos + 1)
        };
        match operand {
            Err(f) => Err(f),
            Ok((right, p)) => if advanced(ts, pos, p) {
                logical_rest(ts, op, ExprModel::Logical(Box::new(left), op, Box::new(right)), p)
            } else {
                fail(ParseErrorKind::ExpectedExpression, pos)
            },
        }
    } else {
        Ok((left, pos))
    }
}

/// The operand rule of a binary level: the next level, or unary below factor.
pub open spec fn operand(ts: Seq<TokenInstance>, level: u8, pos: int) -> ExprParse
    decreases ts.len() - pos, 2 * (3 - level) as nat + 5,
{
    if level < 3 {
        binary(ts, (level + 1) as u8, pos)
    } else {
        unary(ts, pos)
    }
}

/// equality, comparison, term and factor (levels 0 to 3):
/// level -> operand (OPERATOR operand)*
pub open spec fn binary(ts: Seq<TokenInstance>, level: u8, pos: int) -> ExprParse
    decreases ts.len() - pos, 2 * (3 - level) as nat + 6,
{
    if level > 3 {
        fail(ParseErrorKind::ExpectedExpression, pos)
    } else {
        match operand(ts, level, pos) {
            Err(f) => Err(f),
            Ok((left, p)) => if advanced(ts, pos, p) {
                binary_rest(ts, level, left, p)
            } else {
                fail(ParseErrorKind::ExpectedExpression, pos)
            },
        }
    }
}

/// The repetition of a binary level, grouping to the left.
pub open spec fn binary_rest(ts: Seq<TokenInstance>, level: u8, left: ExprModel, pos: int) -> ExprParse
    decreases ts.len() - pos, 0nat,
{
    match level_operator(level, tok(ts, pos)) {
        None => Ok((left, pos)),
        Some(op) => match operand(ts, level, pos + 1) {
            Err(f) => Err(f),
            Ok((right, p)) => if advanced(ts, pos, p) {
                binary_rest(ts, level, ExprModel::Binary(Box::new(left), op, Box::new(right)), p)
            } else {
                fail(ParseErrorKind::ExpectedExpression, pos)
            },
        },
    }
}

/// unary -> ("!" | "-") unary | call
pub open spec fn unary(ts: Seq<TokenInstance>, pos: int) -> ExprParse
    decreases ts.len() - pos, 3nat,
{
    let op = if tok(ts, pos) == Token::Bang {
        Some(Operator::Bang)
    } else if tok(ts, pos) == Token::Minus {
        Some(Operator::Minus)
    } else {
        None
    };
    match op {
        Some(o) => match unary(ts, pos + 1) {
            Err(f) => Err(f),
            Ok((e, p)) => Ok((ExprModel::Unary(o, Box::new(e)), p)),
        },
        None => call(ts, pos),
    }
}

/// call -> primary ("(" arguments? ")")*
pub open spec fn call(ts: Seq<TokenInstance>, pos: int) -> ExprParse
    decreases ts.len() - pos, 2nat,
{
    match primary(ts, pos) {
        Err(f) => Err(f),
        Ok((e, p)) => if advanced(ts, pos, p) {
            call_rest(ts, e, p)
        } else {
            fail(ParseErrorKind::ExpectedExpression, pos)
        },
    }
}

/// Each "(" after a callee starts an argument list.
pub open spec fn call_rest(ts: Seq<TokenInstance>, callee: ExprModel, pos: int) -> ExprParse
    decreases ts.len() - pos, 1nat,
{
    if tok(ts, pos) == Token::LeftParen {
        match arguments(ts, callee, Seq::empty(), pos + 1) {
            Err(f) => Err(f),
            Ok((e, p)) => if advanced(ts, pos, p) {
                call_rest(ts, e, p)
            } else {
                fail(ParseErrorKind::ExpectedExpression, pos)
            },
        }
    } else {
        Ok((callee, pos))
    }
}

/// arguments -> expression ("," expression)* , then ")"; `args` holds the
/// arguments read so far.
pub open spec fn arguments(ts: Seq<TokenInstance>, callee: ExprModel, args: Seq<ExprModel>, pos: int) -> ExprParse
    decreases ts.len() - pos, 17nat,
{
    if args.len() == 0 && tok(ts, pos) == Token::RightParen {
        Ok((ExprModel::Call(Box::new(callee), args), pos + 1))
    } else if args.len() >= MAX_ARGUMENTS {
        fail(ParseErrorKind::TooManyArguments, pos)
    } else {
        match expression(ts, pos) {
            Err(f) => Err(f),
            Ok((a, p)) => if !advanced(ts, pos, p) {
                fail(ParseErrorKind::ExpectedExpression, pos)
            } else if tok(ts, p) == Token::Comma {
                arguments(ts, callee, args.push(a), p + 1)
            } else if tok(ts, p) == Token::RightParen {
                Ok((ExprModel::Call(Box::new(callee), args.push(a)), p + 1))
            } else {
                fail(ParseErrorKind::Expected(Token::RightParen), p)
            },
        }
    }
}

/// primary -> NUMBER | STRING | "true" | "false" | "nil" | IDENTIFIER
///          | "(" expression ")"
pub open spec fn primary(ts: Seq<TokenInstance>, pos: int) -> ExprParse
    decreases ts.len() - pos, 1nat,
{
    match tok(ts, pos) {
        Token::True => Ok((ExprModel::Literal(ValueModel::Bool(true)), pos + 1)),
        Token::False => Ok((ExprModel::Literal(ValueModel::Bool(false)), pos + 1)),
        Token::Nil => Ok((ExprModel::Literal(ValueModel::Nil), pos + 1)),
        Token::Number(n) => Ok((ExprModel::Literal(ValueModel::Num(n)), pos + 1)),
        Token::String(s) => Ok((ExprModel::Literal(ValueModel::Str(s@)), pos + 1)),
        Token::Identifier(name) => Ok((ExprModel::Variable(name@), pos + 1)),
        Token::LeftParen => match expression(ts, pos + 1) {
            Err(f) => Err(f),
            Ok((e, p)) => if tok(ts, p) == Token::RightParen {
                Ok((ExprModel::Grouping(Box::new(e)), p + 1))
            } else {
                fail(ParseErrorKind::Expected(Token::RightParen), p)
            },
        },
        _ => fail(ParseErrorKind::ExpectedExpression, pos),
    }
}

/// The end of a statement: the ";" is required.
pub open spec fn terminated(ts: Seq<TokenInstance>, s: StmtModel, pos: int) -> StmtParse {
    if tok(ts, pos) == Token::Semicolon {
        Ok((s, pos + 1))
    } else {
        fail(ParseErrorKind::Expected(Token::Semicolon), pos)
    }
}

/// exprStmt -> expression ";"
pub open spec fn expression_statement(ts: Seq<TokenInstance>, pos: int) -> StmtParse
    decreases ts.len() - pos, 17nat,
{
    match expression(ts, pos) {
        Err(f) => Err(f),
        Ok((e, p)) => terminated(ts, StmtModel::Expression(e), p),
    }
}

/// Two tokens are the same: of one kind, with the same text or number.
pub open spec fn same_token(a: Token, b: Token) -> bool {
    match (a, b) {
        (Token::Identifier(x), Token::Identifier(y)) => x@ == y@,
        (Token::String(x), Token::String(y)) => x@ == y@,
        _ => a == b,
    }
}

/// The position after a required token, or the failure that names it.
pub open spec fn expect(ts: Seq<TokenInstance>, t: Token, pos: int) -> Result<int, Failure> {
    if same_token(tok(ts, pos), t) {
        Ok(after(ts, pos))
    } else {
        fail(ParseErrorKind::Expected(t), pos)
    }
}

/// statement -> exprStmt | printStmt | ifStmt | whileStmt | forStmt | block
pub open spec fn statement(ts: Seq<TokenInstance>, pos: int) -> StmtParse
    decreases ts.len() - pos, 18nat,
{
    match tok(ts, pos) {
        Token::LeftBrace => block_rest(ts, Seq::empty(), pos + 1),
        Token::Print => match expression(ts, pos + 1) {
            Err(f) => Err(f),
            Ok((e, p)) => terminated(ts, StmtModel::Print(e), p),
        },
        Token::For => for_statement(ts, pos + 1),
        Token::While => while_statement(ts, pos + 1),
        Token::If => if_statement(ts, pos + 1),
        _ => expression_statement(ts, pos),
    }
}

/// "(" expression ")", the head of `while` and `if`.
pub open spec fn condition(ts: Seq<TokenInstance>, pos: int) -> ExprParse
    decreases ts.len() - pos, 0nat,
{
    match expect(ts, Token::LeftParen, pos) {
        Err(f) => Err(f),
        Ok(p) => match expression(ts, p) {
            Err(f) => Err(f),
            Ok((c, q)) => match expect(ts, Token::RightParen, q) {
                Err(f) => Err(f),
                Ok(r) => Ok((c, r)),
            },
        },
    }
}

/// whileStmt -> "while" "(" expression ")" statement (after "while")
pub open spec fn while_statement(ts: Seq<TokenInstance>, pos: int) -> StmtParse
    decreases ts.len() - pos, 1nat,
{
    match condition(ts, pos) {
        Err(f) => Err(f),
        Ok((c, p)) => if advanced(ts, pos, p) {
            match statement(ts, p) {
                Err(f) => Err(f),
                Ok((body, q)) => Ok((StmtModel::While(c, seq![body]), q)),
            }
        } else {
            fail(ParseErrorKind::ExpectedExpression, pos)
        },
    }
}

/// ifStmt -> "if" "(" expression ")" statement ("else" statement)?
/// (after "if")
pub open spec fn if_statement(ts: Seq<TokenInstance>, pos: int) -> StmtParse
    decreases ts.len() - pos, 1nat,
{
    match condition(ts, pos) {
        Err(f) => Err(f),
        Ok((c, p)) => if advanced(ts, pos, p) {
            match statement(ts, p) {
                Err(f) => Err(f),
                Ok((then_branch, q)) => if tok(ts, q) == Token::Else && advanced(ts, pos, q) {
                    match statement(ts, q + 1) {
                        Err(f) => Err(f),
                        Ok((else_branch, r)) => Ok(
                            (StmtModel::If(c, seq![then_branch], seq![else_branch]), r),
                        ),
                    }
                } else {
                    Ok((StmtModel::If(c, seq![then_branch], Seq::empty()), q))
                },
            }
        } else {
            fail(ParseErrorKind::ExpectedExpression, pos)
        },
    }
}

/// The initializer clause of a `for`: absent (";"), a declaration, or an
/// expression statement.
pub open spec fn for_initializer(ts: Seq<TokenInstance>, pos: int) -> Result<(Option<StmtModel>, int), Failure>
    decreases ts.len() - pos, 20nat,
{
    if tok(ts, pos) == Token::Semicolon {
        Ok((None, pos + 1))
    } else {
        let r = if tok(ts, pos) == Token::Var {
            declaration(ts, pos)
        } else {
            expression_statement(ts, pos)
        };
        match r {
            Err(f) => Err(f),
            Ok((s, p)) => Ok((Some(s), p)),
        }
    }
}

/// The condition clause of a `for`, up to and including its ";"; an absent
/// condition is `true`.
pub open spec fn for_condition(ts: Seq<TokenInstance>, pos: int) -> ExprParse
    decreases ts.len() - pos, 17nat,
{
    let c = if tok(ts, pos) == Token::Semicolon {
        Ok((ExprModel::Literal(ValueModel::Bool(true)), pos))
    } else {
        expression(ts, pos)
    };
    match c {
        Err(f) => Err(f),
        Ok((e, p)) => match expect(ts, Token::Semicolon, p) {
            Err(f) => Err(f),
            Ok(q) => Ok((e, q)),
        },
    }
}

/// The increment clause of a `for`, up to and including its ")".
pub open spec fn for_increment(ts: Seq<TokenInstance>, pos: int) -> Result<(Option<ExprModel>, int), Failure>
    decreases ts.len() - pos, 17nat,
{
    if tok(ts, pos) == Token::RightParen {
        Ok((None, pos + 1))
    } else {
        match expression(ts, pos) {
            Err(f) => Err(f),
            Ok((e, p)) => match expect(ts, Token::RightParen, p) {
                Err(f) => Err(f),
                Ok(q) => Ok((Some(e), q)),
            },
        }
    }
}

/// The statement that a `for` loop stands for: its body followed by the
/// increment, repeated under the condition, after the initializer in a block
/// of its own.
pub open spec fn desugar_for(
    init: Option<StmtModel>,
    cond: ExprModel,
    incr: Option<ExprModel>,
    body: StmtModel,
) -> StmtModel {
    let body_stmts = match incr {
        Some(i) => seq![body, StmtModel::Expression(i)],
        None => seq![body],
    };
    let while_stmt = StmtModel::While(cond, body_stmts);
    match init {
        Some(s) => StmtModel::Block(seq![s, while_stmt]),
        None => while_stmt,
    }
}

/// forStmt -> "for" "(" (varDecl | exprStmt | ";") expression? ";"
///            expression? ")" statement (after "for")
pub open spec fn for_statement(ts: Seq<TokenInstance>, pos: int) -> StmtParse
    decreases ts.len() - pos, 1nat,
{
    match expect(ts, Token::LeftParen, pos) {
        Err(f) => Err(f),
        Ok(open_at) => match for_initializer(ts, open_at) {
            Err(f) => Err(f),
            Ok((init, cond_at)) => if !advanced(ts, pos, cond_at) {
                fail(ParseErrorKind::ExpectedExpression, pos)
            } else {
                match for_condition(ts, cond_at) {
                    Err(f) => Err(f),
                    Ok((cond, incr_at)) => if !advanced(ts, pos, incr_at) {
                        fail(ParseErrorKind::ExpectedExpression, pos)
                    } else {
                        match for_increment(ts, incr_at) {
                            Err(f) => Err(f),
                            Ok((incr, body_at)) => if !advanced(ts, pos, body_at) {
                                fail(ParseErrorKind::ExpectedExpression, pos)
                            } else {
                                match statement(ts, body_at) {
                                    Err(f) => Err(f),
                                    Ok((body, end_at)) => Ok((desugar_for(init, cond, incr, body), end_at)),
                                }
                            },
                        }
                    },
                }
            },
        },
    }
}

/// varDecl -> "var" IDENTIFIER ("=" expression)? ";" (after "var")
pub open spec fn var_declaration(ts: Seq<TokenInstance>, pos: int) -> StmtParse
    decreases ts.len() - pos, 0nat,
{
    match tok(ts, pos) {
        Token::Identifier(name) => if tok(ts, pos + 1) == Token::Equal {
            match expression(ts, pos + 2) {
                Err(f) => Err(f),
                Ok((e, p)) => terminated(ts, StmtModel::VarDecl(name@, Some(e)), p),
            }
        } else {
            terminated(ts, StmtModel::VarDecl(name@, None), pos + 1)
        },
        _ => fail(ParseErrorKind::ExpectedIdentifier, pos),
    }
}

/// declaration -> varDecl | statement
pub open spec fn declaration(ts: Seq<TokenInstance>, pos: int) -> StmtParse
    decreases ts.len() - pos, 19nat,
{
    match tok(ts, pos) {
        Token::Var => var_declaration(ts, pos + 1),
        _ => statement(ts, pos),
    }
}

/// block -> "{" declaration* "}"; `stmts` holds the declarations read so far.
pub open spec fn block_rest(ts: Seq<TokenInstance>, stmts: Seq<StmtModel>, pos: int) -> StmtParse
    decreases ts.len() - pos, 20nat,
{
    if tok(ts, pos) == Token::RightBrace {
        Ok((StmtModel::Block(stmts), pos + 1))
    } else if tok(ts, pos) == Token::Eof {
        fail(ParseErrorKind::UnclosedBlock, pos)
    } else {
        match declaration(ts, pos) {
            Err(f) => Err(f),
            Ok((s, p)) => if advanced(ts, pos, p) {
                block_rest(ts, stmts.push(s), p)
            } else {
                fail(ParseErrorKind::ExpectedExpression, pos)
            },
        }
    }
}

/// program -> declaration* Eof; `stmts` holds the declarations read so far.
pub open spec fn program(ts: Seq<TokenInstance>, stmts: Seq<StmtModel>, pos: int) -> Result<Seq<StmtModel>, Failure>
    decreases ts.len() - pos, 21nat,
{
    if tok(ts, pos) == Token::Eof {
        Ok(stmts)
    } else {
        match declaration(ts, pos) {
            Err(f) => Err(f),
            Ok((s, p)) => if advanced(ts, pos, p) {
                program(ts, stmts.push(s), p)
            } else {
                fail(ParseErrorKind::ExpectedExpression, pos)
            },
        }
    }
}

} // verus!

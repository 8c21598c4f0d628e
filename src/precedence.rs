//! Precedence and associativity of the binary operators, as laws of the
//! grammar: of two operators in a row, the one that binds tighter takes the
//! middle operand, and operators that bind equally group to the left.
use vstd::prelude::*;
use crate::ast::{ExprModel, StmtModel, Token, TokenInstance};
use crate::grammar::{
    advanced, assignment, binary, binary_rest, call, call_rest, declaration, expression,
    expression_statement, fail, level_operator, logic_and, logic_or, logical_rest, operand,
    primary, program, statement, tok, unary, Failure, ParseErrorKind,
};
use crate::value::{Operator, ValueModel};

verus! {

/// How tightly an operator binds: `or` 0, `and` 1, equality 2, comparison 3,
/// term 4, factor 5; `None` for operators that are not binary.
pub open spec fn strength(op: Operator) -> Option<nat> {
    match op {
        Operator::Or => Some(0),
        Operator::And => Some(1),
        Operator::BangEqual | Operator::EqualEqual => Some(2),
        Operator::Greater | Operator::GreaterEqual | Operator::Less | Operator::LessEqual => Some(3),
        Operator::Minus | Operator::Plus => Some(4),
        Operator::Slash | Operator::Star => Some(5),
        _ => None,
    }
}

/// The token that spells a binary operator.
pub open spec fn operator_token(op: Operator) -> Token {
    match op {
        Operator::Or => Token::Or,
        Operator::And => Token::And,
        Operator::BangEqual => Token::BangEqual,
        Operator::EqualEqual => Token::EqualEqual,
        Operator::Greater => Token::Greater,
        Operator::GreaterEqual => Token::GreaterEqual,
        Operator::Less => Token::Less,
        Operator::LessEqual => Token::LessEqual,
        Operator::Minus => Token::Minus,
        Operator::Plus => Token::Plus,
        Operator::Slash => Token::Slash,
        _ => Token::Star,
    }
}

/// The node that joins two operands: `Logical` for `and` and `or`, `Binary`
/// otherwise.
pub open spec fn join(l: ExprModel, op: Operator, r: ExprModel) -> ExprModel {
    if op == Operator::And || op == Operator::Or {
        ExprModel::Logical(Box::new(l), op, Box::new(r))
    } else {
        ExprModel::Binary(Box::new(l), op, Box::new(r))
    }
}

/// The expression that a single token stands for: a literal or a variable.
pub open spec fn operand_of(t: Token) -> Option<ExprModel> {
    match t {
        Token::Number(n) => Some(ExprModel::Literal(ValueModel::Num(n))),
        Token::String(s) => Some(ExprModel::Literal(ValueModel::Str(s@))),
        Token::True => Some(ExprModel::Literal(ValueModel::Bool(true))),
        Token::False => Some(ExprModel::Literal(ValueModel::Bool(false))),
        Token::Nil => Some(ExprModel::Literal(ValueModel::Nil)),
        Token::Identifier(name) => Some(ExprModel::Variable(name@)),
        _ => None,
    }
}

/// The rule of binding strength `k`; above 5, `unary`.
spec fn level(ts: Seq<TokenInstance>, k: nat, p: int) -> Result<(ExprModel, int), Failure> {
    if k == 0 {
        logic_or(ts, p)
    } else if k == 1 {
        logic_and(ts, p)
    } else if k <= 5 {
        binary(ts, (k - 2) as u8, p)
    } else {
        unary(ts, p)
    }
}

/// The repetition of the rule of binding strength `k`.
spec fn rest(ts: Seq<TokenInstance>, k: nat, left: ExprModel, p: int) -> Result<(ExprModel, int), Failure> {
    if k == 0 {
        logical_rest(ts, Operator::Or, left, p)
    } else if k == 1 {
        logical_rest(ts, Operator::And, left, p)
    } else {
        binary_rest(ts, (k - 2) as u8, left, p)
    }
}

/// The operator of binding strength `k` that the token stands for.
spec fn level_op(k: nat, t: Token) -> Option<Operator> {
    if k == 0 {
        if t == Token::Or {
            Some(Operator::Or)
        } else {
            None
        }
    } else if k == 1 {
        if t == Token::And {
            Some(Operator::And)
        } else {
            None
        }
    } else {
        level_operator((k - 2) as u8, t)
    }
}

proof fn lemma_level_op(op: Operator, k: nat)
    requires
        strength(op) is Some,
        k <= 5,
    ensures
        level_op(k, operator_token(op)) == if k == strength(op)->Some_0 {
            Some(op)
        } else {
            None::<Operator>
        },
{
}

proof fn lemma_level_unfold(ts: Seq<TokenInstance>, k: nat, p: int)
    requires
        k <= 5,
    ensures
        level(ts, k, p) == match level(ts, k + 1, p) {
            Err(f) => Err(f),
            Ok((x, q)) => if advanced(ts, p, q) {
                rest(ts, k, x, q)
            } else {
                fail(ParseErrorKind::ExpectedExpression, p)
            },
        },
{
    if k >= 2 {
        let l = (k - 2) as u8;
        if l < 3 {
            assert(operand(ts, l, p) == binary(ts, (l + 1) as u8, p));
            assert((l + 1) as u8 == (k + 1 - 2) as u8);
        } else {
            assert(operand(ts, l, p) == unary(ts, p));
        }
    }
}

proof fn lemma_rest_unfold(ts: Seq<TokenInstance>, k: nat, left: ExprModel, p: int)
    requires
        k <= 5,
    ensures
        rest(ts, k, left, p) == match level_op(k, tok(ts, p)) {
            None => Ok((left, p)),
            Some(op) => match level(ts, k + 1, p + 1) {
                Err(f) => Err(f),
                Ok((y, r)) => if advanced(ts, p, r) {
                    rest(ts, k, join(left, op, y), r)
                } else {
                    fail(ParseErrorKind::ExpectedExpression, p)
                },
            },
        },
{
    if k >= 2 {
        let l = (k - 2) as u8;
        if l < 3 {
            assert(operand(ts, l, p + 1) == binary(ts, (l + 1) as u8, p + 1));
            assert((l + 1) as u8 == (k + 1 - 2) as u8);
        } else {
            assert(operand(ts, l, p + 1) == unary(ts, p + 1));
        }
    }
}

/// An operand passes unchanged through the rules from strength `k` on when
/// the token after it is none of their operators.
proof fn lemma_pass(ts: Seq<TokenInstance>, k: nat, p: int, x: ExprModel, q: int)
    requires
        k <= 6,
        unary(ts, p) == Ok::<(ExprModel, int), Failure>((x, q)),
        p < q <= ts.len(),
        forall|j: nat| k <= j <= 5 ==> #[trigger] level_op(j, tok(ts, q)) is None,
    ensures
        level(ts, k, p) == Ok::<(ExprModel, int), Failure>((x, q)),
    decreases 6 - k,
{
    if k < 6 {
        lemma_pass(ts, k + 1, p, x, q);
        lemma_level_unfold(ts, k, p);
        lemma_rest_unfold(ts, k, x, q);
        assert(level_op(k, tok(ts, q)) is None);
    }
}

/// A tree parsed by the rule of strength `k2` is what the looser rules from
/// `k` parse, when the token after it is none of their operators.
proof fn lemma_lift(ts: Seq<TokenInstance>, k: nat, k2: nat, p: int, y: ExprModel, r: int)
    requires
        k <= k2 <= 6,
        level(ts, k2, p) == Ok::<(ExprModel, int), Failure>((y, r)),
        p < r <= ts.len(),
        forall|j: nat| k <= j < k2 ==> #[trigger] level_op(j, tok(ts, r)) is None,
    ensures
        level(ts, k, p) == Ok::<(ExprModel, int), Failure>((y, r)),
    decreases k2 - k,
{
    if k < k2 {
        lemma_lift(ts, k + 1, k2, p, y, r);
        lemma_level_unfold(ts, k, p);
        lemma_rest_unfold(ts, k, y, r);
        assert(level_op(k, tok(ts, r)) is None);
    }
}

/// One operator of strength `k` between two operands that the tighter rule
/// parsed.
proof fn lemma_one(ts: Seq<TokenInstance>, k: nat, p: int, x: ExprModel, q: int, op: Operator, y: ExprModel, r: int)
    requires
        k <= 5,
        level(ts, k + 1, p) == Ok::<(ExprModel, int), Failure>((x, q)),
        level_op(k, tok(ts, q)) == Some(op),
        level(ts, k + 1, q + 1) == Ok::<(ExprModel, int), Failure>((y, r)),
        level_op(k, tok(ts, r)) is None,
        p < q < r <= ts.len(),
    ensures
        level(ts, k, p) == Ok::<(ExprModel, int), Failure>((join(x, op, y), r)),
{
    lemma_level_unfold(ts, k, p);
    lemma_rest_unfold(ts, k, x, q);
    lemma_rest_unfold(ts, k, join(x, op, y), r);
}

/// Two operators of strength `k` in a row group to the left.
proof fn lemma_two(
    ts: Seq<TokenInstance>,
    k: nat,
    p: int,
    x: ExprModel,
    q: int,
    op1: Operator,
    y: ExprModel,
    r: int,
    op2: Operator,
    z: ExprModel,
    s: int,
)
    requires
        k <= 5,
        level(ts, k + 1, p) == Ok::<(ExprModel, int), Failure>((x, q)),
        level_op(k, tok(ts, q)) == Some(op1),
        level(ts, k + 1, q + 1) == Ok::<(ExprModel, int), Failure>((y, r)),
        level_op(k, tok(ts, r)) == Some(op2),
        level(ts, k + 1, r + 1) == Ok::<(ExprModel, int), Failure>((z, s)),
        level_op(k, tok(ts, s)) is None,
        p < q < r < s <= ts.len(),
    ensures
        level(ts, k, p) == Ok::<(ExprModel, int), Failure>((join(join(x, op1, y), op2, z), s)),
{
    lemma_level_unfold(ts, k, p);
    lemma_rest_unfold(ts, k, x, q);
    lemma_rest_unfold(ts, k, join(x, op1, y), r);
    lemma_rest_unfold(ts, k, join(join(x, op1, y), op2, z), s);
}

/// A single operand token parses as its expression.
proof fn lemma_operand_token(ts: Seq<TokenInstance>, p: int)
    requires
        0 <= p,
        p + 1 < ts.len(),
        operand_of(tok(ts, p)) is Some,
        tok(ts, p + 1) != Token::LeftParen,
    ensures
        unary(ts, p) == Ok::<(ExprModel, int), Failure>((operand_of(tok(ts, p))->Some_0, p + 1)),
{
    let x = operand_of(tok(ts, p))->Some_0;
    assert(primary(ts, p) == Ok::<(ExprModel, int), Failure>((x, p + 1)));
    assert(call_rest(ts, x, p + 1) == Ok::<(ExprModel, int), Failure>((x, p + 1)));
    assert(call(ts, p) == Ok::<(ExprModel, int), Failure>((x, p + 1)));
}

/// The tree of `a op1 b op2 c`: the tighter operator takes `b`; operators
/// of equal strength group to the left.
pub open spec fn grouped(a: ExprModel, op1: Operator, b: ExprModel, op2: Operator, c: ExprModel) -> ExprModel {
    if strength(op1)->Some_0 < strength(op2)->Some_0 {
        join(a, op1, join(b, op2, c))
    } else {
        join(join(a, op1, b), op2, c)
    }
}

/// Precedence and associativity: the statement `a op1 b op2 c;`, with three
/// operand tokens and two binary operators, parses as [`grouped`] says. So
/// `1 + 2 * 3` is `1 + (2 * 3)`, `1 * 2 + 3` is `(1 * 2) + 3`, and
/// `1 - 2 - 3` is `(1 - 2) - 3`.
pub proof fn precedence_and_associativity(ts: Seq<TokenInstance>, op1: Operator, op2: Operator)
    requires
        ts.len() == 7,
        strength(op1) is Some,
        strength(op2) is Some,
        operand_of(tok(ts, 0)) is Some,
        tok(ts, 1) == operator_token(op1),
        operand_of(tok(ts, 2)) is Some,
        tok(ts, 3) == operator_token(op2),
        operand_of(tok(ts, 4)) is Some,
        tok(ts, 5) == Token::Semicolon,
        tok(ts, 6) == Token::Eof,
    ensures
        program(ts, Seq::empty(), 0) == Ok::<Seq<StmtModel>, Failure>(
            seq![
                StmtModel::Expression(
                    grouped(
                        operand_of(tok(ts, 0))->Some_0,
                        op1,
                        operand_of(tok(ts, 2))->Some_0,
                        op2,
                        operand_of(tok(ts, 4))->Some_0,
                    ),
                ),
            ],
        ),
{
    let a = operand_of(tok(ts, 0))->Some_0;
    let b = operand_of(tok(ts, 2))->Some_0;
    let c = operand_of(tok(ts, 4))->Some_0;
    let s1 = strength(op1)->Some_0;
    let s2 = strength(op2)->Some_0;
    lemma_operand_token(ts, 0);
    lemma_operand_token(ts, 2);
    lemma_operand_token(ts, 4);
    assert forall|j: nat| j <= 5 implies #[trigger] level_op(j, tok(ts, 1)) == (if j == s1 {
        Some(op1)
    } else {
        None::<Operator>
    }) by {
        lemma_level_op(op1, j);
    }
    assert forall|j: nat| j <= 5 implies #[trigger] level_op(j, tok(ts, 3)) == (if j == s2 {
        Some(op2)
    } else {
        None::<Operator>
    }) by {
        lemma_level_op(op2, j);
    }
    assert forall|j: nat| j <= 5 implies #[trigger] level_op(j, tok(ts, 5)) is None by {}
    let e = grouped(a, op1, b, op2, c);
    if s1 < s2 {
        lemma_pass(ts, s2 + 1, 2, b, 3);
        lemma_pass(ts, s2 + 1, 4, c, 5);
        lemma_one(ts, s2, 2, b, 3, op2, c, 5);
        lemma_lift(ts, s1 + 1, s2, 2, join(b, op2, c), 5);
        lemma_pass(ts, s1 + 1, 0, a, 1);
        lemma_one(ts, s1, 0, a, 1, op1, join(b, op2, c), 5);
        lemma_lift(ts, 0, s1, 0, e, 5);
    } else if s1 == s2 {
        lemma_pass(ts, s1 + 1, 0, a, 1);
        lemma_pass(ts, s1 + 1, 2, b, 3);
        lemma_pass(ts, s1 + 1, 4, c, 5);
        lemma_two(ts, s1, 0, a, 1, op1, b, 3, op2, c, 5);
        lemma_lift(ts, 0, s1, 0, e, 5);
    } else {
        lemma_pass(ts, s1 + 1, 0, a, 1);
        lemma_pass(ts, s1 + 1, 2, b, 3);
        lemma_one(ts, s1, 0, a, 1, op1, b, 3);
        lemma_lift(ts, s2 + 1, s1, 0, join(a, op1, b), 3);
        lemma_pass(ts, s2 + 1, 4, c, 5);
        lemma_one(ts, s2, 0, join(a, op1, b), 3, op2, c, 5);
        lemma_lift(ts, 0, s2, 0, e, 5);
    }
    assert(level(ts, 0, 0) == Ok::<(ExprModel, int), Failure>((e, 5)));
    assert(assignment(ts, 0) == Ok::<(ExprModel, int), Failure>((e, 5)));
    assert(expression(ts, 0) == Ok::<(ExprModel, int), Failure>((e, 5)));
    let st = StmtModel::Expression(e);
    assert(expression_statement(ts, 0) == Ok::<(StmtModel, int), Failure>((st, 6)));
    assert(statement(ts, 0) == Ok::<(StmtModel, int), Failure>((st, 6)));
    assert(declaration(ts, 0) == Ok::<(StmtModel, int), Failure>((st, 6)));
    assert(program(ts, seq![st], 6) == Ok::<Seq<StmtModel>, Failure>(seq![st]));
    assert(Seq::<StmtModel>::empty().push(st) == seq![st]);
}

} // verus!

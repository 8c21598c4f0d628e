//! The meaning of expressions and statements, as spec functions.
//!
//! The results of `+`, `-`, `*` and `/` on two numbers come from the host's
//! floating-point arithmetic, which this library does not model. The
//! semantics therefore takes them as input: `answers` lists, in the order in
//! which evaluation makes them, the requests to the host's arithmetic (the
//! operation and its two operands) with the number returned for each, and
//! each rule hands the unused rest on. A request must meet an answer to that
//! very request. Everything else is fixed here.
use vstd::prelude::*;
use crate::ast::{ExprModel, StmtModel};
use crate::env::{EnvModel, ScopeModel, env_assign, env_declare, env_lookup};
use crate::error::ErrorModel;
use crate::value::{
    ArithOp, Operator, ValueModel, num_le, num_lt, num_neg, truthy, values_equal,
};

verus! {

/// A request to the host's arithmetic and the number it returned.
pub struct HostAnswer {
    pub op: ArithOp,
    pub a: u64,
    pub b: u64,
    pub result: u64,
}

/// The outcome of evaluating an expression.
pub struct ExprRun {
    pub result: Result<ValueModel, ErrorModel>,
    pub env: EnvModel,
    pub answers: Seq<HostAnswer>,
}

/// The outcome of running statements: the values printed, in order, and the
/// loop iterations still allowed.
pub struct StmtRun {
    pub result: Result<(), ErrorModel>,
    pub env: EnvModel,
    pub printed: Seq<ValueModel>,
    pub answers: Seq<HostAnswer>,
    pub fuel: nat,
}

/// The arithmetic operation behind an operator.
pub open spec fn arith_of(op: Operator) -> Option<ArithOp> {
    match op {
        Operator::Plus => Some(ArithOp::Add),
        Operator::Minus => Some(ArithOp::Sub),
        Operator::Star => Some(ArithOp::Mul),
        Operator::Slash => Some(ArithOp::Div),
        _ => None,
    }
}

/// Whether the operator is one of `>`, `>=`, `<`, `<=`.
pub open spec fn is_ordering(op: Operator) -> bool {
    op == Operator::Greater || op == Operator::GreaterEqual || op == Operator::Less || op
        == Operator::LessEqual
}

/// An ordering operator on two numbers, as IEEE-754 defines it.
pub open spec fn compare(op: Operator, x: u64, y: u64) -> bool {
    match op {
        Operator::Greater => num_lt(y, x),
        Operator::GreaterEqual => num_le(y, x),
        Operator::Less => num_lt(x, y),
        _ => num_le(x, y),
    }
}

/// A binary operator applied to two values. `+` concatenates when its left
/// operand is a string; equality never fails; ordering and arithmetic need
/// two numbers.
pub open spec fn binary_value(op: Operator, a: ValueModel, b: ValueModel, answers: Seq<HostAnswer>) -> (
    Result<ValueModel, ErrorModel>,
    Seq<HostAnswer>,
) {
    if op == Operator::Plus && a is Str {
        match b {
            ValueModel::Str(t) => (Ok(ValueModel::Str(a->Str_0 + t)), answers),
            _ => (Err(ErrorModel::Arithmetic(op, a, b)), answers),
        }
    } else if op == Operator::EqualEqual {
        (Ok(ValueModel::Bool(values_equal(a, b))), answers)
    } else if op == Operator::BangEqual {
        (Ok(ValueModel::Bool(!values_equal(a, b))), answers)
    } else if is_ordering(op) {
        match (a, b) {
            (ValueModel::Num(x), ValueModel::Num(y)) => (Ok(ValueModel::Bool(compare(op, x, y))), answers),
            _ => (Err(ErrorModel::Comparison(op, a, b)), answers),
        }
    } else if arith_of(op) is Some {
        match (a, b) {
            (ValueModel::Num(x), ValueModel::Num(y)) => if answers.len() > 0 && answers[0] == (HostAnswer {
                op: arith_of(op)->Some_0,
                a: x,
                b: y,
                result: answers[0].result,
            }) {
                (Ok(ValueModel::Num(answers[0].result)), answers.drop_first())
            } else {
                (Err(ErrorModel::Unanswered), answers)
            },
            _ => (Err(ErrorModel::Arithmetic(op, a, b)), answers),
        }
    } else {
        (Err(ErrorModel::UnsupportedOperator(op)), answers)
    }
}

/// A unary operator applied to a value.
pub open spec fn unary_value(op: Operator, v: ValueModel) -> Result<ValueModel, ErrorModel> {
    match op {
        Operator::Bang => Ok(ValueModel::Bool(!truthy(v))),
        Operator::Minus => match v {
            ValueModel::Num(n) => Ok(ValueModel::Num(num_neg(n))),
            _ => Err(ErrorModel::Negation(v)),
        },
        _ => Err(ErrorModel::UnsupportedOperator(op)),
    }
}

/// The value of an expression in a scope chain, and the chain after the
/// assignments in it.
pub open spec fn eval_expr(e: ExprModel, env: EnvModel, answers: Seq<HostAnswer>) -> ExprRun
    decreases e,
{
    match e {
        ExprModel::Literal(v) => ExprRun { result: Ok(v), env, answers },
        ExprModel::Variable(name) => ExprRun {
            result: match env_lookup(env, name) {
                Some(Some(v)) => Ok(v),
                Some(None) => Err(ErrorModel::UninitializedVariable(name)),
                None => Err(ErrorModel::UnknownVariable(name)),
            },
            env,
            answers,
        },
        ExprModel::Assign(name, x) => {
            let r = eval_expr(*x, env, answers);
            match r.result {
                Err(_) => r,
                Ok(v) => match env_assign(r.env, name, v) {
                    Some(env2) => ExprRun { result: Ok(v), env: env2, answers: r.answers },
                    None => ExprRun {
                        result: Err(ErrorModel::UnknownAssignmentTarget(name)),
                        env: r.env,
                        answers: r.answers,
                    },
                },
            }
        },
        ExprModel::Grouping(x) => eval_expr(*x, env, answers),
        ExprModel::Unary(op, x) => {
            let r = eval_expr(*x, env, answers);
            match r.result {
                Err(_) => r,
                Ok(v) => ExprRun { result: unary_value(op, v), env: r.env, answers: r.answers },
            }
        },
        ExprModel::Binary(l, op, rt) => {
            let a = eval_expr(*l, env, answers);
            match a.result {
                Err(_) => a,
                Ok(va) => {
                    let b = eval_expr(*rt, a.env, a.answers);
                    match b.result {
                        Err(_) => b,
                        Ok(vb) => {
                            let (res, rest) = binary_value(op, va, vb, b.answers);
                            ExprRun { result: res, env: b.env, answers: rest }
                        },
                    }
                },
            }
        },
        ExprModel::Logical(l, op, rt) => {
            let a = eval_expr(*l, env, answers);
            match a.result {
                Err(_) => a,
                Ok(va) => if op != Operator::And && op != Operator::Or {
                    ExprRun { result: Err(ErrorModel::UnsupportedOperator(op)), env: a.env, answers: a.answers }
                } else if (op == Operator::And && !truthy(va)) || (op == Operator::Or && truthy(va)) {
                    a
                } else {
                    eval_expr(*rt, a.env, a.answers)
                },
            }
        },
        ExprModel::Call(_, _) => ExprRun { result: Err(ErrorModel::UnsupportedCall), env, answers },
    }
}

/// A statement list run in order in the current scope; the first error
/// ends it.
pub open spec fn exec_stmts(ss: Seq<StmtModel>, env: EnvModel, answers: Seq<HostAnswer>, fuel: nat) -> StmtRun
    decreases ss, fuel,
{
    if ss.len() == 0 {
        StmtRun { result: Ok(()), env, printed: Seq::empty(), answers, fuel }
    } else {
        let r = exec_stmts(ss.drop_last(), env, answers, fuel);
        if r.result is Err {
            r
        } else {
            let s = exec_stmt(ss.last(), r.env, r.answers, r.fuel);
            StmtRun {
                result: s.result,
                env: s.env,
                printed: r.printed + s.printed,
                answers: s.answers,
                fuel: s.fuel,
            }
        }
    }
}

/// The run of a statement after its expression was evaluated.
pub open spec fn after_expr(r: ExprRun, fuel: nat) -> StmtRun {
    StmtRun {
        result: match r.result {
            Ok(_) => Ok(()),
            Err(e) => Err(e),
        },
        env: r.env,
        printed: Seq::empty(),
        answers: r.answers,
        fuel,
    }
}

/// One statement.
pub open spec fn exec_stmt(s: StmtModel, env: EnvModel, answers: Seq<HostAnswer>, fuel: nat) -> StmtRun
    decreases s, fuel,
{
    match s {
        StmtModel::Expression(e) => after_expr(eval_expr(e, env, answers), fuel),
        StmtModel::Print(e) => {
            let r = eval_expr(e, env, answers);
            match r.result {
                Ok(v) => StmtRun {
                    result: Ok(()),
                    env: r.env,
                    printed: seq![v],
                    answers: r.answers,
                    fuel,
                },
                Err(_) => after_expr(r, fuel),
            }
        },
        StmtModel::VarDecl(name, init) => match init {
            None => StmtRun {
                result: Ok(()),
                env: env_declare(env, name, None),
                printed: Seq::empty(),
                answers,
                fuel,
            },
            Some(e) => {
                let r = eval_expr(e, env, answers);
                match r.result {
                    Ok(v) => StmtRun {
                        result: Ok(()),
                        env: env_declare(r.env, name, Some(v)),
                        printed: Seq::empty(),
                        answers: r.answers,
                        fuel,
                    },
                    Err(_) => after_expr(r, fuel),
                }
            },
        },
        StmtModel::Block(ss) => {
            let r = exec_stmts(ss, env.push(ScopeModel::empty()), answers, fuel);
            StmtRun { env: r.env.drop_last(), ..r }
        },
        StmtModel::If(c, t, f) => {
            let r = eval_expr(c, env, answers);
            match r.result {
                Ok(v) => if truthy(v) {
                    exec_stmts(t, r.env, r.answers, fuel)
                } else {
                    exec_stmts(f, r.env, r.answers, fuel)
                },
                Err(_) => after_expr(r, fuel),
            }
        },
        StmtModel::While(c, body) => exec_while(c, body, env, answers, fuel),
    }
}

/// A `while` loop: each iteration that runs the body costs one unit of fuel;
/// with none left the loop stops with an error. A body never hands back more
/// fuel than it was given (the evaluator proves it of every run); the loop
/// tests it before it repeats, which makes the recursion terminate.
pub open spec fn exec_while(c: ExprModel, body: Seq<StmtModel>, env: EnvModel, answers: Seq<HostAnswer>, fuel: nat) -> StmtRun
    decreases body, fuel,
{
    let r = eval_expr(c, env, answers);
    match r.result {
        Err(_) => after_expr(r, fuel),
        Ok(v) => if !truthy(v) {
            after_expr(r, fuel)
        } else if fuel == 0 {
            StmtRun {
                result: Err(ErrorModel::StepLimitReached),
                env: r.env,
                printed: Seq::empty(),
                answers: r.answers,
                fuel,
            }
        } else {
            let b = exec_stmts(body, r.env, r.answers, (fuel - 1) as nat);
            if b.result is Err || b.fuel >= fuel {
                b
            } else {
                let rest = exec_while(c, body, b.env, b.answers, b.fuel);
                StmtRun { printed: b.printed + rest.printed, ..rest }
            }
        },
    }
}

} // verus!

//! The tree-walking evaluator.
use vstd::prelude::*;
use crate::ast::{Expr, Stmt};
use crate::env::EvalState;
use crate::error::{RuntimeError, RuntimeErrorKind};
use crate::semantics;
use crate::semantics::HostAnswer;
use crate::value::{
    ArithOp, FloatArithmetic, Operator, Value, number_less, number_less_equal, number_negate,
};

verus! {

/// The evaluation of `e` against `env` used the host answers `used` and
/// ended with `result` and the chain `env2`, whatever answers follow.
pub open spec fn expr_ran(
    e: crate::ast::ExprModel,
    env: crate::env::EnvModel,
    used: Seq<HostAnswer>,
    result: Result<Value, RuntimeError>,
    env2: crate::env::EnvModel,
) -> bool {
    forall|t: Seq<HostAnswer>| #[trigger] semantics::eval_expr(e, env, used + t) == semantics::ExprRun {
        result: crate::error::value_result_model(result),
        env: env2,
        answers: t,
    }
}

/// Each recorded answer is one that the host's `apply` can return for its
/// request.
pub open spec fn answered<A: FloatArithmetic>(arith: &A, log: Seq<HostAnswer>) -> bool {
    forall|i: int| 0 <= i < log.len() ==> #[trigger] call_ensures(
        A::apply,
        (arith, log[i].op, log[i].a, log[i].b),
        log[i].result,
    )
}

proof fn lemma_answered_concat<A: FloatArithmetic>(arith: &A, a: Seq<HostAnswer>, b: Seq<HostAnswer>)
    requires
        answered(arith, a),
        answered(arith, b),
    ensures
        answered(arith, a + b),
{
    assert forall|i: int| 0 <= i < (a + b).len() implies #[trigger] call_ensures(
        A::apply,
        (arith, (a + b)[i].op, (a + b)[i].a, (a + b)[i].b),
        (a + b)[i].result,
    ) by {
        if i < a.len() {
            assert((a + b)[i] == a[i]);
        } else {
            assert((a + b)[i] == b[i - a.len()]);
        }
    }
}

fn arith_operation(op: Operator) -> (r: Option<ArithOp>)
    ensures
        r == semantics::arith_of(op),
{
    match op {
        Operator::Plus => Some(ArithOp::Add),
        Operator::Minus => Some(ArithOp::Sub),
        Operator::Star => Some(ArithOp::Mul),
        Operator::Slash => Some(ArithOp::Div),
        _ => None,
    }
}

/// A binary operator on two evaluated operands; the ghost part lists the
/// answer taken from the host's arithmetic, if any.
fn binary_operation<A: FloatArithmetic>(op: Operator, left: Value, right: Value, arith: &A) -> (r: (
    Result<Value, RuntimeError>,
    Ghost<Seq<HostAnswer>>,
))
    ensures
        answered(arith, r.1@),
        forall|t: Seq<HostAnswer>| #[trigger] semantics::binary_value(op, left@, right@, r.1@ + t) == (
            crate::error::value_result_model(r.0),
            t,
        ),
{
    proof {
        lemma_empty_prefix();
    }
    if op == Operator::Plus && matches!(left, Value::String(_)) {
        let r = match (&left, &right) {
            (Value::String(a), Value::String(b)) => {
                let mut s = a.clone();
                s.append(b.as_str());
                Ok(Value::String(s))
            },
            _ => Err(RuntimeError::new(RuntimeErrorKind::Arithmetic(op, left, right))),
        };
        return (r, Ghost(Seq::empty()));
    }
    if op == Operator::EqualEqual {
        return (Ok(Value::Boolean(left.equals(&right))), Ghost(Seq::empty()));
    }
    if op == Operator::BangEqual {
        return (Ok(Value::Boolean(!left.equals(&right))), Ghost(Seq::empty()));
    }
    if op == Operator::Greater || op == Operator::GreaterEqual || op == Operator::Less || op
        == Operator::LessEqual {
        let r = match (left.as_number(), right.as_number()) {
            (Some(x), Some(y)) => Ok(
                Value::Boolean(
                    match op {
                        Operator::Greater => number_less(y, x),
                        Operator::GreaterEqual => number_less_equal(y, x),
                        Operator::Less => number_less(x, y),
                        _ => number_less_equal(x, y),
                    },
                ),
            ),
            _ => Err(RuntimeError::new(RuntimeErrorKind::Comparison(op, left, right))),
        };
        return (r, Ghost(Seq::empty()));
    }
    match arith_operation(op) {
        Some(a) => match (left.as_number(), right.as_number()) {
            (Some(x), Some(y)) => {
                let n = arith.apply(a, x, y);
                let ghost h = HostAnswer { op: a, a: x, b: y, result: n };
                let ghost used = seq![h];
                proof {
                    assert(used[0] == h);
                    assert forall|t: Seq<HostAnswer>| #[trigger] (seq![h] + t).drop_first() == t by {
                        assert((seq![h] + t).drop_first() =~= t);
                    }
                    assert forall|t: Seq<HostAnswer>| #[trigger] (seq![h] + t)[0] == h by {}
                }
                (Ok(Value::Number(n)), Ghost(used))
            },
            _ => (
                Err(RuntimeError::new(RuntimeErrorKind::Arithmetic(op, left, right))),
                Ghost(Seq::empty()),
            ),
        },
        None => (
            Err(RuntimeError::new(RuntimeErrorKind::UnsupportedOperator(op))),
            Ghost(Seq::empty()),
        ),
    }
}

proof fn lemma_empty_prefix()
    ensures
        forall|t: Seq<HostAnswer>| #[trigger] (Seq::<HostAnswer>::empty() + t) == t,
{
    assert forall|t: Seq<HostAnswer>| #[trigger] (Seq::<HostAnswer>::empty() + t) == t by {
        assert(Seq::<HostAnswer>::empty() + t =~= t);
    }
}

proof fn lemma_concat_assoc(a: Seq<HostAnswer>, b: Seq<HostAnswer>)
    ensures
        forall|t: Seq<HostAnswer>| #[trigger] ((a + b) + t) == a + (b + t),
{
    assert forall|t: Seq<HostAnswer>| #[trigger] ((a + b) + t) == a + (b + t) by {
        assert((a + b) + t =~= a + (b + t));
    }
}

/// Evaluates `e`; the ghost part lists the answers of the host's arithmetic
/// that the evaluation used.
fn eval_expr<A: FloatArithmetic>(e: &Expr, state: &mut EvalState, arith: &A) -> (r: (
    Result<Value, RuntimeError>,
    Ghost<Seq<HostAnswer>>,
))
    requires
        old(state).wf(),
    ensures
        final(state).wf(),
        final(state)@.len() == old(state)@.len(),
        answered(arith, r.1@),
        expr_ran(e@, old(state)@, r.1@, r.0, final(state)@),
    decreases e,
{
    let ghost env0 = state@;
    proof {
        lemma_empty_prefix();
    }
    match e {
        Expr::Literal(v) => {
            let r = v.duplicate();
            proof {
                assert(e@ == crate::ast::ExprModel::Literal(v@));
                assert forall|t: Seq<HostAnswer>| #[trigger] semantics::eval_expr(e@, env0, Seq::empty() + t)
                    == semantics::ExprRun {
                    result: crate::error::value_result_model(Ok::<Value, RuntimeError>(r)),
                    env: env0,
                    answers: t,
                } by {
                    assert(Seq::<HostAnswer>::empty() + t == t);
                }
            }
            (Ok(r), Ghost(Seq::empty()))
        },
        Expr::Variable(name) => {
            let r = state.lookup(name.as_str());
            proof {
                assert(e@ == crate::ast::ExprModel::Variable(name@));
                assert forall|t: Seq<HostAnswer>| #[trigger] semantics::eval_expr(e@, env0, Seq::empty() + t)
                    == semantics::ExprRun {
                    result: crate::error::value_result_model(r),
                    env: env0,
                    answers: t,
                } by {
                    assert(Seq::<HostAnswer>::empty() + t == t);
                }
            }
            (r, Ghost(Seq::empty()))
        },
        Expr::Call(callee, args) => {
            proof {
                assert(e@ == crate::ast::ExprModel::Call(
                    Box::new(callee@),
                    crate::ast::exprs_model(args@),
                ));
            }
            let r = Err(RuntimeError::new(RuntimeErrorKind::UnsupportedCall));
            proof {
                assert forall|t: Seq<HostAnswer>| #[trigger] semantics::eval_expr(e@, env0, Seq::empty() + t)
                    == semantics::ExprRun {
                    result: crate::error::value_result_model(r),
                    env: env0,
                    answers: t,
                } by {
                    assert(Seq::<HostAnswer>::empty() + t == t);
                }
            }
            (r, Ghost(Seq::empty()))
        },
        Expr::Grouping(x) => {
            proof {
                assert(e@ == crate::ast::ExprModel::Grouping(Box::new(x@)));
            }
            let (r, Ghost(used)) = eval_expr(x, state, arith);
            proof {
                assert forall|t: Seq<HostAnswer>| #[trigger] semantics::eval_expr(e@, env0, used + t)
                    == semantics::ExprRun {
                    result: crate::error::value_result_model(r),
                    env: state@,
                    answers: t,
                } by {
                    assert(semantics::eval_expr(x@, env0, used + t).answers == t);
                }
            }
            (r, Ghost(used))
        },
        Expr::Assign(name, x) => {
            proof {
                assert(e@ == crate::ast::ExprModel::Assign(name@, Box::new(x@)));
            }
            let (r, Ghost(used)) = eval_expr(x, state, arith);
            let ghost env1 = state@;
            let res = match r {
                Err(err) => Err(err),
                Ok(v) => {
                    proof {
                        crate::env::lemma_assign_keeps_depth(env1, name@, v@);
                    }
                    match state.assign(name.as_str(), &v) {
                        Ok(_) => Ok(v),
                        Err(err) => Err(err),
                    }
                },
            };
            proof {
                assert forall|t: Seq<HostAnswer>| #[trigger] semantics::eval_expr(e@, env0, used + t)
                    == semantics::ExprRun {
                    result: crate::error::value_result_model(res),
                    env: state@,
                    answers: t,
                } by {
                    assert(semantics::eval_expr(x@, env0, used + t).answers == t);
                    assert(semantics::eval_expr(x@, env0, used + t).env == env1);
                }
            }
            (res, Ghost(used))
        },
        Expr::Unary(op, x) => {
            proof {
                assert(e@ == crate::ast::ExprModel::Unary(*op, Box::new(x@)));
            }
            let (r, Ghost(used)) = eval_expr(x, state, arith);
            let res = match r {
                Err(err) => Err(err),
                Ok(v) => match op {
                    Operator::Bang => Ok(Value::Boolean(!v.is_truthy())),
                    Operator::Minus => match v {
                        Value::Number(n) => Ok(Value::Number(number_negate(n))),
                        _ => Err(RuntimeError::new(RuntimeErrorKind::Negation(v))),
                    },
                    _ => Err(RuntimeError::new(RuntimeErrorKind::UnsupportedOperator(*op))),
                },
            };
            proof {
                assert forall|t: Seq<HostAnswer>| #[trigger] semantics::eval_expr(e@, env0, used + t)
                    == semantics::ExprRun {
                    result: crate::error::value_result_model(res),
                    env: state@,
                    answers: t,
                } by {
                    assert(semantics::eval_expr(x@, env0, used + t).answers == t);
                }
            }
            (res, Ghost(used))
        },
        Expr::Binary(l, op, rt) => {
            proof {
                assert(e@ == crate::ast::ExprModel::Binary(Box::new(l@), *op, Box::new(rt@)));
            }
            let (ra, Ghost(ua)) = eval_expr(l, state, arith);
            let va = match ra {
                Err(err) => {
                    proof {
                        assert forall|t: Seq<HostAnswer>| #[trigger] semantics::eval_expr(e@, env0, ua + t)
                            == semantics::ExprRun {
                            result: crate::error::value_result_model(Err::<Value, RuntimeError>(err)),
                            env: state@,
                            answers: t,
                        } by {
                            assert(semantics::eval_expr(l@, env0, ua + t).result is Err);
                        }
                    }
                    return (Err(err), Ghost(ua));
                },
                Ok(v) => v,
            };
            let ghost env1 = state@;
            let (rb, Ghost(ub)) = eval_expr(rt, state, arith);
            let vb = match rb {
                Err(err) => {
                    proof {
                        lemma_concat_assoc(ua, ub);
                        lemma_answered_concat(arith, ua, ub);
                        assert forall|t: Seq<HostAnswer>| #[trigger] semantics::eval_expr(e@, env0, (ua + ub) + t)
                            == semantics::ExprRun {
                            result: crate::error::value_result_model(Err::<Value, RuntimeError>(err)),
                            env: state@,
                            answers: t,
                        } by {
                            assert((ua + ub) + t == ua + (ub + t));
                            assert(semantics::eval_expr(l@, env0, ua + (ub + t)).answers == ub + t);
                            assert(semantics::eval_expr(l@, env0, ua + (ub + t)).env == env1);
                            assert(semantics::eval_expr(rt@, env1, ub + t).result is Err);
                        }
                    }
                    return (Err(err), Ghost(ua + ub));
                },
                Ok(v) => v,
            };
            let ghost (ma, mb) = (va@, vb@);
            let (rc, Ghost(uc)) = binary_operation(*op, va, vb, arith);
            proof {
                lemma_concat_assoc(ua, ub);
                        lemma_answered_concat(arith, ua, ub);
                lemma_concat_assoc(ua + ub, uc);
                lemma_answered_concat(arith, ua, ub);
                lemma_answered_concat(arith, ua + ub, uc);
                lemma_concat_assoc(ub, uc);
                assert forall|t: Seq<HostAnswer>| #[trigger] semantics::eval_expr(e@, env0, ((ua + ub) + uc) + t)
                    == semantics::ExprRun {
                    result: crate::error::value_result_model(rc),
                    env: state@,
                    answers: t,
                } by {
                    assert(((ua + ub) + uc) + t == ua + (ub + (uc + t)));
                    assert(semantics::eval_expr(l@, env0, ua + (ub + (uc + t))).answers == ub + (uc + t));
                    assert(semantics::eval_expr(rt@, env1, ub + (uc + t)).answers == uc + t);
                    assert(semantics::binary_value(*op, ma, mb, uc + t) == (
                        crate::error::value_result_model(rc),
                        t,
                    ));
                }
            }
            (rc, Ghost((ua + ub) + uc))
        },
        Expr::Logical(l, op, rt) => {
            proof {
                assert(e@ == crate::ast::ExprModel::Logical(Box::new(l@), *op, Box::new(rt@)));
            }
            let (ra, Ghost(ua)) = eval_expr(l, state, arith);
            let early = match ra {
                Err(err) => Some(Err(err)),
                Ok(va) => if *op != Operator::And && *op != Operator::Or {
                    Some(Err(RuntimeError::new(RuntimeErrorKind::UnsupportedOperator(*op))))
                } else {
                    let truth = va.is_truthy();
                    if (*op == Operator::And && !truth) || (*op == Operator::Or && truth) {
                        Some(Ok(va))
                    } else {
                        None
                    }
                },
            };
            match early {
                Some(r) => {
                    proof {
                        assert forall|t: Seq<HostAnswer>| #[trigger] semantics::eval_expr(e@, env0, ua + t)
                            == semantics::ExprRun {
                            result: crate::error::value_result_model(r),
                            env: state@,
                            answers: t,
                        } by {
                            assert(semantics::eval_expr(l@, env0, ua + t).answers == t);
                        }
                    }
                    return (r, Ghost(ua));
                },
                None => {},
            }
            let ghost env1 = state@;
            let (rb, Ghost(ub)) = eval_expr(rt, state, arith);
            proof {
                lemma_concat_assoc(ua, ub);
                        lemma_answered_concat(arith, ua, ub);
                assert forall|t: Seq<HostAnswer>| #[trigger] semantics::eval_expr(e@, env0, (ua + ub) + t)
                    == semantics::ExprRun {
                    result: crate::error::value_result_model(rb),
                    env: state@,
                    answers: t,
                } by {
                    assert(semantics::eval_expr(l@, env0, ua + (ub + t)).answers == ub + t);
                    assert(semantics::eval_expr(rt@, env1, ub + t).answers == t);
                }
            }
            (rb, Ghost(ua + ub))
        },
    }
}

/// The models of a list of values.
pub open spec fn values_model(s: Seq<Value>) -> Seq<crate::value::ValueModel> {
    s.map_values(|v: Value| v@)
}

/// The statement `s` run against `env` with `fuel` used the host answers
/// `used`, and ended with `result`, the chain `env2`, the values `printed` and
/// `fuel2` left, whatever answers follow.
pub open spec fn stmt_ran(
    s: crate::ast::StmtModel,
    env: crate::env::EnvModel,
    fuel: nat,
    used: Seq<HostAnswer>,
    result: Result<(), RuntimeError>,
    env2: crate::env::EnvModel,
    printed: Seq<crate::value::ValueModel>,
    fuel2: nat,
) -> bool {
    forall|t: Seq<HostAnswer>| #[trigger] semantics::exec_stmt(s, env, used + t, fuel) == semantics::StmtRun {
        result: crate::error::unit_result_model(result),
        env: env2,
        printed,
        answers: t,
        fuel: fuel2,
    }
}

/// As [`stmt_ran`], for a statement list.
pub open spec fn stmts_ran(
    ss: Seq<crate::ast::StmtModel>,
    env: crate::env::EnvModel,
    fuel: nat,
    used: Seq<HostAnswer>,
    result: Result<(), RuntimeError>,
    env2: crate::env::EnvModel,
    printed: Seq<crate::value::ValueModel>,
    fuel2: nat,
) -> bool {
    forall|t: Seq<HostAnswer>| #[trigger] semantics::exec_stmts(ss, env, used + t, fuel) == semantics::StmtRun {
        result: crate::error::unit_result_model(result),
        env: env2,
        printed,
        answers: t,
        fuel: fuel2,
    }
}

proof fn lemma_error_sticks(
    ms: Seq<crate::ast::StmtModel>,
    i: int,
    env: crate::env::EnvModel,
    answers: Seq<HostAnswer>,
    fuel: nat,
)
    requires
        0 <= i <= ms.len(),
        semantics::exec_stmts(ms.take(i), env, answers, fuel).result is Err,
    ensures
        semantics::exec_stmts(ms, env, answers, fuel) == semantics::exec_stmts(ms.take(i), env, answers, fuel),
    decreases ms.len() - i,
{
    if i < ms.len() {
        assert(ms.take(i + 1).drop_last() =~= ms.take(i));
        lemma_error_sticks(ms, i + 1, env, answers, fuel);
    } else {
        assert(ms.take(i) =~= ms);
    }
}

proof fn lemma_push_printed(out: Seq<Value>, v: Value)
    ensures
        values_model(out.push(v)) == values_model(out) + seq![v@],
{
    assert(values_model(out.push(v)) =~= values_model(out) + seq![v@]);
}

/// A run with `printed` printed before it.
pub open spec fn prepend(printed: Seq<crate::value::ValueModel>, r: semantics::StmtRun) -> semantics::StmtRun {
    semantics::StmtRun { printed: printed + r.printed, ..r }
}

/// Runs a statement list in the current scope, stopping at the first error.
fn exec_stmts<A: FloatArithmetic>(
    stmts: &Vec<Stmt>,
    state: &mut EvalState,
    arith: &A,
    out: &mut Vec<Value>,
    fuel: &mut u64,
) -> (r: (Result<(), RuntimeError>, Ghost<Seq<HostAnswer>>, Ghost<Seq<crate::value::ValueModel>>))
    requires
        old(state).wf(),
    ensures
        final(state).wf(),
        final(state)@.len() == old(state)@.len(),
        *final(fuel) <= *old(fuel),
        values_model(final(out)@) == values_model(old(out)@) + r.2@,
        answered(arith, r.1@),
        stmts_ran(
            crate::ast::stmts_model(stmts@),
            old(state)@,
            *old(fuel) as nat,
            r.1@,
            r.0,
            final(state)@,
            r.2@,
            *final(fuel) as nat,
        ),
    decreases stmts, 0nat,
{
    let ghost env0 = state@;
    let ghost fuel0 = *fuel as nat;
    let ghost ms = crate::ast::stmts_model(stmts@);
    let ghost mut used: Seq<HostAnswer> = Seq::empty();
    let ghost mut printed: Seq<crate::value::ValueModel> = Seq::empty();
    let ghost out0 = values_model(out@);
    proof {
        crate::ast::lemma_stmts_model_index(stmts@);
        lemma_empty_prefix();
        assert(ms.take(0) =~= Seq::<crate::ast::StmtModel>::empty());
        assert(values_model(out@) =~= out0 + printed);
    }
    let mut i: usize = 0;
    while i < stmts.len()
        invariant
            env0 == old(state)@,
            fuel0 == *old(fuel) as nat,
            out0 == values_model(old(out)@),
            i <= stmts@.len(),
            ms == crate::ast::stmts_model(stmts@),
            ms.len() == stmts@.len(),
            forall|j: int| 0 <= j < stmts@.len() ==> #[trigger] ms[j] == stmts@[j]@,
            state.wf(),
            state@.len() == env0.len(),
            *fuel <= fuel0,
            values_model(out@) == out0 + printed,
            answered(arith, used),
            forall|t: Seq<HostAnswer>| #[trigger] semantics::exec_stmts(ms.take(i as int), env0, used + t, fuel0)
                == (semantics::StmtRun {
                result: Ok(()),
                env: state@,
                printed,
                answers: t,
                fuel: *fuel as nat,
            }),
        decreases stmts@.len() - i,
    {
        let ghost env_i = state@;
        let ghost fuel_i = *fuel as nat;
        let (r, Ghost(u), Ghost(p)) = exec_stmt(&stmts[i], state, arith, out, fuel);
        proof {
            lemma_concat_assoc(used, u);
            lemma_answered_concat(arith, used, u);
            assert(ms.take(i + 1).drop_last() =~= ms.take(i as int));
            assert(ms.take(i + 1).last() == stmts@[i as int]@);
            assert forall|t: Seq<HostAnswer>| #[trigger] semantics::exec_stmts(ms.take(i + 1), env0, (used + u) + t, fuel0)
                == semantics::StmtRun {
                result: crate::error::unit_result_model(r),
                env: state@,
                printed: printed + p,
                answers: t,
                fuel: *fuel as nat,
            } by {
                assert((used + u) + t == used + (u + t));
                assert(semantics::exec_stmts(ms.take(i as int), env0, used + (u + t), fuel0).answers == u + t);
                assert(semantics::exec_stmt(stmts@[i as int]@, env_i, u + t, fuel_i).answers == t);
            }
            used = used + u;
            printed = printed + p;
            assert(values_model(out@) =~= out0 + printed);
        }
        match r {
            Err(err) => {
                proof {
                    assert forall|t: Seq<HostAnswer>| #[trigger] semantics::exec_stmts(ms, env0, used + t, fuel0)
                        == semantics::StmtRun {
                        result: crate::error::unit_result_model(Err::<(), RuntimeError>(err)),
                        env: state@,
                        printed,
                        answers: t,
                        fuel: *fuel as nat,
                    } by {
                        lemma_error_sticks(ms, i + 1, env0, used + t, fuel0);
                    }
                }
                return (Err(err), Ghost(used), Ghost(printed));
            },
            Ok(_) => {},
        }
        i = i + 1;
    }
    proof {
        assert(ms.take(i as int) =~= ms);
    }
    (Ok(()), Ghost(used), Ghost(printed))
}

/// Runs one statement.
fn exec_stmt<A: FloatArithmetic>(
    stmt: &Stmt,
    state: &mut EvalState,
    arith: &A,
    out: &mut Vec<Value>,
    fuel: &mut u64,
) -> (r: (Result<(), RuntimeError>, Ghost<Seq<HostAnswer>>, Ghost<Seq<crate::value::ValueModel>>))
    requires
        old(state).wf(),
    ensures
        final(state).wf(),
        final(state)@.len() == old(state)@.len(),
        *final(fuel) <= *old(fuel),
        values_model(final(out)@) == values_model(old(out)@) + r.2@,
        answered(arith, r.1@),
        stmt_ran(
            stmt@,
            old(state)@,
            *old(fuel) as nat,
            r.1@,
            r.0,
            final(state)@,
            r.2@,
            *final(fuel) as nat,
        ),
    decreases stmt, 1nat,
{
    let ghost env0 = state@;
    let ghost fuel0 = *fuel as nat;
    let ghost out0 = values_model(out@);
    proof {
        lemma_empty_prefix();
        assert(out0 + Seq::<crate::value::ValueModel>::empty() =~= out0);
    }
    match stmt {
        Stmt::Expression(e) => {
            proof {
                assert(stmt@ == crate::ast::StmtModel::Expression(e@));
            }
            let (r, Ghost(u)) = eval_expr(e, state, arith);
            let res = match r {
                Ok(_) => Ok(()),
                Err(err) => Err(err),
            };
            proof {
                assert forall|t: Seq<HostAnswer>| #[trigger] semantics::exec_stmt(stmt@, env0, u + t, fuel0)
                    == semantics::StmtRun {
                    result: crate::error::unit_result_model(res),
                    env: state@,
                    printed: Seq::empty(),
                    answers: t,
                    fuel: fuel0,
                } by {
                    assert(semantics::eval_expr(e@, env0, u + t).answers == t);
                }
            }
            (res, Ghost(u), Ghost(Seq::empty()))
        },
        Stmt::Print(e) => {
            proof {
                assert(stmt@ == crate::ast::StmtModel::Print(e@));
            }
            let (r, Ghost(u)) = eval_expr(e, state, arith);
            match r {
                Ok(v) => {
                    let ghost vm = v@;
                    let ghost one = seq![vm];
                    proof {
                        lemma_push_printed(out@, v);
                        assert forall|t: Seq<HostAnswer>| #[trigger] semantics::exec_stmt(stmt@, env0, u + t, fuel0)
                            == semantics::StmtRun {
                            result: Ok(()),
                            env: state@,
                            printed: seq![vm],
                            answers: t,
                            fuel: fuel0,
                        } by {
                            assert(semantics::eval_expr(e@, env0, u + t).answers == t);
                        }
                    }
                    out.push(v);
                    (Ok(()), Ghost(u), Ghost(one))
                },
                Err(err) => {
                    proof {
                        assert forall|t: Seq<HostAnswer>| #[trigger] semantics::exec_stmt(stmt@, env0, u + t, fuel0)
                            == semantics::StmtRun {
                            result: crate::error::unit_result_model(Err::<(), RuntimeError>(err)),
                            env: state@,
                            printed: Seq::empty(),
                            answers: t,
                            fuel: fuel0,
                        } by {
                            assert(semantics::eval_expr(e@, env0, u + t).answers == t);
                        }
                    }
                    (Err(err), Ghost(u), Ghost(Seq::empty()))
                },
            }
        },
        Stmt::VarDecl(name, init) => {
            match init {
                None => {
                    proof {
                        assert(stmt@ == crate::ast::StmtModel::VarDecl(name@, None));
                    }
                    state.declare(name, None);
                    (Ok(()), Ghost(Seq::empty()), Ghost(Seq::empty()))
                },
                Some(e) => {
                    proof {
                        assert(stmt@ == crate::ast::StmtModel::VarDecl(name@, Some(e@)));
                    }
                    let (r, Ghost(u)) = eval_expr(e, state, arith);
                    let ghost env1 = state@;
                    let res = match r {
                        Ok(v) => {
                            state.declare(name, Some(v));
                            Ok(())
                        },
                        Err(err) => Err(err),
                    };
                    proof {
                        assert forall|t: Seq<HostAnswer>| #[trigger] semantics::exec_stmt(stmt@, env0, u + t, fuel0)
                            == semantics::StmtRun {
                            result: crate::error::unit_result_model(res),
                            env: state@,
                            printed: Seq::empty(),
                            answers: t,
                            fuel: fuel0,
                        } by {
                            assert(semantics::eval_expr(e@, env0, u + t).answers == t);
                            assert(semantics::eval_expr(e@, env0, u + t).env == env1);
                        }
                    }
                    (res, Ghost(u), Ghost(Seq::empty()))
                },
            }
        },
        Stmt::Block(stmts) => {
            proof {
                assert(stmt@ == crate::ast::StmtModel::Block(crate::ast::stmts_model(stmts@)));
            }
            state.push_scope();
            let ghost env1 = state@;
            let (r, Ghost(u), Ghost(p)) = exec_stmts(stmts, state, arith, out, fuel);
            let ghost env2 = state@;
            state.pop_scope();
            proof {
                assert(env1 == env0.push(crate::env::ScopeModel::empty()));
                assert forall|t: Seq<HostAnswer>| #[trigger] semantics::exec_stmt(stmt@, env0, u + t, fuel0)
                    == semantics::StmtRun {
                    result: crate::error::unit_result_model(r),
                    env: state@,
                    printed: p,
                    answers: t,
                    fuel: *fuel as nat,
                } by {
                    assert(semantics::exec_stmts(
                        crate::ast::stmts_model(stmts@),
                        env1,
                        u + t,
                        fuel0,
                    ).env == env2);
                }
            }
            (r, Ghost(u), Ghost(p))
        },
        Stmt::If(c, then_branch, else_branch) => {
            proof {
                assert(stmt@ == crate::ast::StmtModel::If(
                    c@,
                    crate::ast::stmts_model(then_branch@),
                    crate::ast::stmts_model(else_branch@),
                ));
            }
            let (rc, Ghost(uc)) = eval_expr(c, state, arith);
            let ghost env1 = state@;
            match rc {
                Err(err) => {
                    proof {
                        assert forall|t: Seq<HostAnswer>| #[trigger] semantics::exec_stmt(stmt@, env0, uc + t, fuel0)
                            == semantics::StmtRun {
                            result: crate::error::unit_result_model(Err::<(), RuntimeError>(err)),
                            env: state@,
                            printed: Seq::empty(),
                            answers: t,
                            fuel: fuel0,
                        } by {
                            assert(semantics::eval_expr(c@, env0, uc + t).answers == t);
                        }
                    }
                    (Err(err), Ghost(uc), Ghost(Seq::empty()))
                },
                Ok(v) => {
                    let truth = v.is_truthy();
                    let ghost branch = if truth {
                        crate::ast::stmts_model(then_branch@)
                    } else {
                        crate::ast::stmts_model(else_branch@)
                    };
                    let (r, Ghost(u), Ghost(p)) = if truth {
                        exec_stmts(then_branch, state, arith, out, fuel)
                    } else {
                        exec_stmts(else_branch, state, arith, out, fuel)
                    };
                    proof {
                        lemma_concat_assoc(uc, u);
                        lemma_answered_concat(arith, uc, u);
                        assert forall|t: Seq<HostAnswer>| #[trigger] semantics::exec_stmt(stmt@, env0, (uc + u) + t, fuel0)
                            == semantics::StmtRun {
                            result: crate::error::unit_result_model(r),
                            env: state@,
                            printed: p,
                            answers: t,
                            fuel: *fuel as nat,
                        } by {
                            assert((uc + u) + t == uc + (u + t));
                            assert(semantics::eval_expr(c@, env0, uc + (u + t)).answers == u + t);
                            assert(semantics::eval_expr(c@, env0, uc + (u + t)).env == env1);
                            assert(semantics::eval_expr(c@, env0, uc + (u + t)).result == Ok::<
                                crate::value::ValueModel,
                                crate::error::ErrorModel,
                            >(v@));
                            assert(semantics::exec_stmts(branch, env1, u + t, fuel0).answers == t);
                        }
                    }
                    (r, Ghost(uc + u), Ghost(p))
                },
            }
        },
        Stmt::While(_, _) => exec_while(stmt, state, arith, out, fuel),
    }
}

/// Runs a `while` statement: each iteration that runs the body costs one
/// unit of fuel.
fn exec_while<A: FloatArithmetic>(
    stmt: &Stmt,
    state: &mut EvalState,
    arith: &A,
    out: &mut Vec<Value>,
    fuel: &mut u64,
) -> (r: (Result<(), RuntimeError>, Ghost<Seq<HostAnswer>>, Ghost<Seq<crate::value::ValueModel>>))
    requires
        old(state).wf(),
        stmt is While,
    ensures
        final(state).wf(),
        final(state)@.len() == old(state)@.len(),
        *final(fuel) <= *old(fuel),
        values_model(final(out)@) == values_model(old(out)@) + r.2@,
        answered(arith, r.1@),
        stmt_ran(
            stmt@,
            old(state)@,
            *old(fuel) as nat,
            r.1@,
            r.0,
            final(state)@,
            r.2@,
            *final(fuel) as nat,
        ),
    decreases stmt, 0nat,
{
    let ghost env0 = state@;
    let ghost fuel0 = *fuel as nat;
    let ghost out0 = values_model(out@);
    let c = match stmt {
        Stmt::While(c, _) => c,
        _ => return (Ok(()), Ghost(Seq::empty()), Ghost(Seq::empty())),
    };
    let body = match stmt {
        Stmt::While(_, body) => body,
        _ => return (Ok(()), Ghost(Seq::empty()), Ghost(Seq::empty())),
    };
    proof {
        assert(stmt@ == crate::ast::StmtModel::While(c@, crate::ast::stmts_model(body@)));
    }
    let ghost bm = crate::ast::stmts_model(body@);
    let ghost mut used: Seq<HostAnswer> = Seq::empty();
    let ghost mut printed: Seq<crate::value::ValueModel> = Seq::empty();
    proof {
        assert forall|t: Seq<HostAnswer>| #[trigger] semantics::exec_while(c@, bm, env0, used + t, fuel0)
            == prepend(printed, semantics::exec_while(c@, bm, state@, t, *fuel as nat)) by {
            let w = semantics::exec_while(c@, bm, state@, t, *fuel as nat);
            assert(Seq::<crate::value::ValueModel>::empty() + w.printed =~= w.printed);
        }
    }
    loop
        invariant
            stmt is While,
            *c == stmt->While_0,
            *body == stmt->While_1,
            stmt@ == crate::ast::StmtModel::While(c@, bm),
            env0 == old(state)@,
            fuel0 == *old(fuel) as nat,
            out0 == values_model(old(out)@),
            state.wf(),
            state@.len() == env0.len(),
            *fuel <= fuel0,
            values_model(out@) == out0 + printed,
            answered(arith, used),
            forall|t: Seq<HostAnswer>| #[trigger] semantics::exec_while(c@, bm, env0, used + t, fuel0)
                == prepend(printed, semantics::exec_while(c@, bm, state@, t, *fuel as nat)),
        decreases *fuel,
    {
        let ghost env_i = state@;
        let ghost fuel_i = *fuel as nat;
        let ghost printed_i = printed;
        let ghost used_i = used;
        let (rc, Ghost(uc)) = eval_expr(c, state, arith);
        let ghost env_c = state@;
        proof {
            lemma_concat_assoc(used_i, uc);
            lemma_answered_concat(arith, used_i, uc);
        }
        let stop: Option<Result<(), RuntimeError>> = match rc {
            Err(err) => Some(Err(err)),
            Ok(v) => if !v.is_truthy() {
                Some(Ok(()))
            } else if *fuel == 0 {
                Some(Err(RuntimeError::new(RuntimeErrorKind::StepLimitReached)))
            } else {
                None
            },
        };
        match stop {
            Some(res) => {
                proof {
                    assert forall|t: Seq<HostAnswer>| #[trigger] semantics::exec_stmt(stmt@, env0, (used_i + uc) + t, fuel0)
                        == semantics::StmtRun {
                        result: crate::error::unit_result_model(res),
                        env: state@,
                        printed: printed_i,
                        answers: t,
                        fuel: *fuel as nat,
                    } by {
                        assert((used_i + uc) + t == used_i + (uc + t));
                        assert(semantics::exec_while(c@, bm, env0, used_i + (uc + t), fuel0)
                            == prepend(printed_i, semantics::exec_while(c@, bm, env_i, uc + t, fuel_i)));
                        assert(semantics::eval_expr(c@, env_i, uc + t).answers == t);
                        assert(printed_i + Seq::<crate::value::ValueModel>::empty() =~= printed_i);
                    }
                }
                return (res, Ghost(used_i + uc), Ghost(printed_i));
            },
            None => {},
        }
        *fuel = *fuel - 1;
        let (rb, Ghost(ub), Ghost(pb)) = exec_stmts(body, state, arith, out, fuel);
        proof {
            lemma_concat_assoc(used_i + uc, ub);
            lemma_answered_concat(arith, used_i + uc, ub);
            lemma_concat_assoc(uc, ub);
            used = (used_i + uc) + ub;
            printed = printed_i + pb;
            assert(values_model(out@) =~= out0 + printed);
        }
        match rb {
            Err(err) => {
                proof {
                    assert forall|t: Seq<HostAnswer>| #[trigger] semantics::exec_stmt(stmt@, env0, used + t, fuel0)
                        == semantics::StmtRun {
                        result: crate::error::unit_result_model(Err::<(), RuntimeError>(err)),
                        env: state@,
                        printed,
                        answers: t,
                        fuel: *fuel as nat,
                    } by {
                        assert(used + t == used_i + (uc + (ub + t)));
                        assert(semantics::exec_while(c@, bm, env0, used_i + (uc + (ub + t)), fuel0)
                            == prepend(printed_i, semantics::exec_while(c@, bm, env_i, uc + (ub + t), fuel_i)));
                        assert(semantics::eval_expr(c@, env_i, uc + (ub + t)).answers == ub + t);
                        assert(semantics::eval_expr(c@, env_i, uc + (ub + t)).env == env_c);
                        assert(semantics::exec_stmts(bm, env_c, ub + t, (fuel_i - 1) as nat).answers == t);
                    }
                }
                return (Err(err), Ghost(used), Ghost(printed));
            },
            Ok(_) => {},
        }
        proof {
            assert forall|t: Seq<HostAnswer>| #[trigger] semantics::exec_while(c@, bm, env0, used + t, fuel0)
                == prepend(printed, semantics::exec_while(c@, bm, state@, t, *fuel as nat)) by {
                assert(used + t == used_i + (uc + (ub + t)));
                assert(semantics::exec_while(c@, bm, env0, used_i + (uc + (ub + t)), fuel0)
                    == prepend(printed_i, semantics::exec_while(c@, bm, env_i, uc + (ub + t), fuel_i)));
                assert(semantics::eval_expr(c@, env_i, uc + (ub + t)).answers == ub + t);
                assert(semantics::eval_expr(c@, env_i, uc + (ub + t)).env == env_c);
                assert(semantics::exec_stmts(bm, env_c, ub + t, (fuel_i - 1) as nat).answers == t);
                let w = semantics::exec_while(c@, bm, state@, t, *fuel as nat);
                assert(printed_i + (pb + w.printed) =~= (printed_i + pb) + w.printed);
            }
        }
    }
}

/// Evaluates an expression against the scope chain. Assignments in it
/// change the chain; the result is the value or the first runtime error.
///
/// The contract holds for some list of requests to `arith`, in the order in
/// which evaluation made them, each with a number that `arith.apply` can
/// return for it.
pub fn eval_expression<A: FloatArithmetic>(expr: &Expr, eval_state: &mut EvalState, arith: &A) -> (r: Result<Value, RuntimeError>)
    requires
        old(eval_state).wf(),
    ensures
        final(eval_state).wf(),
        final(eval_state)@.len() == old(eval_state)@.len(),
        exists|used: Seq<HostAnswer>|
            answered(arith, used) && #[trigger] semantics::eval_expr(expr@, old(eval_state)@, used) == (semantics::ExprRun {
                result: crate::error::value_result_model(r),
                env: final(eval_state)@,
                answers: Seq::empty(),
            }),
{
    let (r, Ghost(used)) = eval_expr(expr, eval_state, arith);
    proof {
        assert(used + Seq::<HostAnswer>::empty() =~= used);
        assert(semantics::eval_expr(expr@, old(eval_state)@, used + Seq::<HostAnswer>::empty()).answers
            == Seq::<HostAnswer>::empty());
    }
    r
}

/// Runs a statement list in the innermost scope of `eval_state`, in order;
/// the first runtime error stops it. Each `print` appends its value to `out`.
/// Each iteration of a `while` loop costs one of `max_iterations`; when they
/// run out the run stops with [`RuntimeErrorKind::StepLimitReached`].
///
/// The contract holds for some list of requests to `arith`, in the order in
/// which evaluation made them, each with a number that `arith.apply` can
/// return for it.
pub fn eval_statements<A: FloatArithmetic>(
    stmts: &Vec<Stmt>,
    eval_state: &mut EvalState,
    arith: &A,
    out: &mut Vec<Value>,
    max_iterations: u64,
) -> (r: Result<(), RuntimeError>)
    requires
        old(eval_state).wf(),
    ensures
        final(eval_state).wf(),
        final(eval_state)@.len() == old(eval_state)@.len(),
        exists|used: Seq<HostAnswer>| {
            let run = #[trigger] semantics::exec_stmts(
                crate::ast::stmts_model(stmts@),
                old(eval_state)@,
                used,
                max_iterations as nat,
            );
            &&& answered(arith, used)
            &&& run.result == crate::error::unit_result_model(r)
            &&& run.env == final(eval_state)@
            &&& values_model(final(out)@) == values_model(old(out)@) + run.printed
            &&& run.answers == Seq::<HostAnswer>::empty()
        },
{
    let mut fuel = max_iterations;
    let (r, Ghost(used), Ghost(_printed)) = exec_stmts(stmts, eval_state, arith, out, &mut fuel);
    proof {
        assert(used + Seq::<HostAnswer>::empty() =~= used);
        assert(semantics::exec_stmts(
            crate::ast::stmts_model(stmts@),
            old(eval_state)@,
            used + Seq::<HostAnswer>::empty(),
            max_iterations as nat,
        ).answers == Seq::<HostAnswer>::empty());
    }
    r
}

/// Runs one statement in the innermost scope of `eval_state`, as
/// [`eval_statements`] runs each of its statements; each `print` appends its
/// value to `out`.
pub fn eval_statement<A: FloatArithmetic>(
    stmt: &Stmt,
    eval_state: &mut EvalState,
    arith: &A,
    out: &mut Vec<Value>,
    max_iterations: u64,
) -> (r: Result<(), RuntimeError>)
    requires
        old(eval_state).wf(),
    ensures
        final(eval_state).wf(),
        final(eval_state)@.len() == old(eval_state)@.len(),
        exists|used: Seq<HostAnswer>| {
            let run = #[trigger] semantics::exec_stmt(stmt@, old(eval_state)@, used, max_iterations as nat);
            &&& answered(arith, used)
            &&& run.result == crate::error::unit_result_model(r)
            &&& run.env == final(eval_state)@
            &&& values_model(final(out)@) == values_model(old(out)@) + run.printed
            &&& run.answers == Seq::<HostAnswer>::empty()
        },
{
    let mut fuel = max_iterations;
    let (r, Ghost(used), Ghost(_printed)) = exec_stmt(stmt, eval_state, arith, out, &mut fuel);
    proof {
        assert(used + Seq::<HostAnswer>::empty() =~= used);
        assert(semantics::exec_stmt(stmt@, old(eval_state)@, used + Seq::<HostAnswer>::empty(), max_iterations as nat).answers
            == Seq::<HostAnswer>::empty());
    }
    r
}

} // verus!

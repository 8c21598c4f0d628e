//! Properties of the language that hold of every input.
use vstd::prelude::*;
use crate::ast::{ExprModel, StmtModel};
use crate::env::{EnvModel, ScopeModel, env_assign, env_declare, env_lookup};
use crate::error::ErrorModel;
use crate::semantics::{ExprRun, HostAnswer, StmtRun, eval_expr, exec_stmt};
use crate::value::{Operator, ValueModel, same_kind, truthy};

verus! {

/// Comparing values of different kinds with `==` is never an error: whatever
/// expressions produce them, the comparison is `false` (and `!=` is `true`),
/// after both operands were evaluated.
pub proof fn equality_across_kinds(l: ExprModel, r: ExprModel, env: EnvModel, answers: Seq<HostAnswer>)
    requires
        eval_expr(l, env, answers).result is Ok,
        eval_expr(r, eval_expr(l, env, answers).env, eval_expr(l, env, answers).answers).result is Ok,
        !same_kind(
            eval_expr(l, env, answers).result->Ok_0,
            eval_expr(r, eval_expr(l, env, answers).env, eval_expr(l, env, answers).answers).result->Ok_0,
        ),
    ensures
        eval_expr(ExprModel::Binary(Box::new(l), Operator::EqualEqual, Box::new(r)), env, answers) == (ExprRun {
            result: Ok(ValueModel::Bool(false)),
            env: eval_expr(r, eval_expr(l, env, answers).env, eval_expr(l, env, answers).answers).env,
            answers: eval_expr(r, eval_expr(l, env, answers).env, eval_expr(l, env, answers).answers).answers,
        }),
        eval_expr(ExprModel::Binary(Box::new(l), Operator::BangEqual, Box::new(r)), env, answers) == (ExprRun {
            result: Ok(ValueModel::Bool(true)),
            env: eval_expr(r, eval_expr(l, env, answers).env, eval_expr(l, env, answers).answers).env,
            answers: eval_expr(r, eval_expr(l, env, answers).env, eval_expr(l, env, answers).answers).answers,
        }),
{
    let a = eval_expr(l, env, answers);
    let b = eval_expr(r, a.env, a.answers);
    assert(!crate::value::values_equal(a.result->Ok_0, b.result->Ok_0));
}

/// `and` with a falsy left operand yields that operand without evaluating the
/// right one: whatever the right side is, the outcome (value, chain and
/// unused host answers) is that of the left side alone.
pub proof fn short_circuit_and(left: ExprModel, right: ExprModel, env: EnvModel, answers: Seq<HostAnswer>)
    requires
        eval_expr(left, env, answers).result is Ok,
        !truthy(eval_expr(left, env, answers).result->Ok_0),
    ensures
        eval_expr(ExprModel::Logical(Box::new(left), Operator::And, Box::new(right)), env, answers)
            == eval_expr(left, env, answers),
{
}

/// `or` with a truthy left operand yields that operand without evaluating the
/// right one.
pub proof fn short_circuit_or(left: ExprModel, right: ExprModel, env: EnvModel, answers: Seq<HostAnswer>)
    requires
        eval_expr(left, env, answers).result is Ok,
        truthy(eval_expr(left, env, answers).result->Ok_0),
    ensures
        eval_expr(ExprModel::Logical(Box::new(left), Operator::Or, Box::new(right)), env, answers)
            == eval_expr(left, env, answers),
{
}

/// Reading a variable declared without initializer fails with an error of
/// its own, distinct from reading a name that no scope declares.
pub proof fn uninitialized_read_is_distinct(env: EnvModel, name: Seq<char>, answers: Seq<HostAnswer>)
    requires
        env.len() >= 1,
    ensures
        eval_expr(ExprModel::Variable(name), env_declare(env, name, None), answers).result == Err::<
            ValueModel,
            ErrorModel,
        >(ErrorModel::UninitializedVariable(name)),
        env_lookup(env, name) is None ==> eval_expr(ExprModel::Variable(name), env, answers).result
            == Err::<ValueModel, ErrorModel>(ErrorModel::UnknownVariable(name)),
        ErrorModel::UninitializedVariable(name) != ErrorModel::UnknownVariable(name),
{
    assert(env_declare(env, name, None).last() == env.last().insert(name, None));
}

/// An assignment is seen by every later read of the name, from any scope
/// that sees the binding it changed.
pub proof fn assignment_is_visible(env: EnvModel, name: Seq<char>, v: ValueModel)
    requires
        env_lookup(env, name) is Some,
    ensures
        env_assign(env, name, v) is Some,
        env_lookup(env_assign(env, name, v)->Some_0, name) == Some(Some(v)),
        env_assign(env, name, v)->Some_0.len() == env.len(),
    decreases env.len(),
{
    if !env.last().contains_key(name) {
        assignment_is_visible(env.drop_last(), name, v);
        let e = env_assign(env.drop_last(), name, v)->Some_0;
        assert(e.push(env.last()).drop_last() =~= e);
    } else {
        let e = env.drop_last().push(env.last().insert(name, Some(v)));
        assert(e.last() == env.last().insert(name, Some(v)));
    }
}

/// A variable declared inside a block does not outlive it: running
/// `{ var name = v; }` leaves the chain as it was, whatever outer binding of
/// the same name exists.
pub proof fn block_declaration_does_not_leak(
    env: EnvModel,
    name: Seq<char>,
    v: ValueModel,
    answers: Seq<HostAnswer>,
    fuel: nat,
)
    ensures
        exec_stmt(
            StmtModel::Block(seq![StmtModel::VarDecl(name, Some(ExprModel::Literal(v)))]),
            env,
            answers,
            fuel,
        ) == (StmtRun { result: Ok(()), env, printed: Seq::empty(), answers, fuel }),
{
    let inner = env.push(ScopeModel::empty());
    let decl = StmtModel::VarDecl(name, Some(ExprModel::Literal(v)));
    let ss = seq![decl];
    assert(ss.drop_last() =~= Seq::<StmtModel>::empty());
    assert(ss.last() == decl);
    let first = crate::semantics::exec_stmts(Seq::<StmtModel>::empty(), inner, answers, fuel);
    assert(first == (StmtRun { result: Ok(()), env: inner, printed: Seq::empty(), answers, fuel }));
    assert(eval_expr(ExprModel::Literal(v), inner, answers) == (ExprRun {
        result: Ok(v),
        env: inner,
        answers,
    }));
    let d = exec_stmt(decl, inner, answers, fuel);
    assert(d == (StmtRun {
        result: Ok(()),
        env: env_declare(inner, name, Some(v)),
        printed: Seq::empty(),
        answers,
        fuel,
    }));
    assert(env_declare(inner, name, Some(v)).drop_last() =~= env);
    assert(Seq::<ValueModel>::empty() + Seq::<ValueModel>::empty() =~= Seq::<ValueModel>::empty());
    let all = crate::semantics::exec_stmts(ss, inner, answers, fuel);
    assert(all.env == env_declare(inner, name, Some(v)));
}

} // verus!

//! Rendering an expression back to tokens, and the law that parsing the
//! rendering gives back an equivalent tree.
//!
//! Every compound node is rendered inside its own parentheses, so the parser
//! rebuilds it whatever the precedence of its operator; the parentheses come
//! back as `Grouping` nodes, which do not change the meaning of a tree.
use vstd::prelude::*;
use crate::ast::{Expr, ExprModel, StmtModel, Token, TokenInstance};
use crate::grammar::{
    assignment, binary, binary_rest, call, call_rest, declaration, expression,
    expression_statement, level_operator, logic_and, logic_or, logical_rest, operand, primary,
    program, statement, tok, unary,
};
use crate::value::{Operator, Value, ValueModel};

verus! {

/// The token that spells a binary operator, if it has one.
pub open spec fn binary_token(op: Operator) -> Option<Token> {
    match op {
        Operator::BangEqual => Some(Token::BangEqual),
        Operator::EqualEqual => Some(Token::EqualEqual),
        Operator::Greater => Some(Token::Greater),
        Operator::GreaterEqual => Some(Token::GreaterEqual),
        Operator::Less => Some(Token::Less),
        Operator::LessEqual => Some(Token::LessEqual),
        Operator::Minus => Some(Token::Minus),
        Operator::Plus => Some(Token::Plus),
        Operator::Slash => Some(Token::Slash),
        Operator::Star => Some(Token::Star),
        _ => None,
    }
}

/// The precedence level of a binary operator: 0 equality, 1 comparison,
/// 2 term, 3 factor.
pub open spec fn binary_level(op: Operator) -> u8 {
    match op {
        Operator::BangEqual | Operator::EqualEqual => 0,
        Operator::Greater | Operator::GreaterEqual | Operator::Less | Operator::LessEqual => 1,
        Operator::Minus | Operator::Plus => 2,
        _ => 3,
    }
}

/// The token of a literal that has one without text: numbers, booleans, nil.
pub open spec fn literal_token(v: ValueModel) -> Option<Token> {
    match v {
        ValueModel::Num(n) => Some(Token::Number(n)),
        ValueModel::Bool(b) => Some(if b { Token::True } else { Token::False }),
        ValueModel::Nil => Some(Token::Nil),
        ValueModel::Str(_) => None,
    }
}

/// The expressions built from number, boolean and nil literals with unary,
/// binary, logical and grouping nodes.
pub open spec fn renderable(e: ExprModel) -> bool
    decreases e,
{
    match e {
        ExprModel::Literal(v) => literal_token(v) is Some,
        ExprModel::Binary(l, op, r) => binary_token(op) is Some && renderable(*l) && renderable(*r),
        ExprModel::Logical(l, op, r) => (op == Operator::And || op == Operator::Or) && renderable(*l)
            && renderable(*r),
        ExprModel::Unary(op, x) => (op == Operator::Bang || op == Operator::Minus) && renderable(*x),
        ExprModel::Grouping(x) => renderable(*x),
        _ => false,
    }
}

/// The tokens of a renderable expression: a literal as its token, every other
/// node in parentheses.
pub open spec fn render(e: ExprModel) -> Seq<Token>
    decreases e,
{
    match e {
        ExprModel::Literal(v) => seq![literal_token(v)->Some_0],
        ExprModel::Binary(l, op, r) => seq![Token::LeftParen] + render(*l) + seq![
            binary_token(op)->Some_0,
        ] + render(*r) + seq![Token::RightParen],
        ExprModel::Logical(l, op, r) => seq![Token::LeftParen] + render(*l) + seq![
            if op == Operator::And {
                Token::And
            } else {
                Token::Or
            },
        ] + render(*r) + seq![Token::RightParen],
        ExprModel::Unary(op, x) => seq![
            Token::LeftParen,
            if op == Operator::Bang {
                Token::Bang
            } else {
                Token::Minus
            },
        ] + render(*x) + seq![Token::RightParen],
        ExprModel::Grouping(x) => seq![Token::LeftParen] + render(*x) + seq![Token::RightParen],
        _ => Seq::empty(),
    }
}

/// The tree that the parser builds from the rendering: each parenthesised
/// node comes back under a `Grouping`.
pub open spec fn reparsed(e: ExprModel) -> ExprModel
    decreases e,
{
    match e {
        ExprModel::Binary(l, op, r) => ExprModel::Grouping(
            Box::new(ExprModel::Binary(Box::new(reparsed(*l)), op, Box::new(reparsed(*r)))),
        ),
        ExprModel::Logical(l, op, r) => ExprModel::Grouping(
            Box::new(ExprModel::Logical(Box::new(reparsed(*l)), op, Box::new(reparsed(*r)))),
        ),
        ExprModel::Unary(op, x) => ExprModel::Grouping(
            Box::new(ExprModel::Unary(op, Box::new(reparsed(*x)))),
        ),
        ExprModel::Grouping(x) => ExprModel::Grouping(Box::new(reparsed(*x))),
        _ => e,
    }
}

/// A tree with its `Grouping` nodes removed; groupings do not change what an
/// expression evaluates to.
pub open spec fn ungroup(e: ExprModel) -> ExprModel
    decreases e,
{
    match e {
        ExprModel::Assign(n, x) => ExprModel::Assign(n, Box::new(ungroup(*x))),
        ExprModel::Binary(l, op, r) => ExprModel::Binary(Box::new(ungroup(*l)), op, Box::new(ungroup(*r))),
        ExprModel::Logical(l, op, r) => ExprModel::Logical(Box::new(ungroup(*l)), op, Box::new(ungroup(*r))),
        ExprModel::Unary(op, x) => ExprModel::Unary(op, Box::new(ungroup(*x))),
        ExprModel::Grouping(x) => ungroup(*x),
        _ => e,
    }
}

/// The tokens of `ts` from `p` on spell `toks`.
pub open spec fn spells(ts: Seq<TokenInstance>, p: int, toks: Seq<Token>) -> bool {
    &&& 0 <= p
    &&& p + toks.len() <= ts.len()
    &&& forall|i: int| 0 <= i < toks.len() ==> #[trigger] tok(ts, p + i) == toks[i]
}

/// A token that may follow a complete expression.
pub open spec fn closing(t: Token) -> bool {
    t == Token::RightParen || t == Token::Semicolon || t == Token::Eof
}

proof fn lemma_level_operator_kinds(level: u8, t: Token)
    ensures
        level_operator(level, t) is Some ==> t != Token::RightParen && t != Token::Eof && t
            != Token::Semicolon && t != Token::And && t != Token::Or && t != Token::LeftParen,
{
}

/// An operand already parsed at `p` passes unchanged through the levels from
/// `level` up to factor, when the token after it belongs to none of them.
proof fn lemma_tight_levels(ts: Seq<TokenInstance>, p: int, a: ExprModel, q: int, level: u8)
    requires
        level <= 3,
        unary(ts, p) == Ok::<(ExprModel, int), crate::grammar::Failure>((a, q)),
        p < q <= ts.len(),
        forall|j: u8| level <= j <= 3 ==> #[trigger] level_operator(j, tok(ts, q)) is None,
    ensures
        binary(ts, level, p) == Ok::<(ExprModel, int), crate::grammar::Failure>((a, q)),
    decreases 3 - level,
{
    if level < 3 {
        lemma_tight_levels(ts, p, a, q, (level + 1) as u8);
        assert(operand(ts, level, p) == binary(ts, (level + 1) as u8, p));
    } else {
        assert(operand(ts, level, p) == unary(ts, p));
    }
    assert(level_operator(level, tok(ts, q)) is None);
    assert(binary_rest(ts, level, a, q) == Ok::<(ExprModel, int), crate::grammar::Failure>((a, q)));
}

/// A tree parsed at level `k` before a closing token is also what every
/// looser binary level parses there.
proof fn lemma_loose_levels(ts: Seq<TokenInstance>, p: int, level: u8, k: u8, b: ExprModel, r: int)
    requires
        level <= k <= 3,
        binary(ts, k, p) == Ok::<(ExprModel, int), crate::grammar::Failure>((b, r)),
        p < r <= ts.len(),
        closing(tok(ts, r)),
    ensures
        binary(ts, level, p) == Ok::<(ExprModel, int), crate::grammar::Failure>((b, r)),
    decreases k - level,
{
    if level < k {
        lemma_loose_levels(ts, p, (level + 1) as u8, k, b, r);
        assert(operand(ts, level, p) == binary(ts, (level + 1) as u8, p));
        lemma_level_operator_kinds(level, tok(ts, r));
        assert(binary_rest(ts, level, b, r) == Ok::<(ExprModel, int), crate::grammar::Failure>((b, r)));
    }
}

/// A tree parsed at the equality level before a closing token is what a
/// whole expression parses there.
proof fn lemma_upper_levels(ts: Seq<TokenInstance>, p: int, b: ExprModel, r: int)
    requires
        binary(ts, 0, p) == Ok::<(ExprModel, int), crate::grammar::Failure>((b, r)),
        p < r <= ts.len(),
        closing(tok(ts, r)),
    ensures
        expression(ts, p) == Ok::<(ExprModel, int), crate::grammar::Failure>((b, r)),
{
    assert(logical_rest(ts, Operator::And, b, r) == Ok::<(ExprModel, int), crate::grammar::Failure>((b, r)));
    assert(logic_and(ts, p) == Ok::<(ExprModel, int), crate::grammar::Failure>((b, r)));
    assert(logical_rest(ts, Operator::Or, b, r) == Ok::<(ExprModel, int), crate::grammar::Failure>((b, r)));
    assert(logic_or(ts, p) == Ok::<(ExprModel, int), crate::grammar::Failure>((b, r)));
    assert(assignment(ts, p) == Ok::<(ExprModel, int), crate::grammar::Failure>((b, r)));
}

proof fn lemma_spells_split(ts: Seq<TokenInstance>, p: int, a: Seq<Token>, b: Seq<Token>)
    requires
        spells(ts, p, a + b),
    ensures
        spells(ts, p, a),
        spells(ts, p + a.len(), b),
{
    assert forall|i: int| 0 <= i < a.len() implies #[trigger] tok(ts, p + i) == a[i] by {
        assert(tok(ts, p + i) == (a + b)[i]);
    }
    assert forall|i: int| 0 <= i < b.len() implies #[trigger] tok(ts, p + a.len() + i) == b[i] by {
        assert(tok(ts, p + (a.len() + i)) == (a + b)[a.len() + i]);
        assert(p + a.len() + i == p + (a.len() + i));
    }
}

proof fn lemma_render_shape(e: ExprModel)
    requires
        renderable(e),
    ensures
        render(e).len() >= 1,
        render(e)[0] != Token::Bang && render(e)[0] != Token::Minus,
        render(e)[0] == Token::LeftParen || e is Literal,
    decreases e,
{
    match e {
        ExprModel::Literal(v) => {},
        ExprModel::Binary(l, op, r) => {
            lemma_render_shape(*l);
        },
        ExprModel::Logical(l, op, r) => {
            lemma_render_shape(*l);
        },
        ExprModel::Unary(op, x) => {},
        ExprModel::Grouping(x) => {
            lemma_render_shape(*x);
        },
        _ => {},
    }
}

/// An operand parsed by `unary` is what the binary level `level` takes as
/// its first operand, when the next token is none of the tighter operators.
proof fn lemma_operand_at(ts: Seq<TokenInstance>, p: int, level: u8, a: ExprModel, q: int)
    requires
        level <= 3,
        unary(ts, p) == Ok::<(ExprModel, int), crate::grammar::Failure>((a, q)),
        p < q <= ts.len(),
        forall|j: u8| level < j <= 3 ==> #[trigger] level_operator(j, tok(ts, q)) is None,
    ensures
        operand(ts, level, p) == Ok::<(ExprModel, int), crate::grammar::Failure>((a, q)),
{
    if level < 3 {
        lemma_tight_levels(ts, p, a, q, (level + 1) as u8);
    }
}

/// Parenthesised content that a whole expression parses to `inner`, ending
/// at the ")" at `r`, is a primary and then a call operand.
proof fn lemma_parenthesised(ts: Seq<TokenInstance>, p: int, inner: ExprModel, r: int)
    requires
        0 <= p,
        tok(ts, p) == Token::LeftParen,
        expression(ts, p + 1) == Ok::<(ExprModel, int), crate::grammar::Failure>((inner, r)),
        p + 1 < r < ts.len(),
        tok(ts, r) == Token::RightParen,
        tok(ts, r + 1) != Token::LeftParen,
    ensures
        unary(ts, p) == Ok::<(ExprModel, int), crate::grammar::Failure>(
            (ExprModel::Grouping(Box::new(inner)), r + 1),
        ),
{
    assert(primary(ts, p) == Ok::<(ExprModel, int), crate::grammar::Failure>(
        (ExprModel::Grouping(Box::new(inner)), r + 1),
    ));
    assert(call_rest(ts, ExprModel::Grouping(Box::new(inner)), r + 1) == Ok::<
        (ExprModel, int),
        crate::grammar::Failure,
    >((ExprModel::Grouping(Box::new(inner)), r + 1)));
    assert(call(ts, p) == Ok::<(ExprModel, int), crate::grammar::Failure>(
        (ExprModel::Grouping(Box::new(inner)), r + 1),
    ));
}

/// The rendering of `e` at `p`, followed by anything but "(", parses back as
/// `reparsed(e)`.
proof fn lemma_atom(ts: Seq<TokenInstance>, p: int, e: ExprModel)
    requires
        renderable(e),
        spells(ts, p, render(e)),
        p + render(e).len() < ts.len(),
        tok(ts, p + render(e).len()) != Token::LeftParen,
    ensures
        unary(ts, p) == Ok::<(ExprModel, int), crate::grammar::Failure>((reparsed(e), p + render(e).len())),
    decreases e, 1nat,
{
    let q = p + render(e).len();
    match e {
        ExprModel::Literal(v) => {
            assert(tok(ts, p + 0) == render(e)[0]);
            assert(primary(ts, p) == Ok::<(ExprModel, int), crate::grammar::Failure>((e, p + 1)));
            assert(call_rest(ts, e, p + 1) == Ok::<(ExprModel, int), crate::grammar::Failure>((e, p + 1)));
            assert(call(ts, p) == Ok::<(ExprModel, int), crate::grammar::Failure>((e, p + 1)));
            assert(reparsed(e) == e);
        },
        ExprModel::Grouping(x) => {
            assert(e == ExprModel::Grouping(Box::new(*x)));
            lemma_grouping_node(ts, p, *x);
        },
        ExprModel::Unary(op, x) => {
            assert(e == ExprModel::Unary(op, Box::new(*x)));
            lemma_unary_node(ts, p, op, *x);
        },
        ExprModel::Binary(l, op, rt) => {
            assert(e == ExprModel::Binary(Box::new(*l), op, Box::new(*rt)));
            lemma_binary_node(ts, p, *l, op, *rt);
        },
        ExprModel::Logical(l, op, rt) => {
            assert(e == ExprModel::Logical(Box::new(*l), op, Box::new(*rt)));
            lemma_logical_node(ts, p, *l, op, *rt);
        },
        _ => {},
    }
}

proof fn lemma_binary_node(ts: Seq<TokenInstance>, p: int, l: ExprModel, op: Operator, rt: ExprModel)
    requires
        renderable(ExprModel::Binary(Box::new(l), op, Box::new(rt))),
        spells(ts, p, render(ExprModel::Binary(Box::new(l), op, Box::new(rt)))),
        p + render(ExprModel::Binary(Box::new(l), op, Box::new(rt))).len() < ts.len(),
        tok(ts, p + render(ExprModel::Binary(Box::new(l), op, Box::new(rt))).len()) != Token::LeftParen,
    ensures
        unary(ts, p) == Ok::<(ExprModel, int), crate::grammar::Failure>(
            (
                reparsed(ExprModel::Binary(Box::new(l), op, Box::new(rt))),
                p + render(ExprModel::Binary(Box::new(l), op, Box::new(rt))).len(),
            ),
        ),
    decreases ExprModel::Binary(Box::new(l), op, Box::new(rt)), 0nat,
{
    let e = ExprModel::Binary(Box::new(l), op, Box::new(rt));
    let (rl, rr) = (render(l), render(rt));
    let opt = binary_token(op)->Some_0;
    let k = binary_level(op);
    lemma_render_shape(l);
    lemma_render_shape(rt);
    assert(render(e) == seq![Token::LeftParen] + rl + seq![opt] + rr + seq![Token::RightParen]);
    lemma_spells_split(ts, p, seq![Token::LeftParen] + rl + seq![opt] + rr, seq![Token::RightParen]);
    lemma_spells_split(ts, p, seq![Token::LeftParen] + rl + seq![opt], rr);
    lemma_spells_split(ts, p, seq![Token::LeftParen] + rl, seq![opt]);
    lemma_spells_split(ts, p, seq![Token::LeftParen], rl);
    assert(tok(ts, p + 0) == Token::LeftParen);
    let q1 = p + 1 + rl.len();
    let right_at = q1 + 1;
    let q2 = right_at + rr.len();
    assert(tok(ts, q1 + 0) == opt);
    assert(tok(ts, q2 + 0) == Token::RightParen);
    lemma_atom(ts, p + 1, l);
    lemma_atom(ts, right_at, rt);
    let (gl, gr) = (reparsed(l), reparsed(rt));
    assert(level_operator(k, opt) == Some(op));
    assert forall|j: u8| k < j <= 3 implies #[trigger] level_operator(j, tok(ts, q1)) is None by {}
    assert forall|j: u8| k < j <= 3 implies #[trigger] level_operator(j, tok(ts, q2)) is None by {}
    lemma_operand_at(ts, p + 1, k, gl, q1);
    lemma_operand_at(ts, right_at, k, gr, q2);
    let b = ExprModel::Binary(Box::new(gl), op, Box::new(gr));
    assert(binary_rest(ts, k, b, q2) == Ok::<(ExprModel, int), crate::grammar::Failure>((b, q2)));
    assert(binary_rest(ts, k, gl, q1) == Ok::<(ExprModel, int), crate::grammar::Failure>((b, q2)));
    assert(binary(ts, k, p + 1) == Ok::<(ExprModel, int), crate::grammar::Failure>((b, q2)));
    lemma_loose_levels(ts, p + 1, 0, k, b, q2);
    lemma_upper_levels(ts, p + 1, b, q2);
    lemma_parenthesised(ts, p, b, q2);
}

proof fn lemma_logical_node(ts: Seq<TokenInstance>, p: int, l: ExprModel, op: Operator, rt: ExprModel)
    requires
        renderable(ExprModel::Logical(Box::new(l), op, Box::new(rt))),
        spells(ts, p, render(ExprModel::Logical(Box::new(l), op, Box::new(rt)))),
        p + render(ExprModel::Logical(Box::new(l), op, Box::new(rt))).len() < ts.len(),
        tok(ts, p + render(ExprModel::Logical(Box::new(l), op, Box::new(rt))).len()) != Token::LeftParen,
    ensures
        unary(ts, p) == Ok::<(ExprModel, int), crate::grammar::Failure>(
            (
                reparsed(ExprModel::Logical(Box::new(l), op, Box::new(rt))),
                p + render(ExprModel::Logical(Box::new(l), op, Box::new(rt))).len(),
            ),
        ),
    decreases ExprModel::Logical(Box::new(l), op, Box::new(rt)), 0nat,
{
    let e = ExprModel::Logical(Box::new(l), op, Box::new(rt));
    let (rl, rr) = (render(l), render(rt));
    let opt = if op == Operator::And {
        Token::And
    } else {
        Token::Or
    };
    lemma_render_shape(l);
    lemma_render_shape(rt);
    assert(render(e) == seq![Token::LeftParen] + rl + seq![opt] + rr + seq![Token::RightParen]);
    lemma_spells_split(ts, p, seq![Token::LeftParen] + rl + seq![opt] + rr, seq![Token::RightParen]);
    lemma_spells_split(ts, p, seq![Token::LeftParen] + rl + seq![opt], rr);
    lemma_spells_split(ts, p, seq![Token::LeftParen] + rl, seq![opt]);
    lemma_spells_split(ts, p, seq![Token::LeftParen], rl);
    assert(tok(ts, p + 0) == Token::LeftParen);
    let q1 = p + 1 + rl.len();
    let right_at = q1 + 1;
    let q2 = right_at + rr.len();
    assert(tok(ts, q1 + 0) == opt);
    assert(tok(ts, q2 + 0) == Token::RightParen);
    lemma_atom(ts, p + 1, l);
    lemma_atom(ts, right_at, rt);
    let (gl, gr) = (reparsed(l), reparsed(rt));
    lemma_tight_levels(ts, p + 1, gl, q1, 0);
    lemma_tight_levels(ts, right_at, gr, q2, 0);
    let g = ExprModel::Logical(Box::new(gl), op, Box::new(gr));
    if op == Operator::And {
        assert(logical_rest(ts, Operator::And, g, q2) == Ok::<(ExprModel, int), crate::grammar::Failure>((g, q2)));
        assert(logical_rest(ts, Operator::And, gl, q1) == Ok::<(ExprModel, int), crate::grammar::Failure>((g, q2)));
        assert(logic_and(ts, p + 1) == Ok::<(ExprModel, int), crate::grammar::Failure>((g, q2)));
        assert(logical_rest(ts, Operator::Or, g, q2) == Ok::<(ExprModel, int), crate::grammar::Failure>((g, q2)));
    } else {
        assert(logical_rest(ts, Operator::And, gl, q1) == Ok::<(ExprModel, int), crate::grammar::Failure>((gl, q1)));
        assert(logic_and(ts, p + 1) == Ok::<(ExprModel, int), crate::grammar::Failure>((gl, q1)));
        assert(logical_rest(ts, Operator::And, gr, q2) == Ok::<(ExprModel, int), crate::grammar::Failure>((gr, q2)));
        assert(logic_and(ts, right_at) == Ok::<(ExprModel, int), crate::grammar::Failure>((gr, q2)));
        assert(logical_rest(ts, Operator::Or, g, q2) == Ok::<(ExprModel, int), crate::grammar::Failure>((g, q2)));
        assert(logical_rest(ts, Operator::Or, gl, q1) == Ok::<(ExprModel, int), crate::grammar::Failure>((g, q2)));
    }
    assert(logic_or(ts, p + 1) == Ok::<(ExprModel, int), crate::grammar::Failure>((g, q2)));
    assert(assignment(ts, p + 1) == Ok::<(ExprModel, int), crate::grammar::Failure>((g, q2)));
    assert(expression(ts, p + 1) == Ok::<(ExprModel, int), crate::grammar::Failure>((g, q2)));
    lemma_parenthesised(ts, p, g, q2);
}

proof fn lemma_grouping_node(ts: Seq<TokenInstance>, p: int, x: ExprModel)
    requires
        renderable(ExprModel::Grouping(Box::new(x))),
        spells(ts, p, render(ExprModel::Grouping(Box::new(x)))),
        p + render(ExprModel::Grouping(Box::new(x))).len() < ts.len(),
        tok(ts, p + render(ExprModel::Grouping(Box::new(x))).len()) != Token::LeftParen,
    ensures
        unary(ts, p) == Ok::<(ExprModel, int), crate::grammar::Failure>(
            (
                reparsed(ExprModel::Grouping(Box::new(x))),
                p + render(ExprModel::Grouping(Box::new(x))).len(),
            ),
        ),
    decreases ExprModel::Grouping(Box::new(x)), 0nat,
{
    let e = ExprModel::Grouping(Box::new(x));
    let rx = render(x);
    lemma_render_shape(x);
    assert(render(e) == seq![Token::LeftParen] + rx + seq![Token::RightParen]);
    lemma_spells_split(ts, p, seq![Token::LeftParen] + rx, seq![Token::RightParen]);
    lemma_spells_split(ts, p, seq![Token::LeftParen], rx);
    assert(tok(ts, p + 0) == Token::LeftParen);
    let r = p + 1 + rx.len();
    assert(tok(ts, r + 0) == Token::RightParen);
    lemma_atom(ts, p + 1, x);
    lemma_tight_levels(ts, p + 1, reparsed(x), r, 0);
    lemma_upper_levels(ts, p + 1, reparsed(x), r);
    lemma_parenthesised(ts, p, reparsed(x), r);
}

proof fn lemma_unary_node(ts: Seq<TokenInstance>, p: int, op: Operator, x: ExprModel)
    requires
        renderable(ExprModel::Unary(op, Box::new(x))),
        spells(ts, p, render(ExprModel::Unary(op, Box::new(x)))),
        p + render(ExprModel::Unary(op, Box::new(x))).len() < ts.len(),
        tok(ts, p + render(ExprModel::Unary(op, Box::new(x))).len()) != Token::LeftParen,
    ensures
        unary(ts, p) == Ok::<(ExprModel, int), crate::grammar::Failure>(
            (
                reparsed(ExprModel::Unary(op, Box::new(x))),
                p + render(ExprModel::Unary(op, Box::new(x))).len(),
            ),
        ),
    decreases ExprModel::Unary(op, Box::new(x)), 0nat,
{
    let e = ExprModel::Unary(op, Box::new(x));
    let rx = render(x);
    lemma_render_shape(x);
    let opt = if op == Operator::Bang {
        Token::Bang
    } else {
        Token::Minus
    };
    assert(render(e) == seq![Token::LeftParen, opt] + rx + seq![Token::RightParen]);
    lemma_spells_split(ts, p, seq![Token::LeftParen, opt] + rx, seq![Token::RightParen]);
    lemma_spells_split(ts, p, seq![Token::LeftParen, opt], rx);
    assert(tok(ts, p + 0) == Token::LeftParen);
    assert(tok(ts, p + 1) == opt);
    let r = p + 2 + rx.len();
    assert(tok(ts, r + 0) == Token::RightParen);
    lemma_atom(ts, p + 2, x);
    let u = ExprModel::Unary(op, Box::new(reparsed(x)));
    assert(unary(ts, p + 1) == Ok::<(ExprModel, int), crate::grammar::Failure>((u, r)));
    lemma_tight_levels(ts, p + 1, u, r, 0);
    lemma_upper_levels(ts, p + 1, u, r);
    lemma_parenthesised(ts, p, u, r);
}

proof fn lemma_ungroup_reparsed(e: ExprModel)
    requires
        renderable(e),
    ensures
        ungroup(reparsed(e)) == ungroup(e),
    decreases e,
{
    match e {
        ExprModel::Binary(l, op, r) => {
            lemma_ungroup_reparsed(*l);
            lemma_ungroup_reparsed(*r);
            let inner = ExprModel::Binary(Box::new(reparsed(*l)), op, Box::new(reparsed(*r)));
            assert(ungroup(reparsed(e)) == ungroup(inner));
        },
        ExprModel::Logical(l, op, r) => {
            lemma_ungroup_reparsed(*l);
            lemma_ungroup_reparsed(*r);
            let inner = ExprModel::Logical(Box::new(reparsed(*l)), op, Box::new(reparsed(*r)));
            assert(ungroup(reparsed(e)) == ungroup(inner));
        },
        ExprModel::Unary(op, x) => {
            lemma_ungroup_reparsed(*x);
            let inner = ExprModel::Unary(op, Box::new(reparsed(*x)));
            assert(ungroup(reparsed(e)) == ungroup(inner));
        },
        ExprModel::Grouping(x) => {
            lemma_ungroup_reparsed(*x);
            assert(ungroup(reparsed(e)) == ungroup(reparsed(*x)));
        },
        _ => {},
    }
}

/// Rendering an expression (number, boolean and nil literals under unary,
/// binary, logical and grouping nodes) as tokens and parsing the rendering as
/// an expression statement gives back that expression, up to groupings: the
/// parsed tree differs from it only by `Grouping` nodes.
pub proof fn reparse_rendered_expression(e: ExprModel, ts: Seq<TokenInstance>)
    requires
        renderable(e),
        spells(ts, 0, render(e) + seq![Token::Semicolon, Token::Eof]),
        ts.len() == render(e).len() + 2,
    ensures
        program(ts, Seq::empty(), 0) == Ok::<Seq<StmtModel>, crate::grammar::Failure>(
            seq![StmtModel::Expression(reparsed(e))],
        ),
        ungroup(reparsed(e)) == ungroup(e),
{
    let n = render(e).len() as int;
    lemma_spells_split(ts, 0, render(e), seq![Token::Semicolon, Token::Eof]);
    lemma_render_shape(e);
    assert(tok(ts, n + 0) == Token::Semicolon);
    assert(tok(ts, n + 1) == Token::Eof);
    assert(tok(ts, 0int + 0) == render(e)[0]);
    lemma_atom(ts, 0, e);
    lemma_tight_levels(ts, 0, reparsed(e), n, 0);
    lemma_upper_levels(ts, 0, reparsed(e), n);
    let s = StmtModel::Expression(reparsed(e));
    assert(expression_statement(ts, 0) == Ok::<(StmtModel, int), crate::grammar::Failure>((s, n + 1)));
    assert(statement(ts, 0) == Ok::<(StmtModel, int), crate::grammar::Failure>((s, n + 1)));
    assert(declaration(ts, 0) == Ok::<(StmtModel, int), crate::grammar::Failure>((s, n + 1)));
    assert(program(ts, seq![s], n + 1) == Ok::<Seq<StmtModel>, crate::grammar::Failure>(seq![s]));
    assert(Seq::<StmtModel>::empty().push(s) == seq![s]);
    lemma_ungroup_reparsed(e);
}

/// Whether [`render_tokens`] can render the expression: number, boolean and
/// nil literals under unary, binary, logical and grouping nodes.
pub fn is_renderable(e: &Expr) -> (r: bool)
    ensures
        r == renderable(e@),
    decreases e,
{
    match e {
        Expr::Literal(v) => !matches!(v, Value::String(_)),
        Expr::Binary(l, op, rt) => operator_token(*op).is_some() && is_renderable(l) && is_renderable(rt),
        Expr::Logical(l, op, rt) => (*op == Operator::And || *op == Operator::Or) && is_renderable(l)
            && is_renderable(rt),
        Expr::Unary(op, x) => (*op == Operator::Bang || *op == Operator::Minus) && is_renderable(x),
        Expr::Grouping(x) => is_renderable(x),
        _ => false,
    }
}

fn operator_token(op: Operator) -> (r: Option<Token>)
    ensures
        r == binary_token(op),
{
    match op {
        Operator::BangEqual => Some(Token::BangEqual),
        Operator::EqualEqual => Some(Token::EqualEqual),
        Operator::Greater => Some(Token::Greater),
        Operator::GreaterEqual => Some(Token::GreaterEqual),
        Operator::Less => Some(Token::Less),
        Operator::LessEqual => Some(Token::LessEqual),
        Operator::Minus => Some(Token::Minus),
        Operator::Plus => Some(Token::Plus),
        Operator::Slash => Some(Token::Slash),
        Operator::Star => Some(Token::Star),
        _ => None,
    }
}

/// Appends `tail` to `v`, then `close`.
fn extend_closed(v: &mut Vec<Token>, tail: Vec<Token>, close: Token)
    ensures
        final(v)@ == old(v)@ + tail@ + seq![close],
{
    let mut tail = tail;
    let ghost t = tail@;
    v.append(&mut tail);
    v.push(close);
    proof {
        assert(final(v)@ =~= old(v)@ + t + seq![close]);
    }
}

/// The tokens of an expression, every compound node in its own parentheses;
/// parsing them gives the expression back up to groupings
/// ([`reparse_rendered_expression`]).
pub fn render_tokens(e: &Expr) -> (r: Vec<Token>)
    requires
        renderable(e@),
    ensures
        r@ == render(e@),
    decreases e,
{
    let mut v: Vec<Token> = Vec::new();
    match e {
        Expr::Literal(value) => {
            let t = match value {
                Value::Number(n) => Token::Number(*n),
                Value::Boolean(b) => if *b {
                    Token::True
                } else {
                    Token::False
                },
                _ => Token::Nil,
            };
            v.push(t);
            proof {
                assert(v@ =~= render(e@));
            }
        },
        Expr::Binary(l, op, rt) => {
            v.push(Token::LeftParen);
            let left = render_tokens(l);
            let op_token = match operator_token(*op) {
                Some(t) => t,
                None => Token::Eof,
            };
            extend_closed(&mut v, left, op_token);
            let right = render_tokens(rt);
            extend_closed(&mut v, right, Token::RightParen);
            proof {
                assert(v@ =~= render(e@));
            }
        },
        Expr::Logical(l, op, rt) => {
            v.push(Token::LeftParen);
            let left = render_tokens(l);
            let op_token = if *op == Operator::And {
                Token::And
            } else {
                Token::Or
            };
            extend_closed(&mut v, left, op_token);
            let right = render_tokens(rt);
            extend_closed(&mut v, right, Token::RightParen);
            proof {
                assert(v@ =~= render(e@));
            }
        },
        Expr::Unary(op, x) => {
            v.push(Token::LeftParen);
            v.push(
                if *op == Operator::Bang {
                    Token::Bang
                } else {
                    Token::Minus
                },
            );
            let inner = render_tokens(x);
            extend_closed(&mut v, inner, Token::RightParen);
            proof {
                assert(v@ =~= render(e@));
            }
        },
        Expr::Grouping(x) => {
            v.push(Token::LeftParen);
            let inner = render_tokens(x);
            extend_closed(&mut v, inner, Token::RightParen);
            proof {
                assert(v@ =~= render(e@));
            }
        },
        _ => {},
    }
    v
}

} // verus!

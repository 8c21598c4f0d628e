//! Tokens, the syntax tree, and their mathematical models.
use vstd::prelude::*;
use crate::value::{Operator, Value, ValueModel};

verus! {

broadcast use vstd::std_specs::vec::group_vec_axioms;

/// The kinds of token that the scanner produces. A number is the bit pattern
/// of an IEEE-754 binary64.
#[derive(Debug, Clone, PartialEq)]
pub enum Token {
    Identifier(String),
    Number(u64),
    String(String),
    Equal,
    LeftParen,
    RightParen,
    LeftBrace,
    RightBrace,
    Comma,
    Dot,
    Minus,
    Plus,
    Semicolon,
    Star,
    Bang,
    BangEqual,
    EqualEqual,
    Greater,
    GreaterEqual,
    Less,
    LessEqual,
    Slash,
    And,
    Class,
    Else,
    False,
    Fun,
    For,
    If,
    Nil,
    Or,
    Print,
    Return,
    Super,
    This,
    True,
    Var,
    While,
    Eof,
}

/// A token with the text it was read from and its 1-based source line.
#[derive(Debug, Clone, PartialEq)]
pub struct TokenInstance {
    pub token_type: Token,
    pub lexeme: String,
    pub line: usize,
}

/// An expression of the language.
#[derive(Debug, PartialEq)]
pub enum Expr {
    Assign(String, Box<Expr>),
    Binary(Box<Expr>, Operator, Box<Expr>),
    Call(Box<Expr>, Vec<Expr>),
    Grouping(Box<Expr>),
    Literal(Value),
    Logical(Box<Expr>, Operator, Box<Expr>),
    Unary(Operator, Box<Expr>),
    Variable(String),
}

/// A statement of the language. `for` loops have no node of their own: the
/// parser rewrites them into a block and a `While`.
#[derive(Debug, PartialEq)]
pub enum Stmt {
    Block(Vec<Stmt>),
    Expression(Expr),
    If(Expr, Vec<Stmt>, Vec<Stmt>),
    Print(Expr),
    VarDecl(String, Option<Expr>),
    While(Expr, Vec<Stmt>),
}

/// The model of an [`Expr`]: names as character sequences, lists as `Seq`.
pub enum ExprModel {
    Assign(Seq<char>, Box<ExprModel>),
    Binary(Box<ExprModel>, Operator, Box<ExprModel>),
    Call(Box<ExprModel>, Seq<ExprModel>),
    Grouping(Box<ExprModel>),
    Literal(ValueModel),
    Logical(Box<ExprModel>, Operator, Box<ExprModel>),
    Unary(Operator, Box<ExprModel>),
    Variable(Seq<char>),
}

/// The model of a [`Stmt`].
pub enum StmtModel {
    Block(Seq<StmtModel>),
    Expression(ExprModel),
    If(ExprModel, Seq<StmtModel>, Seq<StmtModel>),
    Print(ExprModel),
    VarDecl(Seq<char>, Option<ExprModel>),
    While(ExprModel, Seq<StmtModel>),
}

pub open spec fn expr_model(e: Expr) -> ExprModel
    decreases e,
{
    match e {
        Expr::Assign(n, v) => ExprModel::Assign(n@, Box::new(expr_model(*v))),
        Expr::Binary(l, op, r) => ExprModel::Binary(
            Box::new(expr_model(*l)),
            op,
            Box::new(expr_model(*r)),
        ),
        Expr::Call(c, args) => ExprModel::Call(Box::new(expr_model(*c)), exprs_model(args@)),
        Expr::Grouping(g) => ExprModel::Grouping(Box::new(expr_model(*g))),
        Expr::Literal(v) => ExprModel::Literal(v@),
        Expr::Logical(l, op, r) => ExprModel::Logical(
            Box::new(expr_model(*l)),
            op,
            Box::new(expr_model(*r)),
        ),
        Expr::Unary(op, x) => ExprModel::Unary(op, Box::new(expr_model(*x))),
        Expr::Variable(n) => ExprModel::Variable(n@),
    }
}

pub open spec fn exprs_model(s: Seq<Expr>) -> Seq<ExprModel>
    decreases s,
{
    if s.len() == 0 {
        Seq::empty()
    } else {
        exprs_model(s.drop_last()).push(expr_model(s.last()))
    }
}

pub open spec fn stmt_model(s: Stmt) -> StmtModel
    decreases s,
{
    match s {
        Stmt::Block(b) => StmtModel::Block(stmts_model(b@)),
        Stmt::Expression(e) => StmtModel::Expression(expr_model(e)),
        Stmt::If(c, t, f) => StmtModel::If(expr_model(c), stmts_model(t@), stmts_model(f@)),
        Stmt::Print(e) => StmtModel::Print(expr_model(e)),
        Stmt::VarDecl(n, init) => StmtModel::VarDecl(
            n@,
            match init {
                Some(e) => Some(expr_model(e)),
                None => None,
            },
        ),
        Stmt::While(c, b) => StmtModel::While(expr_model(c), stmts_model(b@)),
    }
}

pub open spec fn stmts_model(s: Seq<Stmt>) -> Seq<StmtModel>
    decreases s,
{
    if s.len() == 0 {
        Seq::empty()
    } else {
        stmts_model(s.drop_last()).push(stmt_model(s.last()))
    }
}

impl View for Expr {
    type V = ExprModel;

    open spec fn view(&self) -> ExprModel {
        expr_model(*self)
    }
}

impl View for Stmt {
    type V = StmtModel;

    open spec fn view(&self) -> StmtModel {
        stmt_model(*self)
    }
}

pub proof fn lemma_exprs_model_len(s: Seq<Expr>)
    ensures
        exprs_model(s).len() == s.len(),
    decreases s.len(),
{
    if s.len() > 0 {
        lemma_exprs_model_len(s.drop_last());
    }
}

pub proof fn lemma_exprs_model_push(s: Seq<Expr>, e: Expr)
    ensures
        exprs_model(s.push(e)) == exprs_model(s).push(e@),
{
    assert(s.push(e).drop_last() =~= s);
}

pub proof fn lemma_stmts_model_push(s: Seq<Stmt>, st: Stmt)
    ensures
        stmts_model(s.push(st)) == stmts_model(s).push(st@),
{
    assert(s.push(st).drop_last() =~= s);
}

pub proof fn lemma_stmts_model_index(s: Seq<Stmt>)
    ensures
        stmts_model(s).len() == s.len(),
        forall|i: int| 0 <= i < s.len() ==> #[trigger] stmts_model(s)[i] == s[i]@,
    decreases s.len(),
{
    if s.len() > 0 {
        lemma_stmts_model_index(s.drop_last());
    }
}

} // verus!

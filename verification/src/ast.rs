//! The abstract syntax tree that the parser produces: expressions and
//! statements form a strict tree, built bottom-up and immutable once built.
//!
//! Each node type has a ghost counterpart (`ExprV`, `StmtV`, `LitV`) in
//! which every text payload is a character sequence and every list is a
//! `Seq`; the `*_view` functions are the abstraction maps. The parser's
//! contracts speak entirely over these ghost values.

use vstd::prelude::*;

use crate::token::{BitwiseOperator, ComparisonOperator, LogicalOperator, MathOperator};

verus! {

/// A literal value. `Number` carries the literal's text (for example
/// `"2.5"`); the 64-bit float value that the text denotes is produced by
/// the consumer of the AST, outside this crate.
#[derive(Debug, Clone, PartialEq, Eq)]
pub enum LiteralValue {
    Number(String),
    String(String),
    Boolean(bool),
    Null,
}

/// An expression node. Binary operator nodes own their operand slots
/// exclusively: the AST is a tree, not a graph.
#[derive(Debug, PartialEq, Eq)]
pub enum Expression {
    LiteralValue(LiteralValue),
    Identifier(String),
    MathOp(Box<Expression>, MathOperator, Box<Expression>),
    ComparisonOp(Box<Expression>, ComparisonOperator, Box<Expression>),
    LogicalOp(Box<Expression>, LogicalOperator, Box<Expression>),
    BitwiseOp(Box<Expression>, BitwiseOperator, Box<Expression>),
    Grouping(Box<Expression>),
    FunctionCall(String, Vec<Expression>),
    Assignment(Box<Expression>, Box<Expression>),
    IfElse(
        Box<Expression>,
        Vec<Statement>,
        Vec<(Box<Expression>, Vec<Statement>)>,
        Option<Vec<Statement>>,
    ),
    While(Box<Expression>, Vec<Statement>),
    For(String, Box<Expression>, Vec<Statement>),
}

/// A statement node. A `Block`'s statement list defines the only nesting
/// relation at this layer.
#[derive(Debug, PartialEq, Eq)]
pub enum Statement {
    Expression(Expression),
    Block(Vec<Statement>),
    Comment(String),
    Return(Box<Option<Expression>>),
    FunctionDefinition { name: String, parameters: Vec<String>, body: Vec<Statement> },
}

/// The mathematical value of a `LiteralValue`.
pub enum LitV {
    Number(Seq<char>),
    String(Seq<char>),
    Boolean(bool),
    Null,
}

/// The mathematical value of an `Expression`.
pub enum ExprV {
    LiteralValue(LitV),
    Identifier(Seq<char>),
    MathOp(Box<ExprV>, MathOperator, Box<ExprV>),
    ComparisonOp(Box<ExprV>, ComparisonOperator, Box<ExprV>),
    LogicalOp(Box<ExprV>, LogicalOperator, Box<ExprV>),
    BitwiseOp(Box<ExprV>, BitwiseOperator, Box<ExprV>),
    Grouping(Box<ExprV>),
    FunctionCall(Seq<char>, Seq<ExprV>),
    Assignment(Box<ExprV>, Box<ExprV>),
    IfElse(Box<ExprV>, Seq<StmtV>, Seq<(ExprV, Seq<StmtV>)>, Option<Seq<StmtV>>),
    While(Box<ExprV>, Seq<StmtV>),
    For(Seq<char>, Box<ExprV>, Seq<StmtV>),
}

/// The mathematical value of a `Statement`.
pub enum StmtV {
    Expression(ExprV),
    Block(Seq<StmtV>),
    Comment(Seq<char>),
    Return(Option<ExprV>),
    FunctionDefinition { name: Seq<char>, parameters: Seq<Seq<char>>, body: Seq<StmtV> },
}

/// The mathematical value of a parameter-name list.
pub open spec fn params_view(ps: Seq<String>) -> Seq<Seq<char>> {
    ps.map_values(|p: String| p@)
}

pub open spec fn lit_view(l: LiteralValue) -> LitV {
    match l {
        LiteralValue::Number(s) => LitV::Number(s@),
        LiteralValue::String(s) => LitV::String(s@),
        LiteralValue::Boolean(b) => LitV::Boolean(b),
        LiteralValue::Null => LitV::Null,
    }
}

/// The abstraction map from expression nodes to their mathematical value.
pub open spec fn expr_view(e: Expression) -> ExprV
    decreases e,
{
    match e {
        Expression::LiteralValue(l) => ExprV::LiteralValue(lit_view(l)),
        Expression::Identifier(s) => ExprV::Identifier(s@),
        Expression::MathOp(l, op, r) => ExprV::MathOp(
            Box::new(expr_view(*l)),
            op,
            Box::new(expr_view(*r)),
        ),
        Expression::ComparisonOp(l, op, r) => ExprV::ComparisonOp(
            Box::new(expr_view(*l)),
            op,
            Box::new(expr_view(*r)),
        ),
        Expression::LogicalOp(l, op, r) => ExprV::LogicalOp(
            Box::new(expr_view(*l)),
            op,
            Box::new(expr_view(*r)),
        ),
        Expression::BitwiseOp(l, op, r) => ExprV::BitwiseOp(
            Box::new(expr_view(*l)),
            op,
            Box::new(expr_view(*r)),
        ),
        Expression::Grouping(inner) => ExprV::Grouping(Box::new(expr_view(*inner))),
        Expression::FunctionCall(name, args) => ExprV::FunctionCall(
            name@,
            exprs_view_from(args@, 0),
        ),
        Expression::Assignment(t, v) => ExprV::Assignment(
            Box::new(expr_view(*t)),
            Box::new(expr_view(*v)),
        ),
        Expression::IfElse(c, body, elifs, els) => ExprV::IfElse(
            Box::new(expr_view(*c)),
            stmts_view_from(body@, 0),
            elifs_view_from(elifs@, 0),
            match els {
                Some(ss) => Some(stmts_view_from(ss@, 0)),
                None => None,
            },
        ),
        Expression::While(c, body) => ExprV::While(Box::new(expr_view(*c)), stmts_view_from(body@, 0)),
        Expression::For(v, iter, body) => ExprV::For(
            v@,
            Box::new(expr_view(*iter)),
            stmts_view_from(body@, 0),
        ),
    }
}

/// The abstraction map from statement nodes to their mathematical value.
pub open spec fn stmt_view(st: Statement) -> StmtV
    decreases st,
{
    match st {
        Statement::Expression(e) => StmtV::Expression(expr_view(e)),
        Statement::Block(ss) => StmtV::Block(stmts_view_from(ss@, 0)),
        Statement::Comment(s) => StmtV::Comment(s@),
        Statement::Return(b) => StmtV::Return(
            match *b {
                Some(e) => Some(expr_view(e)),
                None => None,
            },
        ),
        Statement::FunctionDefinition { name, parameters, body } => StmtV::FunctionDefinition {
            name: name@,
            parameters: params_view(parameters@),
            body: stmts_view_from(body@, 0),
        },
    }
}

pub open spec fn exprs_view_from(es: Seq<Expression>, i: int) -> Seq<ExprV>
    decreases es, es.len() - i,
{
    if i < 0 || i >= es.len() {
        Seq::empty()
    } else {
        seq![expr_view(es[i])] + exprs_view_from(es, i + 1)
    }
}

pub open spec fn stmts_view_from(ss: Seq<Statement>, i: int) -> Seq<StmtV>
    decreases ss, ss.len() - i,
{
    if i < 0 || i >= ss.len() {
        Seq::empty()
    } else {
        seq![stmt_view(ss[i])] + stmts_view_from(ss, i + 1)
    }
}

pub open spec fn elifs_view_from(bs: Seq<(Box<Expression>, Vec<Statement>)>, i: int) -> Seq<
    (ExprV, Seq<StmtV>),
>
    decreases bs, bs.len() - i,
{
    if i < 0 || i >= bs.len() {
        Seq::empty()
    } else {
        seq![(expr_view(*bs[i].0), stmts_view_from(bs[i].1@, 0))] + elifs_view_from(bs, i + 1)
    }
}

/// The mathematical value of an expression list.
pub open spec fn exprs_view(es: Seq<Expression>) -> Seq<ExprV> {
    exprs_view_from(es, 0)
}

/// The mathematical value of a statement list.
pub open spec fn stmts_view(ss: Seq<Statement>) -> Seq<StmtV> {
    stmts_view_from(ss, 0)
}

/// The mathematical value of an elif-branch list.
pub open spec fn elifs_view(bs: Seq<(Box<Expression>, Vec<Statement>)>) -> Seq<(ExprV, Seq<StmtV>)> {
    elifs_view_from(bs, 0)
}

pub proof fn lemma_exprs_view_snoc(es: Seq<Expression>, e: Expression, i: int)
    requires
        0 <= i <= es.len(),
    ensures
        exprs_view_from(es.push(e), i) == exprs_view_from(es, i) + seq![expr_view(e)],
    decreases es.len() - i,
{
    if i == es.len() {
        assert(es.push(e)[i] == e);
        assert(exprs_view_from(es.push(e), i + 1) =~= Seq::<ExprV>::empty());
        assert(exprs_view_from(es.push(e), i) =~= exprs_view_from(es, i) + seq![expr_view(e)]);
    } else {
        lemma_exprs_view_snoc(es, e, i + 1);
        assert(es.push(e)[i] == es[i]);
        assert(exprs_view_from(es.push(e), i) =~= exprs_view_from(es, i) + seq![expr_view(e)]);
    }
}

pub proof fn lemma_stmts_view_snoc(ss: Seq<Statement>, st: Statement, i: int)
    requires
        0 <= i <= ss.len(),
    ensures
        stmts_view_from(ss.push(st), i) == stmts_view_from(ss, i) + seq![stmt_view(st)],
    decreases ss.len() - i,
{
    if i == ss.len() {
        assert(ss.push(st)[i] == st);
        assert(stmts_view_from(ss.push(st), i + 1) =~= Seq::<StmtV>::empty());
        assert(stmts_view_from(ss.push(st), i) =~= stmts_view_from(ss, i) + seq![stmt_view(st)]);
    } else {
        lemma_stmts_view_snoc(ss, st, i + 1);
        assert(ss.push(st)[i] == ss[i]);
        assert(stmts_view_from(ss.push(st), i) =~= stmts_view_from(ss, i) + seq![stmt_view(st)]);
    }
}

pub proof fn lemma_elifs_view_snoc(
    bs: Seq<(Box<Expression>, Vec<Statement>)>,
    b: (Box<Expression>, Vec<Statement>),
    i: int,
)
    requires
        0 <= i <= bs.len(),
    ensures
        elifs_view_from(bs.push(b), i) == elifs_view_from(bs, i) + seq![
            (expr_view(*b.0), stmts_view_from(b.1@, 0)),
        ],
    decreases bs.len() - i,
{
    if i == bs.len() {
        assert(bs.push(b)[i] == b);
        assert(elifs_view_from(bs.push(b), i + 1) =~= Seq::<(ExprV, Seq<StmtV>)>::empty());
        assert(elifs_view_from(bs.push(b), i) =~= elifs_view_from(bs, i) + seq![
            (expr_view(*b.0), stmts_view_from(b.1@, 0)),
        ]);
    } else {
        lemma_elifs_view_snoc(bs, b, i + 1);
        assert(bs.push(b)[i] == bs[i]);
        assert(elifs_view_from(bs.push(b), i) =~= elifs_view_from(bs, i) + seq![
            (expr_view(*b.0), stmts_view_from(b.1@, 0)),
        ]);
    }
}

pub proof fn lemma_params_view_snoc(ps: Seq<String>, p: String)
    ensures
        params_view(ps.push(p)) == params_view(ps) + seq![p@],
{
    assert(params_view(ps.push(p)) =~= params_view(ps) + seq![p@]);
}

} // verus!

//! The abstract syntax tree: a program is a sequence of statements, and
//! expressions form a recursive tagged union. The tree is modelled by
//! ghost datatypes of the same shape over character sequences.

use crate::token::{Token, TokenModel};
use std::rc::Rc;
use vstd::prelude::*;

verus! {

/// A parsed unit of input: its statements in source order.
#[derive(Debug)]
pub struct Program {
    pub statements: Vec<Statement>,
}

/// One statement: a binding, a return, or a bare expression.
#[derive(Debug)]
pub enum Statement {
    Let(String, Expression),
    Mut(String, Expression),
    Return(Expression),
    Expression(Expression),
}

/// One expression node. Function bodies are shared, since closure values
/// carry them out of the tree they were parsed in.
#[derive(Debug)]
pub enum Expression {
    Identifier(String),
    Integer(i64),
    Float(u64),
    Str(String),
    Boolean(bool),
    Array(Vec<Expression>),
    Hash(Vec<(Expression, Expression)>),
    Index(Box<Expression>, Box<Expression>),
    Prefix(Token, Box<Expression>),
    Infix(Box<Expression>, Token, Box<Expression>),
    Block(Vec<Statement>),
    If(Box<Expression>, Box<Expression>, Option<Box<Expression>>),
    Function(Vec<String>, Rc<Expression>),
    Call(Box<Expression>, Vec<Expression>),
}

/// Ghost model of a statement.
pub enum StmtModel {
    Let(Seq<char>, ExprModel),
    Mut(Seq<char>, ExprModel),
    Return(ExprModel),
    Expression(ExprModel),
}

/// Ghost model of an expression.
pub enum ExprModel {
    Identifier(Seq<char>),
    Integer(i64),
    Float(u64),
    Str(Seq<char>),
    Boolean(bool),
    Array(Seq<ExprModel>),
    Hash(Seq<(ExprModel, ExprModel)>),
    Index(Box<ExprModel>, Box<ExprModel>),
    Prefix(TokenModel, Box<ExprModel>),
    Infix(Box<ExprModel>, TokenModel, Box<ExprModel>),
    Block(Seq<StmtModel>),
    If(Box<ExprModel>, Box<ExprModel>, Option<Box<ExprModel>>),
    Function(Seq<Seq<char>>, Box<ExprModel>),
    Call(Box<ExprModel>, Seq<ExprModel>),
}

pub open spec fn opt_box_model(a: Option<Box<Expression>>) -> Option<Box<ExprModel>>
    decreases a,
{
    match a {
        Option::Some(e2) => Option::Some(Box::new(expr_model(*e2))),
        Option::None => Option::None,
    }
}

pub open spec fn expr_model(e: Expression) -> ExprModel
    decreases e,
{
    match e {
        Expression::Identifier(s) => ExprModel::Identifier(s@),
        Expression::Integer(i) => ExprModel::Integer(i),
        Expression::Float(b) => ExprModel::Float(b),
        Expression::Str(s) => ExprModel::Str(s@),
        Expression::Boolean(b) => ExprModel::Boolean(b),
        Expression::Array(es) => ExprModel::Array(exprs_model(es@, 0)),
        Expression::Hash(ps) => ExprModel::Hash(pairs_model(ps@, 0)),
        Expression::Index(t, i) => ExprModel::Index(
            Box::new(expr_model(*t)),
            Box::new(expr_model(*i)),
        ),
        Expression::Prefix(op, r) => ExprModel::Prefix(op@, Box::new(expr_model(*r))),
        Expression::Infix(l, op, r) => ExprModel::Infix(
            Box::new(expr_model(*l)),
            op@,
            Box::new(expr_model(*r)),
        ),
        Expression::Block(ss) => ExprModel::Block(stmts_model(ss@, 0)),
        Expression::If(c, t, a) => ExprModel::If(
            Box::new(expr_model(*c)),
            Box::new(expr_model(*t)),
            opt_box_model(a),
        ),
        Expression::Function(ps, body) => ExprModel::Function(
            ps.deep_view(),
            Box::new(expr_model(*body)),
        ),
        Expression::Call(f, args) => ExprModel::Call(
            Box::new(expr_model(*f)),
            exprs_model(args@, 0),
        ),
    }
}

pub open spec fn exprs_model(es: Seq<Expression>, i: int) -> Seq<ExprModel>
    decreases es, es.len() - i,
{
    if i < 0 || i >= es.len() {
        Seq::empty()
    } else {
        seq![expr_model(es[i])] + exprs_model(es, i + 1)
    }
}

pub open spec fn pairs_model(ps: Seq<(Expression, Expression)>, i: int) -> Seq<
    (ExprModel, ExprModel),
>
    decreases ps, ps.len() - i,
{
    if i < 0 || i >= ps.len() {
        Seq::empty()
    } else {
        seq![(expr_model(ps[i].0), expr_model(ps[i].1))] + pairs_model(ps, i + 1)
    }
}

pub open spec fn stmt_model(s: Statement) -> StmtModel
    decreases s,
{
    match s {
        Statement::Let(n, e) => StmtModel::Let(n@, expr_model(e)),
        Statement::Mut(n, e) => StmtModel::Mut(n@, expr_model(e)),
        Statement::Return(e) => StmtModel::Return(expr_model(e)),
        Statement::Expression(e) => StmtModel::Expression(expr_model(e)),
    }
}

pub open spec fn stmts_model(ss: Seq<Statement>, i: int) -> Seq<StmtModel>
    decreases ss, ss.len() - i,
{
    if i < 0 || i >= ss.len() {
        Seq::empty()
    } else {
        seq![stmt_model(ss[i])] + stmts_model(ss, i + 1)
    }
}

impl View for Expression {
    type V = ExprModel;

    open spec fn view(&self) -> ExprModel {
        expr_model(*self)
    }
}

impl View for Statement {
    type V = StmtModel;

    open spec fn view(&self) -> StmtModel {
        stmt_model(*self)
    }
}

impl View for Program {
    type V = Seq<StmtModel>;

    open spec fn view(&self) -> Seq<StmtModel> {
        stmts_model(self.statements@, 0)
    }
}

/// The model of a suffix of an expression list is the list of the
/// elements' models.
pub proof fn lemma_exprs_model(es: Seq<Expression>, i: int)
    requires
        0 <= i <= es.len(),
    ensures
        exprs_model(es, i).len() == es.len() - i,
        forall|k: int|
            0 <= k < es.len() - i ==> exprs_model(es, i)[k] == expr_model(es[i + k]),
    decreases es.len() - i,
{
    if i < es.len() {
        lemma_exprs_model(es, i + 1);
    }
}

/// The model of a suffix of a pair list is the list of the pairs'
/// component models.
pub proof fn lemma_pairs_model(ps: Seq<(Expression, Expression)>, i: int)
    requires
        0 <= i <= ps.len(),
    ensures
        pairs_model(ps, i).len() == ps.len() - i,
        forall|k: int|
            0 <= k < ps.len() - i ==> pairs_model(ps, i)[k] == (
            expr_model(ps[i + k].0),
            expr_model(ps[i + k].1),
            ),
    decreases ps.len() - i,
{
    if i < ps.len() {
        lemma_pairs_model(ps, i + 1);
    }
}

/// The model of a suffix of a statement list is the list of the
/// statements' models.
pub proof fn lemma_stmts_model(ss: Seq<Statement>, i: int)
    requires
        0 <= i <= ss.len(),
    ensures
        stmts_model(ss, i).len() == ss.len() - i,
        forall|k: int|
            0 <= k < ss.len() - i ==> stmts_model(ss, i)[k] == stmt_model(ss[i + k]),
    decreases ss.len() - i,
{
    if i < ss.len() {
        lemma_stmts_model(ss, i + 1);
    }
}

/// Relies on `Rc::clone` from std: yields a second handle to the same
/// allocation, equal to the first.
#[verifier::external_body]
pub(crate) fn rc_dup(r: &Rc<Expression>) -> (o: Rc<Expression>)
    ensures
        o == *r,
{
    Rc::clone(r)
}

/// Copies a list of names, keeping the character sequences.
pub(crate) fn clone_strings(v: &Vec<String>) -> (r: Vec<String>)
    ensures
        r.deep_view() == v.deep_view(),
{
    let mut r: Vec<String> = Vec::new();
    let mut k: usize = 0;
    while k < v.len()
        invariant
            k <= v.len(),
            r.len() == k,
            forall|j: int| 0 <= j < k ==> r.deep_view()[j] == v.deep_view()[j],
        decreases v.len() - k,
    {
        r.push(v[k].clone());
        k += 1;
    }
    proof {
        assert(r.deep_view() =~= v.deep_view());
    }
    r
}

} // verus!

//! Rendering a parsed tree back to source text, fully parenthesized.
//! Re-parsing a rendering yields a structurally equal tree for programs
//! whose hash keys are single-token expressions; parenthesization in the
//! text may differ from the original source.

use crate::ast::{
    expr_model, exprs_model, lemma_exprs_model, lemma_pairs_model, lemma_stmts_model,
    pairs_model, stmts_model, ExprModel, Expression, Program, Statement, StmtModel,
};
use crate::floatbits::{f64_render, f64_text};
use crate::object::names_text;
use crate::text::{int_text, render_i64};
use crate::token::{render_token, token_text, Token, TokenModel};
use vstd::prelude::*;
use vstd::string::StringExecFns;

verus! {

/// The text of one expression, every composite form parenthesized.
pub open spec fn expr_text(e: ExprModel) -> Seq<char>
    decreases e, 1int,
{
    match e {
        ExprModel::Identifier(n) => n,
        ExprModel::Integer(i) => int_text(i as int),
        ExprModel::Float(b) => f64_text(b),
        ExprModel::Str(s) => "\""@ + s + "\""@,
        ExprModel::Boolean(b) => if b {
            "true"@
        } else {
            "false"@
        },
        ExprModel::Array(es) => "["@ + exprs_text(es, 0) + "]"@,
        ExprModel::Hash(ps) => "{"@ + hash_pairs_text(ps, 0) + "}"@,
        ExprModel::Index(t, ix) => "("@ + expr_text(*t) + "["@ + expr_text(*ix) + "])"@,
        ExprModel::Prefix(op, r) => "("@ + token_text(op) + " "@ + expr_text(*r) + ")"@,
        ExprModel::Infix(l, op, r) => "("@ + expr_text(*l) + " "@ + token_text(op) + " "@
            + expr_text(*r) + ")"@,
        ExprModel::Block(ss) => if ss.len() == 0 {
            "{ }"@
        } else {
            "{ "@ + stmts_text(ss, 0) + " }"@
        },
        ExprModel::If(c, t, a) => match a {
            Option::Some(alt) => "(if "@ + expr_text(*c) + " "@ + expr_text(*t) + " else "@
                + expr_text(*alt) + ")"@,
            Option::None => "(if "@ + expr_text(*c) + " "@ + expr_text(*t) + ")"@,
        },
        ExprModel::Function(ps, body) => "(fun("@ + names_text(ps, 0) + ") "@ + expr_text(*body)
            + ")"@,
        ExprModel::Call(f, args) => "("@ + expr_text(*f) + "("@ + exprs_text(args, 0) + "))"@,
    }
}

pub open spec fn exprs_text(es: Seq<ExprModel>, i: int) -> Seq<char>
    decreases es, es.len() - i, 0int,
{
    if i < 0 || i >= es.len() {
        Seq::empty()
    } else if i == es.len() - 1 {
        expr_text(es[i])
    } else {
        expr_text(es[i]) + ", "@ + exprs_text(es, i + 1)
    }
}

pub open spec fn hash_pairs_text(ps: Seq<(ExprModel, ExprModel)>, i: int) -> Seq<char>
    decreases ps, ps.len() - i, 0int,
{
    if i < 0 || i >= ps.len() {
        Seq::empty()
    } else if i == ps.len() - 1 {
        expr_text(ps[i].0) + ": "@ + expr_text(ps[i].1)
    } else {
        expr_text(ps[i].0) + ": "@ + expr_text(ps[i].1) + ", "@ + hash_pairs_text(ps, i + 1)
    }
}

/// The text of one statement.
pub open spec fn stmt_text(s: StmtModel) -> Seq<char>
    decreases s, 1int,
{
    match s {
        StmtModel::Let(n, e) => "let "@ + n + " = "@ + expr_text(e),
        StmtModel::Mut(n, e) => "mut "@ + n + " = "@ + expr_text(e),
        StmtModel::Return(e) => "return "@ + expr_text(e),
        StmtModel::Expression(e) => expr_text(e),
    }
}

pub open spec fn stmts_text(ss: Seq<StmtModel>, i: int) -> Seq<char>
    decreases ss, ss.len() - i, 0int,
{
    if i < 0 || i >= ss.len() {
        Seq::empty()
    } else if i == ss.len() - 1 {
        stmt_text(ss[i])
    } else {
        stmt_text(ss[i]) + " "@ + stmts_text(ss, i + 1)
    }
}

/// The text of a whole program: its statements separated by spaces.
pub open spec fn program_text(ss: Seq<StmtModel>) -> Seq<char> {
    stmts_text(ss, 0)
}

fn render_exprs(es: &Vec<Expression>, k: usize) -> (r: String)
    requires
        k <= es@.len(),
    ensures
        r@ == exprs_text(exprs_model(es@, 0), k as int),
    decreases es@, es@.len() - k, 0int,
{
    proof {
        lemma_exprs_model(es@, 0);
    }
    if k >= es.len() {
        let s = String::new();
        proof {
            assert(s@ =~= exprs_text(exprs_model(es@, 0), k as int));
        }
        s
    } else if k == es.len() - 1 {
        render_expression(&es[k])
    } else {
        let mut s = render_expression(&es[k]);
        s.append(", ");
        let rest = render_exprs(es, k + 1);
        s.append(rest.as_str());
        proof {
            assert(s@ =~= exprs_text(exprs_model(es@, 0), k as int));
        }
        s
    }
}

fn render_hash_pairs(ps: &Vec<(Expression, Expression)>, k: usize) -> (r: String)
    requires
        k <= ps@.len(),
    ensures
        r@ == hash_pairs_text(pairs_model(ps@, 0), k as int),
    decreases ps@, ps@.len() - k, 0int,
{
    proof {
        lemma_pairs_model(ps@, 0);
    }
    if k >= ps.len() {
        let s = String::new();
        proof {
            assert(s@ =~= hash_pairs_text(pairs_model(ps@, 0), k as int));
        }
        s
    } else {
        let mut s = render_expression(&ps[k].0);
        s.append(": ");
        let v = render_expression(&ps[k].1);
        s.append(v.as_str());
        if k == ps.len() - 1 {
            proof {
                assert(s@ =~= hash_pairs_text(pairs_model(ps@, 0), k as int));
            }
            s
        } else {
            s.append(", ");
            let rest = render_hash_pairs(ps, k + 1);
            s.append(rest.as_str());
            proof {
                assert(s@ =~= hash_pairs_text(pairs_model(ps@, 0), k as int));
            }
            s
        }
    }
}

fn render_stmts(ss: &Vec<Statement>, k: usize) -> (r: String)
    requires
        k <= ss@.len(),
    ensures
        r@ == stmts_text(stmts_model(ss@, 0), k as int),
    decreases ss@, ss@.len() - k, 0int,
{
    proof {
        lemma_stmts_model(ss@, 0);
    }
    if k >= ss.len() {
        let s = String::new();
        proof {
            assert(s@ =~= stmts_text(stmts_model(ss@, 0), k as int));
        }
        s
    } else if k == ss.len() - 1 {
        render_statement(&ss[k])
    } else {
        let mut s = render_statement(&ss[k]);
        s.append(" ");
        let rest = render_stmts(ss, k + 1);
        s.append(rest.as_str());
        proof {
            assert(s@ =~= stmts_text(stmts_model(ss@, 0), k as int));
        }
        s
    }
}

/// Renders one statement back to source text.
pub fn render_statement(s: &Statement) -> (r: String)
    ensures
        r@ == stmt_text(s@),
    decreases s, 1int,
{
    match s {
        Statement::Let(n, e) => {
            let mut t = "let ".to_owned();
            t.append(n.as_str());
            t.append(" = ");
            let body = render_expression(e);
            t.append(body.as_str());
            proof {
                assert(t@ =~= stmt_text(s@));
            }
            t
        },
        Statement::Mut(n, e) => {
            let mut t = "mut ".to_owned();
            t.append(n.as_str());
            t.append(" = ");
            let body = render_expression(e);
            t.append(body.as_str());
            proof {
                assert(t@ =~= stmt_text(s@));
            }
            t
        },
        Statement::Return(e) => {
            let mut t = "return ".to_owned();
            let body = render_expression(e);
            t.append(body.as_str());
            proof {
                assert(t@ =~= stmt_text(s@));
            }
            t
        },
        Statement::Expression(e) => render_expression(e),
    }
}

fn render_names(ns: &Vec<String>, k: usize) -> (r: String)
    requires
        k <= ns@.len(),
    ensures
        r@ == names_text(ns.deep_view(), k as int),
    decreases ns@.len() - k,
{
    if k >= ns.len() {
        let s = String::new();
        proof {
            assert(s@ =~= names_text(ns.deep_view(), k as int));
        }
        s
    } else if k == ns.len() - 1 {
        ns[k].clone()
    } else {
        let mut s = ns[k].clone();
        s.append(", ");
        let rest = render_names(ns, k + 1);
        s.append(rest.as_str());
        proof {
            assert(s@ =~= names_text(ns.deep_view(), k as int));
        }
        s
    }
}

/// Renders one expression back to source text, fully parenthesized.
#[verifier::rlimit(100)]
pub fn render_expression(e: &Expression) -> (r: String)
    ensures
        r@ == expr_text(e@),
    decreases e, 1int,
{
    match e {
        Expression::Identifier(n) => {
            let t = n.clone();
            proof {
                assert(t@ =~= expr_text(e@));
            }
            t
        },
        Expression::Integer(i) => {
            let t = render_i64(*i);
            proof {
                assert(t@ =~= expr_text(e@));
            }
            t
        },
        Expression::Float(b) => {
            let t = f64_render(*b);
            proof {
                assert(t@ =~= expr_text(e@));
            }
            t
        },
        Expression::Str(s) => {
            let mut t = "\"".to_owned();
            t.append(s.as_str());
            t.append("\"");
            proof {
                assert(t@ =~= expr_text(e@));
            }
            t
        },
        Expression::Boolean(b) => {
            let t = if *b {
                "true".to_owned()
            } else {
                "false".to_owned()
            };
            proof {
                assert(t@ =~= expr_text(e@));
            }
            t
        },
        Expression::Array(es) => {
            let mut t = "[".to_owned();
            let body = render_exprs(es, 0);
            t.append(body.as_str());
            t.append("]");
            proof {
                assert(t@ =~= expr_text(e@));
            }
            t
        },
        Expression::Hash(ps) => {
            let mut t = "{".to_owned();
            let body = render_hash_pairs(ps, 0);
            t.append(body.as_str());
            t.append("}");
            proof {
                assert(t@ =~= expr_text(e@));
            }
            t
        },
        Expression::Index(target, ix) => {
            let mut t = "(".to_owned();
            let a = render_expression(target);
            t.append(a.as_str());
            t.append("[");
            let b = render_expression(ix);
            t.append(b.as_str());
            t.append("])");
            proof {
                assert(t@ =~= expr_text(e@));
            }
            t
        },
        Expression::Prefix(op, r2) => {
            let mut t = "(".to_owned();
            let shown = render_token(op);
            t.append(shown.as_str());
            t.append(" ");
            let a = render_expression(r2);
            t.append(a.as_str());
            t.append(")");
            proof {
                assert(t@ =~= expr_text(e@));
            }
            t
        },
        Expression::Infix(l, op, r2) => {
            let mut t = "(".to_owned();
            let a = render_expression(l);
            t.append(a.as_str());
            t.append(" ");
            let shown = render_token(op);
            t.append(shown.as_str());
            t.append(" ");
            let b = render_expression(r2);
            t.append(b.as_str());
            t.append(")");
            proof {
                assert(t@ =~= expr_text(e@));
            }
            t
        },
        Expression::Block(ss) => {
            if ss.len() == 0 {
                proof {
                    lemma_stmts_model(ss@, 0);
                }
                "{ }".to_owned()
            } else {
                let mut t = "{ ".to_owned();
                let body = render_stmts(ss, 0);
                t.append(body.as_str());
                t.append(" }");
                proof {
                    lemma_stmts_model(ss@, 0);
                    assert(t@ =~= expr_text(e@));
                }
                t
            }
        },
        Expression::If(c, th, a) => {
            let mut t = "(if ".to_owned();
            let x = render_expression(c);
            t.append(x.as_str());
            t.append(" ");
            let y = render_expression(th);
            t.append(y.as_str());
            match a {
                Some(alt) => {
                    t.append(" else ");
                    let z = render_expression(&**alt);
                    t.append(z.as_str());
                    t.append(")");
                    proof {
                        assert(crate::ast::opt_box_model(*a) == Option::Some(
                            Box::new(expr_model(**alt)),
                        ));
                        assert(t@ =~= expr_text(e@));
                    }
                },
                None => {
                    t.append(")");
                    proof {
                        assert(crate::ast::opt_box_model(*a) == Option::<Box<ExprModel>>::None);
                        assert(t@ =~= expr_text(e@));
                    }
                },
            }
            t
        },
        Expression::Function(ps, body) => {
            let mut t = "(fun(".to_owned();
            let names = render_names(ps, 0);
            t.append(names.as_str());
            t.append(") ");
            let b = render_expression(&**body);
            t.append(b.as_str());
            t.append(")");
            proof {
                assert(t@ =~= expr_text(e@));
            }
            t
        },
        Expression::Call(f, args) => {
            let mut t = "(".to_owned();
            let a = render_expression(f);
            t.append(a.as_str());
            t.append("(");
            let b = render_exprs(args, 0);
            t.append(b.as_str());
            t.append("))");
            proof {
                assert(t@ =~= expr_text(e@));
            }
            t
        },
    }
}

/// Renders a whole program back to source text.
pub fn render_program(p: &Program) -> (r: String)
    ensures
        r@ == program_text(p@),
{
    render_stmts(&p.statements, 0)
}

} // verus!

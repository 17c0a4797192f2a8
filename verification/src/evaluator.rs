//! The tree-walking evaluator. Its semantics is the recursive model over
//! the ghost state (frame arena and output log), indexed by an evaluation
//! budget; the executable walker is proved equal to the model. A `Return`
//! value escapes every enclosing construct until the nearest function-call
//! boundary unwraps it; at top level it ends the program and its payload is
//! the result. `let` and `mut` both bind in the current frame; the
//! distinction is syntactic only and is not enforced at run time.
//! Evaluating a block or a call body never changes any frame that existed
//! before it: bindings made inside cannot leak outward.

use crate::ast::{
    expr_model, exprs_model, lemma_exprs_model, lemma_pairs_model, lemma_stmts_model,
    opt_box_model, pairs_model, stmts_model, ExprModel, Expression, Program, Statement,
    StmtModel,
};
use crate::builtin::{apply_builtin, builtin_m, lemma_builtin_wf};
use crate::environment::{
    bindings_set, env_lookup, env_ok, key_index_from, lemma_binding_vals_wf_index,
    lemma_env_lookup_wf, lemma_extend_ok, lemma_key_index_from, lemma_obj_wf_mono,
    lemma_set_ok, obj_wf, objs_wf, Environment, FrameModel,
};
use crate::lexer::{lex_model, Lexer};
use crate::object::{
    hash_model, lemma_hash_model, lemma_objs_model, obj_model, obj_truthy, objs_model,
    render_object, Builtin, ObjModel, Object,
};
use crate::ops::{
    arity_text, cannot_key_text, eval_index_op, eval_infix_op, eval_prefix_op, index_op_m,
    infix_op_m, not_callable_text, not_defined_text, prefix_op_m,
};
use crate::parser::{parse_model, Parser};
use crate::text::render_u64;
use crate::token::TokenModel;
use crate::{Error, ErrorModel, Signal, SignalModel};
use vstd::prelude::*;
use vstd::string::StringExecFns;

verus! {

/// How an argument or element list evaluation ended: all values, or an
/// escaping `Return` value met on the way.
pub enum ListFlow {
    Vals(Vec<Object>),
    Esc(Object),
}

pub enum ListFlowModel {
    Vals(Seq<ObjModel>),
    Esc(ObjModel),
}

/// How a hash literal evaluation ended.
pub enum HashFlow {
    Pairs(Vec<(String, Object)>),
    Esc(Object),
}

pub enum HashFlowModel {
    Pairs(Seq<(Seq<char>, ObjModel)>),
    Esc(ObjModel),
}

pub open spec fn res_m(r: Result<Object, Signal>) -> Result<ObjModel, SignalModel> {
    match r {
        Result::Ok(o) => Result::Ok(o@),
        Result::Err(s) => Result::Err(s@),
    }
}

pub open spec fn listflow_m(f: ListFlow) -> ListFlowModel {
    match f {
        ListFlow::Vals(vs) => ListFlowModel::Vals(objs_model(vs@, 0)),
        ListFlow::Esc(o) => ListFlowModel::Esc(obj_model(o)),
    }
}

pub open spec fn hashflow_m(f: HashFlow) -> HashFlowModel {
    match f {
        HashFlow::Pairs(ps) => HashFlowModel::Pairs(hash_model(ps@, 0)),
        HashFlow::Esc(o) => HashFlowModel::Esc(obj_model(o)),
    }
}

/// The frame a call body runs in: parameters bound positionally, later
/// duplicates overwriting earlier ones.
pub open spec fn bind_params_m(
    ps: Seq<Seq<char>>,
    vs: Seq<ObjModel>,
    k: int,
    acc: Seq<(Seq<char>, ObjModel)>,
) -> Seq<(Seq<char>, ObjModel)>
    recommends
        ps.len() == vs.len(),
    decreases ps.len() - k,
{
    if k < 0 || k >= ps.len() || ps.len() != vs.len() {
        acc
    } else {
        bind_params_m(ps, vs, k + 1, bindings_set(acc, ps[k], vs[k]))
    }
}

/// One step of the model: what evaluating an expression in frame `h`
/// returns, and the arena and output it leaves behind.
pub open spec fn eval_expr_m(
    e: ExprModel,
    h: int,
    env: Seq<FrameModel>,
    out: Seq<Seq<char>>,
    fuel: nat,
) -> (Result<ObjModel, SignalModel>, Seq<FrameModel>, Seq<Seq<char>>)
    decreases fuel, 1int,
{
    if fuel == 0 {
        (Result::Err(SignalModel::OutOfFuel), env, out)
    } else {
        match e {
            ExprModel::Identifier(n) => (
                match env_lookup(env, h, n) {
                    Option::Some(v) => Result::Ok(v),
                    Option::None => Result::Err(
                        SignalModel::Fault(ErrorModel::Runtime(not_defined_text(n))),
                    ),
                },
                env,
                out,
            ),
            ExprModel::Integer(i) => (Result::Ok(ObjModel::Integer(i)), env, out),
            ExprModel::Float(b) => (Result::Ok(ObjModel::Float(b)), env, out),
            ExprModel::Str(s) => (Result::Ok(ObjModel::Str(s)), env, out),
            ExprModel::Boolean(b) => (Result::Ok(ObjModel::Boolean(b)), env, out),
            ExprModel::Array(es) => eval_array_m(es, h, env, out, fuel),
            ExprModel::Hash(ps) => eval_hash_m(ps, h, env, out, fuel),
            ExprModel::Index(t, ix) => eval_index_m(*t, *ix, h, env, out, fuel),
            ExprModel::Prefix(op, r) => eval_prefix_arm_m(op, *r, h, env, out, fuel),
            ExprModel::Infix(l, op, r) => eval_infix_arm_m(*l, op, *r, h, env, out, fuel),
            ExprModel::Block(ss) => eval_block_arm_m(ss, h, env, out, fuel),
            ExprModel::If(c, t, a) => eval_if_m(*c, *t, a, h, env, out, fuel),
            ExprModel::Function(ps, body) => (
                Result::Ok(ObjModel::Function(ps, *body, h)),
                env,
                out,
            ),
            ExprModel::Call(f, args) => eval_call_m(*f, args, h, env, out, fuel),
        }
    }
}

pub open spec fn eval_array_m(
    es: Seq<ExprModel>,
    h: int,
    env: Seq<FrameModel>,
    out: Seq<Seq<char>>,
    fuel: nat,
) -> (Result<ObjModel, SignalModel>, Seq<FrameModel>, Seq<Seq<char>>)
    decreases fuel, 0int,
{
    if fuel == 0 {
        (Result::Err(SignalModel::OutOfFuel), env, out)
    } else {
        let (r, env1, out1) = eval_exprs_m(es, 0, Seq::empty(), h, env, out, (fuel - 1) as nat);
        match r {
            Result::Err(s) => (Result::Err(s), env1, out1),
            Result::Ok(ListFlowModel::Vals(vs)) => (Result::Ok(ObjModel::Array(vs)), env1, out1),
            Result::Ok(ListFlowModel::Esc(v)) => (Result::Ok(v), env1, out1),
        }
    }
}

pub open spec fn eval_hash_m(
    ps: Seq<(ExprModel, ExprModel)>,
    h: int,
    env: Seq<FrameModel>,
    out: Seq<Seq<char>>,
    fuel: nat,
) -> (Result<ObjModel, SignalModel>, Seq<FrameModel>, Seq<Seq<char>>)
    decreases fuel, 0int,
{
    if fuel == 0 {
        (Result::Err(SignalModel::OutOfFuel), env, out)
    } else {
        let (r, env1, out1) = eval_pairs_m(ps, 0, Seq::empty(), h, env, out, (fuel - 1) as nat);
        match r {
            Result::Err(s) => (Result::Err(s), env1, out1),
            Result::Ok(HashFlowModel::Pairs(items)) => (Result::Ok(ObjModel::Hash(items)), env1, out1),
            Result::Ok(HashFlowModel::Esc(v)) => (Result::Ok(v), env1, out1),
        }
    }
}

pub open spec fn eval_index_m(
    t: ExprModel,
    ix: ExprModel,
    h: int,
    env: Seq<FrameModel>,
    out: Seq<Seq<char>>,
    fuel: nat,
) -> (Result<ObjModel, SignalModel>, Seq<FrameModel>, Seq<Seq<char>>)
    decreases fuel, 0int,
{
    if fuel == 0 {
        (Result::Err(SignalModel::OutOfFuel), env, out)
    } else {
        let (rt, env1, out1) = eval_expr_m(t, h, env, out, (fuel - 1) as nat);
        match rt {
            Result::Err(s) => (Result::Err(s), env1, out1),
            Result::Ok(tv) => if tv is Return {
                (Result::Ok(tv), env1, out1)
            } else {
                let (ri, env2, out2) = eval_expr_m(ix, h, env1, out1, (fuel - 1) as nat);
                match ri {
                    Result::Err(s) => (Result::Err(s), env2, out2),
                    Result::Ok(iv) => if iv is Return {
                        (Result::Ok(iv), env2, out2)
                    } else {
                        match index_op_m(tv, iv) {
                            Result::Ok(v) => (Result::Ok(v), env2, out2),
                            Result::Err(m) => (
                                Result::Err(SignalModel::Fault(ErrorModel::Runtime(m))),
                                env2,
                                out2,
                            ),
                        }
                    },
                }
            },
        }
    }
}

pub open spec fn eval_prefix_arm_m(
    op: TokenModel,
    operand: ExprModel,
    h: int,
    env: Seq<FrameModel>,
    out: Seq<Seq<char>>,
    fuel: nat,
) -> (Result<ObjModel, SignalModel>, Seq<FrameModel>, Seq<Seq<char>>)
    decreases fuel, 0int,
{
    if fuel == 0 {
        (Result::Err(SignalModel::OutOfFuel), env, out)
    } else {
        let (rv, env1, out1) = eval_expr_m(operand, h, env, out, (fuel - 1) as nat);
        match rv {
            Result::Err(s) => (Result::Err(s), env1, out1),
            Result::Ok(v) => if v is Return {
                (Result::Ok(v), env1, out1)
            } else {
                match prefix_op_m(op, v) {
                    Result::Ok(v2) => (Result::Ok(v2), env1, out1),
                    Result::Err(m) => (
                        Result::Err(SignalModel::Fault(ErrorModel::Runtime(m))),
                        env1,
                        out1,
                    ),
                }
            },
        }
    }
}

pub open spec fn eval_infix_arm_m(
    l: ExprModel,
    op: TokenModel,
    r: ExprModel,
    h: int,
    env: Seq<FrameModel>,
    out: Seq<Seq<char>>,
    fuel: nat,
) -> (Result<ObjModel, SignalModel>, Seq<FrameModel>, Seq<Seq<char>>)
    decreases fuel, 0int,
{
    if fuel == 0 {
        (Result::Err(SignalModel::OutOfFuel), env, out)
    } else {
        let (rl, env1, out1) = eval_expr_m(l, h, env, out, (fuel - 1) as nat);
        match rl {
            Result::Err(s) => (Result::Err(s), env1, out1),
            Result::Ok(lv) => if lv is Return {
                (Result::Ok(lv), env1, out1)
            } else {
                let (rr, env2, out2) = eval_expr_m(r, h, env1, out1, (fuel - 1) as nat);
                match rr {
                    Result::Err(s) => (Result::Err(s), env2, out2),
                    Result::Ok(rv) => if rv is Return {
                        (Result::Ok(rv), env2, out2)
                    } else {
                        match infix_op_m(lv, op, rv) {
                            Result::Ok(v) => (Result::Ok(v), env2, out2),
                            Result::Err(m) => (
                                Result::Err(SignalModel::Fault(ErrorModel::Runtime(m))),
                                env2,
                                out2,
                            ),
                        }
                    },
                }
            },
        }
    }
}

pub open spec fn eval_block_arm_m(
    ss: Seq<StmtModel>,
    h: int,
    env: Seq<FrameModel>,
    out: Seq<Seq<char>>,
    fuel: nat,
) -> (Result<ObjModel, SignalModel>, Seq<FrameModel>, Seq<Seq<char>>)
    decreases fuel, 0int,
{
    if fuel == 0 {
        (Result::Err(SignalModel::OutOfFuel), env, out)
    } else {
        let c = env.len() as int;
        let env1 = env.push(FrameModel { parent: Option::Some(h), bindings: Seq::empty() });
        eval_stmts_m(ss, 0, ObjModel::Null, c, env1, out, (fuel - 1) as nat)
    }
}

pub open spec fn eval_if_m(
    c: ExprModel,
    t: ExprModel,
    a: Option<Box<ExprModel>>,
    h: int,
    env: Seq<FrameModel>,
    out: Seq<Seq<char>>,
    fuel: nat,
) -> (Result<ObjModel, SignalModel>, Seq<FrameModel>, Seq<Seq<char>>)
    decreases fuel, 0int,
{
    if fuel == 0 {
        (Result::Err(SignalModel::OutOfFuel), env, out)
    } else {
        let (rc, env1, out1) = eval_expr_m(c, h, env, out, (fuel - 1) as nat);
        match rc {
            Result::Err(s) => (Result::Err(s), env1, out1),
            Result::Ok(cv) => if cv is Return {
                (Result::Ok(cv), env1, out1)
            } else if obj_truthy(cv) {
                eval_expr_m(t, h, env1, out1, (fuel - 1) as nat)
            } else {
                match a {
                    Option::Some(alt) => eval_expr_m(*alt, h, env1, out1, (fuel - 1) as nat),
                    Option::None => (Result::Ok(ObjModel::Null), env1, out1),
                }
            },
        }
    }
}

pub open spec fn eval_call_m(
    f: ExprModel,
    args: Seq<ExprModel>,
    h: int,
    env: Seq<FrameModel>,
    out: Seq<Seq<char>>,
    fuel: nat,
) -> (Result<ObjModel, SignalModel>, Seq<FrameModel>, Seq<Seq<char>>)
    decreases fuel, 0int,
{
    if fuel == 0 {
        (Result::Err(SignalModel::OutOfFuel), env, out)
    } else {
        let (rf, env1, out1) = eval_expr_m(f, h, env, out, (fuel - 1) as nat);
        match rf {
            Result::Err(s) => (Result::Err(s), env1, out1),
            Result::Ok(fv) => if fv is Return {
                (Result::Ok(fv), env1, out1)
            } else {
                let (ra, env2, out2) = eval_exprs_m(
                    args,
                    0,
                    Seq::empty(),
                    h,
                    env1,
                    out1,
                    (fuel - 1) as nat,
                );
                match ra {
                    Result::Err(s) => (Result::Err(s), env2, out2),
                    Result::Ok(ListFlowModel::Esc(v)) => (Result::Ok(v), env2, out2),
                    Result::Ok(ListFlowModel::Vals(vs)) => match fv {
                        ObjModel::Function(ps, body, fh) => if ps.len() != vs.len() {
                            (
                                Result::Err(
                                    SignalModel::Fault(
                                        ErrorModel::Runtime(arity_text(ps.len(), vs.len())),
                                    ),
                                ),
                                env2,
                                out2,
                            )
                        } else {
                            let c = env2.len() as int;
                            let env3 = env2.push(
                                FrameModel {
                                    parent: Option::Some(fh),
                                    bindings: bind_params_m(ps, vs, 0, Seq::empty()),
                                },
                            );
                            let (rb, env4, out4) = eval_expr_m(
                                body,
                                c,
                                env3,
                                out2,
                                (fuel - 1) as nat,
                            );
                            match rb {
                                Result::Err(s) => (Result::Err(s), env4, out4),
                                Result::Ok(bv) => match bv {
                                    ObjModel::Return(inner) => (Result::Ok(*inner), env4, out4),
                                    _ => (Result::Ok(bv), env4, out4),
                                },
                            }
                        },
                        ObjModel::Builtin(b) => {
                            let (rb, out3) = builtin_m(b, vs, out2);
                            (rb, env2, out3)
                        },
                        other => (
                            Result::Err(
                                SignalModel::Fault(ErrorModel::Runtime(not_callable_text(other))),
                            ),
                            env2,
                            out2,
                        ),
                    },
                }
            },
        }
    }
}

pub open spec fn eval_exprs_m(
    es: Seq<ExprModel>,
    k: int,
    acc: Seq<ObjModel>,
    h: int,
    env: Seq<FrameModel>,
    out: Seq<Seq<char>>,
    fuel: nat,
) -> (Result<ListFlowModel, SignalModel>, Seq<FrameModel>, Seq<Seq<char>>)
    decreases fuel, 0int,
{
    if fuel == 0 {
        (Result::Err(SignalModel::OutOfFuel), env, out)
    } else if k < 0 || k >= es.len() {
        (Result::Ok(ListFlowModel::Vals(acc)), env, out)
    } else {
        let (r, env1, out1) = eval_expr_m(es[k], h, env, out, (fuel - 1) as nat);
        match r {
            Result::Err(s) => (Result::Err(s), env1, out1),
            Result::Ok(v) => if v is Return {
                (Result::Ok(ListFlowModel::Esc(v)), env1, out1)
            } else {
                eval_exprs_m(es, k + 1, acc.push(v), h, env1, out1, (fuel - 1) as nat)
            },
        }
    }
}

pub open spec fn eval_pairs_m(
    ps: Seq<(ExprModel, ExprModel)>,
    k: int,
    acc: Seq<(Seq<char>, ObjModel)>,
    h: int,
    env: Seq<FrameModel>,
    out: Seq<Seq<char>>,
    fuel: nat,
) -> (Result<HashFlowModel, SignalModel>, Seq<FrameModel>, Seq<Seq<char>>)
    decreases fuel, 0int,
{
    if fuel == 0 {
        (Result::Err(SignalModel::OutOfFuel), env, out)
    } else if k < 0 || k >= ps.len() {
        (Result::Ok(HashFlowModel::Pairs(acc)), env, out)
    } else {
        let (rk, env1, out1) = eval_expr_m(ps[k].0, h, env, out, (fuel - 1) as nat);
        match rk {
            Result::Err(s) => (Result::Err(s), env1, out1),
            Result::Ok(kv) => if kv is Return {
                (Result::Ok(HashFlowModel::Esc(kv)), env1, out1)
            } else {
                match kv {
                    ObjModel::Str(name) => {
                        let (rv, env2, out2) = eval_expr_m(
                            ps[k].1,
                            h,
                            env1,
                            out1,
                            (fuel - 1) as nat,
                        );
                        match rv {
                            Result::Err(s) => (Result::Err(s), env2, out2),
                            Result::Ok(vv) => if vv is Return {
                                (Result::Ok(HashFlowModel::Esc(vv)), env2, out2)
                            } else {
                                eval_pairs_m(
                                    ps,
                                    k + 1,
                                    bindings_set(acc, name, vv),
                                    h,
                                    env2,
                                    out2,
                                    (fuel - 1) as nat,
                                )
                            },
                        }
                    },
                    other => (
                        Result::Err(
                            SignalModel::Fault(ErrorModel::Runtime(cannot_key_text(other))),
                        ),
                        env1,
                        out1,
                    ),
                }
            },
        }
    }
}

/// One statement: a binding writes into the current frame; a return wraps
/// its value; an escaping value from the right-hand side passes through
/// unbound.
pub open spec fn eval_stmt_m(
    s: StmtModel,
    h: int,
    env: Seq<FrameModel>,
    out: Seq<Seq<char>>,
    fuel: nat,
) -> (Result<ObjModel, SignalModel>, Seq<FrameModel>, Seq<Seq<char>>)
    decreases fuel, 1int,
{
    if fuel == 0 {
        (Result::Err(SignalModel::OutOfFuel), env, out)
    } else {
        match s {
            StmtModel::Let(n, e) => eval_bind_m(n, e, h, env, out, fuel),
            StmtModel::Mut(n, e) => eval_bind_m(n, e, h, env, out, fuel),
            StmtModel::Return(e) => {
                let (r, env1, out1) = eval_expr_m(e, h, env, out, (fuel - 1) as nat);
                match r {
                    Result::Err(s2) => (Result::Err(s2), env1, out1),
                    Result::Ok(v) => if v is Return {
                        (Result::Ok(v), env1, out1)
                    } else {
                        (Result::Ok(ObjModel::Return(Box::new(v))), env1, out1)
                    },
                }
            },
            StmtModel::Expression(e) => eval_expr_m(e, h, env, out, (fuel - 1) as nat),
        }
    }
}

/// A `let` or `mut` binding: both write the evaluated value into the
/// current frame; the label is not distinguished at run time.
pub open spec fn eval_bind_m(
    n: Seq<char>,
    e: ExprModel,
    h: int,
    env: Seq<FrameModel>,
    out: Seq<Seq<char>>,
    fuel: nat,
) -> (Result<ObjModel, SignalModel>, Seq<FrameModel>, Seq<Seq<char>>)
    decreases fuel, 0int,
{
    if fuel == 0 {
        (Result::Err(SignalModel::OutOfFuel), env, out)
    } else {
        let (r, env1, out1) = eval_expr_m(e, h, env, out, (fuel - 1) as nat);
        match r {
            Result::Err(s) => (Result::Err(s), env1, out1),
            Result::Ok(v) => if v is Return {
                (Result::Ok(v), env1, out1)
            } else if 0 <= h < env1.len() {
                (
                    Result::Ok(v),
                    env1.update(
                        h,
                        FrameModel {
                            parent: env1[h].parent,
                            bindings: bindings_set(env1[h].bindings, n, v),
                        },
                    ),
                    out1,
                )
            } else {
                (Result::Ok(v), env1, out1)
            },
        }
    }
}

/// The statements of a block, in order: the block's value is the last
/// statement's value, null when empty; a `Return` value stops the block
/// and propagates upward still wrapped.
pub open spec fn eval_stmts_m(
    ss: Seq<StmtModel>,
    k: int,
    last: ObjModel,
    h: int,
    env: Seq<FrameModel>,
    out: Seq<Seq<char>>,
    fuel: nat,
) -> (Result<ObjModel, SignalModel>, Seq<FrameModel>, Seq<Seq<char>>)
    decreases fuel, 0int,
{
    if fuel == 0 {
        (Result::Err(SignalModel::OutOfFuel), env, out)
    } else if k < 0 || k >= ss.len() {
        (Result::Ok(last), env, out)
    } else {
        let (r, env1, out1) = eval_stmt_m(ss[k], h, env, out, (fuel - 1) as nat);
        match r {
            Result::Err(s) => (Result::Err(s), env1, out1),
            Result::Ok(v) => if v is Return {
                (Result::Ok(v), env1, out1)
            } else {
                eval_stmts_m(ss, k + 1, v, h, env1, out1, (fuel - 1) as nat)
            },
        }
    }
}

/// The statements of a whole program: like a block, except that a
/// `Return` value ends the run at once and its payload is the result.
pub open spec fn eval_program_m(
    ss: Seq<StmtModel>,
    k: int,
    last: ObjModel,
    h: int,
    env: Seq<FrameModel>,
    out: Seq<Seq<char>>,
    fuel: nat,
) -> (Result<ObjModel, SignalModel>, Seq<FrameModel>, Seq<Seq<char>>)
    decreases fuel, 0int,
{
    if fuel == 0 {
        (Result::Err(SignalModel::OutOfFuel), env, out)
    } else if k < 0 || k >= ss.len() {
        (Result::Ok(last), env, out)
    } else {
        let (r, env1, out1) = eval_stmt_m(ss[k], h, env, out, (fuel - 1) as nat);
        match r {
            Result::Err(s) => (Result::Err(s), env1, out1),
            Result::Ok(v) => match v {
                ObjModel::Return(inner) => (Result::Ok(*inner), env1, out1),
                _ => eval_program_m(ss, k + 1, v, h, env1, out1, (fuel - 1) as nat),
            },
        }
    }
}

/// The whole embedding: lex, parse, then evaluate against the given frame.
pub open spec fn evaluate_source_m(
    src: Seq<char>,
    h: int,
    env: Seq<FrameModel>,
    out: Seq<Seq<char>>,
    fuel: nat,
) -> (Result<ObjModel, SignalModel>, Seq<FrameModel>, Seq<Seq<char>>) {
    match lex_model(src) {
        Result::Err(m) => (Result::Err(SignalModel::Fault(ErrorModel::Lexer(m))), env, out),
        Result::Ok(ts) => match parse_model(ts) {
            Result::Err(m) => (
                Result::Err(SignalModel::Fault(ErrorModel::Parser(m))),
                env,
                out,
            ),
            Result::Ok(prog) => eval_program_m(prog, 0, ObjModel::Null, h, env, out, fuel),
        },
    }
}

fn not_defined_err(n: &str) -> (e: Error)
    ensures
        e@ == ErrorModel::Runtime(not_defined_text(n@)),
{
    let mut m = "Name '".to_owned();
    m.append(n);
    m.append("' is not defined");
    proof {
        assert(m@ =~= not_defined_text(n@));
    }
    Error::Runtime(m)
}

fn cannot_key_err(o: &Object) -> (e: Error)
    ensures
        e@ == ErrorModel::Runtime(cannot_key_text(o@)),
{
    let mut m = "Can not use '".to_owned();
    let shown = render_object(o);
    m.append(shown.as_str());
    m.append("' as a key");
    proof {
        assert(m@ =~= cannot_key_text(o@));
    }
    Error::Runtime(m)
}

fn not_callable_err(o: &Object) -> (e: Error)
    ensures
        e@ == ErrorModel::Runtime(not_callable_text(o@)),
{
    let mut m = "Object '".to_owned();
    let shown = render_object(o);
    m.append(shown.as_str());
    m.append("' is not callable");
    proof {
        assert(m@ =~= not_callable_text(o@));
    }
    Error::Runtime(m)
}

fn arity_err(expected: usize, got: usize) -> (e: Error)
    ensures
        e@ == ErrorModel::Runtime(arity_text(expected as nat, got as nat)),
{
    let mut m = "Expected ".to_owned();
    let want = render_u64(expected as u64);
    m.append(want.as_str());
    m.append(" argument(s), got ");
    let have = render_u64(got as u64);
    m.append(have.as_str());
    proof {
        assert(m@ =~= arity_text(expected as nat, got as nat));
    }
    Error::Runtime(m)
}

/// Evaluates one expression in frame `h`. No frame that existed before the
/// call is changed: bindings made inside blocks or call bodies cannot leak
/// into enclosing scopes.
pub fn eval_expression(
    e: &Expression,
    h: usize,
    env: &mut Environment,
    out: &mut Vec<String>,
    fuel: u64,
) -> (r: Result<Object, Signal>)
    requires
        env_ok(old(env)@),
        h < old(env)@.len(),
    ensures
        env_ok(final(env)@),
        old(env)@.len() <= final(env)@.len(),
        forall|i: int| 0 <= i < old(env)@.len() ==> final(env)@[i] == old(env)@[i],
        match r {
            Result::Ok(v) => obj_wf(v@, final(env)@.len() as int),
            Result::Err(_) => true,
        },
        ({
            let (rs, env2, out2) = eval_expr_m(
                e@,
                h as int,
                old(env)@,
                old(out).deep_view(),
                fuel as nat,
            );
            res_m(r) == rs && final(env)@ == env2 && final(out).deep_view() == out2
        }),
    decreases fuel, 1int,
{
    if fuel == 0 {
        return Err(Signal::OutOfFuel);
    }
    match e {
        Expression::Identifier(n) => {
            match env.get(h, n.as_str()) {
                Some(v) => {
                    proof {
                        lemma_env_lookup_wf(env@, h as int, n@);
                    }
                    Ok(v)
                },
                None => Err(Signal::Fault(not_defined_err(n.as_str()))),
            }
        },
        Expression::Integer(i) => Ok(Object::Integer(*i)),
        Expression::Float(b) => Ok(Object::Float(*b)),
        Expression::Str(s) => Ok(Object::Str(s.clone())),
        Expression::Boolean(b) => Ok(Object::Boolean(*b)),
        Expression::Array(es) => eval_array(es, h, env, out, fuel),
        Expression::Hash(ps) => eval_hash(ps, h, env, out, fuel),
        Expression::Index(t, ix) => eval_index(t, ix, h, env, out, fuel),
        Expression::Prefix(op, operand) => eval_prefix(op, operand, h, env, out, fuel),
        Expression::Infix(l, op, r2) => eval_infix(l, op, r2, h, env, out, fuel),
        Expression::Block(ss) => eval_block(ss, h, env, out, fuel),
        Expression::If(c, t, a) => eval_if(c, t, a, h, env, out, fuel),
        Expression::Function(ps, body) => Ok(
            Object::Function(crate::ast::clone_strings(ps), crate::ast::rc_dup(body), h),
        ),
        Expression::Call(f, args) => eval_call(f, args, h, env, out, fuel),
    }
}

fn eval_array(
    es: &Vec<Expression>,
    h: usize,
    env: &mut Environment,
    out: &mut Vec<String>,
    fuel: u64,
) -> (r: Result<Object, Signal>)
    requires
        env_ok(old(env)@),
        h < old(env)@.len(),
        fuel >= 1,
    ensures
        env_ok(final(env)@),
        old(env)@.len() <= final(env)@.len(),
        forall|i: int| 0 <= i < old(env)@.len() ==> final(env)@[i] == old(env)@[i],
        match r {
            Result::Ok(v) => obj_wf(v@, final(env)@.len() as int),
            Result::Err(_) => true,
        },
        ({
            let (rs, env2, out2) = eval_array_m(
                exprs_model(es@, 0),
                h as int,
                old(env)@,
                old(out).deep_view(),
                fuel as nat,
            );
            res_m(r) == rs && final(env)@ == env2 && final(out).deep_view() == out2
        }),
    decreases fuel, 0int,
{
    let acc: Vec<Object> = Vec::new();
    proof {
        assert(objs_model(acc@, 0) =~= Seq::<ObjModel>::empty());
    }
    match eval_expr_list(es, 0, acc, h, env, out, fuel - 1) {
        Err(s) => Err(s),
        Ok(ListFlow::Vals(vs)) => Ok(Object::Array(vs)),
        Ok(ListFlow::Esc(v)) => Ok(v),
    }
}

fn eval_hash(
    ps: &Vec<(Expression, Expression)>,
    h: usize,
    env: &mut Environment,
    out: &mut Vec<String>,
    fuel: u64,
) -> (r: Result<Object, Signal>)
    requires
        env_ok(old(env)@),
        h < old(env)@.len(),
        fuel >= 1,
    ensures
        env_ok(final(env)@),
        old(env)@.len() <= final(env)@.len(),
        forall|i: int| 0 <= i < old(env)@.len() ==> final(env)@[i] == old(env)@[i],
        match r {
            Result::Ok(v) => obj_wf(v@, final(env)@.len() as int),
            Result::Err(_) => true,
        },
        ({
            let (rs, env2, out2) = eval_hash_m(
                pairs_model(ps@, 0),
                h as int,
                old(env)@,
                old(out).deep_view(),
                fuel as nat,
            );
            res_m(r) == rs && final(env)@ == env2 && final(out).deep_view() == out2
        }),
    decreases fuel, 0int,
{
    let acc: Vec<(String, Object)> = Vec::new();
    proof {
        assert(hash_model(acc@, 0) =~= Seq::<(Seq<char>, ObjModel)>::empty());
    }
    match eval_pair_list(ps, 0, acc, h, env, out, fuel - 1) {
        Err(s) => Err(s),
        Ok(HashFlow::Pairs(items)) => Ok(Object::Hash(items)),
        Ok(HashFlow::Esc(v)) => Ok(v),
    }
}

fn eval_index(
    t: &Expression,
    ix: &Expression,
    h: usize,
    env: &mut Environment,
    out: &mut Vec<String>,
    fuel: u64,
) -> (r: Result<Object, Signal>)
    requires
        env_ok(old(env)@),
        h < old(env)@.len(),
        fuel >= 1,
    ensures
        env_ok(final(env)@),
        old(env)@.len() <= final(env)@.len(),
        forall|i: int| 0 <= i < old(env)@.len() ==> final(env)@[i] == old(env)@[i],
        match r {
            Result::Ok(v) => obj_wf(v@, final(env)@.len() as int),
            Result::Err(_) => true,
        },
        ({
            let (rs, env2, out2) = eval_index_m(
                t@,
                ix@,
                h as int,
                old(env)@,
                old(out).deep_view(),
                fuel as nat,
            );
            res_m(r) == rs && final(env)@ == env2 && final(out).deep_view() == out2
        }),
    decreases fuel, 0int,
{
    let tv = match eval_expression(t, h, env, out, fuel - 1) {
        Ok(v) => v,
        Err(s) => {
            return Err(s);
        },
    };
    if matches!(tv, Object::Return(_)) {
        return Ok(tv);
    }
    let ghost lena = env@.len() as int;
    let iv = match eval_expression(ix, h, env, out, fuel - 1) {
        Ok(v) => v,
        Err(s) => {
            return Err(s);
        },
    };
    if matches!(iv, Object::Return(_)) {
        return Ok(iv);
    }
    proof {
        lemma_obj_wf_mono(tv@, lena, env@.len() as int);
    }
    match eval_index_op(&tv, &iv) {
        Ok(v) => {
            proof {
                lemma_index_result_wf(tv@, iv@, env@.len() as int);
            }
            Ok(v)
        },
        Err(e) => Err(Signal::Fault(e)),
    }
}

/// An indexing result is a part of the target, so it is well formed
/// wherever the target is.
proof fn lemma_index_result_wf(t: ObjModel, ix: ObjModel, n: int)
    requires
        obj_wf(t, n),
    ensures
        match index_op_m(t, ix) {
            Result::Ok(v) => obj_wf(v, n),
            Result::Err(_) => true,
        },
{
    match (t, ix) {
        (ObjModel::Array(vs), ObjModel::Integer(i)) => {
            crate::environment::lemma_objs_wf_index(vs, 0, n);
        },
        (ObjModel::Array(vs), ObjModel::Range(f, t2)) => {
            crate::environment::lemma_objs_wf_index(vs, 0, n);
            if 0 <= f <= t2 <= vs.len() {
                crate::environment::lemma_objs_wf_index(vs.subrange(f as int, t2 as int), 0, n);
            }
        },
        (ObjModel::Hash(ps), ObjModel::Str(k)) => {
            lemma_binding_vals_wf_index(ps, 0, n);
            lemma_key_index_from(ps, 0, k);
        },
        _ => {},
    }
}

fn eval_prefix(
    op: &crate::token::Token,
    operand: &Expression,
    h: usize,
    env: &mut Environment,
    out: &mut Vec<String>,
    fuel: u64,
) -> (r: Result<Object, Signal>)
    requires
        env_ok(old(env)@),
        h < old(env)@.len(),
        fuel >= 1,
    ensures
        env_ok(final(env)@),
        old(env)@.len() <= final(env)@.len(),
        forall|i: int| 0 <= i < old(env)@.len() ==> final(env)@[i] == old(env)@[i],
        match r {
            Result::Ok(v) => obj_wf(v@, final(env)@.len() as int),
            Result::Err(_) => true,
        },
        ({
            let (rs, env2, out2) = eval_prefix_arm_m(
                op@,
                operand@,
                h as int,
                old(env)@,
                old(out).deep_view(),
                fuel as nat,
            );
            res_m(r) == rs && final(env)@ == env2 && final(out).deep_view() == out2
        }),
    decreases fuel, 0int,
{
    let v = match eval_expression(operand, h, env, out, fuel - 1) {
        Ok(v) => v,
        Err(s) => {
            return Err(s);
        },
    };
    if matches!(v, Object::Return(_)) {
        return Ok(v);
    }
    match eval_prefix_op(op, &v) {
        Ok(v2) => Ok(v2),
        Err(e) => Err(Signal::Fault(e)),
    }
}

fn eval_infix(
    l: &Expression,
    op: &crate::token::Token,
    r2: &Expression,
    h: usize,
    env: &mut Environment,
    out: &mut Vec<String>,
    fuel: u64,
) -> (r: Result<Object, Signal>)
    requires
        env_ok(old(env)@),
        h < old(env)@.len(),
        fuel >= 1,
    ensures
        env_ok(final(env)@),
        old(env)@.len() <= final(env)@.len(),
        forall|i: int| 0 <= i < old(env)@.len() ==> final(env)@[i] == old(env)@[i],
        match r {
            Result::Ok(v) => obj_wf(v@, final(env)@.len() as int),
            Result::Err(_) => true,
        },
        ({
            let (rs, env2, out2) = eval_infix_arm_m(
                l@,
                op@,
                r2@,
                h as int,
                old(env)@,
                old(out).deep_view(),
                fuel as nat,
            );
            res_m(r) == rs && final(env)@ == env2 && final(out).deep_view() == out2
        }),
    decreases fuel, 0int,
{
    let lv = match eval_expression(l, h, env, out, fuel - 1) {
        Ok(v) => v,
        Err(s) => {
            return Err(s);
        },
    };
    if matches!(lv, Object::Return(_)) {
        return Ok(lv);
    }
    let rv = match eval_expression(r2, h, env, out, fuel - 1) {
        Ok(v) => v,
        Err(s) => {
            return Err(s);
        },
    };
    if matches!(rv, Object::Return(_)) {
        return Ok(rv);
    }
    match eval_infix_op(&lv, op, &rv) {
        Ok(v) => {
            proof {
                lemma_infix_result_wf(lv@, op@, rv@, env@.len() as int);
            }
            Ok(v)
        },
        Err(e) => Err(Signal::Fault(e)),
    }
}

/// An infix result is a primitive or a concatenation: always well formed.
proof fn lemma_infix_result_wf(l: ObjModel, op: TokenModel, r: ObjModel, n: int)
    ensures
        match infix_op_m(l, op, r) {
            Result::Ok(v) => obj_wf(v, n),
            Result::Err(_) => true,
        },
{
}

fn eval_block(
    ss: &Vec<Statement>,
    h: usize,
    env: &mut Environment,
    out: &mut Vec<String>,
    fuel: u64,
) -> (r: Result<Object, Signal>)
    requires
        env_ok(old(env)@),
        h < old(env)@.len(),
        fuel >= 1,
    ensures
        env_ok(final(env)@),
        old(env)@.len() <= final(env)@.len(),
        forall|i: int| 0 <= i < old(env)@.len() ==> final(env)@[i] == old(env)@[i],
        match r {
            Result::Ok(v) => obj_wf(v@, final(env)@.len() as int),
            Result::Err(_) => true,
        },
        ({
            let (rs, env2, out2) = eval_block_arm_m(
                stmts_model(ss@, 0),
                h as int,
                old(env)@,
                old(out).deep_view(),
                fuel as nat,
            );
            res_m(r) == rs && final(env)@ == env2 && final(out).deep_view() == out2
        }),
    decreases fuel, 0int,
{
    proof {
        lemma_extend_ok(env@, h as int);
    }
    let c = env.extend(h);
    eval_block_stmts(ss, 0, Object::Null, c, env, out, fuel - 1)
}

fn eval_if(
    c: &Expression,
    t: &Expression,
    a: &Option<Box<Expression>>,
    h: usize,
    env: &mut Environment,
    out: &mut Vec<String>,
    fuel: u64,
) -> (r: Result<Object, Signal>)
    requires
        env_ok(old(env)@),
        h < old(env)@.len(),
        fuel >= 1,
    ensures
        env_ok(final(env)@),
        old(env)@.len() <= final(env)@.len(),
        forall|i: int| 0 <= i < old(env)@.len() ==> final(env)@[i] == old(env)@[i],
        match r {
            Result::Ok(v) => obj_wf(v@, final(env)@.len() as int),
            Result::Err(_) => true,
        },
        ({
            let (rs, env2, out2) = eval_if_m(
                c@,
                t@,
                opt_box_model(*a),
                h as int,
                old(env)@,
                old(out).deep_view(),
                fuel as nat,
            );
            res_m(r) == rs && final(env)@ == env2 && final(out).deep_view() == out2
        }),
    decreases fuel, 0int,
{
    let cv = match eval_expression(c, h, env, out, fuel - 1) {
        Ok(v) => v,
        Err(s) => {
            return Err(s);
        },
    };
    if matches!(cv, Object::Return(_)) {
        return Ok(cv);
    }
    if cv.is_truthy() {
        eval_expression(t, h, env, out, fuel - 1)
    } else {
        match a {
            Some(alt) => eval_expression(&**alt, h, env, out, fuel - 1),
            None => Ok(Object::Null),
        }
    }
}

#[verifier::rlimit(100)]
fn eval_call(
    f: &Expression,
    args: &Vec<Expression>,
    h: usize,
    env: &mut Environment,
    out: &mut Vec<String>,
    fuel: u64,
) -> (r: Result<Object, Signal>)
    requires
        env_ok(old(env)@),
        h < old(env)@.len(),
        fuel >= 1,
    ensures
        env_ok(final(env)@),
        old(env)@.len() <= final(env)@.len(),
        forall|i: int| 0 <= i < old(env)@.len() ==> final(env)@[i] == old(env)@[i],
        match r {
            Result::Ok(v) => obj_wf(v@, final(env)@.len() as int),
            Result::Err(_) => true,
        },
        ({
            let (rs, env2, out2) = eval_call_m(
                f@,
                exprs_model(args@, 0),
                h as int,
                old(env)@,
                old(out).deep_view(),
                fuel as nat,
            );
            res_m(r) == rs && final(env)@ == env2 && final(out).deep_view() == out2
        }),
    decreases fuel, 0int,
{
    let fv = match eval_expression(f, h, env, out, fuel - 1) {
        Ok(v) => v,
        Err(s) => {
            return Err(s);
        },
    };
    if matches!(fv, Object::Return(_)) {
        return Ok(fv);
    }
    let ghost fvm = fv@;
    let ghost len1 = env@.len() as int;
    let acc: Vec<Object> = Vec::new();
    proof {
        assert(objs_model(acc@, 0) =~= Seq::<ObjModel>::empty());
    }
    let flow = match eval_expr_list(args, 0, acc, h, env, out, fuel - 1) {
        Ok(fl) => fl,
        Err(s) => {
            return Err(s);
        },
    };
    let argv = match flow {
        ListFlow::Esc(v) => {
            return Ok(v);
        },
        ListFlow::Vals(vs) => vs,
    };
    match fv {
        Object::Function(ps, body, fh) => {
            proof {
                lemma_objs_model(argv@, 0);
                assert(ps.deep_view().len() == ps@.len());
            }
            if ps.len() != argv.len() {
                return Err(Signal::Fault(arity_err(ps.len(), argv.len())));
            }
            proof {
                lemma_obj_wf_mono(fvm, len1, env@.len() as int);
                assert(fh < env@.len());
            }
            let ghost env2 = env@;
            let ghost psm = ps.deep_view();
            let ghost vsm = objs_model(argv@, 0);
            proof {
                lemma_extend_ok(env@, fh as int);
                lemma_objs_model(argv@, 0);
            }
            let c = env.extend(fh);
            let mut k: usize = 0;
            proof {
                assert(env@[c as int].bindings =~= Seq::<(Seq<char>, ObjModel)>::empty());
            }
            while k < ps.len()
                invariant
                    k <= ps@.len(),
                    psm == ps.deep_view(),
                    vsm == objs_model(argv@, 0),
                    psm.len() == ps@.len(),
                    vsm.len() == argv@.len(),
                    ps@.len() == argv@.len(),
                    forall|j: int| 0 <= j < vsm.len() ==> vsm[j] == obj_model(argv@[j]),
                    objs_wf(vsm, 0, env2.len() as int),
                    c as int == env2.len(),
                    env@.len() == env2.len() + 1,
                    forall|i: int| 0 <= i < env2.len() ==> env@[i] == env2[i],
                    env@[c as int].parent == Option::<int>::Some(fh as int),
                    bind_params_m(psm, vsm, k as int, env@[c as int].bindings)
                        == bind_params_m(psm, vsm, 0, Seq::empty()),
                    env_ok(env@),
                decreases ps@.len() - k,
            {
                proof {
                    crate::environment::lemma_objs_wf_index(vsm, 0, env2.len() as int);
                    lemma_obj_wf_mono(vsm[k as int], env2.len() as int, env@.len() as int);
                    lemma_set_ok(env@, c as int, psm[k as int], vsm[k as int]);
                }
                let value = argv[k].clone();
                env.set(c, ps[k].as_str(), value);
                k += 1;
            }
            proof {
                assert(env@ =~= env2.push(
                    FrameModel {
                        parent: Option::Some(fh as int),
                        bindings: bind_params_m(psm, vsm, 0, Seq::empty()),
                    },
                ));
            }
            match eval_expression(&*body, c, env, out, fuel - 1) {
                Err(s) => Err(s),
                Ok(bv) => match bv {
                    Object::Return(inner) => Ok(*inner),
                    other => Ok(other),
                },
            }
        },
        Object::Builtin(b) => {
            proof {
                lemma_builtin_wf(b, objs_model(argv@, 0), out.deep_view(), env@.len() as int);
            }
            apply_builtin(b, argv, out)
        },
        other => Err(Signal::Fault(not_callable_err(&other))),
    }
}

fn eval_expr_list(
    es: &Vec<Expression>,
    k: usize,
    acc: Vec<Object>,
    h: usize,
    env: &mut Environment,
    out: &mut Vec<String>,
    fuel: u64,
) -> (r: Result<ListFlow, Signal>)
    requires
        env_ok(old(env)@),
        h < old(env)@.len(),
        k <= es@.len(),
        objs_wf(objs_model(acc@, 0), 0, old(env)@.len() as int),
    ensures
        env_ok(final(env)@),
        old(env)@.len() <= final(env)@.len(),
        forall|i: int| 0 <= i < old(env)@.len() ==> final(env)@[i] == old(env)@[i],
        match r {
            Result::Ok(fl) => match listflow_m(fl) {
                ListFlowModel::Vals(vs) => objs_wf(vs, 0, final(env)@.len() as int),
                ListFlowModel::Esc(v) => obj_wf(v, final(env)@.len() as int),
            },
            Result::Err(_) => true,
        },
        ({
            let (rs, env2, out2) = eval_exprs_m(
                exprs_model(es@, 0),
                k as int,
                objs_model(acc@, 0),
                h as int,
                old(env)@,
                old(out).deep_view(),
                fuel as nat,
            );
            (match (r, rs) {
                (Result::Ok(fl), Result::Ok(flm)) => listflow_m(fl) == flm,
                (Result::Err(s), Result::Err(sm)) => s@ == sm,
                _ => false,
            }) && final(env)@ == env2 && final(out).deep_view() == out2
        }),
    decreases fuel, 0int,
{
    proof {
        lemma_exprs_model(es@, 0);
        lemma_objs_model(acc@, 0);
        crate::environment::lemma_objs_wf_index(
            objs_model(acc@, 0),
            0,
            old(env)@.len() as int,
        );
    }
    if fuel == 0 {
        return Err(Signal::OutOfFuel);
    }
    if k >= es.len() {
        return Ok(ListFlow::Vals(acc));
    }
    let v = match eval_expression(&es[k], h, env, out, fuel - 1) {
        Ok(v) => v,
        Err(s) => {
            return Err(s);
        },
    };
    if matches!(v, Object::Return(_)) {
        return Ok(ListFlow::Esc(v));
    }
    let ghost accm = objs_model(acc@, 0);
    let ghost vm = v@;
    let mut acc2 = acc;
    proof {
        lemma_objs_model(acc2@.push(v), 0);
        assert(objs_model(acc2@.push(v), 0) =~= accm.push(vm));
    }
    acc2.push(v);
    proof {
        crate::environment::lemma_objs_wf_index(accm, 0, env@.len() as int);
        assert forall|j: int| 0 <= j < accm.push(vm).len() implies obj_wf(
            #[trigger] accm.push(vm)[j],
            env@.len() as int,
        ) by {
            if j < accm.len() {
                lemma_obj_wf_mono(accm[j], old(env)@.len() as int, env@.len() as int);
            }
        }
        crate::environment::lemma_objs_wf_index(accm.push(vm), 0, env@.len() as int);
    }
    eval_expr_list(es, k + 1, acc2, h, env, out, fuel - 1)
}

fn eval_pair_list(
    ps: &Vec<(Expression, Expression)>,
    k: usize,
    acc: Vec<(String, Object)>,
    h: usize,
    env: &mut Environment,
    out: &mut Vec<String>,
    fuel: u64,
) -> (r: Result<HashFlow, Signal>)
    requires
        env_ok(old(env)@),
        h < old(env)@.len(),
        k <= ps@.len(),
        crate::environment::binding_vals_wf(hash_model(acc@, 0), 0, old(env)@.len() as int),
    ensures
        env_ok(final(env)@),
        old(env)@.len() <= final(env)@.len(),
        forall|i: int| 0 <= i < old(env)@.len() ==> final(env)@[i] == old(env)@[i],
        match r {
            Result::Ok(fl) => match hashflow_m(fl) {
                HashFlowModel::Pairs(items) => crate::environment::binding_vals_wf(
                    items,
                    0,
                    final(env)@.len() as int,
                ),
                HashFlowModel::Esc(v) => obj_wf(v, final(env)@.len() as int),
            },
            Result::Err(_) => true,
        },
        ({
            let (rs, env2, out2) = eval_pairs_m(
                pairs_model(ps@, 0),
                k as int,
                hash_model(acc@, 0),
                h as int,
                old(env)@,
                old(out).deep_view(),
                fuel as nat,
            );
            (match (r, rs) {
                (Result::Ok(fl), Result::Ok(flm)) => hashflow_m(fl) == flm,
                (Result::Err(s), Result::Err(sm)) => s@ == sm,
                _ => false,
            }) && final(env)@ == env2 && final(out).deep_view() == out2
        }),
    decreases fuel, 0int,
{
    proof {
        lemma_pairs_model(ps@, 0);
        lemma_hash_model(acc@, 0);
        lemma_binding_vals_wf_index(hash_model(acc@, 0), 0, old(env)@.len() as int);
    }
    if fuel == 0 {
        return Err(Signal::OutOfFuel);
    }
    if k >= ps.len() {
        return Ok(HashFlow::Pairs(acc));
    }
    let kv = match eval_expression(&ps[k].0, h, env, out, fuel - 1) {
        Ok(v) => v,
        Err(s) => {
            return Err(s);
        },
    };
    if matches!(kv, Object::Return(_)) {
        return Ok(HashFlow::Esc(kv));
    }
    let name = match kv {
        Object::Str(name) => name,
        other => {
            return Err(Signal::Fault(cannot_key_err(&other)));
        },
    };
    let vv = match eval_expression(&ps[k].1, h, env, out, fuel - 1) {
        Ok(v) => v,
        Err(s) => {
            return Err(s);
        },
    };
    if matches!(vv, Object::Return(_)) {
        return Ok(HashFlow::Esc(vv));
    }
    let ghost accm = hash_model(acc@, 0);
    let ghost nm = name@;
    let ghost vm = vv@;
    let acc2 = hash_put(acc, name, vv);
    proof {
        lemma_binding_vals_wf_index(accm, 0, old(env)@.len() as int);
        lemma_key_index_from(accm, 0, nm);
        assert forall|j: int| 0 <= j < bindings_set(accm, nm, vm).len() implies obj_wf(
            (#[trigger] bindings_set(accm, nm, vm)[j]).1,
            env@.len() as int,
        ) by {
            let updated = bindings_set(accm, nm, vm);
            if updated[j].1 == vm {
            } else {
                assert(updated[j].1 == accm[j].1);
                lemma_obj_wf_mono(accm[j].1, old(env)@.len() as int, env@.len() as int);
            }
        }
        lemma_binding_vals_wf_index(bindings_set(accm, nm, vm), 0, env@.len() as int);
    }
    eval_pair_list(ps, k + 1, acc2, h, env, out, fuel - 1)
}

/// Insert-or-overwrite into a hash's entry list: the first entry with the
/// key is replaced in place, or a new entry is appended.
fn hash_put(acc: Vec<(String, Object)>, name: String, v: Object) -> (r: Vec<(String, Object)>)
    ensures
        hash_model(r@, 0) == bindings_set(hash_model(acc@, 0), name@, v@),
{
    let ghost accm = hash_model(acc@, 0);
    let mut acc2 = acc;
    proof {
        lemma_hash_model(acc2@, 0);
        lemma_key_index_from(accm, 0, name@);
    }
    match crate::ops::find_hash_key(&acc2, name.as_str()) {
        Some(i) => {
            let ghost before = acc2@;
            acc2[i] = (name, v);
            proof {
                lemma_hash_model(before, 0);
                lemma_hash_model(acc2@, 0);
                assert(hash_model(acc2@, 0) =~= bindings_set(accm, before[i as int].0@, v@));
                assert(accm[i as int].0 == before[i as int].0@);
            }
        },
        None => {
            let ghost before = acc2@;
            acc2.push((name, v));
            proof {
                lemma_hash_model(before, 0);
                lemma_hash_model(acc2@, 0);
                assert(hash_model(acc2@, 0) =~= bindings_set(accm, acc2@[acc2@.len() - 1].0@, v@));
            }
        },
    }
    acc2
}

/// Evaluates one statement in frame `h`. Only frame `h` can gain or change
/// bindings; every other pre-existing frame is untouched, and the frame's
/// parent link never changes.
pub fn eval_statement(
    s: &Statement,
    h: usize,
    env: &mut Environment,
    out: &mut Vec<String>,
    fuel: u64,
) -> (r: Result<Object, Signal>)
    requires
        env_ok(old(env)@),
        h < old(env)@.len(),
    ensures
        env_ok(final(env)@),
        old(env)@.len() <= final(env)@.len(),
        forall|i: int|
            0 <= i < old(env)@.len() && i != h as int ==> final(env)@[i] == old(env)@[i],
        final(env)@[h as int].parent == old(env)@[h as int].parent,
        match r {
            Result::Ok(v) => obj_wf(v@, final(env)@.len() as int),
            Result::Err(_) => true,
        },
        ({
            let (rs, env2, out2) = eval_stmt_m(
                s@,
                h as int,
                old(env)@,
                old(out).deep_view(),
                fuel as nat,
            );
            res_m(r) == rs && final(env)@ == env2 && final(out).deep_view() == out2
        }),
    decreases fuel, 1int,
{
    if fuel == 0 {
        return Err(Signal::OutOfFuel);
    }
    match s {
        Statement::Let(n, e) => eval_binding(n, e, h, env, out, fuel),
        Statement::Mut(n, e) => eval_binding(n, e, h, env, out, fuel),
        Statement::Return(e) => {
            let v = match eval_expression(e, h, env, out, fuel - 1) {
                Ok(v) => v,
                Err(s2) => {
                    return Err(s2);
                },
            };
            if matches!(v, Object::Return(_)) {
                Ok(v)
            } else {
                Ok(Object::Return(Box::new(v)))
            }
        },
        Statement::Expression(e) => eval_expression(e, h, env, out, fuel - 1),
    }
}

fn eval_binding(
    n: &String,
    e: &Expression,
    h: usize,
    env: &mut Environment,
    out: &mut Vec<String>,
    fuel: u64,
) -> (r: Result<Object, Signal>)
    requires
        env_ok(old(env)@),
        h < old(env)@.len(),
        fuel >= 1,
    ensures
        env_ok(final(env)@),
        old(env)@.len() <= final(env)@.len(),
        forall|i: int|
            0 <= i < old(env)@.len() && i != h as int ==> final(env)@[i] == old(env)@[i],
        final(env)@[h as int].parent == old(env)@[h as int].parent,
        match r {
            Result::Ok(v) => obj_wf(v@, final(env)@.len() as int),
            Result::Err(_) => true,
        },
        ({
            let (rs, env2, out2) = eval_bind_m(
                n@,
                e@,
                h as int,
                old(env)@,
                old(out).deep_view(),
                fuel as nat,
            );
            res_m(r) == rs && final(env)@ == env2 && final(out).deep_view() == out2
        }),
    decreases fuel, 0int,
{
    let v = match eval_expression(e, h, env, out, fuel - 1) {
        Ok(v) => v,
        Err(s) => {
            return Err(s);
        },
    };
    if matches!(v, Object::Return(_)) {
        return Ok(v);
    }
    let stored = v.clone();
    proof {
        lemma_set_ok(env@, h as int, n@, stored@);
    }
    env.set(h, n.as_str(), stored);
    Ok(v)
}

#[verifier::rlimit(60)]
fn eval_block_stmts(
    ss: &Vec<Statement>,
    k: usize,
    last: Object,
    h: usize,
    env: &mut Environment,
    out: &mut Vec<String>,
    fuel: u64,
) -> (r: Result<Object, Signal>)
    requires
        env_ok(old(env)@),
        h < old(env)@.len(),
        k <= ss@.len(),
        obj_wf(last@, old(env)@.len() as int),
    ensures
        env_ok(final(env)@),
        old(env)@.len() <= final(env)@.len(),
        forall|i: int|
            0 <= i < old(env)@.len() && i != h as int ==> final(env)@[i] == old(env)@[i],
        final(env)@[h as int].parent == old(env)@[h as int].parent,
        match r {
            Result::Ok(v) => obj_wf(v@, final(env)@.len() as int),
            Result::Err(_) => true,
        },
        ({
            let (rs, env2, out2) = eval_stmts_m(
                stmts_model(ss@, 0),
                k as int,
                last@,
                h as int,
                old(env)@,
                old(out).deep_view(),
                fuel as nat,
            );
            res_m(r) == rs && final(env)@ == env2 && final(out).deep_view() == out2
        }),
    decreases fuel, 0int,
{
    proof {
        lemma_stmts_model(ss@, 0);
    }
    if fuel == 0 {
        return Err(Signal::OutOfFuel);
    }
    if k >= ss.len() {
        return Ok(last);
    }
    let v = match eval_statement(&ss[k], h, env, out, fuel - 1) {
        Ok(v) => v,
        Err(s) => {
            return Err(s);
        },
    };
    if matches!(v, Object::Return(_)) {
        return Ok(v);
    }
    eval_block_stmts(ss, k + 1, v, h, env, out, fuel - 1)
}

#[verifier::rlimit(60)]
fn eval_program_stmts(
    ss: &Vec<Statement>,
    k: usize,
    last: Object,
    h: usize,
    env: &mut Environment,
    out: &mut Vec<String>,
    fuel: u64,
) -> (r: Result<Object, Signal>)
    requires
        env_ok(old(env)@),
        h < old(env)@.len(),
        k <= ss@.len(),
        obj_wf(last@, old(env)@.len() as int),
    ensures
        env_ok(final(env)@),
        old(env)@.len() <= final(env)@.len(),
        forall|i: int|
            0 <= i < old(env)@.len() && i != h as int ==> final(env)@[i] == old(env)@[i],
        final(env)@[h as int].parent == old(env)@[h as int].parent,
        match r {
            Result::Ok(v) => obj_wf(v@, final(env)@.len() as int),
            Result::Err(_) => true,
        },
        ({
            let (rs, env2, out2) = eval_program_m(
                stmts_model(ss@, 0),
                k as int,
                last@,
                h as int,
                old(env)@,
                old(out).deep_view(),
                fuel as nat,
            );
            res_m(r) == rs && final(env)@ == env2 && final(out).deep_view() == out2
        }),
    decreases fuel, 0int,
{
    proof {
        lemma_stmts_model(ss@, 0);
    }
    if fuel == 0 {
        return Err(Signal::OutOfFuel);
    }
    if k >= ss.len() {
        return Ok(last);
    }
    let v = match eval_statement(&ss[k], h, env, out, fuel - 1) {
        Ok(v) => v,
        Err(s) => {
            return Err(s);
        },
    };
    match v {
        Object::Return(inner) => Ok(*inner),
        other => eval_program_stmts(ss, k + 1, other, h, env, out, fuel - 1),
    }
}

/// Evaluates a program's statements in order against frame `h`. A `Return`
/// from a top-level statement ends the run at once and its payload is the
/// result; otherwise the result is the last statement's value, null for an
/// empty program.
pub fn evaluate(
    program: &Program,
    env: &mut Environment,
    h: usize,
    out: &mut Vec<String>,
    fuel: u64,
) -> (r: Result<Object, Signal>)
    requires
        env_ok(old(env)@),
        h < old(env)@.len(),
    ensures
        env_ok(final(env)@),
        old(env)@.len() <= final(env)@.len(),
        forall|i: int|
            0 <= i < old(env)@.len() && i != h as int ==> final(env)@[i] == old(env)@[i],
        final(env)@[h as int].parent == old(env)@[h as int].parent,
        ({
            let (rs, env2, out2) = eval_program_m(
                program@,
                0,
                ObjModel::Null,
                h as int,
                old(env)@,
                old(out).deep_view(),
                fuel as nat,
            );
            res_m(r) == rs && final(env)@ == env2 && final(out).deep_view() == out2
        }),
{
    eval_program_stmts(&program.statements, 0, Object::Null, h, env, out, fuel)
}

/// The single embedding point: lexes and parses the source, then evaluates
/// the program against frame `h`, appending anything written onto `out`.
pub fn evaluate_source(
    source: &str,
    env: &mut Environment,
    h: usize,
    out: &mut Vec<String>,
    fuel: u64,
) -> (r: Result<Object, Signal>)
    requires
        env_ok(old(env)@),
        h < old(env)@.len(),
    ensures
        env_ok(final(env)@),
        old(env)@.len() <= final(env)@.len(),
        forall|i: int|
            0 <= i < old(env)@.len() && i != h as int ==> final(env)@[i] == old(env)@[i],
        ({
            let (rs, env2, out2) = evaluate_source_m(
                source@,
                h as int,
                old(env)@,
                old(out).deep_view(),
                fuel as nat,
            );
            res_m(r) == rs && final(env)@ == env2 && final(out).deep_view() == out2
        }),
{
    let mut lexer = Lexer::new(source.to_owned());
    let tokens = match lexer.lex() {
        Ok(ts) => ts,
        Err(e) => {
            return Err(Signal::Fault(e));
        },
    };
    let mut parser = Parser::new(tokens);
    let program = match parser.parse_program() {
        Ok(p) => p,
        Err(e) => {
            return Err(Signal::Fault(e));
        },
    };
    evaluate(&program, env, h, out, fuel)
}

} // verus!

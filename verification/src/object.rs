//! Runtime values and their mathematical model: a closed tagged union with
//! structural equality on the primitive kinds, value truthiness, and a
//! deterministic rendering.

use crate::ast::{expr_model, ExprModel, Expression};
use crate::floatbits::{f64_eq, f64_eq_bits, f64_render, f64_text};
use crate::text::{int_text, render_i64};
use crate::token::str_eq;
use std::rc::Rc;
use vstd::prelude::*;
use vstd::string::StringExecFns;

verus! {

/// One of the fixed set of native callables pre-bound into a root
/// environment.
#[derive(Debug, Clone, Copy, PartialEq, Eq, Structural)]
pub enum Builtin {
    Len,
    First,
    Rest,
    Append,
    Exit,
    Write,
}

/// A runtime value. `Return` is an internal control wrapper and never
/// user-visible; `Function` carries its parameter names, its body, and a
/// handle to the environment frame captured at its definition site.
#[derive(Debug)]
pub enum Object {
    Null,
    Boolean(bool),
    Integer(i64),
    Float(u64),
    Str(String),
    Range(i64, i64),
    Array(Vec<Object>),
    Hash(Vec<(String, Object)>),
    Return(Box<Object>),
    Function(Vec<String>, Rc<Expression>, usize),
    Builtin(Builtin),
}

/// Ghost model of a runtime value.
pub enum ObjModel {
    Null,
    Boolean(bool),
    Integer(i64),
    Float(u64),
    Str(Seq<char>),
    Range(i64, i64),
    Array(Seq<ObjModel>),
    Hash(Seq<(Seq<char>, ObjModel)>),
    Return(Box<ObjModel>),
    Function(Seq<Seq<char>>, ExprModel, int),
    Builtin(Builtin),
}

pub open spec fn obj_model(o: Object) -> ObjModel
    decreases o,
{
    match o {
        Object::Null => ObjModel::Null,
        Object::Boolean(b) => ObjModel::Boolean(b),
        Object::Integer(i) => ObjModel::Integer(i),
        Object::Float(b) => ObjModel::Float(b),
        Object::Str(s) => ObjModel::Str(s@),
        Object::Range(f, t) => ObjModel::Range(f, t),
        Object::Array(vs) => ObjModel::Array(objs_model(vs@, 0)),
        Object::Hash(ps) => ObjModel::Hash(hash_model(ps@, 0)),
        Object::Return(v) => ObjModel::Return(Box::new(obj_model(*v))),
        Object::Function(ps, body, h) => ObjModel::Function(
            ps.deep_view(),
            expr_model(*body),
            h as int,
        ),
        Object::Builtin(b) => ObjModel::Builtin(b),
    }
}

pub open spec fn objs_model(vs: Seq<Object>, i: int) -> Seq<ObjModel>
    decreases vs, vs.len() - i,
{
    if i < 0 || i >= vs.len() {
        Seq::empty()
    } else {
        seq![obj_model(vs[i])] + objs_model(vs, i + 1)
    }
}

pub open spec fn hash_model(ps: Seq<(String, Object)>, i: int) -> Seq<(Seq<char>, ObjModel)>
    decreases ps, ps.len() - i,
{
    if i < 0 || i >= ps.len() {
        Seq::empty()
    } else {
        seq![(ps[i].0@, obj_model(ps[i].1))] + hash_model(ps, i + 1)
    }
}

impl View for Object {
    type V = ObjModel;

    open spec fn view(&self) -> ObjModel {
        obj_model(*self)
    }
}

/// The model of a suffix of a value list is the list of the values'
/// models.
pub proof fn lemma_objs_model(vs: Seq<Object>, i: int)
    requires
        0 <= i <= vs.len(),
    ensures
        objs_model(vs, i).len() == vs.len() - i,
        forall|k: int| 0 <= k < vs.len() - i ==> objs_model(vs, i)[k] == obj_model(vs[i + k]),
    decreases vs.len() - i,
{
    if i < vs.len() {
        lemma_objs_model(vs, i + 1);
    }
}

/// The model of a suffix of a key/value list is the list of its entries'
/// models.
pub proof fn lemma_hash_model(ps: Seq<(String, Object)>, i: int)
    requires
        0 <= i <= ps.len(),
    ensures
        hash_model(ps, i).len() == ps.len() - i,
        forall|k: int|
            0 <= k < ps.len() - i ==> hash_model(ps, i)[k] == (
            ps[i + k].0@,
            obj_model(ps[i + k].1),
            ),
    decreases ps.len() - i,
{
    if i < ps.len() {
        lemma_hash_model(ps, i + 1);
    }
}

pub(crate) fn clone_objects(vs: &Vec<Object>) -> (r: Vec<Object>)
    ensures
        objs_model(r@, 0) == objs_model(vs@, 0),
    decreases vs@,
{
    let mut r: Vec<Object> = Vec::new();
    let mut k: usize = 0;
    while k < vs.len()
        invariant
            k <= vs.len(),
            r@.len() == k,
            forall|j: int| 0 <= j < k ==> obj_model(r@[j]) == obj_model(vs@[j]),
        decreases vs.len() - k,
    {
        r.push(vs[k].clone());
        k += 1;
    }
    proof {
        lemma_objs_model(r@, 0);
        lemma_objs_model(vs@, 0);
        assert(objs_model(r@, 0) =~= objs_model(vs@, 0));
    }
    r
}

pub(crate) fn clone_hash(ps: &Vec<(String, Object)>) -> (r: Vec<(String, Object)>)
    ensures
        hash_model(r@, 0) == hash_model(ps@, 0),
    decreases ps@,
{
    let mut r: Vec<(String, Object)> = Vec::new();
    let mut k: usize = 0;
    while k < ps.len()
        invariant
            k <= ps.len(),
            r@.len() == k,
            forall|j: int|
                0 <= j < k ==> r@[j].0@ == ps@[j].0@ && obj_model(r@[j].1) == obj_model(
                    ps@[j].1,
                ),
        decreases ps.len() - k,
    {
        let name = ps[k].0.clone();
        let value = ps[k].1.clone();
        r.push((name, value));
        k += 1;
    }
    proof {
        lemma_hash_model(r@, 0);
        lemma_hash_model(ps@, 0);
        assert(hash_model(r@, 0) =~= hash_model(ps@, 0));
    }
    r
}

impl Clone for Object {
    /// A deep copy whose model is the model of the original.
    fn clone(&self) -> (r: Object)
        ensures
            r@ == self@,
        decreases self,
    {
        match self {
            Object::Null => Object::Null,
            Object::Boolean(b) => Object::Boolean(*b),
            Object::Integer(i) => Object::Integer(*i),
            Object::Float(b) => Object::Float(*b),
            Object::Str(s) => Object::Str(s.clone()),
            Object::Range(f, t) => Object::Range(*f, *t),
            Object::Array(vs) => Object::Array(clone_objects(vs)),
            Object::Hash(ps) => Object::Hash(clone_hash(ps)),
            Object::Return(v) => Object::Return(Box::new((**v).clone())),
            Object::Function(ps, body, h) => Object::Function(
                crate::ast::clone_strings(ps),
                crate::ast::rc_dup(body),
                *h,
            ),
            Object::Builtin(b) => Object::Builtin(*b),
        }
    }
}

/// Structural equality of two values: defined for the null, boolean,
/// integer, float and string kinds; every other pairing is unequal.
/// Floats compare by IEEE-754 equality, so kinds never coerce.
pub open spec fn obj_equal(a: ObjModel, b: ObjModel) -> bool {
    match (a, b) {
        (ObjModel::Null, ObjModel::Null) => true,
        (ObjModel::Boolean(x), ObjModel::Boolean(y)) => x == y,
        (ObjModel::Integer(x), ObjModel::Integer(y)) => x == y,
        (ObjModel::Float(x), ObjModel::Float(y)) => f64_eq(x, y),
        (ObjModel::Str(x), ObjModel::Str(y)) => x == y,
        _ => false,
    }
}

/// Truthiness: null and false are falsy; every other value, including
/// zero, the empty string and the empty array, is truthy.
pub open spec fn obj_truthy(o: ObjModel) -> bool {
    match o {
        ObjModel::Null => false,
        ObjModel::Boolean(b) => b,
        _ => true,
    }
}

impl Object {
    /// Executable structural equality; see `obj_equal`.
    pub fn equal(&self, other: &Object) -> (r: bool)
        ensures
            r == obj_equal(self@, other@),
    {
        match (self, other) {
            (Object::Null, Object::Null) => true,
            (Object::Boolean(x), Object::Boolean(y)) => *x == *y,
            (Object::Integer(x), Object::Integer(y)) => *x == *y,
            (Object::Float(x), Object::Float(y)) => f64_eq_bits(*x, *y),
            (Object::Str(x), Object::Str(y)) => str_eq(x.as_str(), y.as_str()),
            _ => false,
        }
    }

    /// Executable truthiness; see `obj_truthy`.
    pub fn is_truthy(&self) -> (r: bool)
        ensures
            r == obj_truthy(self@),
    {
        match self {
            Object::Null => false,
            Object::Boolean(b) => *b,
            _ => true,
        }
    }
}

/// The rendering of a value, as the `write` builtin and error messages
/// show it.
pub open spec fn obj_text(o: ObjModel) -> Seq<char>
    decreases o,
{
    match o {
        ObjModel::Null => "null"@,
        ObjModel::Boolean(b) => if b {
            "true"@
        } else {
            "false"@
        },
        ObjModel::Integer(i) => int_text(i as int),
        ObjModel::Float(b) => f64_text(b),
        ObjModel::Str(s) => s,
        ObjModel::Range(f, t) => int_text(f as int) + ".."@ + int_text(t as int),
        ObjModel::Array(vs) => "["@ + objs_text(vs, 0) + "]"@,
        ObjModel::Hash(ps) => "{"@ + hash_text(ps, 0) + "}"@,
        ObjModel::Return(v) => obj_text(*v),
        ObjModel::Function(ps, _, _) => "<function("@ + names_text(ps, 0) + ")>"@,
        ObjModel::Builtin(_) => "<builtin function>"@,
    }
}

pub open spec fn objs_text(vs: Seq<ObjModel>, i: int) -> Seq<char>
    decreases vs, vs.len() - i,
{
    if i < 0 || i >= vs.len() {
        Seq::empty()
    } else if i == vs.len() - 1 {
        obj_text(vs[i])
    } else {
        obj_text(vs[i]) + ", "@ + objs_text(vs, i + 1)
    }
}

pub open spec fn hash_text(ps: Seq<(Seq<char>, ObjModel)>, i: int) -> Seq<char>
    decreases ps, ps.len() - i,
{
    if i < 0 || i >= ps.len() {
        Seq::empty()
    } else if i == ps.len() - 1 {
        ps[i].0 + ": "@ + obj_text(ps[i].1)
    } else {
        ps[i].0 + ": "@ + obj_text(ps[i].1) + ", "@ + hash_text(ps, i + 1)
    }
}

pub open spec fn names_text(ns: Seq<Seq<char>>, i: int) -> Seq<char>
    decreases ns.len() - i,
{
    if i < 0 || i >= ns.len() {
        Seq::empty()
    } else if i == ns.len() - 1 {
        ns[i]
    } else {
        ns[i] + ", "@ + names_text(ns, i + 1)
    }
}

fn render_objects(vs: &Vec<Object>, k: usize) -> (r: String)
    requires
        k <= vs@.len(),
    ensures
        r@ == objs_text(objs_model(vs@, 0), k as int),
    decreases vs@, vs@.len() - k,
{
    proof {
        lemma_objs_model(vs@, 0);
    }
    if k >= vs.len() {
        let s = String::new();
        proof {
            assert(s@ =~= objs_text(objs_model(vs@, 0), k as int));
        }
        s
    } else if k == vs.len() - 1 {
        render_object(&vs[k])
    } else {
        let mut s = render_object(&vs[k]);
        s.append(", ");
        let rest = render_objects(vs, k + 1);
        s.append(rest.as_str());
        proof {
            assert(s@ =~= objs_text(objs_model(vs@, 0), k as int));
        }
        s
    }
}

fn render_hash(ps: &Vec<(String, Object)>, k: usize) -> (r: String)
    requires
        k <= ps@.len(),
    ensures
        r@ == hash_text(hash_model(ps@, 0), k as int),
    decreases ps@, ps@.len() - k,
{
    proof {
        lemma_hash_model(ps@, 0);
    }
    if k >= ps.len() {
        let s = String::new();
        proof {
            assert(s@ =~= hash_text(hash_model(ps@, 0), k as int));
        }
        s
    } else {
        let mut s = ps[k].0.clone();
        s.append(": ");
        let v = render_object(&ps[k].1);
        s.append(v.as_str());
        if k == ps.len() - 1 {
            proof {
                assert(s@ =~= hash_text(hash_model(ps@, 0), k as int));
            }
            s
        } else {
            s.append(", ");
            let rest = render_hash(ps, k + 1);
            s.append(rest.as_str());
            proof {
                assert(s@ =~= hash_text(hash_model(ps@, 0), k as int));
            }
            s
        }
    }
}

fn render_names(ns: &Vec<String>, k: usize) -> (r: String)
    requires
        k <= ns@.len(),
    ensures
        r@ == names_text(ns.deep_view(), k as int),
    decreases ns@.len() - k,
{
    if k >= ns.len() {
        let s = String::new();
        proof {
            assert(s@ =~= names_text(ns.deep_view(), k as int));
        }
        s
    } else if k == ns.len() - 1 {
        ns[k].clone()
    } else {
        let mut s = ns[k].clone();
        s.append(", ");
        let rest = render_names(ns, k + 1);
        s.append(rest.as_str());
        proof {
            assert(s@ =~= names_text(ns.deep_view(), k as int));
        }
        s
    }
}

/// Renders a value: arrays as `[v, v]`, hashes as `{k: v}`, strings
/// unquoted, ranges as `from..to`, functions as an opaque placeholder.
pub fn render_object(o: &Object) -> (r: String)
    ensures
        r@ == obj_text(o@),
    decreases o,
{
    match o {
        Object::Null => "null".to_owned(),
        Object::Boolean(b) => if *b {
            "true".to_owned()
        } else {
            "false".to_owned()
        },
        Object::Integer(i) => render_i64(*i),
        Object::Float(b) => f64_render(*b),
        Object::Str(s) => s.clone(),
        Object::Range(f, t) => {
            let mut s = render_i64(*f);
            s.append("..");
            let rest = render_i64(*t);
            s.append(rest.as_str());
            proof {
                assert(s@ =~= obj_text(o@));
            }
            s
        },
        Object::Array(vs) => {
            let mut s = "[".to_owned();
            let body = render_objects(vs, 0);
            s.append(body.as_str());
            s.append("]");
            proof {
                assert(s@ =~= obj_text(o@));
            }
            s
        },
        Object::Hash(ps) => {
            let mut s = "{".to_owned();
            let body = render_hash(ps, 0);
            s.append(body.as_str());
            s.append("}");
            proof {
                assert(s@ =~= obj_text(o@));
            }
            s
        },
        Object::Return(v) => render_object(v),
        Object::Function(ps, _, _) => {
            let mut s = "<function(".to_owned();
            let body = render_names(ps, 0);
            s.append(body.as_str());
            s.append(")>");
            proof {
                assert(s@ =~= obj_text(o@));
            }
            s
        },
        Object::Builtin(_) => "<builtin function>".to_owned(),
    }
}

} // verus!

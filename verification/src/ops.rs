//! Operator semantics: dispatch on the operator and the concrete kinds of
//! both operands, with no implicit coercion. Integer arithmetic wraps at
//! 64 bits except division, where a zero divisor is a runtime error;
//! float arithmetic follows IEEE-754 through the bit-pattern model.

use crate::environment::bindings_lookup;
use crate::floatbits::{
    f64_add, f64_add_bits, f64_div, f64_div_bits, f64_le, f64_le_bits, f64_lt,
    f64_lt_bits, f64_mul, f64_mul_bits, f64_neg, f64_neg_bits, f64_sub, f64_sub_bits,
};
use crate::object::{
    lemma_objs_model, obj_equal, obj_model, obj_text, obj_truthy, objs_model, render_object, ObjModel,
    Object,
};
use crate::text::{int_text, render_i64};
use crate::token::{render_token, token_text, Token, TokenModel};
use crate::Error;
use vstd::prelude::*;
use vstd::string::StringExecFns;

verus! {

pub open spec fn not_defined_text(n: Seq<char>) -> Seq<char> {
    "Name '"@ + n + "' is not defined"@
}

pub open spec fn prefix_undef_text(op: TokenModel, v: ObjModel) -> Seq<char> {
    "Operator '"@ + token_text(op) + "' is not defined for '"@ + obj_text(v) + "'"@
}

pub open spec fn infix_undef_text(op: TokenModel, l: ObjModel, r: ObjModel) -> Seq<char> {
    "Operator '"@ + token_text(op) + "' is not defined for '"@ + obj_text(l) + "' and '"@
        + obj_text(r) + "'"@
}

pub open spec fn div_zero_text() -> Seq<char> {
    "Division by zero"@
}

pub open spec fn index_invalid_text(i: int) -> Seq<char> {
    "Index '"@ + int_text(i) + "' not valid"@
}

pub open spec fn range_invalid_text(f: int, t: int) -> Seq<char> {
    "Index '"@ + int_text(f) + ".."@ + int_text(t) + "' not valid"@
}

pub open spec fn key_invalid_text(k: Seq<char>) -> Seq<char> {
    "Key '"@ + k + "' not valid"@
}

pub open spec fn not_indexable_text(o: ObjModel, i: ObjModel) -> Seq<char> {
    "Object '"@ + obj_text(o) + "' is not indexable with '"@ + obj_text(i) + "'"@
}

pub open spec fn cannot_key_text(o: ObjModel) -> Seq<char> {
    "Can not use '"@ + obj_text(o) + "' as a key"@
}

pub open spec fn not_callable_text(o: ObjModel) -> Seq<char> {
    "Object '"@ + obj_text(o) + "' is not callable"@
}

pub open spec fn arity_text(expected: nat, got: nat) -> Seq<char> {
    "Expected "@ + int_text(expected as int) + " argument(s), got "@ + int_text(got as int)
}

/// 64-bit truncated division, wrapping on the one overflowing case.
pub open spec fn trunc_div_i64(a: i64, b: i64) -> i64
    recommends
        b != 0,
{
    let x = a as int;
    let d = b as int;
    let q = if x == 0 {
        0int
    } else if x > 0 && d > 0 {
        x / d
    } else if x < 0 && d < 0 {
        (x * -1) / (d * -1)
    } else if x < 0 {
        ((x * -1) / d) * -1
    } else {
        (x / (d * -1)) * -1
    };
    if q > i64::MAX as int {
        i64::MIN
    } else {
        q as i64
    }
}

/// A prefix operator applied to one value: minus negates a number, bang
/// inverts a boolean, and nothing else is defined.
pub open spec fn prefix_op_m(op: TokenModel, v: ObjModel) -> Result<ObjModel, Seq<char>> {
    match (op, v) {
        (TokenModel::Minus, ObjModel::Integer(x)) => Result::Ok(
            ObjModel::Integer(vstd::wrapping::i64_specs::wrapping_sub(0, x)),
        ),
        (TokenModel::Minus, ObjModel::Float(b)) => Result::Ok(ObjModel::Float(f64_neg(b))),
        (TokenModel::Bang, ObjModel::Boolean(b)) => Result::Ok(ObjModel::Boolean(!b)),
        (op2, v2) => Result::Err(prefix_undef_text(op2, v2)),
    }
}

/// An infix operator applied to two values. Arithmetic pairs two integers
/// or two floats; plus also concatenates two strings; the spread of two
/// integers builds a range; ampersand and pipe are bitwise on integers;
/// equality uses structural equality on any pair; the doubled logical
/// operators combine the truthiness of both sides.
pub open spec fn infix_op_m(l: ObjModel, op: TokenModel, r: ObjModel) -> Result<
    ObjModel,
    Seq<char>,
> {
    match (l, op, r) {
        (ObjModel::Integer(a), TokenModel::Spread, ObjModel::Integer(b)) => Result::Ok(
            ObjModel::Range(a, b),
        ),
        (ObjModel::Integer(a), TokenModel::Plus, ObjModel::Integer(b)) => Result::Ok(
            ObjModel::Integer(vstd::wrapping::i64_specs::wrapping_add(a, b)),
        ),
        (ObjModel::Float(a), TokenModel::Plus, ObjModel::Float(b)) => Result::Ok(
            ObjModel::Float(f64_add(a, b)),
        ),
        (ObjModel::Str(a), TokenModel::Plus, ObjModel::Str(b)) => Result::Ok(
            ObjModel::Str(a + b),
        ),
        (ObjModel::Integer(a), TokenModel::Minus, ObjModel::Integer(b)) => Result::Ok(
            ObjModel::Integer(vstd::wrapping::i64_specs::wrapping_sub(a, b)),
        ),
        (ObjModel::Float(a), TokenModel::Minus, ObjModel::Float(b)) => Result::Ok(
            ObjModel::Float(f64_sub(a, b)),
        ),
        (ObjModel::Integer(a), TokenModel::Asterisk, ObjModel::Integer(b)) => Result::Ok(
            ObjModel::Integer(vstd::wrapping::i64_specs::wrapping_mul(a, b)),
        ),
        (ObjModel::Float(a), TokenModel::Asterisk, ObjModel::Float(b)) => Result::Ok(
            ObjModel::Float(f64_mul(a, b)),
        ),
        (ObjModel::Integer(a), TokenModel::Slash, ObjModel::Integer(b)) => if b == 0 {
            Result::Err(div_zero_text())
        } else {
            Result::Ok(ObjModel::Integer(trunc_div_i64(a, b)))
        },
        (ObjModel::Float(a), TokenModel::Slash, ObjModel::Float(b)) => Result::Ok(
            ObjModel::Float(f64_div(a, b)),
        ),
        (ObjModel::Integer(a), TokenModel::Lesser, ObjModel::Integer(b)) => Result::Ok(
            ObjModel::Boolean(a < b),
        ),
        (ObjModel::Float(a), TokenModel::Lesser, ObjModel::Float(b)) => Result::Ok(
            ObjModel::Boolean(f64_lt(a, b)),
        ),
        (ObjModel::Integer(a), TokenModel::LesserOrEqual, ObjModel::Integer(b)) => Result::Ok(
            ObjModel::Boolean(a <= b),
        ),
        (ObjModel::Float(a), TokenModel::LesserOrEqual, ObjModel::Float(b)) => Result::Ok(
            ObjModel::Boolean(f64_le(a, b)),
        ),
        (ObjModel::Integer(a), TokenModel::Greater, ObjModel::Integer(b)) => Result::Ok(
            ObjModel::Boolean(a > b),
        ),
        (ObjModel::Float(a), TokenModel::Greater, ObjModel::Float(b)) => Result::Ok(
            ObjModel::Boolean(f64_lt(b, a)),
        ),
        (ObjModel::Integer(a), TokenModel::GreaterOrEqual, ObjModel::Integer(b)) => Result::Ok(
            ObjModel::Boolean(a >= b),
        ),
        (ObjModel::Float(a), TokenModel::GreaterOrEqual, ObjModel::Float(b)) => Result::Ok(
            ObjModel::Boolean(f64_le(b, a)),
        ),
        (ObjModel::Integer(a), TokenModel::Ampersand, ObjModel::Integer(b)) => Result::Ok(
            ObjModel::Integer(a & b),
        ),
        (ObjModel::Integer(a), TokenModel::Pipe, ObjModel::Integer(b)) => Result::Ok(
            ObjModel::Integer(a | b),
        ),
        (l2, TokenModel::Equal, r2) => Result::Ok(ObjModel::Boolean(obj_equal(l2, r2))),
        (l2, TokenModel::NotEqual, r2) => Result::Ok(ObjModel::Boolean(!obj_equal(l2, r2))),
        (l2, TokenModel::AmpersandAmpersand, r2) => Result::Ok(
            ObjModel::Boolean(obj_truthy(l2) && obj_truthy(r2)),
        ),
        (l2, TokenModel::PipePipe, r2) => Result::Ok(
            ObjModel::Boolean(obj_truthy(l2) || obj_truthy(r2)),
        ),
        (l2, op2, r2) => Result::Err(infix_undef_text(op2, l2, r2)),
    }
}

/// Indexing: an array by an in-range integer position, an array by an
/// in-range half-open integer range, a hash by a present string key;
/// everything else is an error naming both values.
pub open spec fn index_op_m(t: ObjModel, ix: ObjModel) -> Result<ObjModel, Seq<char>> {
    match (t, ix) {
        (ObjModel::Array(vs), ObjModel::Integer(i)) => if 0 <= i < vs.len() {
            Result::Ok(vs[i as int])
        } else {
            Result::Err(index_invalid_text(i as int))
        },
        (ObjModel::Array(vs), ObjModel::Range(f, t2)) => if 0 <= f <= t2 <= vs.len() {
            Result::Ok(ObjModel::Array(vs.subrange(f as int, t2 as int)))
        } else {
            Result::Err(range_invalid_text(f as int, t2 as int))
        },
        (ObjModel::Hash(ps), ObjModel::Str(k)) => match bindings_lookup(ps, k) {
            Option::Some(v) => Result::Ok(v),
            Option::None => Result::Err(key_invalid_text(k)),
        },
        (t2, ix2) => Result::Err(not_indexable_text(t2, ix2)),
    }
}

pub(crate) fn prefix_undef_err(op: &Token, v: &Object) -> (e: Error)
    ensures
        e@ == crate::ErrorModel::Runtime(prefix_undef_text(op@, v@)),
{
    let mut m = "Operator '".to_owned();
    let shown = render_token(op);
    m.append(shown.as_str());
    m.append("' is not defined for '");
    let rendered = render_object(v);
    m.append(rendered.as_str());
    m.append("'");
    proof {
        assert(m@ =~= prefix_undef_text(op@, v@));
    }
    Error::Runtime(m)
}

pub(crate) fn infix_undef_err(op: &Token, l: &Object, r: &Object) -> (e: Error)
    ensures
        e@ == crate::ErrorModel::Runtime(infix_undef_text(op@, l@, r@)),
{
    let mut m = "Operator '".to_owned();
    let shown = render_token(op);
    m.append(shown.as_str());
    m.append("' is not defined for '");
    let left = render_object(l);
    m.append(left.as_str());
    m.append("' and '");
    let right = render_object(r);
    m.append(right.as_str());
    m.append("'");
    proof {
        assert(m@ =~= infix_undef_text(op@, l@, r@));
    }
    Error::Runtime(m)
}

/// The executable twin of `prefix_op_m`.
pub fn eval_prefix_op(op: &Token, v: &Object) -> (r: Result<Object, Error>)
    ensures
        ({
            match (r, prefix_op_m(op@, v@)) {
                (Result::Ok(o), Result::Ok(om)) => o@ == om,
                (Result::Err(Error::Runtime(m)), Result::Err(mm)) => m@ == mm,
                _ => false,
            }
        }),
{
    match (op, v) {
        (Token::Minus, Object::Integer(x)) => Ok(Object::Integer(0i64.wrapping_sub(*x))),
        (Token::Minus, Object::Float(b)) => Ok(Object::Float(f64_neg_bits(*b))),
        (Token::Bang, Object::Boolean(b)) => Ok(Object::Boolean(!*b)),
        (op2, v2) => Err(prefix_undef_err(op2, v2)),
    }
}

/// The executable twin of `infix_op_m`.
#[verifier::rlimit(100)]
pub fn eval_infix_op(l: &Object, op: &Token, r: &Object) -> (res: Result<Object, Error>)
    ensures
        ({
            match (res, infix_op_m(l@, op@, r@)) {
                (Result::Ok(o), Result::Ok(om)) => o@ == om,
                (Result::Err(Error::Runtime(m)), Result::Err(mm)) => m@ == mm,
                _ => false,
            }
        }),
{
    match (l, op, r) {
        (Object::Integer(a), Token::Spread, Object::Integer(b)) => Ok(Object::Range(*a, *b)),
        (Object::Integer(a), Token::Plus, Object::Integer(b)) => Ok(
            Object::Integer(a.wrapping_add(*b)),
        ),
        (Object::Float(a), Token::Plus, Object::Float(b)) => Ok(
            Object::Float(f64_add_bits(*a, *b)),
        ),
        (Object::Str(a), Token::Plus, Object::Str(b)) => {
            let mut s = a.clone();
            s.append(b.as_str());
            Ok(Object::Str(s))
        },
        (Object::Integer(a), Token::Minus, Object::Integer(b)) => Ok(
            Object::Integer(a.wrapping_sub(*b)),
        ),
        (Object::Float(a), Token::Minus, Object::Float(b)) => Ok(
            Object::Float(f64_sub_bits(*a, *b)),
        ),
        (Object::Integer(a), Token::Asterisk, Object::Integer(b)) => Ok(
            Object::Integer(a.wrapping_mul(*b)),
        ),
        (Object::Float(a), Token::Asterisk, Object::Float(b)) => Ok(
            Object::Float(f64_mul_bits(*a, *b)),
        ),
        (Object::Integer(a), Token::Slash, Object::Integer(b)) => {
            if *b == 0 {
                Err(Error::Runtime("Division by zero".to_owned()))
            } else {
                match a.checked_div(*b) {
                    Some(q) => Ok(Object::Integer(q)),
                    None => Ok(Object::Integer(i64::MIN)),
                }
            }
        },
        (Object::Float(a), Token::Slash, Object::Float(b)) => Ok(
            Object::Float(f64_div_bits(*a, *b)),
        ),
        (Object::Integer(a), Token::Lesser, Object::Integer(b)) => Ok(Object::Boolean(*a < *b)),
        (Object::Float(a), Token::Lesser, Object::Float(b)) => Ok(
            Object::Boolean(f64_lt_bits(*a, *b)),
        ),
        (Object::Integer(a), Token::LesserOrEqual, Object::Integer(b)) => Ok(
            Object::Boolean(*a <= *b),
        ),
        (Object::Float(a), Token::LesserOrEqual, Object::Float(b)) => Ok(
            Object::Boolean(f64_le_bits(*a, *b)),
        ),
        (Object::Integer(a), Token::Greater, Object::Integer(b)) => Ok(
            Object::Boolean(*a > *b),
        ),
        (Object::Float(a), Token::Greater, Object::Float(b)) => Ok(
            Object::Boolean(f64_lt_bits(*b, *a)),
        ),
        (Object::Integer(a), Token::GreaterOrEqual, Object::Integer(b)) => Ok(
            Object::Boolean(*a >= *b),
        ),
        (Object::Float(a), Token::GreaterOrEqual, Object::Float(b)) => Ok(
            Object::Boolean(f64_le_bits(*b, *a)),
        ),
        (Object::Integer(a), Token::Ampersand, Object::Integer(b)) => Ok(
            Object::Integer(*a & *b),
        ),
        (Object::Integer(a), Token::Pipe, Object::Integer(b)) => Ok(Object::Integer(*a | *b)),
        (l2, Token::Equal, r2) => Ok(Object::Boolean(l2.equal(r2))),
        (l2, Token::NotEqual, r2) => Ok(Object::Boolean(!l2.equal(r2))),
        (l2, Token::AmpersandAmpersand, r2) => Ok(
            Object::Boolean(l2.is_truthy() && r2.is_truthy()),
        ),
        (l2, Token::PipePipe, r2) => Ok(Object::Boolean(l2.is_truthy() || r2.is_truthy())),
        (l2, op2, r2) => Err(infix_undef_err(op2, l2, r2)),
    }
}

pub(crate) fn slice_objects(vs: &Vec<Object>, from: usize, to: usize) -> (r: Vec<Object>)
    requires
        from <= to <= vs@.len(),
    ensures
        objs_model(r@, 0) == objs_model(vs@, 0).subrange(from as int, to as int),
{
    let mut r: Vec<Object> = Vec::new();
    let mut k = from;
    while k < to
        invariant
            from <= k <= to <= vs@.len(),
            r@.len() == k - from,
            forall|j: int| 0 <= j < k - from ==> obj_model(r@[j]) == obj_model(vs@[from + j]),
        decreases to - k,
    {
        r.push(vs[k].clone());
        k += 1;
    }
    proof {
        lemma_objs_model(r@, 0);
        lemma_objs_model(vs@, 0);
        assert(objs_model(r@, 0) =~= objs_model(vs@, 0).subrange(from as int, to as int));
    }
    r
}

fn index_err(i: i64) -> (e: Error)
    ensures
        e@ == crate::ErrorModel::Runtime(index_invalid_text(i as int)),
{
    let mut m = "Index '".to_owned();
    let shown = render_i64(i);
    m.append(shown.as_str());
    m.append("' not valid");
    proof {
        assert(m@ =~= index_invalid_text(i as int));
    }
    Error::Runtime(m)
}

fn range_err(f: i64, t: i64) -> (e: Error)
    ensures
        e@ == crate::ErrorModel::Runtime(range_invalid_text(f as int, t as int)),
{
    let mut m = "Index '".to_owned();
    let from = render_i64(f);
    m.append(from.as_str());
    m.append("..");
    let to = render_i64(t);
    m.append(to.as_str());
    m.append("' not valid");
    proof {
        assert(m@ =~= range_invalid_text(f as int, t as int));
    }
    Error::Runtime(m)
}

fn key_err(k: &str) -> (e: Error)
    ensures
        e@ == crate::ErrorModel::Runtime(key_invalid_text(k@)),
{
    let mut m = "Key '".to_owned();
    m.append(k);
    m.append("' not valid");
    proof {
        assert(m@ =~= key_invalid_text(k@));
    }
    Error::Runtime(m)
}

fn not_indexable_err(t: &Object, ix: &Object) -> (e: Error)
    ensures
        e@ == crate::ErrorModel::Runtime(not_indexable_text(t@, ix@)),
{
    let mut m = "Object '".to_owned();
    let target = render_object(t);
    m.append(target.as_str());
    m.append("' is not indexable with '");
    let idx = render_object(ix);
    m.append(idx.as_str());
    m.append("'");
    proof {
        assert(m@ =~= not_indexable_text(t@, ix@));
    }
    Error::Runtime(m)
}

pub(crate) fn find_hash_key(ps: &Vec<(String, Object)>, k: &str) -> (r: Option<usize>)
    ensures
        ({
            let j = crate::environment::key_index_from(
                crate::object::hash_model(ps@, 0),
                0,
                k@,
            );
            match r {
                Option::Some(idx) => j == idx as int && (idx as int) < ps@.len(),
                Option::None => j == ps@.len(),
            }
        }),
{
    proof {
        crate::object::lemma_hash_model(ps@, 0);
        crate::environment::lemma_key_index_from(crate::object::hash_model(ps@, 0), 0, k@);
    }
    let ghost m = crate::object::hash_model(ps@, 0);
    let mut i: usize = 0;
    while i < ps.len()
        invariant
            i <= ps@.len(),
            m == crate::object::hash_model(ps@, 0),
            m.len() == ps@.len(),
            forall|j: int|
                0 <= j < m.len() ==> m[j] == (ps@[j].0@, crate::object::obj_model(ps@[j].1)),
            forall|j: int| 0 <= j < i ==> m[j].0 != k@,
        decreases ps@.len() - i,
    {
        if crate::token::str_eq(ps[i].0.as_str(), k) {
            proof {
                crate::environment::lemma_key_index_from(m, 0, k@);
                assert(m[i as int].0 == k@);
                let j = crate::environment::key_index_from(m, 0, k@);
                assert(j <= i as int) by {
                    if j > i as int {
                        assert(m[i as int].0 != k@);
                    }
                }
            }
            return Some(i);
        }
        i += 1;
    }
    proof {
        crate::environment::lemma_key_index_from(m, 0, k@);
    }
    None
}

/// The executable twin of `index_op_m`.
pub fn eval_index_op(t: &Object, ix: &Object) -> (r: Result<Object, Error>)
    ensures
        ({
            match (r, index_op_m(t@, ix@)) {
                (Result::Ok(o), Result::Ok(om)) => o@ == om,
                (Result::Err(Error::Runtime(m)), Result::Err(mm)) => m@ == mm,
                _ => false,
            }
        }),
{
    match (t, ix) {
        (Object::Array(vs), Object::Integer(i)) => {
            proof {
                lemma_objs_model(vs@, 0);
                vstd::std_specs::vec::axiom_spec_len(vs);
            }
            let n = vs.len();
            if 0 <= *i && (*i as u64) < (n as u64) {
                proof {
                    assert(0 <= *i < n);
                }
                Ok(vs[*i as usize].clone())
            } else {
                Err(index_err(*i))
            }
        },
        (Object::Array(vs), Object::Range(f, t2)) => {
            proof {
                lemma_objs_model(vs@, 0);
                vstd::std_specs::vec::axiom_spec_len(vs);
            }
            let n = vs.len();
            if 0 <= *f && *f <= *t2 && (*t2 as u64) <= (n as u64) {
                proof {
                    assert(0 <= *f <= *t2 <= n);
                }
                Ok(Object::Array(slice_objects(vs, *f as usize, *t2 as usize)))
            } else {
                Err(range_err(*f, *t2))
            }
        },
        (Object::Hash(ps), Object::Str(k)) => {
            proof {
                crate::object::lemma_hash_model(ps@, 0);
            }
            match find_hash_key(ps, k.as_str()) {
                Some(idx) => Ok(ps[idx].1.clone()),
                None => Err(key_err(k.as_str())),
            }
        },
        (t2, ix2) => Err(not_indexable_err(t2, ix2)),
    }
}

} // verus!

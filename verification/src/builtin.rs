//! The builtin registry: the fixed set of native callables that a root
//! environment starts with, and their semantics. `write` renders its
//! arguments onto the output log; `exit` raises an exit signal that the
//! surrounding driver acts on; the rest are pure.

use crate::environment::{
    binding_vals_wf, env_ok, frame_wf, lemma_binding_vals_wf_index, lemma_frames_model,
    lemma_objs_wf_index, obj_wf, objs_wf, Environment, Frame,
};
use crate::object::{
    clone_objects, hash_model, lemma_hash_model, lemma_objs_model, obj_model, obj_text,
    objs_model, render_object, Builtin, ObjModel, Object,
};
use crate::ops::slice_objects;
use crate::{Signal, SignalModel};
use vstd::prelude::*;
use vstd::string::{StrSliceExecFns, StringExecFns};

verus! {

/// A sequence length clamped into the integer kind of the language.
pub open spec fn clamped_len(n: nat) -> i64 {
    if n > i64::MAX as nat {
        i64::MAX
    } else {
        n as i64
    }
}

/// `len`: the length of an array or of a string, null for anything else.
pub open spec fn len_result(args: Seq<ObjModel>) -> ObjModel {
    if args.len() >= 1 {
        match args[0] {
            ObjModel::Array(vs) => ObjModel::Integer(clamped_len(vs.len())),
            ObjModel::Str(s) => ObjModel::Integer(clamped_len(s.len())),
            _ => ObjModel::Null,
        }
    } else {
        ObjModel::Null
    }
}

/// `first`: the head of a nonempty array, null for anything else.
pub open spec fn first_result(args: Seq<ObjModel>) -> ObjModel {
    if args.len() >= 1 {
        match args[0] {
            ObjModel::Array(vs) => if vs.len() >= 1 {
                vs[0]
            } else {
                ObjModel::Null
            },
            _ => ObjModel::Null,
        }
    } else {
        ObjModel::Null
    }
}

/// `rest`: the tail of an array of two or more elements, null otherwise.
pub open spec fn rest_result(args: Seq<ObjModel>) -> ObjModel {
    if args.len() >= 1 {
        match args[0] {
            ObjModel::Array(vs) => if vs.len() >= 2 {
                ObjModel::Array(vs.subrange(1, vs.len() as int))
            } else {
                ObjModel::Null
            },
            _ => ObjModel::Null,
        }
    } else {
        ObjModel::Null
    }
}

/// `append`: a fresh array holding the first argument's elements followed
/// by the remaining arguments; an empty array when the first argument is
/// not an array.
pub open spec fn append_result(args: Seq<ObjModel>) -> ObjModel {
    if args.len() >= 1 {
        match args[0] {
            ObjModel::Array(vs) => ObjModel::Array(vs + args.subrange(1, args.len() as int)),
            _ => ObjModel::Array(Seq::empty()),
        }
    } else {
        ObjModel::Array(Seq::empty())
    }
}

/// `exit`: the status from an integer first argument, zero otherwise.
pub open spec fn exit_code(args: Seq<ObjModel>) -> i64 {
    if args.len() >= 1 {
        match args[0] {
            ObjModel::Integer(c) => c,
            _ => 0,
        }
    } else {
        0
    }
}

/// The one line `write` emits: its arguments' renderings, concatenated.
pub open spec fn objs_line(args: Seq<ObjModel>, i: int) -> Seq<char>
    decreases args.len() - i,
{
    if i < 0 || i >= args.len() {
        Seq::empty()
    } else {
        obj_text(args[i]) + objs_line(args, i + 1)
    }
}

/// What one builtin call does to its arguments and the output log.
pub open spec fn builtin_m(k: Builtin, args: Seq<ObjModel>, out: Seq<Seq<char>>) -> (Result<
    ObjModel,
    SignalModel,
>, Seq<Seq<char>>) {
    match k {
        Builtin::Len => (Result::Ok(len_result(args)), out),
        Builtin::First => (Result::Ok(first_result(args)), out),
        Builtin::Rest => (Result::Ok(rest_result(args)), out),
        Builtin::Append => (Result::Ok(append_result(args)), out),
        Builtin::Exit => (Result::Err(SignalModel::Exit(exit_code(args))), out),
        Builtin::Write => (Result::Ok(ObjModel::Null), out.push(objs_line(args, 0))),
    }
}

/// A builtin's value result is made only of its arguments' parts, so it is
/// well formed wherever the arguments are.
pub proof fn lemma_builtin_wf(k: Builtin, args: Seq<ObjModel>, out: Seq<Seq<char>>, n: int)
    requires
        objs_wf(args, 0, n),
    ensures
        match builtin_m(k, args, out).0 {
            Result::Ok(v) => obj_wf(v, n),
            Result::Err(_) => true,
        },
{
    lemma_objs_wf_index(args, 0, n);
    lemma_objs_wf_index(Seq::<ObjModel>::empty(), 0, n);
    if args.len() >= 1 {
        match args[0] {
            ObjModel::Array(vs) => {
                assert(obj_wf(args[0], n));
                lemma_objs_wf_index(vs, 0, n);
                match k {
                    Builtin::Rest => {
                        if vs.len() >= 2 {
                            let tail = vs.subrange(1, vs.len() as int);
                            lemma_objs_wf_index(tail, 0, n);
                            assert(forall|j: int| 0 <= j < tail.len() ==> tail[j] == vs[j + 1]);
                            assert(objs_wf(tail, 0, n));
                        }
                    },
                    Builtin::Append => {
                        let tail = args.subrange(1, args.len() as int);
                        let joined = vs + tail;
                        lemma_objs_wf_index(joined, 0, n);
                        assert(forall|j: int|
                            0 <= j < joined.len() ==> joined[j] == (if j < vs.len() {
                                vs[j]
                            } else {
                                args[j - vs.len() + 1]
                            }));
                        assert(objs_wf(joined, 0, n));
                    },
                    _ => {},
                }
            },
            _ => {},
        }
    } else {
        assert(objs_wf(Seq::<ObjModel>::empty(), 0, n));
    }
}

fn clamp_len(n: usize) -> (r: i64)
    ensures
        r == clamped_len(n as nat),
{
    if (n as u64) > (i64::MAX as u64) {
        i64::MAX
    } else {
        n as i64
    }
}

fn write_line(args: &Vec<Object>, k: usize) -> (r: String)
    requires
        k <= args@.len(),
    ensures
        r@ == objs_line(objs_model(args@, 0), k as int),
    decreases args@.len() - k,
{
    proof {
        lemma_objs_model(args@, 0);
    }
    if k >= args.len() {
        let s = String::new();
        proof {
            assert(s@ =~= objs_line(objs_model(args@, 0), k as int));
        }
        s
    } else {
        let mut s = render_object(&args[k]);
        let rest = write_line(args, k + 1);
        s.append(rest.as_str());
        proof {
            assert(s@ =~= objs_line(objs_model(args@, 0), k as int));
        }
        s
    }
}

/// Runs one builtin on evaluated arguments: the executable twin of
/// `builtin_m`. Only `write` touches the output log; only `exit` signals.
pub fn apply_builtin(k: Builtin, args: Vec<Object>, out: &mut Vec<String>) -> (r: Result<
    Object,
    Signal,
>)
    ensures
        ({
            let (rs, out2) = builtin_m(k, objs_model(args@, 0), old(out).deep_view());
            final(out).deep_view() == out2 && (match (r, rs) {
                (Result::Ok(o), Result::Ok(om)) => o@ == om,
                (Result::Err(s), Result::Err(sm)) => s@ == sm,
                _ => false,
            })
        }),
{
    proof {
        lemma_objs_model(args@, 0);
    }
    match k {
        Builtin::Len => {
            if args.len() >= 1 {
                match &args[0] {
                    Object::Array(vs) => {
                        proof {
                            lemma_objs_model(vs@, 0);
                        }
                        Ok(Object::Integer(clamp_len(vs.len())))
                    },
                    Object::Str(s) => Ok(Object::Integer(clamp_len(s.as_str().unicode_len()))),
                    _ => Ok(Object::Null),
                }
            } else {
                Ok(Object::Null)
            }
        },
        Builtin::First => {
            if args.len() >= 1 {
                match &args[0] {
                    Object::Array(vs) => {
                        proof {
                            lemma_objs_model(vs@, 0);
                        }
                        if vs.len() >= 1 {
                            Ok(vs[0].clone())
                        } else {
                            Ok(Object::Null)
                        }
                    },
                    _ => Ok(Object::Null),
                }
            } else {
                Ok(Object::Null)
            }
        },
        Builtin::Rest => {
            if args.len() >= 1 {
                match &args[0] {
                    Object::Array(vs) => {
                        proof {
                            lemma_objs_model(vs@, 0);
                        }
                        if vs.len() >= 2 {
                            Ok(Object::Array(slice_objects(vs, 1, vs.len())))
                        } else {
                            Ok(Object::Null)
                        }
                    },
                    _ => Ok(Object::Null),
                }
            } else {
                Ok(Object::Null)
            }
        },
        Builtin::Append => {
            if args.len() >= 1 {
                match &args[0] {
                    Object::Array(vs) => {
                        let mut r = clone_objects(vs);
                        let ghost vsm = objs_model(vs@, 0);
                        let ghost argsm = objs_model(args@, 0);
                        let mut k2: usize = 1;
                        proof {
                            lemma_objs_model(vs@, 0);
                            lemma_objs_model(r@, 0);
                            assert(objs_model(r@, 0) =~= vsm + argsm.subrange(1, 1));
                        }
                        while k2 < args.len()
                            invariant
                                1 <= k2 <= args@.len(),
                                argsm == objs_model(args@, 0),
                                argsm.len() == args@.len(),
                                forall|j: int|
                                    0 <= j < argsm.len() ==> argsm[j] == obj_model(args@[j]),
                                objs_model(r@, 0) == vsm + argsm.subrange(1, k2 as int),
                            decreases args@.len() - k2,
                        {
                            let ghost rold = r@;
                            let v = args[k2].clone();
                            let ghost vm = v@;
                            r.push(v);
                            proof {
                                lemma_objs_model(rold, 0);
                                lemma_objs_model(r@, 0);
                                assert(r@ == rold.push(r@[r@.len() - 1]));
                                assert(obj_model(r@[r@.len() - 1]) == argsm[k2 as int]);
                                assert forall|j: int|
                                    0 <= j < r@.len() implies objs_model(r@, 0)[j] == (vsm
                                    + argsm.subrange(1, k2 as int + 1))[j] by {
                                    if j < rold.len() {
                                        assert(r@[j] == rold[j]);
                                        assert(objs_model(rold, 0)[j] == obj_model(rold[j]));
                                    }
                                }
                                assert(objs_model(r@, 0) =~= vsm + argsm.subrange(
                                    1,
                                    k2 as int + 1,
                                ));
                            }
                            k2 += 1;
                        }
                        proof {
                            assert(argsm.subrange(1, argsm.len() as int) =~= argsm.subrange(
                                1,
                                args@.len() as int,
                            ));
                        }
                        Ok(Object::Array(r))
                    },
                    _ => {
                        let empty: Vec<Object> = Vec::new();
                        proof {
                            assert(objs_model(empty@, 0) =~= Seq::<ObjModel>::empty());
                        }
                        Ok(Object::Array(empty))
                    },
                }
            } else {
                let empty: Vec<Object> = Vec::new();
                proof {
                    assert(objs_model(empty@, 0) =~= Seq::<ObjModel>::empty());
                }
                Ok(Object::Array(empty))
            }
        },
        Builtin::Exit => {
            if args.len() >= 1 {
                match &args[0] {
                    Object::Integer(c) => Err(Signal::Exit(*c)),
                    _ => Err(Signal::Exit(0)),
                }
            } else {
                Err(Signal::Exit(0))
            }
        },
        Builtin::Write => {
            let line = write_line(&args, 0);
            let ghost outold = out.deep_view();
            out.push(line);
            proof {
                assert(out.deep_view() =~= outold.push(objs_line(objs_model(args@, 0), 0)));
            }
            Ok(Object::Null)
        },
    }
}

/// The bindings a root environment starts with, in registration order.
pub open spec fn builtin_bindings() -> Seq<(Seq<char>, ObjModel)> {
    seq![
        ("exit"@, ObjModel::Builtin(Builtin::Exit)),
        ("len"@, ObjModel::Builtin(Builtin::Len)),
        ("first"@, ObjModel::Builtin(Builtin::First)),
        ("rest"@, ObjModel::Builtin(Builtin::Rest)),
        ("append"@, ObjModel::Builtin(Builtin::Append)),
        ("write"@, ObjModel::Builtin(Builtin::Write)),
    ]
}

/// A root environment: one frame, no parent, the builtin table bound.
pub fn get_builtin() -> (e: Environment)
    ensures
        e@.len() == 1,
        e@[0].parent is None,
        e@[0].bindings == builtin_bindings(),
        env_ok(e@),
{
    let mut bindings: Vec<(String, Object)> = Vec::new();
    bindings.push(("exit".to_owned(), Object::Builtin(Builtin::Exit)));
    bindings.push(("len".to_owned(), Object::Builtin(Builtin::Len)));
    bindings.push(("first".to_owned(), Object::Builtin(Builtin::First)));
    bindings.push(("rest".to_owned(), Object::Builtin(Builtin::Rest)));
    bindings.push(("append".to_owned(), Object::Builtin(Builtin::Append)));
    bindings.push(("write".to_owned(), Object::Builtin(Builtin::Write)));
    proof {
        lemma_hash_model(bindings@, 0);
        assert(hash_model(bindings@, 0) =~= builtin_bindings());
    }
    let mut frames: Vec<Frame> = Vec::new();
    frames.push(Frame { parent: None, bindings });
    let e = Environment { frames };
    proof {
        lemma_frames_model(e.frames@, 0);
        lemma_binding_vals_wf_index(builtin_bindings(), 0, 1);
    }
    e
}

} // verus!

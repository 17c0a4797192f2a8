//! The scope chain: an arena of frames, each a name-to-value mapping with
//! an optional parent handle. Closures and child scopes share frames by
//! handle, which gives reference semantics without shared mutable
//! ownership. `get` walks the chain outward; `set` writes only into the
//! named frame; `mutate` overwrites the nearest existing binding and never
//! creates one.

use crate::object::{hash_model, lemma_hash_model, ObjModel, Object};
use vstd::prelude::*;

verus! {

/// One scope frame: its bindings in insertion order, and its parent.
#[derive(Debug)]
pub struct Frame {
    pub parent: Option<usize>,
    pub bindings: Vec<(String, Object)>,
}

/// Ghost model of a frame.
pub struct FrameModel {
    pub parent: Option<int>,
    pub bindings: Seq<(Seq<char>, ObjModel)>,
}

pub open spec fn frame_m(f: Frame) -> FrameModel {
    FrameModel {
        parent: match f.parent {
            Option::Some(p) => Option::Some(p as int),
            Option::None => Option::None,
        },
        bindings: hash_model(f.bindings@, 0),
    }
}

impl View for Frame {
    type V = FrameModel;

    open spec fn view(&self) -> FrameModel {
        frame_m(*self)
    }
}

pub open spec fn frames_model(fs: Seq<Frame>, i: int) -> Seq<FrameModel>
    decreases fs.len() - i,
{
    if i < 0 || i >= fs.len() {
        Seq::empty()
    } else {
        seq![frame_m(fs[i])] + frames_model(fs, i + 1)
    }
}

/// The model of a suffix of a frame list is the list of the frames'
/// models.
pub proof fn lemma_frames_model(fs: Seq<Frame>, i: int)
    requires
        0 <= i <= fs.len(),
    ensures
        frames_model(fs, i).len() == fs.len() - i,
        forall|k: int| 0 <= k < fs.len() - i ==> frames_model(fs, i)[k] == frame_m(fs[i + k]),
    decreases fs.len() - i,
{
    if i < fs.len() {
        lemma_frames_model(fs, i + 1);
    }
}

/// The arena holding every frame of one interpreter; handles are indexes
/// into it. Frames are only ever appended, so handles stay valid.
#[derive(Debug)]
pub struct Environment {
    pub frames: Vec<Frame>,
}

impl View for Environment {
    type V = Seq<FrameModel>;

    open spec fn view(&self) -> Seq<FrameModel> {
        frames_model(self.frames@, 0)
    }
}

/// The position of the first binding of `name` at or after `i`, or the
/// length if there is none.
pub open spec fn key_index_from(
    bs: Seq<(Seq<char>, ObjModel)>,
    i: int,
    name: Seq<char>,
) -> int
    decreases bs.len() - i,
{
    if i < 0 || i >= bs.len() {
        bs.len() as int
    } else if bs[i].0 == name {
        i
    } else {
        key_index_from(bs, i + 1, name)
    }
}

pub proof fn lemma_key_index_from(bs: Seq<(Seq<char>, ObjModel)>, i: int, name: Seq<char>)
    requires
        0 <= i <= bs.len(),
    ensures
        i <= key_index_from(bs, i, name) <= bs.len(),
        forall|k: int| i <= k < key_index_from(bs, i, name) ==> bs[k].0 != name,
        key_index_from(bs, i, name) < bs.len() ==> bs[key_index_from(bs, i, name)].0 == name,
    decreases bs.len() - i,
{
    if i < bs.len() && bs[i].0 != name {
        lemma_key_index_from(bs, i + 1, name);
    }
}

/// The value bound to `name` in one frame, if any: the first binding wins.
pub open spec fn bindings_lookup(
    bs: Seq<(Seq<char>, ObjModel)>,
    name: Seq<char>,
) -> Option<ObjModel> {
    let j = key_index_from(bs, 0, name);
    if j < bs.len() {
        Option::Some(bs[j].1)
    } else {
        Option::None
    }
}

/// One frame after an insert-or-overwrite of `name`: the first binding of
/// the name is replaced in place, or a new binding is appended.
pub open spec fn bindings_set(
    bs: Seq<(Seq<char>, ObjModel)>,
    name: Seq<char>,
    v: ObjModel,
) -> Seq<(Seq<char>, ObjModel)> {
    let j = key_index_from(bs, 0, name);
    if j < bs.len() {
        bs.update(j, (name, v))
    } else {
        bs.push((name, v))
    }
}

/// Every parent handle refers to an earlier frame, so chains are finite.
pub open spec fn parents_wf(env: Seq<FrameModel>) -> bool {
    forall|i: int|
        0 <= i < env.len() ==> match (#[trigger] env[i]).parent {
            Option::Some(p) => 0 <= p < i,
            Option::None => true,
        }
}

/// Chain lookup: the current frame first, then its parents outward.
pub open spec fn env_lookup(env: Seq<FrameModel>, h: int, name: Seq<char>) -> Option<ObjModel>
    decreases h,
{
    if h < 0 || h >= env.len() {
        Option::None
    } else {
        match bindings_lookup(env[h].bindings, name) {
            Option::Some(v) => Option::Some(v),
            Option::None => match env[h].parent {
                Option::Some(p) => if 0 <= p < h {
                    env_lookup(env, p, name)
                } else {
                    Option::None
                },
                Option::None => Option::None,
            },
        }
    }
}

/// Chain mutation: the first frame outward from `h` that already binds
/// `name` has that binding overwritten; if none binds it, nothing changes.
pub open spec fn env_mutate(
    env: Seq<FrameModel>,
    h: int,
    name: Seq<char>,
    v: ObjModel,
) -> (Option<ObjModel>, Seq<FrameModel>)
    decreases h,
{
    if h < 0 || h >= env.len() {
        (Option::None, env)
    } else {
        let j = key_index_from(env[h].bindings, 0, name);
        if j < env[h].bindings.len() {
            (
                Option::Some(v),
                env.update(
                    h,
                    FrameModel {
                        parent: env[h].parent,
                        bindings: env[h].bindings.update(j, (name, v)),
                    },
                ),
            )
        } else {
            match env[h].parent {
                Option::Some(p) => if 0 <= p < h {
                    env_mutate(env, p, name, v)
                } else {
                    (Option::None, env)
                },
                Option::None => (Option::None, env),
            }
        }
    }
}

pub open spec fn opt_obj(r: Option<Object>) -> Option<ObjModel> {
    match r {
        Option::Some(v) => Option::Some(v@),
        Option::None => Option::None,
    }
}

/// A value is well formed for an arena of `n` frames when every function
/// value inside it captures a handle below `n`.
pub open spec fn obj_wf(o: ObjModel, n: int) -> bool
    decreases o,
{
    match o {
        ObjModel::Array(vs) => objs_wf(vs, 0, n),
        ObjModel::Hash(ps) => binding_vals_wf(ps, 0, n),
        ObjModel::Return(v) => obj_wf(*v, n),
        ObjModel::Function(_, _, h) => 0 <= h < n,
        _ => true,
    }
}

pub open spec fn objs_wf(vs: Seq<ObjModel>, i: int, n: int) -> bool
    decreases vs, vs.len() - i,
{
    if i < 0 || i >= vs.len() {
        true
    } else {
        obj_wf(vs[i], n) && objs_wf(vs, i + 1, n)
    }
}

pub open spec fn binding_vals_wf(ps: Seq<(Seq<char>, ObjModel)>, i: int, n: int) -> bool
    decreases ps, ps.len() - i,
{
    if i < 0 || i >= ps.len() {
        true
    } else {
        obj_wf(ps[i].1, n) && binding_vals_wf(ps, i + 1, n)
    }
}

pub proof fn lemma_objs_wf_index(vs: Seq<ObjModel>, i: int, n: int)
    requires
        0 <= i <= vs.len(),
    ensures
        objs_wf(vs, i, n) <==> (forall|k: int| i <= k < vs.len() ==> obj_wf(vs[k], n)),
    decreases vs.len() - i,
{
    if i < vs.len() {
        lemma_objs_wf_index(vs, i + 1, n);
    }
}

pub proof fn lemma_binding_vals_wf_index(ps: Seq<(Seq<char>, ObjModel)>, i: int, n: int)
    requires
        0 <= i <= ps.len(),
    ensures
        binding_vals_wf(ps, i, n) <==> (forall|k: int|
            i <= k < ps.len() ==> obj_wf(ps[k].1, n)),
    decreases ps.len() - i,
{
    if i < ps.len() {
        lemma_binding_vals_wf_index(ps, i + 1, n);
    }
}

/// Well-formedness is monotone in the arena length: appending frames never
/// invalidates a value.
pub proof fn lemma_obj_wf_mono(o: ObjModel, n: int, m: int)
    requires
        obj_wf(o, n),
        n <= m,
    ensures
        obj_wf(o, m),
    decreases o,
{
    match o {
        ObjModel::Array(vs) => {
            lemma_objs_wf_mono(vs, 0, n, m);
        },
        ObjModel::Hash(ps) => {
            lemma_binding_vals_wf_mono(ps, 0, n, m);
        },
        ObjModel::Return(v) => {
            lemma_obj_wf_mono(*v, n, m);
        },
        _ => {},
    }
}

pub proof fn lemma_objs_wf_mono(vs: Seq<ObjModel>, i: int, n: int, m: int)
    requires
        objs_wf(vs, i, n),
        n <= m,
    ensures
        objs_wf(vs, i, m),
    decreases vs, vs.len() - i,
{
    if 0 <= i && i < vs.len() {
        lemma_obj_wf_mono(vs[i], n, m);
        lemma_objs_wf_mono(vs, i + 1, n, m);
    }
}

pub proof fn lemma_binding_vals_wf_mono(ps: Seq<(Seq<char>, ObjModel)>, i: int, n: int, m: int)
    requires
        binding_vals_wf(ps, i, n),
        n <= m,
    ensures
        binding_vals_wf(ps, i, m),
    decreases ps, ps.len() - i,
{
    if 0 <= i && i < ps.len() {
        lemma_obj_wf_mono(ps[i].1, n, m);
        lemma_binding_vals_wf_mono(ps, i + 1, n, m);
    }
}

pub open spec fn frame_wf(f: FrameModel, n: int) -> bool {
    binding_vals_wf(f.bindings, 0, n)
}

/// The arena invariant: parent chains go strictly backwards, and every
/// value stored in any frame is well formed for the arena's length.
pub open spec fn env_ok(env: Seq<FrameModel>) -> bool {
    parents_wf(env) && (forall|i: int|
        0 <= i < env.len() ==> frame_wf(#[trigger] env[i], env.len() as int))
}

/// A found value is well formed: chain lookup only ever returns stored
/// values.
pub proof fn lemma_env_lookup_wf(env: Seq<FrameModel>, h: int, name: Seq<char>)
    requires
        env_ok(env),
    ensures
        match env_lookup(env, h, name) {
            Option::Some(v) => obj_wf(v, env.len() as int),
            Option::None => true,
        },
    decreases h,
{
    if 0 <= h && h < env.len() {
        match bindings_lookup(env[h].bindings, name) {
            Option::Some(v) => {
                lemma_key_index_from(env[h].bindings, 0, name);
                lemma_binding_vals_wf_index(env[h].bindings, 0, env.len() as int);
            },
            Option::None => {
                match env[h].parent {
                    Option::Some(p) => {
                        if 0 <= p < h {
                            lemma_env_lookup_wf(env, p, name);
                        }
                    },
                    Option::None => {},
                }
            },
        }
    }
}

/// Writing a well-formed value into a frame keeps the arena invariant.
pub proof fn lemma_set_ok(env: Seq<FrameModel>, h: int, name: Seq<char>, v: ObjModel)
    requires
        env_ok(env),
        0 <= h < env.len(),
        obj_wf(v, env.len() as int),
    ensures
        env_ok(
            env.update(
                h,
                FrameModel {
                    parent: env[h].parent,
                    bindings: bindings_set(env[h].bindings, name, v),
                },
            ),
        ),
{
    let n = env.len() as int;
    let bs = env[h].bindings;
    let bs2 = bindings_set(bs, name, v);
    lemma_key_index_from(bs, 0, name);
    lemma_binding_vals_wf_index(bs, 0, n);
    lemma_binding_vals_wf_index(bs2, 0, n);
    let env2 = env.update(
        h,
        FrameModel { parent: env[h].parent, bindings: bs2 },
    );
    assert forall|i: int| 0 <= i < env2.len() implies frame_wf(
        #[trigger] env2[i],
        env2.len() as int,
    ) by {
        if i != h {
            assert(env2[i] == env[i]);
        }
    }
}

/// Appending a fresh empty frame with an existing parent keeps the arena
/// invariant.
pub proof fn lemma_extend_ok(env: Seq<FrameModel>, parent: int)
    requires
        env_ok(env),
        0 <= parent < env.len(),
    ensures
        env_ok(
            env.push(
                FrameModel { parent: Option::Some(parent), bindings: Seq::empty() },
            ),
        ),
{
    let env2 = env.push(
        FrameModel { parent: Option::Some(parent), bindings: Seq::empty() },
    );
    assert forall|i: int| 0 <= i < env2.len() implies frame_wf(
        #[trigger] env2[i],
        env2.len() as int,
    ) by {
        if i < env.len() {
            assert(env2[i] == env[i]);
            assert(frame_wf(env[i], env.len() as int));
            lemma_binding_vals_wf_mono(env[i].bindings, 0, env.len() as int, env2.len() as int);
        } else {
            assert(env2[i].bindings =~= Seq::<(Seq<char>, ObjModel)>::empty());
        }
    }
}

fn find_key(bs: &Vec<(String, Object)>, name: &str) -> (r: Option<usize>)
    ensures
        ({
            let j = key_index_from(hash_model(bs@, 0), 0, name@);
            match r {
                Option::Some(k) => j == k as int && (k as int) < bs@.len(),
                Option::None => j == bs@.len(),
            }
        }),
{
    proof {
        lemma_hash_model(bs@, 0);
        lemma_key_index_from(hash_model(bs@, 0), 0, name@);
    }
    let ghost m = hash_model(bs@, 0);
    let mut k: usize = 0;
    while k < bs.len()
        invariant
            k <= bs@.len(),
            m == hash_model(bs@, 0),
            m.len() == bs@.len(),
            forall|j: int| 0 <= j < m.len() ==> m[j] == (bs@[j].0@, crate::object::obj_model(bs@[j].1)),
            forall|j: int| 0 <= j < k ==> m[j].0 != name@,
            key_index_from(m, 0, name@) >= k,
        decreases bs@.len() - k,
    {
        if crate::token::str_eq(bs[k].0.as_str(), name) {
            proof {
                lemma_key_index_from(m, 0, name@);
                assert(m[k as int].0 == name@);
                let j = key_index_from(m, 0, name@);
                assert(j <= k as int) by {
                    if j > k as int {
                        assert(m[k as int].0 != name@);
                    }
                }
                assert(j == k as int);
            }
            return Some(k);
        }
        proof {
            lemma_key_index_from(m, 0, name@);
        }
        k += 1;
    }
    None
}

impl Environment {
    /// A fresh arena holding one empty root frame, handle zero.
    pub fn new() -> (e: Environment)
        ensures
            e@.len() == 1,
            e@[0].parent is None,
            e@[0].bindings == Seq::<(Seq<char>, ObjModel)>::empty(),
            env_ok(e@),
    {
        let mut frames: Vec<Frame> = Vec::new();
        frames.push(Frame { parent: None, bindings: Vec::new() });
        let e = Environment { frames };
        proof {
            lemma_frames_model(e.frames@, 0);
            lemma_hash_model(e.frames@[0].bindings@, 0);
            assert(e@[0].bindings =~= Seq::<(Seq<char>, ObjModel)>::empty());
        }
        e
    }

    /// Appends an empty frame whose parent is `parent` and returns its
    /// handle, which is the old length.
    pub fn extend(&mut self, parent: usize) -> (h: usize)
        requires
            parent < old(self)@.len(),
        ensures
            h as int == old(self)@.len(),
            final(self)@ == old(self)@.push(
                FrameModel { parent: Option::Some(parent as int), bindings: Seq::empty() },
            ),
    {
        let h = self.frames.len();
        proof {
            lemma_frames_model(self.frames@, 0);
        }
        self.frames.push(Frame { parent: Some(parent), bindings: Vec::new() });
        proof {
            lemma_frames_model(self.frames@, 0);
            assert(frame_m(self.frames@[h as int]).bindings =~= Seq::<
                (Seq<char>, ObjModel),
            >::empty());
            assert(self@ =~= old(self)@.push(
                FrameModel { parent: Option::Some(parent as int), bindings: Seq::empty() },
            ));
        }
        h
    }

    /// Chain lookup from frame `h` outward; a hit returns a copy of the
    /// stored value.
    pub fn get(&self, h: usize, name: &str) -> (r: Option<Object>)
        requires
            parents_wf(self@),
            h < self@.len(),
        ensures
            opt_obj(r) == env_lookup(self@, h as int, name@),
        decreases h,
    {
        proof {
            lemma_frames_model(self.frames@, 0);
        }
        let found = find_key(&self.frames[h].bindings, name);
        match found {
            Some(k) => {
                proof {
                    lemma_hash_model(self.frames@[h as int].bindings@, 0);
                    assert(self@[h as int] == frame_m(self.frames@[h as int]));
                    assert(self@[h as int].bindings == hash_model(
                        self.frames@[h as int].bindings@,
                        0,
                    ));
                    assert(bindings_lookup(self@[h as int].bindings, name@) == Option::Some(
                        self@[h as int].bindings[k as int].1,
                    ));
                    assert(env_lookup(self@, h as int, name@) == Option::Some(
                        self@[h as int].bindings[k as int].1,
                    ));
                }
                Some(self.frames[h].bindings[k].1.clone())
            },
            None => {
                proof {
                    lemma_hash_model(self.frames@[h as int].bindings@, 0);
                    assert(self@[h as int] == frame_m(self.frames@[h as int]));
                    assert(bindings_lookup(self@[h as int].bindings, name@) is None);
                }
                let parent = self.frames[h].parent;
                match parent {
                    Some(p) => {
                        assert(p < h);
                        self.get(p, name)
                    },
                    None => None,
                }
            },
        }
    }

    /// Insert-or-overwrite in frame `h` only: the first binding of the
    /// name is replaced, or a new one appended; no other frame changes.
    pub fn set(&mut self, h: usize, name: &str, value: Object)
        requires
            h < old(self)@.len(),
        ensures
            final(self)@ == old(self)@.update(
                h as int,
                FrameModel {
                    parent: old(self)@[h as int].parent,
                    bindings: bindings_set(old(self)@[h as int].bindings, name@, value@),
                },
            ),
    {
        proof {
            lemma_frames_model(self.frames@, 0);
        }
        let found = find_key(&self.frames[h].bindings, name);
        let ghost oldframes = self.frames@;
        match found {
            Some(k) => {
                proof {
                    lemma_hash_model(self.frames@[h as int].bindings@, 0);
                }
                let frame = &mut self.frames[h];
                frame.bindings[k] = (name.to_owned(), value);
                proof {
                    lemma_hash_model(frame.bindings@, 0);
                    lemma_hash_model(oldframes[h as int].bindings@, 0);
                    assert(hash_model(frame.bindings@, 0) =~= bindings_set(
                        frame_m(oldframes[h as int]).bindings,
                        name@,
                        value@,
                    ));
                }
            },
            None => {
                let frame = &mut self.frames[h];
                frame.bindings.push((name.to_owned(), value));
                proof {
                    lemma_hash_model(frame.bindings@, 0);
                    lemma_hash_model(oldframes[h as int].bindings@, 0);
                    assert(hash_model(frame.bindings@, 0) =~= bindings_set(
                        frame_m(oldframes[h as int]).bindings,
                        name@,
                        value@,
                    ));
                }
            },
        }
        proof {
            lemma_frames_model(self.frames@, 0);
            lemma_frames_model(oldframes, 0);
            assert(final(self)@ =~= old(self)@.update(
                h as int,
                FrameModel {
                    parent: old(self)@[h as int].parent,
                    bindings: bindings_set(old(self)@[h as int].bindings, name@, value@),
                },
            ));
        }
    }

    /// Overwrites the nearest existing binding of `name` on the chain from
    /// `h` outward and returns the new value; if no frame on the chain
    /// binds the name, returns `None` and leaves every frame unchanged.
    /// In particular no binding is ever created, and no frame's set of
    /// names changes.
    pub fn mutate(&mut self, h: usize, name: &str, value: Object) -> (r: Option<Object>)
        requires
            parents_wf(old(self)@),
            h < old(self)@.len(),
        ensures
            (opt_obj(r), final(self)@) == env_mutate(old(self)@, h as int, name@, value@),
            r is None ==> final(self)@ == old(self)@,
            final(self)@.len() == old(self)@.len(),
            forall|i: int|
                0 <= i < old(self)@.len() ==> final(self)@[i].parent == old(self)@[i].parent,
            forall|i: int|
                0 <= i < old(self)@.len() ==> final(self)@[i].bindings.len() == old(
                    self,
                )@[i].bindings.len(),
            forall|i: int, k: int|
                0 <= i < old(self)@.len() && 0 <= k < old(self)@[i].bindings.len()
                    ==> final(self)@[i].bindings[k].0 == old(self)@[i].bindings[k].0,
        decreases h,
    {
        proof {
            lemma_frames_model(self.frames@, 0);
        }
        let found = find_key(&self.frames[h].bindings, name);
        let ghost oldframes = self.frames@;
        match found {
            Some(k) => {
                proof {
                    lemma_hash_model(self.frames@[h as int].bindings@, 0);
                }
                let stored = value.clone();
                let frame = &mut self.frames[h];
                frame.bindings[k] = (name.to_owned(), stored);
                proof {
                    lemma_hash_model(frame.bindings@, 0);
                    lemma_hash_model(oldframes[h as int].bindings@, 0);
                    lemma_frames_model(self.frames@, 0);
                    lemma_frames_model(oldframes, 0);
                    assert(hash_model(frame.bindings@, 0) =~= frame_m(
                        oldframes[h as int],
                    ).bindings.update(
                        key_index_from(frame_m(oldframes[h as int]).bindings, 0, name@),
                        (name@, value@),
                    ));
                    assert(final(self)@ =~= old(self)@.update(
                        h as int,
                        FrameModel {
                            parent: old(self)@[h as int].parent,
                            bindings: old(self)@[h as int].bindings.update(
                                key_index_from(old(self)@[h as int].bindings, 0, name@),
                                (name@, value@),
                            ),
                        },
                    ));
                    lemma_key_index_from(old(self)@[h as int].bindings, 0, name@);
                    assert forall|i: int, kk: int|
                        0 <= i < old(self)@.len() && 0 <= kk < old(self)@[i].bindings.len()
                            implies final(self)@[i].bindings[kk].0 == old(
                        self,
                    )@[i].bindings[kk].0 by {
                        if i == h as int {
                            let j = key_index_from(old(self)@[h as int].bindings, 0, name@);
                            if kk == j {
                                assert(old(self)@[i].bindings[kk].0 == name@);
                            }
                        }
                    }
                }
                Some(value)
            },
            None => {
                proof {
                    lemma_hash_model(self.frames@[h as int].bindings@, 0);
                    assert(old(self)@[h as int] == frame_m(self.frames@[h as int]));
                    assert(key_index_from(old(self)@[h as int].bindings, 0, name@)
                        == old(self)@[h as int].bindings.len());
                }
                let parent = self.frames[h].parent;
                match parent {
                    Some(p) => {
                        assert(p < h);
                        self.mutate(p, name, value)
                    },
                    None => None,
                }
            },
        }
    }
}

} // verus!

//! Environment frames: chained, mutable name-to-value mappings that give the
//! language lexical scoping. Frames live in one arena and refer to their
//! parents and to captured frames by stable indices, so that any number of
//! function values may share one frame. Lookup walks from a frame to the
//! root; definition always writes the frame it was given, never an ancestor.
use vstd::prelude::*;

verus! {

use crate::chars::chars_eq;
use crate::lisp_value::LispValue;
use crate::lisp_value::GValue;
use crate::lisp_value::NativeOp;
use crate::lisp_value::value_view;
use crate::lisp_value::clone_value;

/// One frame: its bindings, newest last, and its optional parent. A name
/// bound twice is looked up at its newest binding, which makes a later
/// binding an overwrite.
#[derive(Debug)]
pub struct Frame {
    pub bindings: Vec<(Vec<char>, LispValue)>,
    pub parent: Option<usize>,
}

/// The frame arena.
#[derive(Debug)]
pub struct Env {
    pub frames: Vec<Frame>,
}

/// The mathematical image of a frame.
#[verifier::ext_equal]
pub struct GFrame {
    pub bindings: Seq<(Seq<char>, GValue)>,
    pub parent: Option<int>,
}

pub open spec fn binding_view(b: (Vec<char>, LispValue)) -> (Seq<char>, GValue) {
    (b.0@, value_view(b.1))
}

pub open spec fn frame_view(f: Frame) -> GFrame {
    GFrame {
        bindings: f.bindings@.map_values(|b: (Vec<char>, LispValue)| binding_view(b)),
        parent: match f.parent {
            Some(p) => Some(p as int),
            None => None,
        },
    }
}

pub open spec fn env_view(e: Env) -> Seq<GFrame> {
    e.frames@.map_values(|f: Frame| frame_view(f))
}

/// The newest binding of `name` in one frame's bindings.
pub open spec fn frame_lookup(bs: Seq<(Seq<char>, GValue)>, name: Seq<char>) -> Option<GValue>
    decreases bs,
{
    if bs.len() == 0 {
        None
    } else if bs.last().0 == name {
        Some(bs.last().1)
    } else {
        frame_lookup(bs.drop_last(), name)
    }
}

/// Resolves `name` from frame `f` towards the root: the first frame on the
/// parent chain that binds the name decides. A parent reference that does
/// not point at an earlier frame ends the walk.
pub open spec fn env_lookup(frames: Seq<GFrame>, f: int, name: Seq<char>) -> Option<GValue>
    decreases f,
{
    if !(0 <= f < frames.len()) {
        None
    } else {
        match frame_lookup(frames[f].bindings, name) {
            Some(v) => Some(v),
            None => match frames[f].parent {
                Some(p) => if 0 <= p < f {
                    env_lookup(frames, p, name)
                } else {
                    None
                },
                None => None,
            },
        }
    }
}

/// The arena after binding `name` to `v` in frame `f`.
pub open spec fn spec_env_set(
    frames: Seq<GFrame>,
    f: int,
    name: Seq<char>,
    v: GValue,
) -> Seq<GFrame> {
    frames.update(
        f,
        GFrame { bindings: frames[f].bindings.push((name, v)), parent: frames[f].parent },
    )
}

/// The root frame's bindings: the intrinsic operations under their operator
/// names.
pub open spec fn spec_global_frame() -> GFrame {
    GFrame {
        bindings: seq![
            (seq!['+'], GValue::Intrinsic(NativeOp::Add)),
            (seq!['-'], GValue::Intrinsic(NativeOp::Sub)),
            (seq!['*'], GValue::Intrinsic(NativeOp::Mul)),
            (seq!['/'], GValue::Intrinsic(NativeOp::Div)),
            (seq!['='], GValue::Intrinsic(NativeOp::Eq)),
        ],
        parent: None,
    }
}

/// The newest binding of `name` in `f`, copied out.
#[verifier::loop_isolation(false)]
fn frame_get(f: &Frame, name: &Vec<char>) -> (r: Option<LispValue>)
    ensures
        match r {
            Some(v) => frame_lookup(frame_view(*f).bindings, name@) == Some(value_view(v)),
            None => frame_lookup(frame_view(*f).bindings, name@) is None,
        },
{
    let ghost bs = frame_view(*f).bindings;
    proof {
        assert(bs.take(f.bindings@.len() as int) =~= bs);
    }
    let mut j: usize = f.bindings.len();
    while j > 0
        invariant
            j <= f.bindings@.len(),
            bs.len() == f.bindings@.len(),
            forall|k: int| 0 <= k < bs.len() ==> bs[k] == binding_view(f.bindings@[k]),
            frame_lookup(bs, name@) == frame_lookup(bs.take(j as int), name@),
        decreases j,
    {
        let ghost pre = bs.take(j as int);
        proof {
            assert(pre.last() == bs[j - 1]);
            assert(pre.drop_last() =~= bs.take(j as int - 1));
        }
        let b = &f.bindings[j - 1];
        if chars_eq(&b.0, name) {
            return Some(clone_value(&b.1));
        }
        j = j - 1;
    }
    proof {
        assert(bs.take(0) =~= Seq::<(Seq<char>, GValue)>::empty());
    }
    None
}

impl Env {
    /// The arena of a fresh run: one root frame holding the intrinsics.
    pub fn new_global() -> (e: Env)
        ensures
            env_view(e) == seq![spec_global_frame()],
    {
        let bindings: Vec<(Vec<char>, LispValue)> = vec![
            (vec!['+'], LispValue::Intrinsic(NativeOp::Add)),
            (vec!['-'], LispValue::Intrinsic(NativeOp::Sub)),
            (vec!['*'], LispValue::Intrinsic(NativeOp::Mul)),
            (vec!['/'], LispValue::Intrinsic(NativeOp::Div)),
            (vec!['='], LispValue::Intrinsic(NativeOp::Eq)),
        ];
        let root = Frame { bindings, parent: None };
        let e = Env { frames: vec![root] };
        proof {
            assert(frame_view(e.frames@[0]).bindings =~~= spec_global_frame().bindings);
            assert(frame_view(e.frames@[0]) =~~= spec_global_frame());
            assert(env_view(e) =~= seq![spec_global_frame()]);
        }
        e
    }

    /// The number of frames in the arena.
    pub fn frame_count(&self) -> (n: usize)
        ensures
            n == env_view(*self).len(),
    {
        self.frames.len()
    }

    /// Resolves `name` from frame `frame` towards the root.
    #[verifier::loop_isolation(false)]
    pub fn get(&self, frame: usize, name: &Vec<char>) -> (r: Option<LispValue>)
        ensures
            match r {
                Some(v) => env_lookup(env_view(*self), frame as int, name@) == Some(value_view(v)),
                None => env_lookup(env_view(*self), frame as int, name@) is None,
            },
    {
        let ghost ev = env_view(*self);
        let mut cur: usize = frame;
        loop
            invariant
                env_lookup(ev, frame as int, name@) == env_lookup(ev, cur as int, name@),
            decreases cur,
        {
            if cur >= self.frames.len() {
                return None;
            }
            let f = &self.frames[cur];
            proof {
                assert(ev[cur as int] == frame_view(*f));
            }
            match frame_get(f, name) {
                Some(v) => {
                    return Some(v);
                },
                None => {
                    match f.parent {
                        Some(p) => {
                            if p < cur {
                                cur = p;
                            } else {
                                return None;
                            }
                        },
                        None => {
                            return None;
                        },
                    }
                },
            }
        }
    }

    /// Binds `name` to `value` in frame `frame` itself, never an ancestor: a
    /// later binding of the same name shadows the earlier one.
    pub fn set(&mut self, frame: usize, name: Vec<char>, value: LispValue) -> (r: bool)
        ensures
            r == (frame < env_view(*old(self)).len()),
            r ==> env_view(*final(self)) == spec_env_set(
                env_view(*old(self)),
                frame as int,
                name@,
                value_view(value),
            ),
            !r ==> env_view(*final(self)) == env_view(*old(self)),
    {
        let ghost ev = env_view(*old(self));
        if frame >= self.frames.len() {
            return false;
        }
        let ghost gname = name@;
        let ghost gval = value_view(value);
        let mut fr = self.frames.remove(frame);
        let ghost old_fr = frame_view(fr);
        fr.bindings.push((name, value));
        proof {
            assert(frame_view(fr).bindings =~= old_fr.bindings.push((gname, gval)));
            assert(frame_view(fr) =~~= (GFrame {
                bindings: old_fr.bindings.push((gname, gval)),
                parent: old_fr.parent,
            }));
        }
        self.frames.insert(frame, fr);
        proof {
            assert(env_view(*self) =~~= spec_env_set(ev, frame as int, gname, gval));
        }
        true
    }

    /// Appends a ready-made frame to the arena and hands back its index.
    pub fn push_frame(&mut self, frame: Frame) -> (idx: usize)
        ensures
            idx as int == env_view(*old(self)).len(),
            env_view(*final(self)) == env_view(*old(self)).push(frame_view(frame)),
    {
        let idx = self.frames.len();
        let ghost gf = frame_view(frame);
        self.frames.push(frame);
        proof {
            assert(env_view(*self) =~= env_view(*old(self)).push(gf));
        }
        idx
    }

    /// Opens a fresh, empty frame whose parent is `parent`, and hands back
    /// its index.
    pub fn new_frame(&mut self, parent: usize) -> (idx: usize)
        ensures
            idx as int == env_view(*old(self)).len(),
            env_view(*final(self)) == env_view(*old(self)).push(
                GFrame { bindings: Seq::empty(), parent: Some(parent as int) },
            ),
    {
        let idx = self.frames.len();
        self.frames.push(Frame { bindings: Vec::new(), parent: Some(parent) });
        proof {
            assert(env_view(*self) =~~= env_view(*old(self)).push(
                GFrame { bindings: Seq::empty(), parent: Some(parent as int) },
            ));
        }
        idx
    }
}

} // verus!

//! The state of a running verb: the scopes that hold its variables, the
//! functions that it has created, and the steps that it may still take.
//!
//! Scopes form a tree. A scope is never removed while the verb runs, so a
//! function can keep the scope in which it was made by its number.

use crate::assoc::{find, lookup, with_entry};
use crate::ir::SExpr;
use crate::semantics::ClosureView;
use crate::value::{lemma_pairs_view, pairs_view, set_entry, SValue, SValueView};
use vstd::prelude::*;

verus! {

/// A scope: the variables that it binds, and the scope around it.
pub struct Frame {
    pub parent: Option<usize>,
    pub vars: Vec<(String, SValue)>,
}

/// The mathematical value of a `Frame`.
pub ghost struct FrameView {
    pub parent: Option<int>,
    pub vars: Seq<(Seq<char>, SValueView)>,
}

impl View for Frame {
    type V = FrameView;

    open spec fn view(&self) -> FrameView {
        FrameView {
            parent: match self.parent {
                Some(p) => Some(p as int),
                None => None,
            },
            vars: pairs_view(self.vars@),
        }
    }
}

/// A function value: the names of its parameters, its body, and the scope
/// in which it was made.
pub struct Closure {
    pub params: Vec<String>,
    pub body: SExpr,
    pub env: usize,
}

impl View for Closure {
    type V = ClosureView;

    open spec fn view(&self) -> ClosureView {
        ClosureView {
            params: Seq::new(self.params@.len(), |i: int| self.params@[i]@),
            body: self.body@,
            env: self.env as int,
        }
    }
}

/// The views of a list of functions.
pub open spec fn closure_views(closures: Seq<Closure>) -> Seq<ClosureView> {
    Seq::new(closures.len(), |i: int| closures[i]@)
}

/// The scopes, functions and remaining steps of a running verb.
pub struct Machine {
    pub frames: Vec<Frame>,
    pub closures: Vec<Closure>,
    pub steps: u64,
}

/// The views of a list of scopes.
pub open spec fn frame_views(frames: Seq<Frame>) -> Seq<FrameView> {
    Seq::new(frames.len(), |i: int| frames[i]@)
}

/// Whether each scope lies inside a scope that was made before it.
pub open spec fn scopes_nested(frames: Seq<FrameView>) -> bool {
    forall|i: int|
        0 <= i < frames.len() ==> (match (#[trigger] frames[i]).parent {
            Some(p) => 0 <= p < i,
            None => true,
        })
}

/// The value that `name` has in scope `env`: that of the innermost scope
/// around `env`, `env` included, that binds the name.
pub open spec fn visible(frames: Seq<FrameView>, env: int, name: Seq<char>) -> Option<SValueView>
    decreases env,
{
    if env < 0 || env >= frames.len() {
        None
    } else {
        match lookup(frames[env].vars, name) {
            Some(v) => Some(v),
            None => match frames[env].parent {
                Some(p) => if 0 <= p < env {
                    visible(frames, p, name)
                } else {
                    None
                },
                None => None,
            },
        }
    }
}

/// The innermost scope around `env`, `env` included, that binds `name`.
pub open spec fn binding_scope(frames: Seq<FrameView>, env: int, name: Seq<char>) -> Option<int>
    decreases env,
{
    if env < 0 || env >= frames.len() {
        None
    } else {
        match lookup(frames[env].vars, name) {
            Some(v) => Some(env),
            None => match frames[env].parent {
                Some(p) => if 0 <= p < env {
                    binding_scope(frames, p, name)
                } else {
                    None
                },
                None => None,
            },
        }
    }
}

impl Machine {
    /// The scopes of the machine.
    pub open spec fn scopes(&self) -> Seq<FrameView> {
        frame_views(self.frames@)
    }

    /// The functions of the machine.
    pub open spec fn functions(&self) -> Seq<ClosureView> {
        closure_views(self.closures@)
    }

    /// The machine's invariant: scopes are nested, and each function was
    /// made in a scope that exists.
    pub open spec fn wf(&self) -> bool {
        &&& scopes_nested(self.scopes())
        &&& forall|i: int|
            0 <= i < self.closures@.len() ==> (#[trigger] self.closures@[i]).env < self.frames@.len()
    }

    /// A machine with one empty scope, number 0, and `steps` steps to take.
    pub fn new(steps: u64) -> (r: Machine)
        ensures
            r.wf(),
            r.frames@.len() == 1,
            r.scopes() == seq![FrameView { parent: None, vars: Seq::empty() }],
            r.functions() == Seq::<ClosureView>::empty(),
            r.steps == steps,
    {
        let mut frames: Vec<Frame> = Vec::new();
        frames.push(Frame { parent: None, vars: Vec::new() });
        let r = Machine { frames, closures: Vec::new(), steps };
        proof {
            assert(r.scopes() =~= seq![FrameView { parent: None, vars: Seq::empty() }]);
            assert(r.functions() =~= Seq::empty());
        }
        r
    }

    /// Makes a new empty scope inside `parent`, or outside every scope,
    /// and returns its number.
    pub fn push_frame(&mut self, parent: Option<usize>) -> (r: usize)
        requires
            old(self).wf(),
            parent matches Some(p) ==> p < old(self).frames@.len(),
        ensures
            final(self).wf(),
            r == old(self).frames@.len(),
            final(self).frames@.len() == old(self).frames@.len() + 1,
            final(self).scopes() == old(self).scopes().push(
                FrameView {
                    parent: match parent {
                        Some(p) => Some(p as int),
                        None => None,
                    },
                    vars: Seq::empty(),
                },
            ),
            final(self).closures == old(self).closures,
            final(self).steps == old(self).steps,
    {
        let frame = Frame { parent, vars: Vec::new() };
        self.frames.push(frame);
        proof {
            assert(self.scopes() =~= old(self).scopes().push(frame@));
        }
        self.frames.len() - 1
    }

    /// The value that `name` has in scope `env`.
    pub fn lookup(&self, env: usize, name: &str) -> (r: Option<&SValue>)
        requires
            self.wf(),
        ensures
            match r {
                Some(v) => visible(self.scopes(), env as int, name@) == Some(v@),
                None => visible(self.scopes(), env as int, name@) is None,
            },
    {
        let mut current = env;
        loop
            invariant
                self.wf(),
                visible(self.scopes(), env as int, name@) == visible(
                    self.scopes(),
                    current as int,
                    name@,
                ),
            decreases current,
        {
            if current >= self.frames.len() {
                return None;
            }
            let frame = &self.frames[current];
            proof {
                lemma_pairs_view(frame.vars@);
                assert(self.scopes()[current as int] == frame@);
            }
            match find(&frame.vars, name) {
                Some(i) => {
                    return Some(&frame.vars[i].1);
                },
                None => match frame.parent {
                    Some(p) => {
                        current = p;
                    },
                    None => {
                        return None;
                    },
                },
            }
        }
    }

    /// Binds `name` to `value` in scope `env` itself.
    pub fn declare(&mut self, env: usize, name: &str, value: SValue)
        requires
            old(self).wf(),
            env < old(self).frames@.len(),
        ensures
            final(self).wf(),
            final(self).frames@.len() == old(self).frames@.len(),
            final(self).scopes() == old(self).scopes().update(
                env as int,
                FrameView {
                    vars: with_entry(old(self).scopes()[env as int].vars, name@, value@),
                    ..old(self).scopes()[env as int]
                },
            ),
            final(self).closures == old(self).closures,
            final(self).steps == old(self).steps,
    {
        let ghost before = self.scopes();
        set_entry(&mut self.frames[env].vars, name, value);
        proof {
            assert(self.scopes() =~= before.update(
                env as int,
                FrameView { vars: with_entry(before[env as int].vars, name@, value@), ..before[env as int] },
            ));
        }
    }

    /// Gives `name` the value `value` in the innermost scope around `env`
    /// that binds it. Returns whether there is one.
    pub fn assign(&mut self, env: usize, name: &str, value: SValue) -> (r: bool)
        requires
            old(self).wf(),
        ensures
            final(self).wf(),
            final(self).frames@.len() == old(self).frames@.len(),
            final(self).closures == old(self).closures,
            final(self).steps == old(self).steps,
            match binding_scope(old(self).scopes(), env as int, name@) {
                Some(s) => r && final(self).scopes() == old(self).scopes().update(
                    s,
                    FrameView {
                        vars: with_entry(old(self).scopes()[s].vars, name@, value@),
                        ..old(self).scopes()[s]
                    },
                ),
                None => !r && final(self).scopes() == old(self).scopes(),
            },
    {
        let mut current = env;
        loop
            invariant
                *self == *old(self),
                self.wf(),
                binding_scope(self.scopes(), env as int, name@) == binding_scope(
                    self.scopes(),
                    current as int,
                    name@,
                ),
            decreases current,
        {
            if current >= self.frames.len() {
                return false;
            }
            let frame = &self.frames[current];
            proof {
                lemma_pairs_view(frame.vars@);
                assert(self.scopes()[current as int] == frame@);
            }
            match find(&frame.vars, name) {
                Some(i) => {
                    self.declare(current, name, value);
                    return true;
                },
                None => match frame.parent {
                    Some(p) => {
                        current = p;
                    },
                    None => {
                        return false;
                    },
                },
            }
        }
    }

    /// Records a function and returns its number.
    pub fn add_closure(&mut self, params: Vec<String>, body: SExpr, env: usize) -> (r: usize)
        requires
            old(self).wf(),
            env < old(self).frames@.len(),
        ensures
            final(self).wf(),
            r == old(self).closures@.len(),
            final(self).closures@ == old(self).closures@.push(Closure { params, body, env }),
            final(self).functions() == old(self).functions().push(
                ClosureView {
                    params: Seq::new(params@.len(), |i: int| params@[i]@),
                    body: body@,
                    env: env as int,
                },
            ),
            final(self).frames == old(self).frames,
            final(self).steps == old(self).steps,
    {
        let closure = Closure { params, body, env };
        self.closures.push(closure);
        proof {
            assert(self.functions() =~= old(self).functions().push(closure@));
        }
        self.closures.len() - 1
    }

    /// Takes one step. Returns whether a step was left to take.
    pub fn tick(&mut self) -> (r: bool)
        ensures
            r == (old(self).steps > 0),
            final(self).steps == (if old(self).steps > 0 {
                old(self).steps - 1
            } else {
                0
            }),
            final(self).frames == old(self).frames,
            final(self).closures == old(self).closures,
    {
        if self.steps > 0 {
            self.steps = self.steps - 1;
            true
        } else {
            false
        }
    }
}

} // verus!

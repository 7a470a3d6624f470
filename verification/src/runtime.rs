//! The environment: an arena of scope frames, each a name-to-value table
//! with a link to its parent frame.  Frame 0 is the root scope.
use vstd::prelude::*;

use crate::value::SpecValue;
use crate::value::Value;
use crate::value::clone_value;
use crate::value::value_view;

verus! {

/// Spec-level model of one scope frame: its parent (if any, an earlier
/// frame) and its bindings in insertion order.
#[verifier::ext_equal]
pub struct SpecFrame {
    pub parent: Option<int>,
    pub vars: Seq<(Seq<char>, SpecValue)>,
}

/// Spec-level model of the whole scope chain.
#[verifier::ext_equal]
pub struct SpecEnv {
    pub frames: Seq<SpecFrame>,
}

/// Every frame but the root points to an earlier frame, so parent chains
/// always reach the root.
pub open spec fn env_wf(env: SpecEnv) -> bool {
    &&& env.frames.len() >= 1
    &&& env.frames[0].parent is None
    &&& forall|i: int|
        0 < i < env.frames.len() ==> ((#[trigger] env.frames[i].parent) matches Some(p) && 0 <= p
            < i)
}

/// The freshly created environment: one root frame with no bindings.
pub open spec fn spec_env_new() -> SpecEnv {
    SpecEnv { frames: seq![SpecFrame { parent: None, vars: Seq::empty() }] }
}

/// The value bound to a name in one frame: the first binding with that
/// name, or nothing.
pub open spec fn local_get(vars: Seq<(Seq<char>, SpecValue)>, name: Seq<char>) -> Option<SpecValue>
    decreases vars.len(),
{
    if vars.len() == 0 {
        None
    } else if vars[0].0 == name {
        Some(vars[0].1)
    } else {
        local_get(vars.drop_first(), name)
    }
}

/// One frame's bindings after a name is set in it: the first binding with
/// that name is replaced, or a new binding is appended.
pub open spec fn local_set(
    vars: Seq<(Seq<char>, SpecValue)>,
    name: Seq<char>,
    val: SpecValue,
) -> Seq<(Seq<char>, SpecValue)>
    decreases vars.len(),
{
    if vars.len() == 0 {
        seq![(name, val)]
    } else if vars[0].0 == name {
        vars.update(0, (name, val))
    } else {
        seq![vars[0]] + local_set(vars.drop_first(), name, val)
    }
}

/// The value a name resolves to from a scope: the nearest frame in the
/// parent chain that binds it, or nothing.
pub open spec fn env_get(env: SpecEnv, scope: int, name: Seq<char>) -> Option<SpecValue>
    recommends
        env_wf(env),
        0 <= scope < env.frames.len(),
    decreases scope,
    when 0 <= scope
{
    match local_get(env.frames[scope].vars, name) {
        Some(v) => Some(v),
        None => {
            match env.frames[scope].parent {
                Some(p) => if 0 <= p < scope {
                    env_get(env, p, name)
                } else {
                    None
                },
                None => None,
            }
        },
    }
}

/// The environment after a name is bound (or rebound) in one frame.
pub open spec fn env_set_local(
    env: SpecEnv,
    scope: int,
    name: Seq<char>,
    val: SpecValue,
) -> SpecEnv
    recommends
        0 <= scope < env.frames.len(),
{
    SpecEnv {
        frames: env.frames.update(
            scope,
            SpecFrame {
                parent: env.frames[scope].parent,
                vars: local_set(env.frames[scope].vars, name, val),
            },
        ),
    }
}

/// Whether a name is bound in one frame itself, parents not consulted.
pub open spec fn env_is_defined_local(env: SpecEnv, scope: int, name: Seq<char>) -> bool
    recommends
        0 <= scope < env.frames.len(),
{
    local_get(env.frames[scope].vars, name) is Some
}

/// The environment after assigning to a name: the nearest frame in the
/// chain that binds it is updated; if none does, nothing changes and the
/// second component is false.
pub open spec fn env_assign(env: SpecEnv, scope: int, name: Seq<char>, val: SpecValue) -> (
    SpecEnv,
    bool,
)
    recommends
        env_wf(env),
        0 <= scope < env.frames.len(),
    decreases scope,
    when 0 <= scope
{
    if local_get(env.frames[scope].vars, name) is Some {
        (env_set_local(env, scope, name, val), true)
    } else {
        match env.frames[scope].parent {
            Some(p) => if 0 <= p < scope {
                env_assign(env, p, name, val)
            } else {
                (env, false)
            },
            None => (env, false),
        }
    }
}

/// Assigning never adds or removes frames.
pub proof fn lemma_env_assign_len(env: SpecEnv, scope: int, name: Seq<char>, val: SpecValue)
    requires
        0 <= scope < env.frames.len(),
    ensures
        env_assign(env, scope, name, val).0.frames.len() == env.frames.len(),
    decreases scope,
{
    if local_get(env.frames[scope].vars, name) is Some {
    } else {
        match env.frames[scope].parent {
            Some(p) => {
                if 0 <= p < scope {
                    lemma_env_assign_len(env, p, name, val);
                }
            },
            None => {},
        }
    }
}

/// The environment after a fresh child frame of `parent` is created.
pub open spec fn env_push_frame(env: SpecEnv, parent: int) -> SpecEnv {
    SpecEnv { frames: env.frames.push(SpecFrame { parent: Some(parent), vars: Seq::empty() }) }
}

struct Frame {
    parent: Option<usize>,
    vars: Vec<(String, Value)>,
}

/// The models of one frame's binding table, in order.
spec fn vars_view(s: Seq<(String, Value)>) -> Seq<(Seq<char>, SpecValue)> {
    Seq::new(s.len(), |i: int| (s[i].0@, value_view(s[i].1)))
}

spec fn frame_view(f: Frame) -> SpecFrame {
    SpecFrame {
        parent: match f.parent {
            Some(p) => Some(p as int),
            None => None,
        },
        vars: vars_view(f.vars@),
    }
}

proof fn lemma_local_get_found(vs: Seq<(Seq<char>, SpecValue)>, name: Seq<char>, k: int)
    requires
        0 <= k < vs.len(),
        vs[k].0 == name,
        forall|j: int| 0 <= j < k ==> vs[j].0 != name,
    ensures
        local_get(vs, name) == Some(vs[k].1),
    decreases vs.len(),
{
    if k > 0 {
        lemma_local_get_found(vs.drop_first(), name, k - 1);
    }
}

proof fn lemma_local_get_none(vs: Seq<(Seq<char>, SpecValue)>, name: Seq<char>)
    requires
        forall|j: int| 0 <= j < vs.len() ==> vs[j].0 != name,
    ensures
        local_get(vs, name) is None,
    decreases vs.len(),
{
    if vs.len() > 0 {
        lemma_local_get_none(vs.drop_first(), name);
    }
}

proof fn lemma_local_set_found(
    vs: Seq<(Seq<char>, SpecValue)>,
    name: Seq<char>,
    val: SpecValue,
    k: int,
)
    requires
        0 <= k < vs.len(),
        vs[k].0 == name,
        forall|j: int| 0 <= j < k ==> vs[j].0 != name,
    ensures
        local_set(vs, name, val) == vs.update(k, (name, val)),
    decreases vs.len(),
{
    if k > 0 {
        lemma_local_set_found(vs.drop_first(), name, val, k - 1);
        assert(vs.update(k, (name, val)).drop_first() =~= vs.drop_first().update(
            k - 1,
            (name, val),
        ));
        assert(seq![vs[0]] + local_set(vs.drop_first(), name, val) =~= vs.update(k, (name, val)));
    }
}

proof fn lemma_local_set_none(vs: Seq<(Seq<char>, SpecValue)>, name: Seq<char>, val: SpecValue)
    requires
        forall|j: int| 0 <= j < vs.len() ==> vs[j].0 != name,
    ensures
        local_set(vs, name, val) == vs.push((name, val)),
    decreases vs.len(),
{
    if vs.len() > 0 {
        lemma_local_set_none(vs.drop_first(), name, val);
        assert(vs.push((name, val)).drop_first() =~= vs.drop_first().push((name, val)));
        assert(seq![vs[0]] + local_set(vs.drop_first(), name, val) =~= vs.push((name, val)));
    }
}

/// The scope chain: an arena of frames.  Handles into it are frame
/// indices, with index 0 the root scope.
pub struct Runtime {
    frames: Vec<Frame>,
}

/// Finds the first binding of a name within one frame's table.
fn find_index(vars: &Vec<(String, Value)>, key: &String) -> (r: Option<usize>)
    ensures
        match r {
            Some(k) => k < vars@.len() && vars_view(vars@)[k as int].0 == key@ && forall|j: int|
                0 <= j < k ==> vars_view(vars@)[j].0 != key@,
            None => forall|j: int| 0 <= j < vars@.len() ==> vars_view(vars@)[j].0 != key@,
        },
{
    let mut i: usize = 0;
    while i < vars.len()
        invariant
            i <= vars@.len(),
            forall|j: int| 0 <= j < i ==> vars_view(vars@)[j].0 != key@,
        decreases vars@.len() - i,
    {
        if vars[i].0 == *key {
            return Some(i);
        }
        i += 1;
    }
    None
}

impl Runtime {
    /// The model of the whole scope chain.
    pub closed spec fn env(&self) -> SpecEnv {
        SpecEnv { frames: Seq::new(self.frames@.len(), |i: int| frame_view(self.frames@[i])) }
    }

    /// The arena is well formed: parent links go strictly backwards.
    pub open spec fn wf(&self) -> bool {
        env_wf(self.env())
    }

    /// Creates the root scope.
    pub fn new() -> (rt: Runtime)
        ensures
            rt.wf(),
            rt.env() == spec_env_new(),
    {
        let mut frames: Vec<Frame> = Vec::new();
        frames.push(Frame { parent: None, vars: Vec::new() });
        let rt = Runtime { frames };
        proof {
            assert(vars_view(rt.frames@[0].vars@) =~= Seq::<(Seq<char>, SpecValue)>::empty());
            assert(rt.env() =~~= spec_env_new());
        }
        rt
    }

    /// How many frames the arena holds.
    pub fn frame_count(&self) -> (n: usize)
        ensures
            n == self.env().frames.len(),
    {
        self.frames.len()
    }

    /// Creates a fresh scope whose parent is the given one, and hands back
    /// its handle.
    pub fn new_scope(&mut self, parent: usize) -> (s: usize)
        requires
            old(self).wf(),
            parent < old(self).env().frames.len(),
        ensures
            final(self).wf(),
            final(self).env() == env_push_frame(old(self).env(), parent as int),
            s == old(self).env().frames.len(),
    {
        let s = self.frames.len();
        self.frames.push(Frame { parent: Some(parent), vars: Vec::new() });
        proof {
            assert(vars_view(self.frames@[s as int].vars@) =~= Seq::<
                (Seq<char>, SpecValue),
            >::empty());
            assert(self.env() =~~= env_push_frame(old(self).env(), parent as int));
        }
        s
    }

    /// Binds a name in one frame, replacing its binding there if one
    /// exists.  Parent frames are never touched.
    pub fn set_var_value(&mut self, scope: usize, key: String, value: Value)
        requires
            old(self).wf(),
            scope < old(self).env().frames.len(),
        ensures
            final(self).wf(),
            final(self).env() == env_set_local(
                old(self).env(),
                scope as int,
                key@,
                value_view(value),
            ),
    {
        let ghost env0 = self.env();
        let ghost vs0 = vars_view(self.frames@[scope as int].vars@);
        let found = find_index(&self.frames[scope].vars, &key);
        match found {
            Some(k) => {
                proof {
                    lemma_local_set_found(vs0, key@, value_view(value), k as int);
                }
                self.frames[scope].vars[k] = (key, value);
                proof {
                    assert(vars_view(self.frames@[scope as int].vars@) =~= local_set(
                        vs0,
                        key@,
                        value_view(value),
                    ));
                    assert(self.env() =~~= env_set_local(env0, scope as int, key@, value_view(
                        value,
                    )));
                }
            },
            None => {
                proof {
                    lemma_local_set_none(vs0, key@, value_view(value));
                }
                self.frames[scope].vars.push((key, value));
                proof {
                    assert(vars_view(self.frames@[scope as int].vars@) =~= local_set(
                        vs0,
                        key@,
                        value_view(value),
                    ));
                    assert(self.env() =~~= env_set_local(env0, scope as int, key@, value_view(
                        value,
                    )));
                }
            },
        }
    }

    /// Whether a name is bound in one frame itself.
    pub fn is_var_defined(&self, scope: usize, key: &String) -> (r: bool)
        requires
            self.wf(),
            scope < self.env().frames.len(),
        ensures
            r == env_is_defined_local(self.env(), scope as int, key@),
    {
        let found = find_index(&self.frames[scope].vars, key);
        proof {
            let vs = vars_view(self.frames@[scope as int].vars@);
            match found {
                Some(k) => {
                    lemma_local_get_found(vs, key@, k as int);
                },
                None => {
                    lemma_local_get_none(vs, key@);
                },
            }
        }
        found.is_some()
    }

    /// Looks a name up from one scope through the parent chain.
    pub fn get_var_value(&self, scope: usize, key: &String) -> (r: Option<Value>)
        requires
            self.wf(),
            scope < self.env().frames.len(),
        ensures
            match r {
                Some(v) => env_get(self.env(), scope as int, key@) == Some(value_view(v)),
                None => env_get(self.env(), scope as int, key@) is None,
            },
    {
        let mut cur = scope;
        loop
            invariant
                self.wf(),
                cur < self.env().frames.len(),
                env_get(self.env(), scope as int, key@) == env_get(self.env(), cur as int, key@),
            decreases cur,
        {
            let found = find_index(&self.frames[cur].vars, key);
            let ghost vs = vars_view(self.frames@[cur as int].vars@);
            match found {
                Some(k) => {
                    proof {
                        lemma_local_get_found(vs, key@, k as int);
                    }
                    return Some(clone_value(&self.frames[cur].vars[k].1));
                },
                None => {
                    proof {
                        lemma_local_get_none(vs, key@);
                    }
                    match self.frames[cur].parent {
                        Some(p) => {
                            cur = p;
                        },
                        None => {
                            return None;
                        },
                    }
                },
            }
        }
    }

    /// Assigns to a name through the chain: updates the binding in the
    /// nearest frame that holds one, or reports that none does.
    pub fn assign_var(&mut self, scope: usize, key: &String, value: Value) -> (r: bool)
        requires
            old(self).wf(),
            scope < old(self).env().frames.len(),
        ensures
            final(self).wf(),
            ({
                let (e2, ok) = env_assign(old(self).env(), scope as int, key@, value_view(value));
                final(self).env() == e2 && r == ok
            }),
    {
        let ghost env0 = self.env();
        let mut cur = scope;
        loop
            invariant
                env0 == old(self).env(),
                self.wf(),
                self.env() == env0,
                cur < self.env().frames.len(),
                env_assign(env0, scope as int, key@, value_view(value)) == env_assign(
                    env0,
                    cur as int,
                    key@,
                    value_view(value),
                ),
            decreases cur,
        {
            let found = find_index(&self.frames[cur].vars, key);
            let ghost vs = vars_view(self.frames@[cur as int].vars@);
            match found {
                Some(k) => {
                    proof {
                        lemma_local_get_found(vs, key@, k as int);
                        lemma_local_set_found(vs, key@, value_view(value), k as int);
                    }
                    self.frames[cur].vars[k] = (key.clone(), value);
                    proof {
                        assert(vars_view(self.frames@[cur as int].vars@) =~= local_set(
                            vs,
                            key@,
                            value_view(value),
                        ));
                        assert(self.env() =~~= env_set_local(env0, cur as int, key@, value_view(
                            value,
                        )));
                        assert(env_assign(env0, cur as int, key@, value_view(value)) == (
                            env_set_local(env0, cur as int, key@, value_view(value)),
                            true,
                        ));
                    }
                    return true;
                },
                None => {
                    proof {
                        lemma_local_get_none(vs, key@);
                    }
                    match self.frames[cur].parent {
                        Some(p) => {
                            cur = p;
                        },
                        None => {
                            proof {
                                assert(env_assign(env0, cur as int, key@, value_view(value)) == (
                                    env0,
                                    false,
                                ));
                            }
                            return false;
                        },
                    }
                },
            }
        }
    }
}

} // verus!

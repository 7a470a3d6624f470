//! How evaluation moves through the scope chain: evaluating a form from a
//! scope only ever writes frames in that scope's parent chain or frames
//! created during the evaluation.  In particular a fresh call frame is
//! never touched by the evaluation of the call's own arguments, which is
//! what makes positional parameter binding meaningful.
use vstd::prelude::*;

use crate::eval_spec::lemma_nodes_height_index;
use crate::eval_spec::node_height;
use crate::eval_spec::nodes_height;
use crate::eval_spec::spec_and;
use crate::eval_spec::spec_bind_args;
use crate::eval_spec::spec_define;
use crate::eval_spec::spec_division;
use crate::eval_spec::spec_equals;
use crate::eval_spec::spec_error_form;
use crate::eval_spec::spec_eval_list;
use crate::eval_spec::spec_eval_node;
use crate::eval_spec::spec_eval_seq;
use crate::eval_spec::spec_fold_add;
use crate::eval_spec::spec_fold_mul;
use crate::eval_spec::spec_func_call;
use crate::eval_spec::spec_if;
use crate::eval_spec::spec_minus;
use crate::eval_spec::spec_or;
use crate::eval_spec::spec_set;
use crate::parser::SpecNode;
use crate::runtime::SpecEnv;
use crate::runtime::env_assign;
use crate::runtime::env_get;
use crate::runtime::env_is_defined_local;
use crate::runtime::env_push_frame;
use crate::runtime::env_set_local;
use crate::runtime::env_wf;
use crate::runtime::local_get;
use crate::value::SpecValue;

verus! {

/// Whether frame `t` lies on the parent chain of scope `s`.
pub open spec fn in_chain(env: SpecEnv, s: int, t: int) -> bool
    recommends
        env_wf(env),
        0 <= s < env.frames.len(),
    decreases s,
    when 0 <= s
{
    if t == s {
        true
    } else {
        match env.frames[s].parent {
            Some(p) => if 0 <= p < s {
                in_chain(env, p, t)
            } else {
                false
            },
            None => false,
        }
    }
}

/// Chain members never lie beyond the scope they are reached from.
pub proof fn lemma_chain_bounds(env: SpecEnv, s: int, t: int)
    requires
        0 <= s,
        in_chain(env, s, t),
    ensures
        0 <= t <= s,
    decreases s,
{
    if t != s {
        match env.frames[s].parent {
            Some(p) => {
                if 0 <= p < s {
                    lemma_chain_bounds(env, p, t);
                }
            },
            None => {},
        }
    }
}

/// Chain membership depends only on the parent links of the frames below
/// the scope, so it survives any change that keeps those links.
pub proof fn lemma_chain_stable(env: SpecEnv, env2: SpecEnv, s: int, t: int)
    requires
        0 <= s < env.frames.len(),
        env2.frames.len() >= env.frames.len(),
        forall|u: int|
            0 <= u < env.frames.len() ==> (#[trigger] env2.frames[u]).parent
                == env.frames[u].parent,
    ensures
        in_chain(env, s, t) == in_chain(env2, s, t),
    decreases s,
{
    if t != s {
        match env.frames[s].parent {
            Some(p) => {
                if 0 <= p < s {
                    lemma_chain_stable(env, env2, p, t);
                }
            },
            None => {},
        }
    }
}

/// The evaluation step from `env` to `env2` kept every frame that is not
/// on the chain of `scope`: old frames keep their parents, and old frames
/// off the chain keep their bindings too.  Frames may only be added.
pub open spec fn frames_kept(env: SpecEnv, scope: int, env2: SpecEnv) -> bool {
    &&& env2.frames.len() >= env.frames.len()
    &&& forall|t: int|
        0 <= t < env.frames.len() ==> (#[trigger] env2.frames[t]).parent == env.frames[t].parent
    &&& forall|t: int|
        0 <= t < env.frames.len() && !in_chain(env, scope, t) ==> (#[trigger] env2.frames[t])
            == env.frames[t]
}

pub proof fn lemma_kept_trans(env: SpecEnv, env1: SpecEnv, env2: SpecEnv, scope: int)
    requires
        0 <= scope < env.frames.len(),
        frames_kept(env, scope, env1),
        frames_kept(env1, scope, env2),
    ensures
        frames_kept(env, scope, env2),
{
    assert forall|t: int|
        0 <= t < env.frames.len() && !in_chain(env, scope, t) implies (#[trigger] env2.frames[t])
        == env.frames[t] by {
        lemma_chain_stable(env, env1, scope, t);
    }
}

/// Binding a name in a chain frame keeps everything this relation tracks.
pub proof fn lemma_kept_set_local(env: SpecEnv, scope: int, write: int, name: Seq<char>, val: SpecValue)
    requires
        0 <= write < env.frames.len(),
        in_chain(env, scope, write),
    ensures
        frames_kept(env, scope, env_set_local(env, write, name, val)),
{
}

/// Well-formedness depends only on the parent links, so it survives any
/// step that keeps them and gives every added frame a backward parent.
pub proof fn lemma_wf_same_parents(env: SpecEnv, env2: SpecEnv)
    requires
        env_wf(env),
        env2.frames.len() == env.frames.len(),
        forall|u: int|
            0 <= u < env.frames.len() ==> (#[trigger] env2.frames[u]).parent
                == env.frames[u].parent,
    ensures
        env_wf(env2),
{
}

pub proof fn lemma_wf_push(env: SpecEnv, parent: int)
    requires
        env_wf(env),
        0 <= parent < env.frames.len(),
    ensures
        env_wf(env_push_frame(env, parent)),
{
    let env2 = env_push_frame(env, parent);
    assert forall|i: int|
        0 < i < env2.frames.len() implies ((#[trigger] env2.frames[i].parent) matches Some(p) && 0
        <= p < i) by {
        if i < env.frames.len() {
            assert(env2.frames[i] == env.frames[i]);
        }
    }
}

/// Assignment writes exactly one frame, and that frame lies on the chain
/// of the scope it starts from; everything else is untouched.
pub proof fn lemma_assign_kept(env: SpecEnv, scope: int, name: Seq<char>, val: SpecValue)
    requires
        env_wf(env),
        0 <= scope < env.frames.len(),
    ensures
        frames_kept(env, scope, env_assign(env, scope, name, val).0),
        env_assign(env, scope, name, val).0.frames.len() == env.frames.len(),
        env_wf(env_assign(env, scope, name, val).0),
    decreases scope,
{
    crate::runtime::lemma_env_assign_len(env, scope, name, val);
    let (e2, ok) = env_assign(env, scope, name, val);
    if local_get(env.frames[scope].vars, name) is Some {
        lemma_kept_set_local(env, scope, scope, name, val);
        lemma_wf_same_parents(env, e2);
    } else {
        match env.frames[scope].parent {
            Some(p) => {
                if 0 <= p < scope {
                    lemma_assign_kept(env, p, name, val);
                    // a frame off the chain of `scope` is also off the
                    // chain of its parent
                    assert forall|t: int|
                        0 <= t < env.frames.len() && !in_chain(env, scope, t) implies (
                    #[trigger] e2.frames[t]) == env.frames[t] by {
                        assert(!in_chain(env, p, t));
                    }
                }
            },
            None => {},
        }
    }
}

/// The common conclusion of the walk below: evaluation preserves
/// well-formedness and keeps every frame off the scope's chain.
pub open spec fn eval_keeps(env: SpecEnv, scope: int, env2: SpecEnv) -> bool {
    &&& env_wf(env2)
    &&& frames_kept(env, scope, env2)
}

pub proof fn lemma_ni_seq(
    env: SpecEnv,
    scope: int,
    nodes: Seq<SpecNode>,
    i: int,
    last: SpecValue,
    fuel: nat,
)
    requires
        env_wf(env),
        0 <= scope < env.frames.len(),
        0 <= i <= nodes.len(),
    ensures
        eval_keeps(env, scope, spec_eval_seq(env, scope, nodes, i, last, fuel).0),
    decreases fuel, nodes_height(nodes), 4nat, nodes.len() - i,
{
    if i < nodes.len() {
        lemma_nodes_height_index(nodes, i);
        let (env1, r) = spec_eval_node(env, scope, nodes[i], fuel);
        lemma_ni_node(env, scope, nodes[i], fuel);
        match r {
            Err(e) => {},
            Ok(v) => {
                lemma_ni_seq(env1, scope, nodes, i + 1, v, fuel);
                lemma_kept_trans(env, env1, spec_eval_seq(env1, scope, nodes, i + 1, v, fuel).0, scope);
            },
        }
    }
}

pub proof fn lemma_ni_node(env: SpecEnv, scope: int, n: SpecNode, fuel: nat)
    requires
        env_wf(env),
        0 <= scope < env.frames.len(),
    ensures
        eval_keeps(env, scope, spec_eval_node(env, scope, n, fuel).0),
    decreases fuel, node_height(n), 0nat, 0int,
{
    match n {
        SpecNode::List(elems) => {
            if elems.len() > 0 {
                lemma_ni_list(env, scope, elems, fuel);
            }
        },
        _ => {},
    }
}

pub proof fn lemma_ni_list(env: SpecEnv, scope: int, elems: Seq<SpecNode>, fuel: nat)
    requires
        env_wf(env),
        0 <= scope < env.frames.len(),
        elems.len() > 0,
    ensures
        eval_keeps(env, scope, spec_eval_list(env, scope, elems, fuel).0),
    decreases fuel, nodes_height(elems), 3nat, elems.len() + 1,
{
    match elems[0] {
        SpecNode::Identifier(name) => {
            if name == "define"@ {
                lemma_ni_define(env, scope, elems, fuel);
            } else if name == "set!"@ {
                lemma_ni_set(env, scope, elems, fuel);
            } else if name == "lambda"@ {
            } else if name == "if"@ {
                lemma_ni_if(env, scope, elems, fuel);
            } else if name == "and"@ {
                lemma_ni_and(env, scope, elems, 1, SpecValue::Boolean(true), fuel);
            } else if name == "or"@ {
                lemma_ni_or(env, scope, elems, 1, fuel);
            } else if name == "+"@ {
                if elems.len() >= 3 {
                    lemma_ni_fold_add(env, scope, elems, 1, 0, fuel);
                }
            } else if name == "-"@ {
                lemma_ni_minus(env, scope, elems, fuel);
            } else if name == "*"@ {
                if elems.len() >= 3 {
                    lemma_ni_fold_mul(env, scope, elems, 1, 1, fuel);
                }
            } else if name == "/"@ {
                lemma_ni_division(env, scope, elems, fuel);
            } else if name == "="@ {
                lemma_ni_equals(env, scope, elems, fuel);
            } else if name == "quote"@ {
            } else if name == "error"@ {
                lemma_ni_error_form(env, scope, elems, fuel);
            } else {
                lemma_ni_func_call(env, scope, name, elems, fuel);
            }
        },
        _ => {},
    }
}

pub proof fn lemma_ni_define(env: SpecEnv, scope: int, elems: Seq<SpecNode>, fuel: nat)
    requires
        env_wf(env),
        0 <= scope < env.frames.len(),
        elems.len() > 0,
    ensures
        eval_keeps(env, scope, spec_define(env, scope, elems, fuel).0),
    decreases fuel, nodes_height(elems), 2nat, elems.len() + 1,
{
    if elems.len() == 3 {
        match elems[1] {
            SpecNode::Identifier(name) => {
                if !env_is_defined_local(env, scope, name) {
                    lemma_nodes_height_index(elems, 2);
                    let (env1, r) = spec_eval_node(env, scope, elems[2], fuel);
                    lemma_ni_node(env, scope, elems[2], fuel);
                    match r {
                        Err(e) => {},
                        Ok(v) => {
                            let env2 = env_set_local(env1, scope, name, v);
                            lemma_chain_stable(env, env1, scope, scope);
                            lemma_kept_set_local(env1, scope, scope, name, v);
                            lemma_wf_same_parents(env1, env2);
                            lemma_kept_trans(env, env1, env2, scope);
                        },
                    }
                }
            },
            _ => {},
        }
    }
}

pub proof fn lemma_ni_set(env: SpecEnv, scope: int, elems: Seq<SpecNode>, fuel: nat)
    requires
        env_wf(env),
        0 <= scope < env.frames.len(),
        elems.len() > 0,
    ensures
        eval_keeps(env, scope, spec_set(env, scope, elems, fuel).0),
    decreases fuel, nodes_height(elems), 2nat, elems.len() + 1,
{
    if elems.len() == 3 {
        match elems[1] {
            SpecNode::Identifier(name) => {
                if !(env_get(env, scope, name) is None) {
                    lemma_nodes_height_index(elems, 2);
                    let (env1, r) = spec_eval_node(env, scope, elems[2], fuel);
                    lemma_ni_node(env, scope, elems[2], fuel);
                    match r {
                        Err(e) => {},
                        Ok(v) => {
                            lemma_assign_kept(env1, scope, name, v);
                            lemma_kept_trans(env, env1, env_assign(env1, scope, name, v).0, scope);
                        },
                    }
                }
            },
            _ => {},
        }
    }
}

pub proof fn lemma_ni_if(env: SpecEnv, scope: int, elems: Seq<SpecNode>, fuel: nat)
    requires
        env_wf(env),
        0 <= scope < env.frames.len(),
        elems.len() > 0,
    ensures
        eval_keeps(env, scope, spec_if(env, scope, elems, fuel).0),
    decreases fuel, nodes_height(elems), 2nat, elems.len() + 1,
{
    if elems.len() == 4 {
        lemma_nodes_height_index(elems, 1);
        lemma_nodes_height_index(elems, 2);
        lemma_nodes_height_index(elems, 3);
        let (env1, r) = spec_eval_node(env, scope, elems[1], fuel);
        lemma_ni_node(env, scope, elems[1], fuel);
        match r {
            Err(e) => {},
            Ok(cond) => {
                if cond == SpecValue::Boolean(false) {
                    lemma_ni_node(env1, scope, elems[3], fuel);
                    lemma_kept_trans(env, env1, spec_eval_node(env1, scope, elems[3], fuel).0, scope);
                } else {
                    lemma_ni_node(env1, scope, elems[2], fuel);
                    lemma_kept_trans(env, env1, spec_eval_node(env1, scope, elems[2], fuel).0, scope);
                }
            },
        }
    }
}

pub proof fn lemma_ni_and(
    env: SpecEnv,
    scope: int,
    elems: Seq<SpecNode>,
    i: int,
    last: SpecValue,
    fuel: nat,
)
    requires
        env_wf(env),
        0 <= scope < env.frames.len(),
        1 <= i <= elems.len(),
    ensures
        eval_keeps(env, scope, spec_and(env, scope, elems, i, last, fuel).0),
    decreases fuel, nodes_height(elems), 2nat, elems.len() - i,
{
    if i < elems.len() {
        lemma_nodes_height_index(elems, i);
        let (env1, r) = spec_eval_node(env, scope, elems[i], fuel);
        lemma_ni_node(env, scope, elems[i], fuel);
        match r {
            Err(e) => {},
            Ok(v) => {
                if v != SpecValue::Boolean(false) {
                    lemma_ni_and(env1, scope, elems, i + 1, v, fuel);
                    lemma_kept_trans(env, env1, spec_and(env1, scope, elems, i + 1, v, fuel).0, scope);
                }
            },
        }
    }
}

pub proof fn lemma_ni_or(env: SpecEnv, scope: int, elems: Seq<SpecNode>, i: int, fuel: nat)
    requires
        env_wf(env),
        0 <= scope < env.frames.len(),
        1 <= i <= elems.len(),
    ensures
        eval_keeps(env, scope, spec_or(env, scope, elems, i, fuel).0),
    decreases fuel, nodes_height(elems), 2nat, elems.len() - i,
{
    if i < elems.len() {
        lemma_nodes_height_index(elems, i);
        let (env1, r) = spec_eval_node(env, scope, elems[i], fuel);
        lemma_ni_node(env, scope, elems[i], fuel);
        match r {
            Err(e) => {},
            Ok(v) => {
                if v == SpecValue::Boolean(false) {
                    lemma_ni_or(env1, scope, elems, i + 1, fuel);
                    lemma_kept_trans(env, env1, spec_or(env1, scope, elems, i + 1, fuel).0, scope);
                }
            },
        }
    }
}

pub proof fn lemma_ni_fold_add(
    env: SpecEnv,
    scope: int,
    elems: Seq<SpecNode>,
    i: int,
    acc: int,
    fuel: nat,
)
    requires
        env_wf(env),
        0 <= scope < env.frames.len(),
        1 <= i <= elems.len(),
    ensures
        eval_keeps(env, scope, spec_fold_add(env, scope, elems, i, acc, fuel).0),
    decreases fuel, nodes_height(elems), 2nat, elems.len() - i,
{
    if i < elems.len() {
        lemma_nodes_height_index(elems, i);
        let (env1, r) = spec_eval_node(env, scope, elems[i], fuel);
        lemma_ni_node(env, scope, elems[i], fuel);
        match r {
            Err(e) => {},
            Ok(v) => {
                match v {
                    SpecValue::Integer(x) => {
                        if isize::MIN as int <= acc + x <= isize::MAX as int {
                            lemma_ni_fold_add(env1, scope, elems, i + 1, acc + x, fuel);
                            lemma_kept_trans(
                                env,
                                env1,
                                spec_fold_add(env1, scope, elems, i + 1, acc + x, fuel).0,
                                scope,
                            );
                        }
                    },
                    _ => {},
                }
            },
        }
    }
}

pub proof fn lemma_ni_fold_mul(
    env: SpecEnv,
    scope: int,
    elems: Seq<SpecNode>,
    i: int,
    acc: int,
    fuel: nat,
)
    requires
        env_wf(env),
        0 <= scope < env.frames.len(),
        1 <= i <= elems.len(),
    ensures
        eval_keeps(env, scope, spec_fold_mul(env, scope, elems, i, acc, fuel).0),
    decreases fuel, nodes_height(elems), 2nat, elems.len() - i,
{
    if i < elems.len() {
        lemma_nodes_height_index(elems, i);
        let (env1, r) = spec_eval_node(env, scope, elems[i], fuel);
        lemma_ni_node(env, scope, elems[i], fuel);
        match r {
            Err(e) => {},
            Ok(v) => {
                match v {
                    SpecValue::Integer(x) => {
                        if isize::MIN as int <= acc * x <= isize::MAX as int {
                            lemma_ni_fold_mul(env1, scope, elems, i + 1, acc * x, fuel);
                            lemma_kept_trans(
                                env,
                                env1,
                                spec_fold_mul(env1, scope, elems, i + 1, acc * x, fuel).0,
                                scope,
                            );
                        }
                    },
                    _ => {},
                }
            },
        }
    }
}

pub proof fn lemma_ni_minus(env: SpecEnv, scope: int, elems: Seq<SpecNode>, fuel: nat)
    requires
        env_wf(env),
        0 <= scope < env.frames.len(),
        elems.len() > 0,
    ensures
        eval_keeps(env, scope, spec_minus(env, scope, elems, fuel).0),
    decreases fuel, nodes_height(elems), 2nat, elems.len() + 1,
{
    if elems.len() == 3 {
        lemma_nodes_height_index(elems, 1);
        lemma_nodes_height_index(elems, 2);
        let (env1, r1) = spec_eval_node(env, scope, elems[1], fuel);
        lemma_ni_node(env, scope, elems[1], fuel);
        match r1 {
            Err(e) => {},
            Ok(left) => {
                lemma_ni_node(env1, scope, elems[2], fuel);
                lemma_kept_trans(env, env1, spec_eval_node(env1, scope, elems[2], fuel).0, scope);
            },
        }
    }
}

pub proof fn lemma_ni_division(env: SpecEnv, scope: int, elems: Seq<SpecNode>, fuel: nat)
    requires
        env_wf(env),
        0 <= scope < env.frames.len(),
        elems.len() > 0,
    ensures
        eval_keeps(env, scope, spec_division(env, scope, elems, fuel).0),
    decreases fuel, nodes_height(elems), 2nat, elems.len() + 1,
{
    if elems.len() == 3 {
        lemma_nodes_height_index(elems, 1);
        lemma_nodes_height_index(elems, 2);
        let (env1, r1) = spec_eval_node(env, scope, elems[1], fuel);
        lemma_ni_node(env, scope, elems[1], fuel);
        match r1 {
            Err(e) => {},
            Ok(left) => {
                lemma_ni_node(env1, scope, elems[2], fuel);
                lemma_kept_trans(env, env1, spec_eval_node(env1, scope, elems[2], fuel).0, scope);
            },
        }
    }
}

pub proof fn lemma_ni_equals(env: SpecEnv, scope: int, elems: Seq<SpecNode>, fuel: nat)
    requires
        env_wf(env),
        0 <= scope < env.frames.len(),
        elems.len() > 0,
    ensures
        eval_keeps(env, scope, spec_equals(env, scope, elems, fuel).0),
    decreases fuel, nodes_height(elems), 2nat, elems.len() + 1,
{
    if elems.len() == 3 {
        lemma_nodes_height_index(elems, 1);
        lemma_nodes_height_index(elems, 2);
        let (env1, r1) = spec_eval_node(env, scope, elems[1], fuel);
        lemma_ni_node(env, scope, elems[1], fuel);
        match r1 {
            Err(e) => {},
            Ok(left) => {
                lemma_ni_node(env1, scope, elems[2], fuel);
                lemma_kept_trans(env, env1, spec_eval_node(env1, scope, elems[2], fuel).0, scope);
            },
        }
    }
}

pub proof fn lemma_ni_error_form(env: SpecEnv, scope: int, elems: Seq<SpecNode>, fuel: nat)
    requires
        env_wf(env),
        0 <= scope < env.frames.len(),
        elems.len() > 0,
    ensures
        eval_keeps(env, scope, spec_error_form(env, scope, elems, fuel).0),
    decreases fuel, nodes_height(elems), 2nat, elems.len() + 1,
{
    if elems.len() == 2 {
        lemma_nodes_height_index(elems, 1);
        lemma_ni_node(env, scope, elems[1], fuel);
    }
}

pub proof fn lemma_ni_bind_args(
    env: SpecEnv,
    caller_scope: int,
    func_scope: int,
    params: Seq<Seq<char>>,
    elems: Seq<SpecNode>,
    i: int,
    fuel: nat,
)
    requires
        env_wf(env),
        0 <= caller_scope < env.frames.len(),
        0 <= func_scope < env.frames.len(),
        !in_chain(env, caller_scope, func_scope),
        1 <= i <= elems.len(),
        params.len() == elems.len() - 1,
    ensures
        ({
            let e2 = spec_bind_args(env, caller_scope, func_scope, params, elems, i, fuel).0;
            &&& env_wf(e2)
            &&& e2.frames.len() >= env.frames.len()
            &&& forall|t: int|
                0 <= t < env.frames.len() ==> (#[trigger] e2.frames[t]).parent
                    == env.frames[t].parent
            &&& forall|t: int|
                0 <= t < env.frames.len() && t != func_scope && !in_chain(env, caller_scope, t)
                    ==> (#[trigger] e2.frames[t]) == env.frames[t]
        }),
    decreases fuel, nodes_height(elems), 2nat, elems.len() - i,
{
    if i < elems.len() {
        lemma_nodes_height_index(elems, i);
        let (env1, r) = spec_eval_node(env, caller_scope, elems[i], fuel);
        lemma_ni_node(env, caller_scope, elems[i], fuel);
        match r {
            Err(e) => {},
            Ok(v) => {
                assert(env1.frames[func_scope] == env.frames[func_scope]);
                let env2 = env_set_local(env1, func_scope, params[i - 1], v);
                lemma_wf_same_parents(env1, env2);
                lemma_chain_stable(env, env1, caller_scope, func_scope);
                lemma_chain_stable(env, env2, caller_scope, func_scope);
                lemma_ni_bind_args(env2, caller_scope, func_scope, params, elems, i + 1, fuel);
                let e3 = spec_bind_args(
                    env2,
                    caller_scope,
                    func_scope,
                    params,
                    elems,
                    i + 1,
                    fuel,
                ).0;
                assert forall|t: int|
                    0 <= t < env.frames.len() && t != func_scope && !in_chain(
                        env,
                        caller_scope,
                        t,
                    ) implies (#[trigger] e3.frames[t]) == env.frames[t] by {
                    assert(env1.frames[t] == env.frames[t]);
                    assert(env2.frames[t] == env1.frames[t]);
                    lemma_chain_stable(env, env2, caller_scope, t);
                }
            },
        }
    }
}

pub proof fn lemma_ni_func_call(
    env: SpecEnv,
    scope: int,
    name: Seq<char>,
    elems: Seq<SpecNode>,
    fuel: nat,
)
    requires
        env_wf(env),
        0 <= scope < env.frames.len(),
        elems.len() > 0,
    ensures
        eval_keeps(env, scope, spec_func_call(env, scope, name, elems, fuel).0),
    decreases fuel, nodes_height(elems), 2nat, elems.len() + 1,
{
    if fuel > 0 {
        match env_get(env, scope, name) {
            None => {},
            Some(v) => {
                match v {
                    SpecValue::Func(params, body) => {
                        if params.len() == elems.len() - 1 {
                            let func_scope = env.frames.len() as int;
                            let env1 = env_push_frame(env, scope);
                            lemma_wf_push(env, scope);
                            assert(frames_kept(env, scope, env1));
                            // the fresh frame is beyond every old frame, so
                            // it lies on no old chain
                            assert(!in_chain(env1, scope, func_scope)) by {
                                lemma_chain_stable(env, env1, scope, func_scope);
                                if in_chain(env, scope, func_scope) {
                                    lemma_chain_bounds(env, scope, func_scope);
                                }
                            }
                            lemma_ni_bind_args(env1, scope, func_scope, params, elems, 1, fuel);
                            let (env2, failed) = spec_bind_args(
                                env1,
                                scope,
                                func_scope,
                                params,
                                elems,
                                1,
                                fuel,
                            );
                            assert(frames_kept(env, scope, env2)) by {
                                assert forall|t: int|
                                    0 <= t < env.frames.len() && !in_chain(env, scope, t) implies (
                                #[trigger] env2.frames[t]) == env.frames[t] by {
                                    lemma_chain_stable(env, env1, scope, t);
                                    assert(t != func_scope);
                                }
                            }
                            match failed {
                                Some(e) => {},
                                None => {
                                    let (env3, r3) = spec_eval_seq(
                                        env2,
                                        func_scope,
                                        body,
                                        0,
                                        crate::value::spec_empty(),
                                        (fuel - 1) as nat,
                                    );
                                    lemma_ni_seq(
                                        env2,
                                        func_scope,
                                        body,
                                        0,
                                        crate::value::spec_empty(),
                                        (fuel - 1) as nat,
                                    );
                                    // a frame off the caller's chain is also
                                    // off the fresh frame's chain, which is
                                    // the caller's chain plus that frame
                                    assert(frames_kept(env, scope, env3)) by {
                                        assert forall|t: int|
                                            0 <= t < env.frames.len() && !in_chain(env, scope, t) implies (
                                        #[trigger] env3.frames[t]) == env.frames[t] by {
                                            assert(env2.frames[t] == env.frames[t]);
                                            lemma_chain_stable(env, env2, scope, t);
                                            assert(!in_chain(env2, func_scope, t)) by {
                                                if in_chain(env2, func_scope, t) {
                                                    assert(t != func_scope);
                                                    assert(env2.frames[func_scope].parent == Some(
                                                        scope,
                                                    ));
                                                    assert(in_chain(env2, scope, t));
                                                }
                                            }
                                        }
                                    }
                                },
                            }
                        }
                    },
                    _ => {},
                }
            },
        }
    }
}

} // verus!

//! General properties of the pipeline, stated and proved over the spec
//! models that the executable functions are verified against.
use vstd::prelude::*;

use crate::errors::SpecLexErr;
use crate::eval_spec::msg_already_defined;
use crate::eval_spec::msg_set_undefined;
use crate::eval_spec::spec_and;
use crate::eval_spec::spec_define;
use crate::eval_spec::spec_eval_list;
use crate::eval_spec::spec_eval_node;
use crate::eval_spec::spec_or;
use crate::eval_spec::spec_quote;
use crate::eval_spec::spec_set;
use crate::lex_spec::spec_after_token;
use crate::lex_spec::spec_line_at;
use crate::lex_spec::spec_tokenize;
use crate::lex_spec::spec_tokenize_from;
use crate::numfmt::spec_int_digits;
use crate::parser::SpecNode;
use crate::runtime::SpecEnv;
use crate::runtime::env_assign;
use crate::runtime::env_get;
use crate::runtime::env_is_defined_local;
use crate::runtime::env_push_frame;
use crate::runtime::env_set_local;
use crate::runtime::env_wf;
use crate::runtime::local_get;
use crate::runtime::local_set;
use crate::value::SpecValue;
use crate::value::spec_display;
use crate::value::spec_print;

verus! {

/// A literal atom evaluates to the matching value, the scope chain is
/// left untouched, and the value's print form is the atom's own text:
/// an integer as its decimal digits, a boolean as `#t` or `#f`, and a
/// string wrapped in double quotes.
pub proof fn lemma_atom_self_evaluation(env: SpecEnv, scope: int, n: SpecNode, fuel: nat)
    requires
        n is Integer || n is Boolean || n is StringNode,
    ensures
        spec_eval_node(env, scope, n, fuel).0 == env,
        n matches SpecNode::Integer(v) ==> spec_eval_node(env, scope, n, fuel).1 == Ok::<
            SpecValue,
            Seq<char>,
        >(SpecValue::Integer(v)) && spec_print(SpecValue::Integer(v)) == spec_int_digits(v),
        n matches SpecNode::Boolean(b) ==> spec_eval_node(env, scope, n, fuel).1 == Ok::<
            SpecValue,
            Seq<char>,
        >(SpecValue::Boolean(b)) && spec_print(SpecValue::Boolean(b)) == (if b {
            "#t"@
        } else {
            "#f"@
        }),
        n matches SpecNode::StringNode(s) ==> spec_eval_node(env, scope, n, fuel).1 == Ok::<
            SpecValue,
            Seq<char>,
        >(SpecValue::StringValue(s)) && spec_print(SpecValue::StringValue(s)) == seq!['"'] + s
            + seq!['"'],
{
}

/// `quote` never evaluates its argument: for every argument node, however
/// ill-behaved it would be to evaluate, the form yields the quoted value
/// and the scope chain is exactly as before.
pub proof fn lemma_quote_does_not_evaluate(
    env: SpecEnv,
    scope: int,
    elems: Seq<SpecNode>,
    fuel: nat,
)
    requires
        elems.len() == 2,
        elems[0] == SpecNode::Identifier("quote"@),
    ensures
        spec_eval_list(env, scope, elems, fuel) == (env, Ok::<SpecValue, Seq<char>>(
            spec_quote(elems[1]),
        )),
{
    reveal_strlit("define");
    reveal_strlit("set!");
    reveal_strlit("lambda");
    reveal_strlit("if");
    reveal_strlit("and");
    reveal_strlit("or");
    reveal_strlit("+");
    reveal_strlit("-");
    reveal_strlit("*");
    reveal_strlit("/");
    reveal_strlit("=");
    reveal_strlit("quote");
    reveal_strlit("error");
}

/// A user `error` call evaluates its argument and always fails the form,
/// with the argument's display form as the message.
pub proof fn lemma_error_always_fails(env: SpecEnv, scope: int, elems: Seq<SpecNode>, fuel: nat)
    requires
        elems.len() == 2,
        elems[0] == SpecNode::Identifier("error"@),
        spec_eval_node(env, scope, elems[1], fuel).1 is Ok,
    ensures
        spec_eval_list(env, scope, elems, fuel) == (
            spec_eval_node(env, scope, elems[1], fuel).0,
            Err::<SpecValue, Seq<char>>(
                spec_display(spec_eval_node(env, scope, elems[1], fuel).1->Ok_0),
            ),
        ),
{
    reveal_strlit("define");
    reveal_strlit("set!");
    reveal_strlit("lambda");
    reveal_strlit("if");
    reveal_strlit("and");
    reveal_strlit("or");
    reveal_strlit("+");
    reveal_strlit("-");
    reveal_strlit("*");
    reveal_strlit("/");
    reveal_strlit("=");
    reveal_strlit("quote");
    reveal_strlit("error");
    let (env1, r) = spec_eval_node(env, scope, elems[1], fuel);
    assert("error"@.len() == 5);
    assert("define"@.len() == 6);
    assert("set!"@.len() == 4);
    assert("lambda"@.len() == 6);
    assert("if"@.len() == 2);
    assert("and"@.len() == 3);
    assert("or"@.len() == 2);
    assert("+"@.len() == 1);
    assert("-"@.len() == 1);
    assert("*"@.len() == 1);
    assert("/"@.len() == 1);
    assert("="@.len() == 1);
    assert("quote"@.len() == 5);
    assert("error"@[0] == 'e');
    assert("quote"@[0] == 'q');
    assert("error"@ != "quote"@);
    assert(spec_eval_list(env, scope, elems, fuel) == crate::eval_spec::spec_error_form(
        env,
        scope,
        elems,
        fuel,
    ));
    assert(crate::eval_spec::spec_error_form(env, scope, elems, fuel) == (
        env1,
        Err::<SpecValue, Seq<char>>(spec_display(r->Ok_0)),
    ));
}

/// Looking up a name just bound in a frame hands back exactly the bound
/// value.
pub proof fn lemma_local_set_get(vars: Seq<(Seq<char>, SpecValue)>, name: Seq<char>, val: SpecValue)
    ensures
        local_get(local_set(vars, name, val), name) == Some(val),
    decreases vars.len(),
{
    if vars.len() == 0 {
    } else if vars[0].0 == name {
    } else {
        lemma_local_set_get(vars.drop_first(), name, val);
        assert((seq![vars[0]] + local_set(vars.drop_first(), name, val)).drop_first()
            =~= local_set(vars.drop_first(), name, val));
    }
}

/// `define` then read back round-trips: after a name is bound in a scope,
/// looking it up from that scope yields the bound value.
pub proof fn lemma_define_then_lookup(env: SpecEnv, scope: int, name: Seq<char>, val: SpecValue)
    requires
        env_wf(env),
        0 <= scope < env.frames.len(),
    ensures
        env_get(env_set_local(env, scope, name, val), scope, name) == Some(val),
{
    lemma_local_set_get(env.frames[scope].vars, name, val);
}

/// Redefining a name already bound in the current frame is rejected, with
/// a message identifying the name, and nothing changes.
pub proof fn lemma_redefine_rejected(env: SpecEnv, scope: int, elems: Seq<SpecNode>, fuel: nat)
    requires
        elems.len() == 3,
        elems[1] is Identifier,
        env_is_defined_local(env, scope, elems[1]->Identifier_0),
    ensures
        spec_define(env, scope, elems, fuel) == (env, Err::<SpecValue, Seq<char>>(
            msg_already_defined(elems[1]->Identifier_0),
        )),
{
}

/// `set!` of a name with no visible binding is rejected, with a message
/// identifying the name, before anything is evaluated.
pub proof fn lemma_set_undefined_rejected(env: SpecEnv, scope: int, elems: Seq<SpecNode>, fuel: nat)
    requires
        elems.len() == 3,
        elems[1] is Identifier,
        env_get(env, scope, elems[1]->Identifier_0) is None,
    ensures
        spec_set(env, scope, elems, fuel) == (env, Err::<SpecValue, Seq<char>>(
            msg_set_undefined(elems[1]->Identifier_0),
        )),
{
}

/// Assigning to a visibly bound name succeeds, subsequent reads from the
/// same scope see the new value, and no frame is added or removed; frames
/// nearer the leaves than the updated one are untouched.
pub proof fn lemma_assign_then_lookup(env: SpecEnv, scope: int, name: Seq<char>, val: SpecValue)
    requires
        env_wf(env),
        0 <= scope < env.frames.len(),
        env_get(env, scope, name) is Some,
    ensures
        env_assign(env, scope, name, val).1 == true,
        env_assign(env, scope, name, val).0.frames.len() == env.frames.len(),
        env_get(env_assign(env, scope, name, val).0, scope, name) == Some(val),
        forall|j: int|
            scope < j < env.frames.len() ==> env_assign(env, scope, name, val).0.frames[j]
                == env.frames[j],
    decreases scope,
{
    if local_get(env.frames[scope].vars, name) is Some {
        lemma_local_set_get(env.frames[scope].vars, name, val);
    } else {
        let p = env.frames[scope].parent->0;
        lemma_assign_then_lookup(env, p, name, val);
        let e2 = env_assign(env, p, name, val).0;
        assert(e2.frames[scope] == env.frames[scope]);
    }
}

/// `and` short-circuits: as soon as one argument evaluates to false, the
/// form's result is false and the state is the one reached right after
/// that argument — nothing beyond it is evaluated.
pub proof fn lemma_and_short_circuits(
    env: SpecEnv,
    scope: int,
    elems: Seq<SpecNode>,
    i: int,
    last: SpecValue,
    fuel: nat,
)
    requires
        1 <= i < elems.len(),
        spec_eval_node(env, scope, elems[i], fuel).1 == Ok::<SpecValue, Seq<char>>(
            SpecValue::Boolean(false),
        ),
    ensures
        spec_and(env, scope, elems, i, last, fuel) == (
            spec_eval_node(env, scope, elems[i], fuel).0,
            Ok::<SpecValue, Seq<char>>(SpecValue::Boolean(false)),
        ),
{
}

/// `or` short-circuits: as soon as one argument evaluates to a non-false
/// value, the form's result is that value and the state is the one
/// reached right after that argument — nothing beyond it is evaluated.
pub proof fn lemma_or_short_circuits(
    env: SpecEnv,
    scope: int,
    elems: Seq<SpecNode>,
    i: int,
    fuel: nat,
)
    requires
        1 <= i < elems.len(),
        spec_eval_node(env, scope, elems[i], fuel).1 is Ok,
        spec_eval_node(env, scope, elems[i], fuel).1 != Ok::<SpecValue, Seq<char>>(
            SpecValue::Boolean(false),
        ),
    ensures
        spec_or(env, scope, elems, i, fuel) == (
            spec_eval_node(env, scope, elems[i], fuel).0,
            spec_eval_node(env, scope, elems[i], fuel).1,
        ),
{
}

/// The integer values the argument nodes from position `i` on evaluate
/// to, in order, the scope chain threaded left to right — provided every
/// argument evaluates without error to an integer (otherwise nothing).
pub open spec fn spec_args_as_ints(
    env: SpecEnv,
    scope: int,
    elems: Seq<SpecNode>,
    i: int,
    fuel: nat,
) -> (SpecEnv, Option<Seq<int>>)
    decreases elems.len() - i,
    when 1 <= i <= elems.len()
{
    if i >= elems.len() {
        (env, Some(Seq::empty()))
    } else {
        let (env1, r) = spec_eval_node(env, scope, elems[i], fuel);
        match r {
            Ok(v) => match v {
                SpecValue::Integer(x) => {
                    let (env2, rest) = spec_args_as_ints(env1, scope, elems, i + 1, fuel);
                    match rest {
                        Some(xs) => (env2, Some(seq![x] + xs)),
                        None => (env2, None),
                    }
                },
                _ => (env1, None),
            },
            Err(e) => (env1, None),
        }
    }
}

/// The sum of a sequence of integers.
pub open spec fn int_seq_sum(xs: Seq<int>) -> int
    decreases xs.len(),
{
    if xs.len() == 0 {
        0
    } else {
        xs[0] + int_seq_sum(xs.drop_first())
    }
}

/// The running sums from `acc` stay within the integer type.
pub open spec fn sums_in_range(acc: int, xs: Seq<int>) -> bool
    decreases xs.len(),
{
    if xs.len() == 0 {
        true
    } else {
        isize::MIN as int <= acc + xs[0] <= isize::MAX as int && sums_in_range(
            acc + xs[0],
            xs.drop_first(),
        )
    }
}

/// `+` folds addition left to right: whenever every argument evaluates to
/// an integer and the running sums stay in range, the form succeeds with
/// the accumulator plus the sum of those values, in the state the argument
/// evaluations reach.  Argument expressions may have side effects; the
/// values are taken in evaluation order.
pub proof fn lemma_plus_folds_addition(
    env: SpecEnv,
    scope: int,
    elems: Seq<SpecNode>,
    i: int,
    acc: int,
    fuel: nat,
)
    requires
        1 <= i <= elems.len(),
        spec_args_as_ints(env, scope, elems, i, fuel).1 is Some,
        sums_in_range(acc, spec_args_as_ints(env, scope, elems, i, fuel).1->0),
    ensures
        crate::eval_spec::spec_fold_add(env, scope, elems, i, acc, fuel) == (
            spec_args_as_ints(env, scope, elems, i, fuel).0,
            Ok::<SpecValue, Seq<char>>(
                SpecValue::Integer(acc + int_seq_sum(spec_args_as_ints(env, scope, elems, i, fuel).1->0)),
            ),
        ),
    decreases elems.len() - i,
{
    let (envf, oxs) = spec_args_as_ints(env, scope, elems, i, fuel);
    let xs = oxs->0;
    if i < elems.len() {
        let (env1, r) = spec_eval_node(env, scope, elems[i], fuel);
        let x = r->Ok_0->Integer_0;
        let (env2, rest) = spec_args_as_ints(env1, scope, elems, i + 1, fuel);
        assert(xs == seq![x] + rest->0);
        assert(xs[0] == x);
        assert(xs.drop_first() =~= rest->0);
        lemma_plus_folds_addition(env1, scope, elems, i + 1, acc + x, fuel);
        crate::eval_spec::lemma_nodes_height_index(elems, i);
        assert(crate::eval_spec::spec_fold_add(env, scope, elems, i, acc, fuel)
            == crate::eval_spec::spec_fold_add(env1, scope, elems, i + 1, acc + x, fuel));
    } else {
        assert(xs.len() == 0);
    }
}

/// The product of a sequence of integers.
pub open spec fn int_seq_product(xs: Seq<int>) -> int
    decreases xs.len(),
{
    if xs.len() == 0 {
        1
    } else {
        xs[0] * int_seq_product(xs.drop_first())
    }
}

/// The running products from `acc` stay within the integer type.
pub open spec fn products_in_range(acc: int, xs: Seq<int>) -> bool
    decreases xs.len(),
{
    if xs.len() == 0 {
        true
    } else {
        isize::MIN as int <= acc * xs[0] <= isize::MAX as int && products_in_range(
            acc * xs[0],
            xs.drop_first(),
        )
    }
}

/// `*` folds multiplication left to right: whenever every argument
/// evaluates to an integer and the running products stay in range, the
/// form succeeds with the accumulator times the product of those values,
/// in the state the argument evaluations reach.
pub proof fn lemma_mult_folds_multiplication(
    env: SpecEnv,
    scope: int,
    elems: Seq<SpecNode>,
    i: int,
    acc: int,
    fuel: nat,
)
    requires
        1 <= i <= elems.len(),
        spec_args_as_ints(env, scope, elems, i, fuel).1 is Some,
        products_in_range(acc, spec_args_as_ints(env, scope, elems, i, fuel).1->0),
    ensures
        crate::eval_spec::spec_fold_mul(env, scope, elems, i, acc, fuel) == (
            spec_args_as_ints(env, scope, elems, i, fuel).0,
            Ok::<SpecValue, Seq<char>>(
                SpecValue::Integer(
                    acc * int_seq_product(spec_args_as_ints(env, scope, elems, i, fuel).1->0),
                ),
            ),
        ),
    decreases elems.len() - i,
{
    let (envf, oxs) = spec_args_as_ints(env, scope, elems, i, fuel);
    let xs = oxs->0;
    if i < elems.len() {
        let (env1, r) = spec_eval_node(env, scope, elems[i], fuel);
        let x = r->Ok_0->Integer_0;
        let (env2, rest) = spec_args_as_ints(env1, scope, elems, i + 1, fuel);
        assert(xs == seq![x] + rest->0);
        assert(xs[0] == x);
        assert(xs.drop_first() =~= rest->0);
        lemma_mult_folds_multiplication(env1, scope, elems, i + 1, acc * x, fuel);
        crate::eval_spec::lemma_nodes_height_index(elems, i);
        assert(crate::eval_spec::spec_fold_mul(env, scope, elems, i, acc, fuel)
            == crate::eval_spec::spec_fold_mul(env1, scope, elems, i + 1, acc * x, fuel));
        assert(acc * (x * int_seq_product(rest->0)) == (acc * x) * int_seq_product(rest->0))
            by (nonlinear_arith);
    } else {
        assert(xs.len() == 0);
    }
}

/// Binding one name never disturbs what another name is bound to.
pub proof fn lemma_local_set_preserves(
    vars: Seq<(Seq<char>, SpecValue)>,
    name: Seq<char>,
    val: SpecValue,
    other: Seq<char>,
)
    requires
        name != other,
    ensures
        local_get(local_set(vars, name, val), other) == local_get(vars, other),
    decreases vars.len(),
{
    if vars.len() == 0 {
        assert(seq![(name, val)].drop_first() =~= Seq::<(Seq<char>, SpecValue)>::empty());
        assert(local_get(seq![(name, val)].drop_first(), other) is None);
        assert(local_get(vars, other) is None);
    } else if vars[0].0 == name {
        assert(vars.update(0, (name, val))[0] == (name, val));
        assert(vars.update(0, (name, val)).drop_first() =~= vars.drop_first());
    } else {
        lemma_local_set_preserves(vars.drop_first(), name, val, other);
        assert((seq![vars[0]] + local_set(vars.drop_first(), name, val))[0] == vars[0]);
        assert((seq![vars[0]] + local_set(vars.drop_first(), name, val)).drop_first()
            =~= local_set(vars.drop_first(), name, val));
    }
}

/// The values the arguments of a call evaluate to, in evaluation order,
/// exactly as the binding walk sees them: each argument runs in the
/// caller's scope on the state the walk has reached.
pub open spec fn bind_args_values(
    env: SpecEnv,
    caller_scope: int,
    func_scope: int,
    params: Seq<Seq<char>>,
    elems: Seq<SpecNode>,
    i: int,
    fuel: nat,
) -> Seq<SpecValue>
    decreases elems.len() - i,
    when 1 <= i <= elems.len() && params.len() == elems.len() - 1
{
    if i >= elems.len() {
        Seq::empty()
    } else {
        let (env1, r) = spec_eval_node(env, caller_scope, elems[i], fuel);
        match r {
            Ok(v) => seq![v] + bind_args_values(
                env_set_local(env1, func_scope, params[i - 1], v),
                caller_scope,
                func_scope,
                params,
                elems,
                i + 1,
                fuel,
            ),
            Err(e) => Seq::empty(),
        }
    }
}

/// Function application binds parameters positionally: when the binding
/// walk succeeds, each parameter reads back in the fresh call frame as
/// exactly the value its argument evaluated to — whatever side effects
/// the arguments had, since evaluation from the caller's scope cannot
/// reach the fresh frame (`eval_frames`).  Names not among the parameters
/// keep whatever bindings the frame held.
pub proof fn lemma_call_binds_positionally(
    env: SpecEnv,
    caller_scope: int,
    func_scope: int,
    params: Seq<Seq<char>>,
    elems: Seq<SpecNode>,
    i: int,
    fuel: nat,
)
    requires
        env_wf(env),
        0 <= caller_scope < env.frames.len(),
        0 <= func_scope < env.frames.len(),
        !crate::eval_frames::in_chain(env, caller_scope, func_scope),
        1 <= i <= elems.len(),
        params.len() == elems.len() - 1,
        forall|k1: int, k2: int|
            0 <= k1 < k2 < params.len() ==> params[k1] != params[k2],
        crate::eval_spec::spec_bind_args(
            env,
            caller_scope,
            func_scope,
            params,
            elems,
            i,
            fuel,
        ).1 is None,
    ensures
        ({
            let e2 = crate::eval_spec::spec_bind_args(
                env,
                caller_scope,
                func_scope,
                params,
                elems,
                i,
                fuel,
            ).0;
            let vals = bind_args_values(env, caller_scope, func_scope, params, elems, i, fuel);
            &&& vals.len() == elems.len() - i
            &&& e2.frames.len() >= env.frames.len()
            &&& forall|k: int|
                i - 1 <= k < params.len() ==> local_get(e2.frames[func_scope].vars, params[k])
                    == Some(vals[k - (i - 1)])
            &&& forall|n: Seq<char>|
                (forall|k: int| i - 1 <= k < params.len() ==> params[k] != n) ==> local_get(
                    e2.frames[func_scope].vars,
                    n,
                ) == local_get(env.frames[func_scope].vars, n)
        }),
    decreases elems.len() - i,
{
    if i < elems.len() {
        let (env1, r) = spec_eval_node(env, caller_scope, elems[i], fuel);
        let v = r->Ok_0;
        crate::eval_frames::lemma_ni_node(env, caller_scope, elems[i], fuel);
        assert(env1.frames[func_scope] == env.frames[func_scope]);
        let env2 = env_set_local(env1, func_scope, params[i - 1], v);
        crate::eval_frames::lemma_wf_same_parents(env1, env2);
        crate::eval_frames::lemma_chain_stable(env, env1, caller_scope, func_scope);
        crate::eval_frames::lemma_chain_stable(env, env2, caller_scope, func_scope);
        assert(env2.frames[func_scope].vars == local_set(
            env1.frames[func_scope].vars,
            params[i - 1],
            v,
        ));
        lemma_call_binds_positionally(env2, caller_scope, func_scope, params, elems, i + 1, fuel);
        let e2 = crate::eval_spec::spec_bind_args(
            env2,
            caller_scope,
            func_scope,
            params,
            elems,
            i + 1,
            fuel,
        ).0;
        let rest = bind_args_values(env2, caller_scope, func_scope, params, elems, i + 1, fuel);
        let vals = bind_args_values(env, caller_scope, func_scope, params, elems, i, fuel);
        assert(vals == seq![v] + rest);
        assert(vals[0] == v);
        lemma_local_set_get(env1.frames[func_scope].vars, params[i - 1], v);
        assert(forall|k: int| i <= k < params.len() ==> #[trigger] params[k] != params[i - 1]);
        assert(local_get(e2.frames[func_scope].vars, params[i - 1]) == local_get(
            env2.frames[func_scope].vars,
            params[i - 1],
        ));
        assert forall|k: int| i - 1 <= k < params.len() implies local_get(
            e2.frames[func_scope].vars,
            params[k],
        ) == Some(vals[k - (i - 1)]) by {
            if k >= i {
                assert(vals[k - (i - 1)] == rest[k - i]);
            }
        }
        assert forall|n: Seq<char>|
            (forall|k: int| i - 1 <= k < params.len() ==> params[k] != n) implies local_get(
            e2.frames[func_scope].vars,
            n,
        ) == local_get(env.frames[func_scope].vars, n) by {
            lemma_local_set_preserves(env1.frames[func_scope].vars, params[i - 1], v, n);
        }
    }
}

/// The fresh frame a call creates lies on no chain that existed before
/// it, so the binding law above applies to every function application.
pub proof fn lemma_fresh_frame_off_old_chains(env: SpecEnv, scope: int)
    requires
        env_wf(env),
        0 <= scope < env.frames.len(),
    ensures
        !crate::eval_frames::in_chain(
            env_push_frame(env, scope),
            scope,
            env.frames.len() as int,
        ),
        env_wf(env_push_frame(env, scope)),
{
    let env1 = env_push_frame(env, scope);
    let fresh = env.frames.len() as int;
    crate::eval_frames::lemma_wf_push(env, scope);
    crate::eval_frames::lemma_chain_stable(env, env1, scope, fresh);
    if crate::eval_frames::in_chain(env, scope, fresh) {
        crate::eval_frames::lemma_chain_bounds(env, scope, fresh);
    }
}

/// Every invalid-character rejection of the tokenizer names a position
/// inside the input, 1-based, and the line number it carries is the
/// 1-based line of exactly that position.
pub proof fn lemma_tokenize_error_position(s: Seq<char>)
    ensures
        spec_tokenize(s) matches Err(SpecLexErr::InvalidSymbol(line, col, m)) ==> 1 <= col
            <= s.len() && line == spec_line_at(s, col - 1),
{
    lemma_tokenize_from_error_position(s, 0);
}

proof fn lemma_tokenize_from_error_position(s: Seq<char>, i: int)
    requires
        0 <= i <= s.len(),
    ensures
        spec_tokenize_from(s, i) matches Err(SpecLexErr::InvalidSymbol(line, col, m)) ==> 1 <= col
            <= s.len() && line == spec_line_at(s, col - 1),
    decreases s.len() - i, 1int,
{
    if i < s.len() {
        let c = s[i];
        if c == '(' || c == ')' {
            lemma_tokenize_from_error_position(s, i + 1);
        } else if c == '+' || c == '-' {
            if i + 1 < s.len() && crate::lex_spec::is_digit_char(s[i + 1]) {
                crate::lex_spec::lemma_scan_digits(s, i + 1);
                lemma_after_token_error_position(s, crate::lex_spec::scan_digits(s, i + 1));
            } else {
                lemma_after_token_error_position(s, i + 1);
            }
        } else if c == '#' {
            if i + 1 < s.len() && (s[i + 1] == 't' || s[i + 1] == 'f') {
                lemma_after_token_error_position(s, i + 2);
            }
        } else if crate::lex_spec::is_ident_start_char(c) {
            crate::lex_spec::lemma_scan_ident(s, i + 1);
            lemma_after_token_error_position(s, crate::lex_spec::scan_ident(s, i + 1));
        } else if crate::lex_spec::is_digit_char(c) {
            crate::lex_spec::lemma_scan_digits(s, i);
            lemma_after_token_error_position(s, crate::lex_spec::scan_digits(s, i));
        } else if c == '"' {
            crate::lex_spec::lemma_scan_string(s, i + 1);
            let j = crate::lex_spec::scan_string(s, i + 1);
            if j < s.len() {
                lemma_after_token_error_position(s, j + 1);
            }
        } else if crate::lex_spec::is_ws_char(c) {
            lemma_tokenize_from_error_position(s, i + 1);
        } else {
        }
    }
}

proof fn lemma_after_token_error_position(s: Seq<char>, j: int)
    requires
        0 <= j <= s.len(),
    ensures
        spec_after_token(s, j) matches Err(SpecLexErr::InvalidSymbol(line, col, m)) ==> 1 <= col
            <= s.len() && line == spec_line_at(s, col - 1),
    decreases s.len() - j, 0int,
{
    if j < s.len() {
        if s[j] == ')' || crate::lex_spec::is_ws_char(s[j]) {
            lemma_tokenize_from_error_position(s, j + 1);
        }
    }
}

} // verus!

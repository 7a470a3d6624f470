//! Spec-level definition of the evaluator: what each special form and
//! built-in computes, how the scope chain changes, and which message each
//! failure carries.  Evaluation depth is bounded by explicit fuel, spent
//! only on function application.
use vstd::prelude::*;

use crate::numfmt::spec_nat_digits;
use crate::parser::SpecNode;
use crate::runtime::SpecEnv;
use crate::runtime::env_assign;
use crate::runtime::env_get;
use crate::runtime::env_is_defined_local;
use crate::runtime::env_push_frame;
use crate::runtime::env_set_local;
use crate::value::SpecValue;
use crate::value::spec_display;
use crate::value::spec_empty;

verus! {

/// The structural height of a syntax node: leaves are flat, a list stands
/// one level above its tallest element.
pub open spec fn node_height(n: SpecNode) -> nat
    decreases n,
{
    match n {
        SpecNode::List(items) => 1 + nodes_height(items),
        _ => 0,
    }
}

/// The height of the tallest node in a sequence.
pub open spec fn nodes_height(s: Seq<SpecNode>) -> nat
    decreases s,
{
    if s.len() == 0 {
        0
    } else if node_height(s[0]) >= nodes_height(s.drop_first()) {
        node_height(s[0])
    } else {
        nodes_height(s.drop_first())
    }
}

pub proof fn lemma_nodes_height_index(s: Seq<SpecNode>, i: int)
    requires
        0 <= i < s.len(),
    ensures
        node_height(s[i]) <= nodes_height(s),
    decreases s,
{
    if i > 0 {
        lemma_nodes_height_index(s.drop_first(), i - 1);
    }
}

/// Message when evaluation runs deeper than the fuel bound allows.
pub open spec fn msg_depth_exceeded() -> Seq<char> {
    "Maximum evaluation depth exceeded"@
}

/// Message for an identifier with no visible binding.
pub open spec fn msg_ident_not_found(name: Seq<char>) -> Seq<char> {
    "Identifier not found! "@ + name
}

/// Message for a compound form whose head is not an identifier.
pub open spec fn msg_first_not_ident() -> Seq<char> {
    "First element in an expression must be an identifier"@
}

/// Message for a construct applied to the wrong number of nodes: it names
/// the construct and shows the offending node list.
pub open spec fn msg_wrong_arity(name: Seq<char>, n: int, elems: Seq<SpecNode>) -> Seq<char> {
    "The '"@ + name + "' construct expects "@ + spec_nat_digits(n as nat)
        + " arguments. Passed: "@ + spec_display(SpecValue::List(spec_quote_items(elems)))
}

/// Message for a construct applied to too few nodes: it names the
/// construct and shows the offending node list.
pub open spec fn msg_wrong_arity_at_least(name: Seq<char>, n: int, elems: Seq<SpecNode>) -> Seq<
    char,
> {
    "The '"@ + name + "' construct expects at least "@ + spec_nat_digits(n as nat)
        + " arguments. Passed: "@ + spec_display(SpecValue::List(spec_quote_items(elems)))
}

/// Message for a `define` whose name is not an identifier.
pub open spec fn msg_bad_define_name() -> Seq<char> {
    "Bad variable name in 'define'"@
}

/// Message for a `set!` whose name is not an identifier.
pub open spec fn msg_bad_set_name() -> Seq<char> {
    "Bad variable name in 'set!'"@
}

/// Message for a `lambda` whose parameter list is not a list.
pub open spec fn msg_bad_lambda_args() -> Seq<char> {
    "Bad argument list in 'lambda' definition"@
}

/// Message for a `lambda` parameter that is not an identifier.
pub open spec fn msg_bad_lambda_arg() -> Seq<char> {
    "Bad argument in 'lambda'"@
}

/// Message for a `define` of a name already bound in the current frame.
pub open spec fn msg_already_defined(name: Seq<char>) -> Seq<char> {
    "Variable already defined: "@ + name
}

/// Message for a `set!` of a name with no visible binding.
pub open spec fn msg_set_undefined(name: Seq<char>) -> Seq<char> {
    "Can't set! an undefined variable: "@ + name
}

/// Message for an arithmetic or comparison operand that is not an integer.
pub open spec fn msg_bad_arith_arg(op: Seq<char>) -> Seq<char> {
    "The '"@ + op + "' construct expects integer arguments"@
}

/// Message for an integer division by zero.
pub open spec fn msg_div_by_zero() -> Seq<char> {
    "Division by zero"@
}

/// Message for an arithmetic result outside the integer type.
pub open spec fn msg_arith_overflow() -> Seq<char> {
    "Integer overflow"@
}

/// Message for a call to a name with no visible binding.
pub open spec fn msg_unknown_function(name: Seq<char>) -> Seq<char> {
    "Unknown function: "@ + name
}

/// Message for a call to a name bound to something other than a function.
pub open spec fn msg_not_a_function(shown: Seq<char>) -> Seq<char> {
    "Undefined function call: "@ + shown
}

/// Truncating integer division, as the machine division behaves.
pub open spec fn spec_trunc_div(a: int, b: int) -> int
    recommends
        b != 0,
{
    let m = abs_int(a) / abs_int(b);
    if (a < 0) == (b < 0) {
        m
    } else {
        -m
    }
}

pub open spec fn abs_int(a: int) -> int {
    if a < 0 {
        -a
    } else {
        a
    }
}

/// The value a quoted syntax node denotes, built without evaluation.
pub open spec fn spec_quote(n: SpecNode) -> SpecValue
    decreases n,
{
    match n {
        SpecNode::Identifier(s) => SpecValue::Symbol(s),
        SpecNode::Integer(v) => SpecValue::Integer(v),
        SpecNode::Boolean(b) => SpecValue::Boolean(b),
        SpecNode::StringNode(s) => SpecValue::StringValue(s),
        SpecNode::List(items) => SpecValue::List(spec_quote_items(items)),
    }
}

/// The quoted values of a node sequence, in order.
pub open spec fn spec_quote_items(s: Seq<SpecNode>) -> Seq<SpecValue>
    decreases s,
{
    if s.len() == 0 {
        Seq::empty()
    } else {
        seq![spec_quote(s[0])] + spec_quote_items(s.drop_first())
    }
}

pub proof fn lemma_spec_quote_items_len(s: Seq<SpecNode>)
    ensures
        spec_quote_items(s).len() == s.len(),
    decreases s,
{
    if s.len() > 0 {
        lemma_spec_quote_items_len(s.drop_first());
    }
}

pub proof fn lemma_spec_quote_items_index(s: Seq<SpecNode>, i: int)
    requires
        0 <= i < s.len(),
    ensures
        spec_quote_items(s)[i] == spec_quote(s[i]),
    decreases s,
{
    lemma_spec_quote_items_len(s);
    if i > 0 {
        lemma_spec_quote_items_index(s.drop_first(), i - 1);
    }
}

/// The outcome of one evaluation step: the scope chain afterwards, and a
/// value or an error message.
pub type EvalOutcome = (SpecEnv, Result<SpecValue, Seq<char>>);

/// Evaluates the nodes from position `i` on, in order, against one scope;
/// the result is the last node's value (`last` when none remain), or the
/// first error, which stops the walk.
pub open spec fn spec_eval_seq(
    env: SpecEnv,
    scope: int,
    nodes: Seq<SpecNode>,
    i: int,
    last: SpecValue,
    fuel: nat,
) -> EvalOutcome
    decreases fuel, nodes_height(nodes), 4nat, nodes.len() - i,
    when 0 <= i <= nodes.len()
{
    if i >= nodes.len() {
        (env, Ok(last))
    } else {
        proof {
            lemma_nodes_height_index(nodes, i);
        }
        let (env1, r) = spec_eval_node(env, scope, nodes[i], fuel);
        match r {
            Err(e) => (env1, Err(e)),
            Ok(v) => spec_eval_seq(env1, scope, nodes, i + 1, v, fuel),
        }
    }
}

/// Evaluates one node: identifiers resolve through the scope chain,
/// literals evaluate to themselves, and non-empty lists dispatch to the
/// special forms and built-ins.
pub open spec fn spec_eval_node(env: SpecEnv, scope: int, n: SpecNode, fuel: nat) -> EvalOutcome
    decreases fuel, node_height(n), 0nat, 0int,
{
    match n {
        SpecNode::Identifier(name) => {
            match env_get(env, scope, name) {
                Some(v) => (env, Ok(v)),
                None => (env, Err(msg_ident_not_found(name))),
            }
        },
        SpecNode::Integer(v) => (env, Ok(SpecValue::Integer(v))),
        SpecNode::Boolean(b) => (env, Ok(SpecValue::Boolean(b))),
        SpecNode::StringNode(s) => (env, Ok(SpecValue::StringValue(s))),
        SpecNode::List(elems) => {
            if elems.len() == 0 {
                (env, Ok(spec_empty()))
            } else {
                spec_eval_list(env, scope, elems, fuel)
            }
        },
    }
}

/// Dispatches a non-empty list form by its head identifier.
pub open spec fn spec_eval_list(
    env: SpecEnv,
    scope: int,
    elems: Seq<SpecNode>,
    fuel: nat,
) -> EvalOutcome
    decreases fuel, nodes_height(elems), 3nat, elems.len() + 1,
    when elems.len() > 0
{
    match elems[0] {
        SpecNode::Identifier(name) => {
            if name == "define"@ {
                spec_define(env, scope, elems, fuel)
            } else if name == "set!"@ {
                spec_set(env, scope, elems, fuel)
            } else if name == "lambda"@ {
                (env, spec_lambda(elems))
            } else if name == "if"@ {
                spec_if(env, scope, elems, fuel)
            } else if name == "and"@ {
                spec_and(env, scope, elems, 1, SpecValue::Boolean(true), fuel)
            } else if name == "or"@ {
                spec_or(env, scope, elems, 1, fuel)
            } else if name == "+"@ {
                if elems.len() < 3 {
                    (env, Err(msg_wrong_arity_at_least("+"@, 3, elems)))
                } else {
                    spec_fold_add(env, scope, elems, 1, 0, fuel)
                }
            } else if name == "-"@ {
                spec_minus(env, scope, elems, fuel)
            } else if name == "*"@ {
                if elems.len() < 3 {
                    (env, Err(msg_wrong_arity_at_least("*"@, 3, elems)))
                } else {
                    spec_fold_mul(env, scope, elems, 1, 1, fuel)
                }
            } else if name == "/"@ {
                spec_division(env, scope, elems, fuel)
            } else if name == "="@ {
                spec_equals(env, scope, elems, fuel)
            } else if name == "quote"@ {
                if elems.len() != 2 {
                    (env, Err(msg_wrong_arity("quote"@, 2, elems)))
                } else {
                    (env, Ok(spec_quote(elems[1])))
                }
            } else if name == "error"@ {
                spec_error_form(env, scope, elems, fuel)
            } else {
                spec_func_call(env, scope, name, elems, fuel)
            }
        },
        _ => (env, Err(msg_first_not_ident())),
    }
}

/// `define`: binds a fresh name in the current frame to the value of its
/// expression; a name already bound in this frame is rejected before the
/// expression is evaluated.
pub open spec fn spec_define(env: SpecEnv, scope: int, elems: Seq<SpecNode>, fuel: nat) -> EvalOutcome
    decreases fuel, nodes_height(elems), 2nat, elems.len() + 1,
    when elems.len() > 0
{
    if elems.len() != 3 {
        (env, Err(msg_wrong_arity("define"@, 3, elems)))
    } else {
        match elems[1] {
            SpecNode::Identifier(name) => {
                if env_is_defined_local(env, scope, name) {
                    (env, Err(msg_already_defined(name)))
                } else {
                    proof {
                        lemma_nodes_height_index(elems, 2);
                    }
                    let (env1, r) = spec_eval_node(env, scope, elems[2], fuel);
                    match r {
                        Err(e) => (env1, Err(e)),
                        Ok(v) => (env_set_local(env1, scope, name, v), Ok(spec_empty())),
                    }
                }
            },
            _ => (env, Err(msg_bad_define_name())),
        }
    }
}

/// `set!`: rejects a name with no visible binding before evaluating;
/// otherwise evaluates the expression and updates the nearest binding.
pub open spec fn spec_set(env: SpecEnv, scope: int, elems: Seq<SpecNode>, fuel: nat) -> EvalOutcome
    decreases fuel, nodes_height(elems), 2nat, elems.len() + 1,
    when elems.len() > 0
{
    if elems.len() != 3 {
        (env, Err(msg_wrong_arity("set!"@, 3, elems)))
    } else {
        match elems[1] {
            SpecNode::Identifier(name) => {
                if env_get(env, scope, name) is None {
                    (env, Err(msg_set_undefined(name)))
                } else {
                    proof {
                        lemma_nodes_height_index(elems, 2);
                    }
                    let (env1, r) = spec_eval_node(env, scope, elems[2], fuel);
                    match r {
                        Err(e) => (env1, Err(e)),
                        Ok(v) => (env_assign(env1, scope, name, v).0, Ok(spec_empty())),
                    }
                }
            },
            _ => (env, Err(msg_bad_set_name())),
        }
    }
}

/// Whether every node of a parameter list is an identifier.
pub open spec fn all_identifiers(params: Seq<SpecNode>) -> bool {
    forall|i: int| 0 <= i < params.len() ==> params[i] is Identifier
}

/// The parameter names of a lambda's parameter list.
pub open spec fn param_names(params: Seq<SpecNode>) -> Seq<Seq<char>> {
    Seq::new(params.len(), |i: int| params[i]->Identifier_0)
}

/// `lambda`: captures the parameter names and the body nodes as a function
/// value, evaluating nothing.  The scope chain never changes.
pub open spec fn spec_lambda(elems: Seq<SpecNode>) -> Result<SpecValue, Seq<char>>
    recommends
        elems.len() > 0,
{
    if elems.len() < 3 {
        Err(msg_wrong_arity_at_least("lambda"@, 3, elems))
    } else {
        match elems[1] {
            SpecNode::List(params) => {
                if all_identifiers(params) {
                    Ok(SpecValue::Func(param_names(params), elems.skip(2)))
                } else {
                    Err(msg_bad_lambda_arg())
                }
            },
            _ => Err(msg_bad_lambda_args()),
        }
    }
}

/// `if`: evaluates the condition; every value except false selects the
/// then-branch; only the selected branch is evaluated.
pub open spec fn spec_if(env: SpecEnv, scope: int, elems: Seq<SpecNode>, fuel: nat) -> EvalOutcome
    decreases fuel, nodes_height(elems), 2nat, elems.len() + 1,
    when elems.len() > 0
{
    if elems.len() != 4 {
        (env, Err(msg_wrong_arity("if"@, 4, elems)))
    } else {
        proof {
            lemma_nodes_height_index(elems, 1);
            lemma_nodes_height_index(elems, 2);
            lemma_nodes_height_index(elems, 3);
        }
        let (env1, r) = spec_eval_node(env, scope, elems[1], fuel);
        match r {
            Err(e) => (env1, Err(e)),
            Ok(cond) => {
                if cond == SpecValue::Boolean(false) {
                    spec_eval_node(env1, scope, elems[3], fuel)
                } else {
                    spec_eval_node(env1, scope, elems[2], fuel)
                }
            },
        }
    }
}

/// `and`: evaluates left to right, stopping at the first false value;
/// with no false value the last value wins, and with no arguments true.
pub open spec fn spec_and(
    env: SpecEnv,
    scope: int,
    elems: Seq<SpecNode>,
    i: int,
    last: SpecValue,
    fuel: nat,
) -> EvalOutcome
    decreases fuel, nodes_height(elems), 2nat, elems.len() - i,
    when 1 <= i <= elems.len()
{
    if i >= elems.len() {
        (env, Ok(last))
    } else {
        proof {
            lemma_nodes_height_index(elems, i);
        }
        let (env1, r) = spec_eval_node(env, scope, elems[i], fuel);
        match r {
            Err(e) => (env1, Err(e)),
            Ok(v) => {
                if v == SpecValue::Boolean(false) {
                    (env1, Ok(SpecValue::Boolean(false)))
                } else {
                    spec_and(env1, scope, elems, i + 1, v, fuel)
                }
            },
        }
    }
}

/// `or`: evaluates left to right, stopping at the first non-false value;
/// false when every value is false or there are no arguments.
pub open spec fn spec_or(
    env: SpecEnv,
    scope: int,
    elems: Seq<SpecNode>,
    i: int,
    fuel: nat,
) -> EvalOutcome
    decreases fuel, nodes_height(elems), 2nat, elems.len() - i,
    when 1 <= i <= elems.len()
{
    if i >= elems.len() {
        (env, Ok(SpecValue::Boolean(false)))
    } else {
        proof {
            lemma_nodes_height_index(elems, i);
        }
        let (env1, r) = spec_eval_node(env, scope, elems[i], fuel);
        match r {
            Err(e) => (env1, Err(e)),
            Ok(v) => {
                if v == SpecValue::Boolean(false) {
                    spec_or(env1, scope, elems, i + 1, fuel)
                } else {
                    (env1, Ok(v))
                }
            },
        }
    }
}

/// `+`: folds addition over the argument values, which must all be
/// integers; a sum outside the integer type is an overflow error.
pub open spec fn spec_fold_add(
    env: SpecEnv,
    scope: int,
    elems: Seq<SpecNode>,
    i: int,
    acc: int,
    fuel: nat,
) -> EvalOutcome
    decreases fuel, nodes_height(elems), 2nat, elems.len() - i,
    when 1 <= i <= elems.len()
{
    if i >= elems.len() {
        (env, Ok(SpecValue::Integer(acc)))
    } else {
        proof {
            lemma_nodes_height_index(elems, i);
        }
        let (env1, r) = spec_eval_node(env, scope, elems[i], fuel);
        match r {
            Err(e) => (env1, Err(e)),
            Ok(v) => {
                match v {
                    SpecValue::Integer(x) => {
                        if acc + x < isize::MIN as int || acc + x > isize::MAX as int {
                            (env1, Err(msg_arith_overflow()))
                        } else {
                            spec_fold_add(env1, scope, elems, i + 1, acc + x, fuel)
                        }
                    },
                    _ => (env1, Err(msg_bad_arith_arg("+"@))),
                }
            },
        }
    }
}

/// `*`: folds multiplication over the argument values, which must all be
/// integers; a product outside the integer type is an overflow error.
pub open spec fn spec_fold_mul(
    env: SpecEnv,
    scope: int,
    elems: Seq<SpecNode>,
    i: int,
    acc: int,
    fuel: nat,
) -> EvalOutcome
    decreases fuel, nodes_height(elems), 2nat, elems.len() - i,
    when 1 <= i <= elems.len()
{
    if i >= elems.len() {
        (env, Ok(SpecValue::Integer(acc)))
    } else {
        proof {
            lemma_nodes_height_index(elems, i);
        }
        let (env1, r) = spec_eval_node(env, scope, elems[i], fuel);
        match r {
            Err(e) => (env1, Err(e)),
            Ok(v) => {
                match v {
                    SpecValue::Integer(x) => {
                        if acc * x < isize::MIN as int || acc * x > isize::MAX as int {
                            (env1, Err(msg_arith_overflow()))
                        } else {
                            spec_fold_mul(env1, scope, elems, i + 1, acc * x, fuel)
                        }
                    },
                    _ => (env1, Err(msg_bad_arith_arg("*"@))),
                }
            },
        }
    }
}

/// `-`: evaluates both operands, which must be integers, and subtracts;
/// a difference outside the integer type is an overflow error.
pub open spec fn spec_minus(env: SpecEnv, scope: int, elems: Seq<SpecNode>, fuel: nat) -> EvalOutcome
    decreases fuel, nodes_height(elems), 2nat, elems.len() + 1,
    when elems.len() > 0
{
    if elems.len() != 3 {
        (env, Err(msg_wrong_arity("-"@, 3, elems)))
    } else {
        proof {
            lemma_nodes_height_index(elems, 1);
            lemma_nodes_height_index(elems, 2);
        }
        let (env1, r1) = spec_eval_node(env, scope, elems[1], fuel);
        match r1 {
            Err(e) => (env1, Err(e)),
            Ok(left) => {
                let (env2, r2) = spec_eval_node(env1, scope, elems[2], fuel);
                match r2 {
                    Err(e) => (env2, Err(e)),
                    Ok(right) => {
                        match (left, right) {
                            (SpecValue::Integer(l), SpecValue::Integer(r)) => {
                                if l - r < isize::MIN as int || l - r > isize::MAX as int {
                                    (env2, Err(msg_arith_overflow()))
                                } else {
                                    (env2, Ok(SpecValue::Integer(l - r)))
                                }
                            },
                            _ => (env2, Err(msg_bad_arith_arg("-"@))),
                        }
                    },
                }
            },
        }
    }
}

/// `/`: evaluates both operands, which must be integers, and divides,
/// truncating toward zero; division by zero and the one overflowing
/// quotient are structured errors.
pub open spec fn spec_division(
    env: SpecEnv,
    scope: int,
    elems: Seq<SpecNode>,
    fuel: nat,
) -> EvalOutcome
    decreases fuel, nodes_height(elems), 2nat, elems.len() + 1,
    when elems.len() > 0
{
    if elems.len() != 3 {
        (env, Err(msg_wrong_arity("/"@, 3, elems)))
    } else {
        proof {
            lemma_nodes_height_index(elems, 1);
            lemma_nodes_height_index(elems, 2);
        }
        let (env1, r1) = spec_eval_node(env, scope, elems[1], fuel);
        match r1 {
            Err(e) => (env1, Err(e)),
            Ok(left) => {
                let (env2, r2) = spec_eval_node(env1, scope, elems[2], fuel);
                match r2 {
                    Err(e) => (env2, Err(e)),
                    Ok(right) => {
                        match (left, right) {
                            (SpecValue::Integer(l), SpecValue::Integer(r)) => {
                                if r == 0 {
                                    (env2, Err(msg_div_by_zero()))
                                } else if l == isize::MIN as int && r == -1 {
                                    (env2, Err(msg_arith_overflow()))
                                } else {
                                    (env2, Ok(SpecValue::Integer(spec_trunc_div(l, r))))
                                }
                            },
                            _ => (env2, Err(msg_bad_arith_arg("/"@))),
                        }
                    },
                }
            },
        }
    }
}

/// `=`: evaluates both operands, which must be integers, and compares.
pub open spec fn spec_equals(env: SpecEnv, scope: int, elems: Seq<SpecNode>, fuel: nat) -> EvalOutcome
    decreases fuel, nodes_height(elems), 2nat, elems.len() + 1,
    when elems.len() > 0
{
    if elems.len() != 3 {
        (env, Err(msg_wrong_arity("="@, 3, elems)))
    } else {
        proof {
            lemma_nodes_height_index(elems, 1);
            lemma_nodes_height_index(elems, 2);
        }
        let (env1, r1) = spec_eval_node(env, scope, elems[1], fuel);
        match r1 {
            Err(e) => (env1, Err(e)),
            Ok(left) => {
                let (env2, r2) = spec_eval_node(env1, scope, elems[2], fuel);
                match r2 {
                    Err(e) => (env2, Err(e)),
                    Ok(right) => {
                        match (left, right) {
                            (SpecValue::Integer(l), SpecValue::Integer(r)) => (
                                env2,
                                Ok(SpecValue::Boolean(l == r)),
                            ),
                            _ => (env2, Err(msg_bad_arith_arg("="@))),
                        }
                    },
                }
            },
        }
    }
}

/// `error`: evaluates its argument and fails with the argument's display
/// form as the message.
pub open spec fn spec_error_form(
    env: SpecEnv,
    scope: int,
    elems: Seq<SpecNode>,
    fuel: nat,
) -> EvalOutcome
    decreases fuel, nodes_height(elems), 2nat, elems.len() + 1,
    when elems.len() > 0
{
    if elems.len() != 2 {
        (env, Err(msg_wrong_arity("error"@, 2, elems)))
    } else {
        proof {
            lemma_nodes_height_index(elems, 1);
        }
        let (env1, r) = spec_eval_node(env, scope, elems[1], fuel);
        match r {
            Err(e) => (env1, Err(e)),
            Ok(v) => (env1, Err(spec_display(v))),
        }
    }
}

/// Evaluates the argument nodes from position `i` in the caller's scope
/// and binds each, positionally, in the fresh call frame.
pub open spec fn spec_bind_args(
    env: SpecEnv,
    caller_scope: int,
    func_scope: int,
    params: Seq<Seq<char>>,
    elems: Seq<SpecNode>,
    i: int,
    fuel: nat,
) -> (SpecEnv, Option<Seq<char>>)
    decreases fuel, nodes_height(elems), 2nat, elems.len() - i,
    when 1 <= i <= elems.len() && params.len() == elems.len() - 1
{
    if i >= elems.len() {
        (env, None)
    } else {
        proof {
            lemma_nodes_height_index(elems, i);
        }
        let (env1, r) = spec_eval_node(env, caller_scope, elems[i], fuel);
        match r {
            Err(e) => (env1, Some(e)),
            Ok(v) => spec_bind_args(
                env_set_local(env1, func_scope, params[i - 1], v),
                caller_scope,
                func_scope,
                params,
                elems,
                i + 1,
                fuel,
            ),
        }
    }
}

/// Function application: the name must resolve to a function value of
/// matching arity; a fresh child frame of the caller's scope is created,
/// the arguments are evaluated in the caller's scope and bound
/// positionally, and the body runs in the fresh frame on one unit less
/// fuel.  With no fuel left the call is rejected.
pub open spec fn spec_func_call(
    env: SpecEnv,
    scope: int,
    name: Seq<char>,
    elems: Seq<SpecNode>,
    fuel: nat,
) -> EvalOutcome
    decreases fuel, nodes_height(elems), 2nat, elems.len() + 1,
    when elems.len() > 0
{
    if fuel == 0 {
        (env, Err(msg_depth_exceeded()))
    } else {
        match env_get(env, scope, name) {
            None => (env, Err(msg_unknown_function(name))),
            Some(v) => {
                match v {
                    SpecValue::Func(params, body) => {
                        if params.len() != elems.len() - 1 {
                            (env, Err(msg_wrong_arity(name, elems.len() - 1, elems)))
                        } else {
                            let func_scope = env.frames.len() as int;
                            let env1 = env_push_frame(env, scope);
                            let (env2, failed) = spec_bind_args(
                                env1,
                                scope,
                                func_scope,
                                params,
                                elems,
                                1,
                                fuel,
                            );
                            match failed {
                                Some(e) => (env2, Err(e)),
                                None => spec_eval_seq(
                                    env2,
                                    func_scope,
                                    body,
                                    0,
                                    spec_empty(),
                                    (fuel - 1) as nat,
                                ),
                            }
                        }
                    },
                    _ => (env, Err(msg_not_a_function(spec_display(v)))),
                }
            },
        }
    }
}

} // verus!

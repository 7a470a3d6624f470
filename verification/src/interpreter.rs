//! The evaluator: walks the syntax forest against the scope chain,
//! verified against the spec evaluator, and the whole-pipeline entry
//! point `run`.
use vstd::prelude::*;

use crate::errors::RuntimeError;
use crate::errors::spec_parse_error_msg;
use crate::errors::spec_runtime_error_msg;
use crate::errors::spec_syntax_error_msg;
use crate::eval_spec::lemma_nodes_height_index;
use crate::eval_spec::lemma_spec_quote_items_index;
use crate::eval_spec::lemma_spec_quote_items_len;
use crate::eval_spec::msg_wrong_arity;
use crate::eval_spec::msg_wrong_arity_at_least;
use crate::eval_spec::node_height;
use crate::eval_spec::nodes_height;
use crate::eval_spec::param_names;
use crate::eval_spec::spec_and;
use crate::eval_spec::spec_bind_args;
use crate::eval_spec::spec_define;
use crate::eval_spec::spec_division;
use crate::eval_spec::spec_equals;
use crate::eval_spec::spec_error_form;
use crate::eval_spec::spec_eval_list;
use crate::eval_spec::spec_eval_node;
use crate::eval_spec::spec_eval_seq;
use crate::eval_spec::spec_fold_add;
use crate::eval_spec::spec_fold_mul;
use crate::eval_spec::spec_func_call;
use crate::eval_spec::spec_if;
use crate::eval_spec::spec_lambda;
use crate::eval_spec::spec_minus;
use crate::eval_spec::spec_or;
use crate::eval_spec::spec_quote;
use crate::eval_spec::spec_quote_items;
use crate::eval_spec::spec_set;
use crate::eval_spec::abs_int;
use crate::lex_spec::spec_tokenize;
use crate::lexer::tokenize;
use crate::numfmt::usize_to_string;
use crate::parser::ASTNode;
use crate::parser::SpecNode;
use crate::parser::clone_node;
use crate::parser::lemma_nodes_view_index;
use crate::parser::lemma_nodes_view_len;
use crate::parser::node_view;
use crate::parser::nodes_view;
use crate::parser::parse;
use crate::parser::spec_parse;
use crate::runtime::Runtime;
use crate::runtime::SpecEnv;
use crate::runtime::env_get;
use crate::runtime::lemma_env_assign_len;
use crate::value::Value;
use crate::value::SpecValue;
use crate::value::lemma_values_view_index;
use crate::value::lemma_values_view_len;
use crate::value::spec_display;
use crate::value::spec_empty;
use crate::value::spec_print;
use crate::value::empty_value;
use crate::value::value_view;
use crate::value::values_view;

verus! {

/// The depth bound on nested function application: each call spends one
/// unit of fuel, and a call with none left is a structured error rather
/// than unbounded recursion.  Without the bound, runaway recursion would
/// exhaust the host call stack — a fatal condition instead of a
/// reportable one.
pub const MAX_EVAL_DEPTH: u64 = 256;

/// Whether an identifier equals a fixed construct name.
fn is_named(func: &String, lit: &str) -> (r: bool)
    ensures
        r == (func@ == lit@),
{
    let s = String::from_str(lit);
    *func == s
}

/// Renders a node list as the data it quotes to, for error messages.
fn render_nodes(nodes: &Vec<ASTNode>) -> (r: String)
    ensures
        r@ == spec_display(SpecValue::List(spec_quote_items(nodes_view(nodes@)))),
{
    let ghost views = nodes_view(nodes@);
    proof {
        lemma_nodes_view_len(nodes@);
    }
    let mut items: Vec<Value> = Vec::new();
    let mut i: usize = 0;
    while i < nodes.len()
        invariant
            views == nodes_view(nodes@),
            views.len() == nodes@.len(),
            i <= nodes.len(),
            items@.len() == i,
            forall|j: int|
                0 <= j < i ==> value_view(items@[j]) == spec_quote(node_view(nodes@[j])),
        decreases nodes.len() - i,
    {
        let q = match quote(&nodes[i]) {
            Ok(v) => v,
            Err(e) => {
                proof {
                    assert(false);
                }
                return String::new();
            },
        };
        items.push(q);
        i += 1;
    }
    proof {
        lemma_values_view_len(items@);
        lemma_spec_quote_items_len(views);
        assert forall|j: int| 0 <= j < nodes@.len() implies values_view(items@)[j]
            == spec_quote_items(views)[j] by {
            lemma_values_view_index(items@, j);
            lemma_spec_quote_items_index(views, j);
            lemma_nodes_view_index(nodes@, j);
        }
        assert(values_view(items@) =~= spec_quote_items(views));
    }
    let value = Value::List(items);
    value.display()
}

/// The error for a construct applied to the wrong number of nodes: it
/// names the construct and shows the offending node list.
fn arity_error(name: &str, n: usize, nodes: &Vec<ASTNode>) -> (e: RuntimeError)
    ensures
        e.message@ == msg_wrong_arity(name@, n as int, nodes_view(nodes@)),
{
    let mut m = String::from_str("The '");
    m.append(name);
    m.append("' construct expects ");
    let digits = usize_to_string(n);
    m.append(digits.as_str());
    m.append(" arguments. Passed: ");
    let shown = render_nodes(nodes);
    m.append(shown.as_str());
    RuntimeError { message: m }
}

/// The error for a construct applied to too few nodes: it names the
/// construct and shows the offending node list.
fn arity_error_at_least(name: &str, n: usize, nodes: &Vec<ASTNode>) -> (e: RuntimeError)
    ensures
        e.message@ == msg_wrong_arity_at_least(name@, n as int, nodes_view(nodes@)),
{
    let mut m = String::from_str("The '");
    m.append(name);
    m.append("' construct expects at least ");
    let digits = usize_to_string(n);
    m.append(digits.as_str());
    m.append(" arguments. Passed: ");
    let shown = render_nodes(nodes);
    m.append(shown.as_str());
    RuntimeError { message: m }
}

/// The error whose message is a fixed text plus a name.
fn named_error(prefix: &str, name: &String) -> (e: RuntimeError)
    ensures
        e.message@ == prefix@ + name@,
{
    let mut m = String::from_str(prefix);
    m.append(name.as_str());
    RuntimeError { message: m }
}

/// The error whose message is a fixed text.
fn plain_error(text: &str) -> (e: RuntimeError)
    ensures
        e.message@ == text@,
{
    RuntimeError { message: String::from_str(text) }
}

/// The error for an arithmetic operand that is not an integer.
fn bad_arith_error(op: &str) -> (e: RuntimeError)
    ensures
        e.message@ == crate::eval_spec::msg_bad_arith_arg(op@),
{
    let mut m = String::from_str("The '");
    m.append(op);
    m.append("' construct expects integer arguments");
    RuntimeError { message: m }
}

/// Converts a quoted syntax node into the value it denotes, without
/// evaluating anything.
fn quote(ast_node: &ASTNode) -> (r: Result<Value, RuntimeError>)
    ensures
        r matches Ok(v) && value_view(v) == spec_quote(node_view(*ast_node)),
    decreases *ast_node,
{
    match ast_node {
        ASTNode::Identifier(v) => Ok(Value::Symbol(v.clone())),
        ASTNode::Integer(v) => Ok(Value::Integer(*v)),
        ASTNode::Boolean(v) => Ok(Value::Boolean(*v)),
        ASTNode::StringNode(v) => Ok(Value::StringValue(v.clone())),
        ASTNode::List(values) => {
            let ghost views = nodes_view(values@);
            proof {
                lemma_nodes_view_len(values@);
            }
            let mut result: Vec<Value> = Vec::new();
            let mut i: usize = 0;
            while i < values.len()
                invariant
                    *ast_node is List,
                    values@ == ast_node->List_0@,
                    views == nodes_view(values@),
                    views.len() == values@.len(),
                    i <= values.len(),
                    result@.len() == i,
                    forall|j: int|
                        0 <= j < i ==> value_view(result@[j]) == spec_quote(node_view(values@[j])),
                decreases values.len() - i,
            {
                proof {
                    broadcast use vstd::std_specs::vec::axiom_vec_index_decreases;

                    let m = *ast_node;
                    assert(decreases_to!(m => m->List_0));
                    assert(decreases_to!(m->List_0 => m->List_0[i as int]));
                    assert(decreases_to!(*ast_node => values@[i as int]));
                }
                let q = match quote(&values[i]) {
                    Ok(v) => v,
                    Err(e) => {
                        proof {
                            assert(false);
                        }
                        return Err(e);
                    },
                };
                result.push(q);
                i += 1;
            }
            proof {
                lemma_values_view_len(result@);
                lemma_spec_quote_items_len(views);
                assert forall|j: int| 0 <= j < values@.len() implies values_view(result@)[j]
                    == spec_quote_items(views)[j] by {
                    lemma_values_view_index(result@, j);
                    lemma_spec_quote_items_index(views, j);
                    lemma_nodes_view_index(values@, j);
                }
                assert(values_view(result@) =~= spec_quote_items(views));
            }
            Ok(Value::List(result))
        },
    }
}

/// Evaluates an ordered sequence of nodes against one scope, yielding the
/// last node's value, the empty list for an empty sequence, or the first
/// error, which stops the walk.
fn eval_seq(ast_nodes: &Vec<ASTNode>, runtime: &mut Runtime, scope: usize, fuel: u64) -> (r:
    Result<Value, RuntimeError>)
    requires
        old(runtime).wf(),
        scope < old(runtime).env().frames.len(),
    ensures
        final(runtime).wf(),
        final(runtime).env().frames.len() >= old(runtime).env().frames.len(),
        ({
            let (e2, r2) = spec_eval_seq(
                old(runtime).env(),
                scope as int,
                nodes_view(ast_nodes@),
                0,
                spec_empty(),
                fuel as nat,
            );
            final(runtime).env() == e2 && (match r {
                Ok(v) => r2 == Ok::<SpecValue, Seq<char>>(value_view(v)),
                Err(e) => r2 == Err::<SpecValue, Seq<char>>(e.message@),
            })
        }),
    decreases fuel, nodes_height(nodes_view(ast_nodes@)), 4nat, nodes_view(ast_nodes@).len() + 1,
{
    let ghost elems = nodes_view(ast_nodes@);
    let ghost env0 = runtime.env();
    proof {
        lemma_nodes_view_len(ast_nodes@);
    }
    let mut result = empty_value();
    let mut i: usize = 0;
    while i < ast_nodes.len()
        invariant
            elems == nodes_view(ast_nodes@),
            elems.len() == ast_nodes@.len(),
            env0 == old(runtime).env(),
            i <= ast_nodes@.len(),
            runtime.wf(),
            scope < runtime.env().frames.len(),
            runtime.env().frames.len() >= env0.frames.len(),
            spec_eval_seq(env0, scope as int, elems, 0, spec_empty(), fuel as nat)
                == spec_eval_seq(
                runtime.env(),
                scope as int,
                elems,
                i as int,
                value_view(result),
                fuel as nat,
            ),
        decreases ast_nodes@.len() - i,
    {
        proof {
            lemma_nodes_height_index(elems, i as int);
            lemma_nodes_view_index(ast_nodes@, i as int);
        }
        result = match eval_ast_node(&ast_nodes[i], runtime, scope, fuel) {
            Ok(v) => v,
            Err(e) => {
                return Err(e);
            },
        };
        i += 1;
    }
    Ok(result)
}

/// Evaluates one node: identifiers resolve through the scope chain,
/// literals evaluate to themselves, the empty list to itself, and every
/// other list dispatches to the special forms and built-ins.
fn eval_ast_node(node: &ASTNode, runtime: &mut Runtime, scope: usize, fuel: u64) -> (r: Result<
    Value,
    RuntimeError,
>)
    requires
        old(runtime).wf(),
        scope < old(runtime).env().frames.len(),
    ensures
        final(runtime).wf(),
        final(runtime).env().frames.len() >= old(runtime).env().frames.len(),
        ({
            let (e2, r2) = spec_eval_node(
                old(runtime).env(),
                scope as int,
                node_view(*node),
                fuel as nat,
            );
            final(runtime).env() == e2 && (match r {
                Ok(v) => r2 == Ok::<SpecValue, Seq<char>>(value_view(v)),
                Err(e) => r2 == Err::<SpecValue, Seq<char>>(e.message@),
            })
        }),
    decreases fuel, node_height(node_view(*node)), 0nat, 0int,
{
    match node {
        ASTNode::Identifier(v) => {
            match runtime.get_var_value(scope, v) {
                Some(val) => Ok(val),
                None => Err(named_error("Identifier not found! ", v)),
            }
        },
        ASTNode::Integer(v) => Ok(Value::Integer(*v)),
        ASTNode::Boolean(v) => Ok(Value::Boolean(*v)),
        ASTNode::StringNode(v) => Ok(Value::StringValue(v.clone())),
        ASTNode::List(vec) => {
            if vec.len() > 0 {
                proof {
                    lemma_nodes_view_len(vec@);
                }
                eval_list(vec, runtime, scope, fuel)
            } else {
                proof {
                    lemma_nodes_view_len(vec@);
                }
                Ok(empty_value())
            }
        },
    }
}

/// Dispatches a non-empty list form by its head identifier: a special
/// form, a built-in operator, or a user function call.
fn eval_list(nodes: &Vec<ASTNode>, runtime: &mut Runtime, scope: usize, fuel: u64) -> (r: Result<
    Value,
    RuntimeError,
>)
    requires
        old(runtime).wf(),
        scope < old(runtime).env().frames.len(),
        nodes@.len() > 0,
    ensures
        final(runtime).wf(),
        final(runtime).env().frames.len() >= old(runtime).env().frames.len(),
        ({
            let (e2, r2) = spec_eval_list(
                old(runtime).env(),
                scope as int,
                nodes_view(nodes@),
                fuel as nat,
            );
            final(runtime).env() == e2 && (match r {
                Ok(v) => r2 == Ok::<SpecValue, Seq<char>>(value_view(v)),
                Err(e) => r2 == Err::<SpecValue, Seq<char>>(e.message@),
            })
        }),
    decreases fuel, nodes_height(nodes_view(nodes@)), 3nat, nodes_view(nodes@).len() + 1,
{
    let ghost elems = nodes_view(nodes@);
    proof {
        lemma_nodes_view_len(nodes@);
        lemma_nodes_view_index(nodes@, 0);
    }
    match &nodes[0] {
        ASTNode::Identifier(func) => {
            if is_named(func, "define") {
                define(nodes, runtime, scope, fuel)
            } else if is_named(func, "set!") {
                set(nodes, runtime, scope, fuel)
            } else if is_named(func, "lambda") {
                lambda(nodes)
            } else if is_named(func, "if") {
                if_construct(nodes, runtime, scope, fuel)
            } else if is_named(func, "and") {
                and(nodes, runtime, scope, fuel)
            } else if is_named(func, "or") {
                or(nodes, runtime, scope, fuel)
            } else if is_named(func, "+") {
                plus(nodes, runtime, scope, fuel)
            } else if is_named(func, "-") {
                minus(nodes, runtime, scope, fuel)
            } else if is_named(func, "*") {
                multiplication(nodes, runtime, scope, fuel)
            } else if is_named(func, "/") {
                division(nodes, runtime, scope, fuel)
            } else if is_named(func, "=") {
                equals(nodes, runtime, scope, fuel)
            } else if is_named(func, "quote") {
                if nodes.len() != 2 {
                    Err(arity_error("quote", 2, nodes))
                } else {
                    proof {
                        lemma_nodes_view_index(nodes@, 1);
                    }
                    quote(&nodes[1])
                }
            } else if is_named(func, "error") {
                error_form(nodes, runtime, scope, fuel)
            } else {
                func_call(func, nodes, runtime, scope, fuel)
            }
        },
        _ => Err(plain_error("First element in an expression must be an identifier")),
    }
}

/// `define`: binds a fresh name in the current frame.
fn define(ast_nodes: &Vec<ASTNode>, runtime: &mut Runtime, scope: usize, fuel: u64) -> (r: Result<
    Value,
    RuntimeError,
>)
    requires
        old(runtime).wf(),
        scope < old(runtime).env().frames.len(),
        ast_nodes@.len() > 0,
    ensures
        final(runtime).wf(),
        final(runtime).env().frames.len() >= old(runtime).env().frames.len(),
        ({
            let (e2, r2) = spec_define(
                old(runtime).env(),
                scope as int,
                nodes_view(ast_nodes@),
                fuel as nat,
            );
            final(runtime).env() == e2 && (match r {
                Ok(v) => r2 == Ok::<SpecValue, Seq<char>>(value_view(v)),
                Err(e) => r2 == Err::<SpecValue, Seq<char>>(e.message@),
            })
        }),
    decreases fuel, nodes_height(nodes_view(ast_nodes@)), 2nat, nodes_view(ast_nodes@).len() + 1,
{
    let ghost elems = nodes_view(ast_nodes@);
    proof {
        lemma_nodes_view_len(ast_nodes@);
    }
    if ast_nodes.len() != 3 {
        return Err(arity_error("define", 3, ast_nodes));
    }
    proof {
        lemma_nodes_view_index(ast_nodes@, 1);
        lemma_nodes_view_index(ast_nodes@, 2);
        lemma_nodes_height_index(elems, 2);
    }
    let name = match &ast_nodes[1] {
        ASTNode::Identifier(x) => x,
        _ => {
            return Err(plain_error("Bad variable name in 'define'"));
        },
    };
    if !runtime.is_var_defined(scope, name) {
        let val = match eval_ast_node(&ast_nodes[2], runtime, scope, fuel) {
            Ok(v) => v,
            Err(e) => {
                return Err(e);
            },
        };
        runtime.set_var_value(scope, name.clone(), val);
        Ok(empty_value())
    } else {
        Err(named_error("Variable already defined: ", name))
    }
}

/// `set!`: updates the nearest visible binding of a name.
fn set(nodes: &Vec<ASTNode>, runtime: &mut Runtime, scope: usize, fuel: u64) -> (r: Result<
    Value,
    RuntimeError,
>)
    requires
        old(runtime).wf(),
        scope < old(runtime).env().frames.len(),
        nodes@.len() > 0,
    ensures
        final(runtime).wf(),
        final(runtime).env().frames.len() >= old(runtime).env().frames.len(),
        ({
            let (e2, r2) = spec_set(
                old(runtime).env(),
                scope as int,
                nodes_view(nodes@),
                fuel as nat,
            );
            final(runtime).env() == e2 && (match r {
                Ok(v) => r2 == Ok::<SpecValue, Seq<char>>(value_view(v)),
                Err(e) => r2 == Err::<SpecValue, Seq<char>>(e.message@),
            })
        }),
    decreases fuel, nodes_height(nodes_view(nodes@)), 2nat, nodes_view(nodes@).len() + 1,
{
    let ghost elems = nodes_view(nodes@);
    proof {
        lemma_nodes_view_len(nodes@);
    }
    if nodes.len() != 3 {
        return Err(arity_error("set!", 3, nodes));
    }
    proof {
        lemma_nodes_view_index(nodes@, 1);
        lemma_nodes_view_index(nodes@, 2);
        lemma_nodes_height_index(elems, 2);
    }
    let name = match &nodes[1] {
        ASTNode::Identifier(x) => x,
        _ => {
            return Err(plain_error("Bad variable name in 'set!'"));
        },
    };
    match runtime.get_var_value(scope, name) {
        None => Err(named_error("Can't set! an undefined variable: ", name)),
        Some(_) => {
            let val = match eval_ast_node(&nodes[2], runtime, scope, fuel) {
                Ok(v) => v,
                Err(e) => {
                    return Err(e);
                },
            };
            proof {
                lemma_env_assign_len(runtime.env(), scope as int, name@, value_view(val));
            }
            runtime.assign_var(scope, name, val);
            Ok(empty_value())
        },
    }
}

/// `lambda`: captures parameter names and body nodes as a function value.
fn lambda(nodes: &Vec<ASTNode>) -> (r: Result<Value, RuntimeError>)
    requires
        nodes@.len() > 0,
    ensures
        ({
            let r2 = spec_lambda(nodes_view(nodes@));
            match r {
                Ok(v) => r2 == Ok::<SpecValue, Seq<char>>(value_view(v)),
                Err(e) => r2 == Err::<SpecValue, Seq<char>>(e.message@),
            }
        }),
{
    let ghost elems = nodes_view(nodes@);
    proof {
        lemma_nodes_view_len(nodes@);
    }
    if nodes.len() < 3 {
        return Err(arity_error_at_least("lambda", 3, nodes));
    }
    proof {
        lemma_nodes_view_index(nodes@, 1);
    }
    let params = match &nodes[1] {
        ASTNode::List(list) => list,
        _ => {
            return Err(plain_error("Bad argument list in 'lambda' definition"));
        },
    };
    let ghost pviews = nodes_view(params@);
    proof {
        lemma_nodes_view_len(params@);
    }
    let mut args: Vec<String> = Vec::new();
    let mut i: usize = 0;
    while i < params.len()
        invariant
            elems == nodes_view(nodes@),
            elems.len() == nodes@.len(),
            nodes@.len() >= 3,
            elems[1] == SpecNode::List(pviews),
            pviews == nodes_view(params@),
            pviews.len() == params@.len(),
            i <= params@.len(),
            args@.len() == i,
            forall|j: int| 0 <= j < i ==> pviews[j] is Identifier,
            forall|j: int| 0 <= j < i ==> args@[j]@ == pviews[j]->Identifier_0,
        decreases params@.len() - i,
    {
        proof {
            lemma_nodes_view_index(params@, i as int);
        }
        match &params[i] {
            ASTNode::Identifier(s) => {
                args.push(s.clone());
            },
            _ => {
                proof {
                    assert(!crate::eval_spec::all_identifiers(pviews)) by {
                        assert(!(pviews[i as int] is Identifier));
                    }
                }
                return Err(plain_error("Bad argument in 'lambda'"));
            },
        }
        i += 1;
    }
    let mut expressions: Vec<ASTNode> = Vec::new();
    let mut k: usize = 2;
    while k < nodes.len()
        invariant
            elems == nodes_view(nodes@),
            elems.len() == nodes@.len(),
            nodes@.len() >= 3,
            2 <= k <= nodes@.len(),
            expressions@.len() == k - 2,
            forall|j: int|
                0 <= j < k - 2 ==> node_view(expressions@[j]) == elems[j + 2],
        decreases nodes@.len() - k,
    {
        proof {
            lemma_nodes_view_index(nodes@, k as int);
        }
        let c = clone_node(&nodes[k]);
        expressions.push(c);
        k += 1;
    }
    let result = Value::Func(args, expressions);
    proof {
        assert(crate::value::params_view(result->Func_0@) =~= param_names(pviews));
        assert(nodes_view(result->Func_1@) =~= elems.skip(2)) by {
            lemma_nodes_view_len(result->Func_1@);
            assert forall|j: int| 0 <= j < elems.len() - 2 implies nodes_view(result->Func_1@)[j]
                == elems.skip(2)[j] by {
                lemma_nodes_view_index(result->Func_1@, j);
            }
        }
    }
    Ok(result)
}

/// `if`: evaluates the condition, then only the selected branch.
fn if_construct(nodes: &Vec<ASTNode>, runtime: &mut Runtime, scope: usize, fuel: u64) -> (r:
    Result<Value, RuntimeError>)
    requires
        old(runtime).wf(),
        scope < old(runtime).env().frames.len(),
        nodes@.len() > 0,
    ensures
        final(runtime).wf(),
        final(runtime).env().frames.len() >= old(runtime).env().frames.len(),
        ({
            let (e2, r2) = spec_if(
                old(runtime).env(),
                scope as int,
                nodes_view(nodes@),
                fuel as nat,
            );
            final(runtime).env() == e2 && (match r {
                Ok(v) => r2 == Ok::<SpecValue, Seq<char>>(value_view(v)),
                Err(e) => r2 == Err::<SpecValue, Seq<char>>(e.message@),
            })
        }),
    decreases fuel, nodes_height(nodes_view(nodes@)), 2nat, nodes_view(nodes@).len() + 1,
{
    let ghost elems = nodes_view(nodes@);
    proof {
        lemma_nodes_view_len(nodes@);
    }
    if nodes.len() != 4 {
        return Err(arity_error("if", 4, nodes));
    }
    proof {
        lemma_nodes_view_index(nodes@, 1);
        lemma_nodes_view_index(nodes@, 2);
        lemma_nodes_view_index(nodes@, 3);
        lemma_nodes_height_index(elems, 1);
        lemma_nodes_height_index(elems, 2);
        lemma_nodes_height_index(elems, 3);
    }
    let condition = match eval_ast_node(&nodes[1], runtime, scope, fuel) {
        Ok(v) => v,
        Err(e) => {
            return Err(e);
        },
    };
    let take_else = match &condition {
        Value::Boolean(b) => !*b,
        _ => false,
    };
    if take_else {
        eval_ast_node(&nodes[3], runtime, scope, fuel)
    } else {
        eval_ast_node(&nodes[2], runtime, scope, fuel)
    }
}

/// `and`: left to right, stopping at the first false value.
fn and(nodes: &Vec<ASTNode>, runtime: &mut Runtime, scope: usize, fuel: u64) -> (r: Result<
    Value,
    RuntimeError,
>)
    requires
        old(runtime).wf(),
        scope < old(runtime).env().frames.len(),
        nodes@.len() > 0,
    ensures
        final(runtime).wf(),
        final(runtime).env().frames.len() >= old(runtime).env().frames.len(),
        ({
            let (e2, r2) = spec_and(
                old(runtime).env(),
                scope as int,
                nodes_view(nodes@),
                1,
                SpecValue::Boolean(true),
                fuel as nat,
            );
            final(runtime).env() == e2 && (match r {
                Ok(v) => r2 == Ok::<SpecValue, Seq<char>>(value_view(v)),
                Err(e) => r2 == Err::<SpecValue, Seq<char>>(e.message@),
            })
        }),
    decreases fuel, nodes_height(nodes_view(nodes@)), 2nat, nodes_view(nodes@).len() + 1,
{
    let ghost elems = nodes_view(nodes@);
    let ghost env0 = runtime.env();
    proof {
        lemma_nodes_view_len(nodes@);
    }
    let mut result = Value::Boolean(true);
    let mut i: usize = 1;
    while i < nodes.len()
        invariant
            elems == nodes_view(nodes@),
            elems.len() == nodes@.len(),
            env0 == old(runtime).env(),
            1 <= i <= nodes@.len(),
            runtime.wf(),
            scope < runtime.env().frames.len(),
            runtime.env().frames.len() >= env0.frames.len(),
            spec_and(env0, scope as int, elems, 1, SpecValue::Boolean(true), fuel as nat)
                == spec_and(
                runtime.env(),
                scope as int,
                elems,
                i as int,
                value_view(result),
                fuel as nat,
            ),
        decreases nodes@.len() - i,
    {
        proof {
            lemma_nodes_height_index(elems, i as int);
            lemma_nodes_view_index(nodes@, i as int);
        }
        let val = match eval_ast_node(&nodes[i], runtime, scope, fuel) {
            Ok(v) => v,
            Err(e) => {
                return Err(e);
            },
        };
        let is_false = match &val {
            Value::Boolean(b) => !*b,
            _ => false,
        };
        if is_false {
            return Ok(Value::Boolean(false));
        }
        result = val;
        i += 1;
    }
    Ok(result)
}

/// `or`: left to right, stopping at the first non-false value.
fn or(nodes: &Vec<ASTNode>, runtime: &mut Runtime, scope: usize, fuel: u64) -> (r: Result<
    Value,
    RuntimeError,
>)
    requires
        old(runtime).wf(),
        scope < old(runtime).env().frames.len(),
        nodes@.len() > 0,
    ensures
        final(runtime).wf(),
        final(runtime).env().frames.len() >= old(runtime).env().frames.len(),
        ({
            let (e2, r2) = spec_or(
                old(runtime).env(),
                scope as int,
                nodes_view(nodes@),
                1,
                fuel as nat,
            );
            final(runtime).env() == e2 && (match r {
                Ok(v) => r2 == Ok::<SpecValue, Seq<char>>(value_view(v)),
                Err(e) => r2 == Err::<SpecValue, Seq<char>>(e.message@),
            })
        }),
    decreases fuel, nodes_height(nodes_view(nodes@)), 2nat, nodes_view(nodes@).len() + 1,
{
    let ghost elems = nodes_view(nodes@);
    let ghost env0 = runtime.env();
    proof {
        lemma_nodes_view_len(nodes@);
    }
    let mut i: usize = 1;
    while i < nodes.len()
        invariant
            elems == nodes_view(nodes@),
            elems.len() == nodes@.len(),
            env0 == old(runtime).env(),
            1 <= i <= nodes@.len(),
            runtime.wf(),
            scope < runtime.env().frames.len(),
            runtime.env().frames.len() >= env0.frames.len(),
            spec_or(env0, scope as int, elems, 1, fuel as nat) == spec_or(
                runtime.env(),
                scope as int,
                elems,
                i as int,
                fuel as nat,
            ),
        decreases nodes@.len() - i,
    {
        proof {
            lemma_nodes_height_index(elems, i as int);
            lemma_nodes_view_index(nodes@, i as int);
        }
        let val = match eval_ast_node(&nodes[i], runtime, scope, fuel) {
            Ok(v) => v,
            Err(e) => {
                return Err(e);
            },
        };
        let is_false = match &val {
            Value::Boolean(b) => !*b,
            _ => false,
        };
        if !is_false {
            return Ok(val);
        }
        i += 1;
    }
    Ok(Value::Boolean(false))
}

/// `=`: both operands must be integers; compares them.
fn equals(nodes: &Vec<ASTNode>, runtime: &mut Runtime, scope: usize, fuel: u64) -> (r: Result<
    Value,
    RuntimeError,
>)
    requires
        old(runtime).wf(),
        scope < old(runtime).env().frames.len(),
        nodes@.len() > 0,
    ensures
        final(runtime).wf(),
        final(runtime).env().frames.len() >= old(runtime).env().frames.len(),
        ({
            let (e2, r2) = spec_equals(
                old(runtime).env(),
                scope as int,
                nodes_view(nodes@),
                fuel as nat,
            );
            final(runtime).env() == e2 && (match r {
                Ok(v) => r2 == Ok::<SpecValue, Seq<char>>(value_view(v)),
                Err(e) => r2 == Err::<SpecValue, Seq<char>>(e.message@),
            })
        }),
    decreases fuel, nodes_height(nodes_view(nodes@)), 2nat, nodes_view(nodes@).len() + 1,
{
    let ghost elems = nodes_view(nodes@);
    proof {
        lemma_nodes_view_len(nodes@);
    }
    if nodes.len() != 3 {
        return Err(arity_error("=", 3, nodes));
    }
    proof {
        lemma_nodes_view_index(nodes@, 1);
        lemma_nodes_view_index(nodes@, 2);
        lemma_nodes_height_index(elems, 1);
        lemma_nodes_height_index(elems, 2);
    }
    let left = match eval_ast_node(&nodes[1], runtime, scope, fuel) {
        Ok(v) => v,
        Err(e) => {
            return Err(e);
        },
    };
    let right = match eval_ast_node(&nodes[2], runtime, scope, fuel) {
        Ok(v) => v,
        Err(e) => {
            return Err(e);
        },
    };
    let left_value = match left {
        Value::Integer(x) => x,
        _ => {
            return Err(bad_arith_error("="));
        },
    };
    let right_value = match right {
        Value::Integer(x) => x,
        _ => {
            return Err(bad_arith_error("="));
        },
    };
    Ok(Value::Boolean(left_value == right_value))
}

/// `+`: folds addition over the arguments, which must all be integers.
fn plus(nodes: &Vec<ASTNode>, runtime: &mut Runtime, scope: usize, fuel: u64) -> (r: Result<
    Value,
    RuntimeError,
>)
    requires
        old(runtime).wf(),
        scope < old(runtime).env().frames.len(),
        nodes@.len() > 0,
    ensures
        final(runtime).wf(),
        final(runtime).env().frames.len() >= old(runtime).env().frames.len(),
        ({
            let r2 = if nodes_view(nodes@).len() < 3 {
                (old(runtime).env(), Err(msg_wrong_arity_at_least("+"@, 3, nodes_view(nodes@))))
            } else {
                spec_fold_add(old(runtime).env(), scope as int, nodes_view(nodes@), 1, 0, fuel as nat)
            };
            final(runtime).env() == r2.0 && (match r {
                Ok(v) => r2.1 == Ok::<SpecValue, Seq<char>>(value_view(v)),
                Err(e) => r2.1 == Err::<SpecValue, Seq<char>>(e.message@),
            })
        }),
    decreases fuel, nodes_height(nodes_view(nodes@)), 2nat, nodes_view(nodes@).len() + 1,
{
    let ghost elems = nodes_view(nodes@);
    let ghost env0 = runtime.env();
    proof {
        lemma_nodes_view_len(nodes@);
    }
    if nodes.len() < 3 {
        return Err(arity_error_at_least("+", 3, nodes));
    }
    let mut sum: isize = 0;
    let mut i: usize = 1;
    while i < nodes.len()
        invariant
            elems == nodes_view(nodes@),
            elems.len() == nodes@.len(),
            nodes@.len() >= 3,
            env0 == old(runtime).env(),
            1 <= i <= nodes@.len(),
            runtime.wf(),
            scope < runtime.env().frames.len(),
            runtime.env().frames.len() >= env0.frames.len(),
            spec_fold_add(env0, scope as int, elems, 1, 0, fuel as nat) == spec_fold_add(
                runtime.env(),
                scope as int,
                elems,
                i as int,
                sum as int,
                fuel as nat,
            ),
        decreases nodes@.len() - i,
    {
        proof {
            lemma_nodes_height_index(elems, i as int);
            lemma_nodes_view_index(nodes@, i as int);
        }
        let val = match eval_ast_node(&nodes[i], runtime, scope, fuel) {
            Ok(v) => v,
            Err(e) => {
                return Err(e);
            },
        };
        let x = match val {
            Value::Integer(x) => x,
            _ => {
                return Err(bad_arith_error("+"));
            },
        };
        sum = match sum.checked_add(x) {
            Some(s) => s,
            None => {
                return Err(plain_error("Integer overflow"));
            },
        };
        i += 1;
    }
    Ok(Value::Integer(sum))
}

/// `*`: folds multiplication over the arguments, which must all be
/// integers.
fn multiplication(nodes: &Vec<ASTNode>, runtime: &mut Runtime, scope: usize, fuel: u64) -> (r:
    Result<Value, RuntimeError>)
    requires
        old(runtime).wf(),
        scope < old(runtime).env().frames.len(),
        nodes@.len() > 0,
    ensures
        final(runtime).wf(),
        final(runtime).env().frames.len() >= old(runtime).env().frames.len(),
        ({
            let r2 = if nodes_view(nodes@).len() < 3 {
                (old(runtime).env(), Err(msg_wrong_arity_at_least("*"@, 3, nodes_view(nodes@))))
            } else {
                spec_fold_mul(old(runtime).env(), scope as int, nodes_view(nodes@), 1, 1, fuel as nat)
            };
            final(runtime).env() == r2.0 && (match r {
                Ok(v) => r2.1 == Ok::<SpecValue, Seq<char>>(value_view(v)),
                Err(e) => r2.1 == Err::<SpecValue, Seq<char>>(e.message@),
            })
        }),
    decreases fuel, nodes_height(nodes_view(nodes@)), 2nat, nodes_view(nodes@).len() + 1,
{
    let ghost elems = nodes_view(nodes@);
    let ghost env0 = runtime.env();
    proof {
        lemma_nodes_view_len(nodes@);
    }
    if nodes.len() < 3 {
        return Err(arity_error_at_least("*", 3, nodes));
    }
    let mut product: isize = 1;
    let mut i: usize = 1;
    while i < nodes.len()
        invariant
            elems == nodes_view(nodes@),
            elems.len() == nodes@.len(),
            nodes@.len() >= 3,
            env0 == old(runtime).env(),
            1 <= i <= nodes@.len(),
            runtime.wf(),
            scope < runtime.env().frames.len(),
            runtime.env().frames.len() >= env0.frames.len(),
            spec_fold_mul(env0, scope as int, elems, 1, 1, fuel as nat) == spec_fold_mul(
                runtime.env(),
                scope as int,
                elems,
                i as int,
                product as int,
                fuel as nat,
            ),
        decreases nodes@.len() - i,
    {
        proof {
            lemma_nodes_height_index(elems, i as int);
            lemma_nodes_view_index(nodes@, i as int);
        }
        let val = match eval_ast_node(&nodes[i], runtime, scope, fuel) {
            Ok(v) => v,
            Err(e) => {
                return Err(e);
            },
        };
        let x = match val {
            Value::Integer(x) => x,
            _ => {
                return Err(bad_arith_error("*"));
            },
        };
        product = match product.checked_mul(x) {
            Some(p) => p,
            None => {
                return Err(plain_error("Integer overflow"));
            },
        };
        i += 1;
    }
    Ok(Value::Integer(product))
}

/// `-`: both operands must be integers; subtracts the right from the
/// left.
fn minus(nodes: &Vec<ASTNode>, runtime: &mut Runtime, scope: usize, fuel: u64) -> (r: Result<
    Value,
    RuntimeError,
>)
    requires
        old(runtime).wf(),
        scope < old(runtime).env().frames.len(),
        nodes@.len() > 0,
    ensures
        final(runtime).wf(),
        final(runtime).env().frames.len() >= old(runtime).env().frames.len(),
        ({
            let (e2, r2) = spec_minus(
                old(runtime).env(),
                scope as int,
                nodes_view(nodes@),
                fuel as nat,
            );
            final(runtime).env() == e2 && (match r {
                Ok(v) => r2 == Ok::<SpecValue, Seq<char>>(value_view(v)),
                Err(e) => r2 == Err::<SpecValue, Seq<char>>(e.message@),
            })
        }),
    decreases fuel, nodes_height(nodes_view(nodes@)), 2nat, nodes_view(nodes@).len() + 1,
{
    let ghost elems = nodes_view(nodes@);
    proof {
        lemma_nodes_view_len(nodes@);
    }
    if nodes.len() != 3 {
        return Err(arity_error("-", 3, nodes));
    }
    proof {
        lemma_nodes_view_index(nodes@, 1);
        lemma_nodes_view_index(nodes@, 2);
        lemma_nodes_height_index(elems, 1);
        lemma_nodes_height_index(elems, 2);
    }
    let left = match eval_ast_node(&nodes[1], runtime, scope, fuel) {
        Ok(v) => v,
        Err(e) => {
            return Err(e);
        },
    };
    let right = match eval_ast_node(&nodes[2], runtime, scope, fuel) {
        Ok(v) => v,
        Err(e) => {
            return Err(e);
        },
    };
    let l = match left {
        Value::Integer(x) => x,
        _ => {
            return Err(bad_arith_error("-"));
        },
    };
    let r_val = match right {
        Value::Integer(x) => x,
        _ => {
            return Err(bad_arith_error("-"));
        },
    };
    match l.checked_sub(r_val) {
        Some(d) => Ok(Value::Integer(d)),
        None => Err(plain_error("Integer overflow")),
    }
}

/// `/`: both operands must be integers; divides, truncating toward zero.
fn division(nodes: &Vec<ASTNode>, runtime: &mut Runtime, scope: usize, fuel: u64) -> (r: Result<
    Value,
    RuntimeError,
>)
    requires
        old(runtime).wf(),
        scope < old(runtime).env().frames.len(),
        nodes@.len() > 0,
    ensures
        final(runtime).wf(),
        final(runtime).env().frames.len() >= old(runtime).env().frames.len(),
        ({
            let (e2, r2) = spec_division(
                old(runtime).env(),
                scope as int,
                nodes_view(nodes@),
                fuel as nat,
            );
            final(runtime).env() == e2 && (match r {
                Ok(v) => r2 == Ok::<SpecValue, Seq<char>>(value_view(v)),
                Err(e) => r2 == Err::<SpecValue, Seq<char>>(e.message@),
            })
        }),
    decreases fuel, nodes_height(nodes_view(nodes@)), 2nat, nodes_view(nodes@).len() + 1,
{
    let ghost elems = nodes_view(nodes@);
    proof {
        lemma_nodes_view_len(nodes@);
    }
    if nodes.len() != 3 {
        return Err(arity_error("/", 3, nodes));
    }
    proof {
        lemma_nodes_view_index(nodes@, 1);
        lemma_nodes_view_index(nodes@, 2);
        lemma_nodes_height_index(elems, 1);
        lemma_nodes_height_index(elems, 2);
    }
    let left = match eval_ast_node(&nodes[1], runtime, scope, fuel) {
        Ok(v) => v,
        Err(e) => {
            return Err(e);
        },
    };
    let right = match eval_ast_node(&nodes[2], runtime, scope, fuel) {
        Ok(v) => v,
        Err(e) => {
            return Err(e);
        },
    };
    let l = match left {
        Value::Integer(x) => x,
        _ => {
            return Err(bad_arith_error("/"));
        },
    };
    let r_val = match right {
        Value::Integer(x) => x,
        _ => {
            return Err(bad_arith_error("/"));
        },
    };
    if r_val == 0 {
        return Err(plain_error("Division by zero"));
    }
    if l == isize::MIN && r_val == -1 {
        return Err(plain_error("Integer overflow"));
    }
    let ml: usize = if l < 0 {
        if l == isize::MIN {
            (isize::MAX as usize) + 1
        } else {
            (-l) as usize
        }
    } else {
        l as usize
    };
    let mr: usize = if r_val < 0 {
        if r_val == isize::MIN {
            (isize::MAX as usize) + 1
        } else {
            (-r_val) as usize
        }
    } else {
        r_val as usize
    };
    let q: usize = ml / mr;
    proof {
        assert(ml as int == abs_int(l as int));
        assert(mr as int == abs_int(r_val as int));
        assert(q as int == abs_int(l as int) / abs_int(r_val as int));
    }
    let same_sign = (l < 0) == (r_val < 0);
    if same_sign {
        proof {
            assert(q <= isize::MAX) by {
                if q > isize::MAX {
                    assert(q * mr >= q * 1 == q) by (nonlinear_arith)
                        requires
                            mr >= 1,
                            q >= 0,
                    ;
                    assert((ml / mr) * mr <= ml) by (nonlinear_arith)
                        requires
                            mr >= 1,
                            ml >= 0,
                            q == ml / mr,
                    ;
                    if l == isize::MIN {
                        assert(mr >= 2);
                        assert(q * mr >= q * 2) by (nonlinear_arith)
                            requires
                                mr >= 2,
                                q >= 0,
                        ;
                    }
                }
            }
        }
        Ok(Value::Integer(q as isize))
    } else {
        if q == (isize::MAX as usize) + 1 {
            Ok(Value::Integer(isize::MIN))
        } else {
            proof {
                assert(q <= isize::MAX) by {
                    assert((ml / mr) * mr <= ml) by (nonlinear_arith)
                        requires
                            mr >= 1,
                            ml >= 0,
                        ;
                    assert(q <= ml);
                }
            }
            Ok(Value::Integer(-(q as isize)))
        }
    }
}

/// `error`: evaluates its argument and fails with its display form.
fn error_form(nodes: &Vec<ASTNode>, runtime: &mut Runtime, scope: usize, fuel: u64) -> (r: Result<
    Value,
    RuntimeError,
>)
    requires
        old(runtime).wf(),
        scope < old(runtime).env().frames.len(),
        nodes@.len() > 0,
    ensures
        final(runtime).wf(),
        final(runtime).env().frames.len() >= old(runtime).env().frames.len(),
        ({
            let (e2, r2) = spec_error_form(
                old(runtime).env(),
                scope as int,
                nodes_view(nodes@),
                fuel as nat,
            );
            final(runtime).env() == e2 && (match r {
                Ok(v) => r2 == Ok::<SpecValue, Seq<char>>(value_view(v)),
                Err(e) => r2 == Err::<SpecValue, Seq<char>>(e.message@),
            })
        }),
    decreases fuel, nodes_height(nodes_view(nodes@)), 2nat, nodes_view(nodes@).len() + 1,
{
    let ghost elems = nodes_view(nodes@);
    proof {
        lemma_nodes_view_len(nodes@);
    }
    if nodes.len() != 2 {
        return Err(arity_error("error", 2, nodes));
    }
    proof {
        lemma_nodes_view_index(nodes@, 1);
        lemma_nodes_height_index(elems, 1);
    }
    let val = match eval_ast_node(&nodes[1], runtime, scope, fuel) {
        Ok(v) => v,
        Err(e) => {
            return Err(e);
        },
    };
    Err(RuntimeError { message: val.display() })
}

/// Function application: resolves the name to a function value, checks
/// arity, evaluates the arguments in the caller's scope, binds them
/// positionally in a fresh child frame, and runs the body there.
fn func_call(func: &String, nodes: &Vec<ASTNode>, runtime: &mut Runtime, scope: usize, fuel: u64) -> (r:
    Result<Value, RuntimeError>)
    requires
        old(runtime).wf(),
        scope < old(runtime).env().frames.len(),
        nodes@.len() > 0,
    ensures
        final(runtime).wf(),
        final(runtime).env().frames.len() >= old(runtime).env().frames.len(),
        ({
            let (e2, r2) = spec_func_call(
                old(runtime).env(),
                scope as int,
                func@,
                nodes_view(nodes@),
                fuel as nat,
            );
            final(runtime).env() == e2 && (match r {
                Ok(v) => r2 == Ok::<SpecValue, Seq<char>>(value_view(v)),
                Err(e) => r2 == Err::<SpecValue, Seq<char>>(e.message@),
            })
        }),
    decreases fuel, nodes_height(nodes_view(nodes@)), 2nat, nodes_view(nodes@).len() + 1,
{
    let ghost elems = nodes_view(nodes@);
    let ghost env0 = runtime.env();
    proof {
        lemma_nodes_view_len(nodes@);
    }
    if fuel == 0 {
        return Err(plain_error("Maximum evaluation depth exceeded"));
    }
    let looked_up = match runtime.get_var_value(scope, func) {
        Some(v) => v,
        None => {
            return Err(named_error("Unknown function: ", func));
        },
    };
    match looked_up {
        Value::Func(args, body) => {
            if args.len() != nodes.len() - 1 {
                return Err(arity_error(func.as_str(), nodes.len() - 1, nodes));
            }
            let ghost params = crate::value::params_view(args@);
            let func_scope = runtime.new_scope(scope);
            let ghost env1 = runtime.env();
            let mut i: usize = 0;
            while i < args.len()
                invariant
                    fuel > 0,
                    env_get(env0, scope as int, func@) == Some(
                        SpecValue::Func(params, nodes_view(body@)),
                    ),
                    env1 == crate::runtime::env_push_frame(env0, scope as int),
                    elems == nodes_view(nodes@),
                    elems.len() == nodes@.len(),
                    params == crate::value::params_view(args@),
                    params.len() == args@.len(),
                    args@.len() == nodes@.len() - 1,
                    env0 == old(runtime).env(),
                    func_scope as int == env0.frames.len(),
                    0 <= i <= args@.len(),
                    runtime.wf(),
                    scope < runtime.env().frames.len(),
                    func_scope < runtime.env().frames.len(),
                    runtime.env().frames.len() >= env1.frames.len(),
                    env1.frames.len() == env0.frames.len() + 1,
                    spec_bind_args(
                        env1,
                        scope as int,
                        func_scope as int,
                        params,
                        elems,
                        1,
                        fuel as nat,
                    ) == spec_bind_args(
                        runtime.env(),
                        scope as int,
                        func_scope as int,
                        params,
                        elems,
                        i + 1,
                        fuel as nat,
                    ),
                decreases args@.len() - i,
            {
                proof {
                    lemma_nodes_height_index(elems, i + 1);
                    lemma_nodes_view_index(nodes@, i + 1);
                }
                let val = match eval_ast_node(&nodes[i + 1], runtime, scope, fuel) {
                    Ok(v) => v,
                    Err(e) => {
                        return Err(e);
                    },
                };
                runtime.set_var_value(func_scope, args[i].clone(), val);
                i += 1;
            }
            eval_seq(&body, runtime, func_scope, fuel - 1)
        },
        other => {
            let shown = other.display();
            let mut m = String::from_str("Undefined function call: ");
            m.append(shown.as_str());
            Err(RuntimeError { message: m })
        },
    }
}

/// The outcome of running one chunk of program text: the scope chain
/// afterwards, and the rendered result or the rendered error.
pub open spec fn spec_run(s: Seq<char>, env: SpecEnv) -> (SpecEnv, Result<Seq<char>, Seq<char>>) {
    match spec_tokenize(s) {
        Err(e) => (env, Err(spec_syntax_error_msg(e))),
        Ok(ts) => {
            match spec_parse(ts) {
                Err(e) => (env, Err(spec_parse_error_msg(e))),
                Ok(nodes) => {
                    let (env2, r) = spec_eval_seq(
                        env,
                        0,
                        nodes,
                        0,
                        spec_empty(),
                        MAX_EVAL_DEPTH as nat,
                    );
                    match r {
                        Ok(v) => (env2, Ok(spec_print(v))),
                        Err(m) => (env2, Err(spec_runtime_error_msg(m))),
                    }
                },
            }
        },
    }
}

/// Evaluates an already-parsed forest against the root scope of the given
/// runtime, with the full fuel allowance.
pub fn eval(ast_nodes: &Vec<ASTNode>, runtime: &mut Runtime) -> (r: Result<Value, RuntimeError>)
    requires
        old(runtime).wf(),
    ensures
        final(runtime).wf(),
        ({
            let (e2, r2) = spec_eval_seq(
                old(runtime).env(),
                0,
                nodes_view(ast_nodes@),
                0,
                spec_empty(),
                MAX_EVAL_DEPTH as nat,
            );
            final(runtime).env() == e2 && (match r {
                Ok(v) => r2 == Ok::<SpecValue, Seq<char>>(value_view(v)),
                Err(e) => r2 == Err::<SpecValue, Seq<char>>(e.message@),
            })
        }),
{
    eval_seq(ast_nodes, runtime, 0, MAX_EVAL_DEPTH)
}

/// Runs one chunk of program text against the given runtime: tokenizes,
/// parses, evaluates each top-level form in order against the root scope,
/// and renders the last value's print form, or the first error.
pub fn run(input: &str, runtime: &mut Runtime) -> (r: Result<String, String>)
    requires
        old(runtime).wf(),
        input@.len() < usize::MAX,
    ensures
        final(runtime).wf(),
        ({
            let (e2, r2) = spec_run(input@, old(runtime).env());
            final(runtime).env() == e2 && (match r {
                Ok(v) => r2 == Ok::<Seq<char>, Seq<char>>(v@),
                Err(e) => r2 == Err::<Seq<char>, Seq<char>>(e@),
            })
        }),
{
    let tokens = match tokenize(input) {
        Ok(t) => t,
        Err(e) => {
            return Err(e.render());
        },
    };
    let ast = match parse(&tokens) {
        Ok(a) => a,
        Err(e) => {
            return Err(e.render());
        },
    };
    match eval(&ast, runtime) {
        Ok(v) => Ok(v.to_string()),
        Err(e) => Err(e.render()),
    }
}

} // verus!

//! Runtime values and their two textual renderings: the display form and
//! the print form that marks symbols and lists as data.
use vstd::prelude::*;

use crate::numfmt::isize_to_string;
use crate::numfmt::spec_int_digits;
use crate::parser::ASTNode;
use crate::parser::SpecNode;
use crate::parser::clone_node;
use crate::parser::lemma_nodes_view_index;
use crate::parser::lemma_nodes_view_len;
use crate::parser::node_view;
use crate::parser::nodes_view;

verus! {

/// One runtime value.  A `Func` value pairs its parameter names with the
/// syntax nodes of its body; it does not retain the scope it was built in.
#[derive(Debug, PartialEq)]
pub enum Value {
    Symbol(String),
    Integer(isize),
    Boolean(bool),
    StringValue(String),
    List(Vec<Value>),
    Func(Vec<String>, Vec<ASTNode>),
}

/// Spec-level model of a `Value`.
pub enum SpecValue {
    Symbol(Seq<char>),
    Integer(int),
    Boolean(bool),
    StringValue(Seq<char>),
    List(Seq<SpecValue>),
    Func(Seq<Seq<char>>, Seq<SpecNode>),
}

/// The models of a sequence of parameter names, in order.
pub open spec fn params_view(s: Seq<String>) -> Seq<Seq<char>> {
    Seq::new(s.len(), |i: int| s[i]@)
}

/// The model a `Value` stands for.
pub open spec fn value_view(v: Value) -> SpecValue
    decreases v,
{
    match v {
        Value::Symbol(s) => SpecValue::Symbol(s@),
        Value::Integer(i) => SpecValue::Integer(i as int),
        Value::Boolean(b) => SpecValue::Boolean(b),
        Value::StringValue(s) => SpecValue::StringValue(s@),
        Value::List(items) => SpecValue::List(values_view(items@)),
        Value::Func(params, body) => SpecValue::Func(params_view(params@), nodes_view(body@)),
    }
}

/// The models of a sequence of values, in order.
pub open spec fn values_view(s: Seq<Value>) -> Seq<SpecValue>
    decreases s,
{
    if s.len() == 0 {
        Seq::empty()
    } else {
        seq![value_view(s[0])] + values_view(s.drop_first())
    }
}

pub broadcast proof fn lemma_values_view_len(s: Seq<Value>)
    ensures
        #[trigger] values_view(s).len() == s.len(),
    decreases s,
{
    if s.len() > 0 {
        lemma_values_view_len(s.drop_first());
    }
}

pub broadcast proof fn lemma_values_view_index(s: Seq<Value>, i: int)
    requires
        0 <= i < s.len(),
    ensures
        #[trigger] values_view(s)[i] == value_view(s[i]),
    decreases s,
{
    lemma_values_view_len(s);
    if i > 0 {
        lemma_values_view_index(s.drop_first(), i - 1);
    }
}

pub proof fn lemma_values_view_push(s: Seq<Value>, x: Value)
    ensures
        values_view(s.push(x)) == values_view(s).push(value_view(x)),
{
    lemma_values_view_len(s);
    lemma_values_view_len(s.push(x));
    assert forall|i: int| 0 <= i < s.len() + 1 implies values_view(s.push(x))[i] == values_view(
        s,
    ).push(value_view(x))[i] by {
        lemma_values_view_index(s.push(x), i);
        if i < s.len() {
            lemma_values_view_index(s, i);
        }
    }
    assert(values_view(s.push(x)) =~= values_view(s).push(value_view(x)));
}

/// The empty list, the canonical "no value" result.
pub open spec fn spec_empty() -> SpecValue {
    SpecValue::List(Seq::empty())
}

/// Builds the empty-list value.
pub fn empty_value() -> (r: Value)
    ensures
        value_view(r) == spec_empty(),
{
    let items: Vec<Value> = Vec::new();
    Value::List(items)
}

/// A structural copy of one value.
pub fn clone_value(v: &Value) -> (r: Value)
    ensures
        value_view(r) == value_view(*v),
    decreases *v,
{
    match v {
        Value::Symbol(s) => Value::Symbol(s.clone()),
        Value::Integer(i) => Value::Integer(*i),
        Value::Boolean(b) => Value::Boolean(*b),
        Value::StringValue(s) => Value::StringValue(s.clone()),
        Value::List(items) => {
            let mut out: Vec<Value> = Vec::new();
            let mut i: usize = 0;
            while i < items.len()
                invariant
                    *v is List,
                    items@ == v->List_0@,
                    i <= items.len(),
                    out@.len() == i,
                    forall|j: int| 0 <= j < i ==> value_view(out@[j]) == value_view(items@[j]),
                decreases items.len() - i,
            {
                proof {
                    broadcast use vstd::std_specs::vec::axiom_vec_index_decreases;

                    let m = *v;
                    assert(decreases_to!(m => m->List_0));
                    assert(decreases_to!(m->List_0 => m->List_0[i as int]));
                    assert(decreases_to!(*v => items@[i as int]));
                }
                let c = clone_value(&items[i]);
                out.push(c);
                i += 1;
            }
            proof {
                lemma_values_view_len(out@);
                lemma_values_view_len(items@);
                assert forall|j: int| 0 <= j < items@.len() implies values_view(out@)[j]
                    == values_view(items@)[j] by {
                    lemma_values_view_index(out@, j);
                    lemma_values_view_index(items@, j);
                }
                assert(values_view(out@) =~= values_view(items@));
            }
            Value::List(out)
        },
        Value::Func(params, body) => Value::Func(clone_strings(params), clone_nodes(body)),
    }
}

/// A structural copy of a list of names.
pub fn clone_strings(v: &Vec<String>) -> (r: Vec<String>)
    ensures
        params_view(r@) == params_view(v@),
{
    let mut out: Vec<String> = Vec::new();
    let mut i: usize = 0;
    while i < v.len()
        invariant
            i <= v.len(),
            out@.len() == i,
            forall|j: int| 0 <= j < i ==> out@[j]@ == v@[j]@,
        decreases v.len() - i,
    {
        out.push(v[i].clone());
        i += 1;
    }
    proof {
        assert(params_view(out@) =~= params_view(v@));
    }
    out
}

/// A structural copy of a list of syntax nodes.
pub fn clone_nodes(v: &Vec<ASTNode>) -> (r: Vec<ASTNode>)
    ensures
        nodes_view(r@) == nodes_view(v@),
{
    let mut out: Vec<ASTNode> = Vec::new();
    let mut i: usize = 0;
    while i < v.len()
        invariant
            i <= v.len(),
            out@.len() == i,
            forall|j: int| 0 <= j < i ==> node_view(out@[j]) == node_view(v@[j]),
        decreases v.len() - i,
    {
        let c = clone_node(&v[i]);
        out.push(c);
        i += 1;
    }
    proof {
        lemma_nodes_view_len(out@);
        lemma_nodes_view_len(v@);
        assert forall|j: int| 0 <= j < v@.len() implies nodes_view(out@)[j] == nodes_view(
            v@,
        )[j] by {
            lemma_nodes_view_index(out@, j);
            lemma_nodes_view_index(v@, j);
        }
        assert(nodes_view(out@) =~= nodes_view(v@));
    }
    out
}

/// The display form of a value: its bare textual content.
pub open spec fn spec_display(v: SpecValue) -> Seq<char>
    decreases v,
{
    match v {
        SpecValue::Symbol(s) => s,
        SpecValue::Integer(i) => spec_int_digits(i),
        SpecValue::Boolean(b) => if b {
            "#t"@
        } else {
            "#f"@
        },
        SpecValue::StringValue(s) => seq!['"'] + s + seq!['"'],
        SpecValue::List(items) => seq!['('] + spec_display_items(items) + seq![')'],
        SpecValue::Func(params, body) => "#<procedure>"@,
    }
}

/// The display forms of list elements, joined by single spaces.
pub open spec fn spec_display_items(items: Seq<SpecValue>) -> Seq<char>
    decreases items,
{
    if items.len() == 0 {
        Seq::empty()
    } else if items.len() == 1 {
        spec_display(items[0])
    } else {
        spec_display(items[0]) + seq![' '] + spec_display_items(items.drop_first())
    }
}

proof fn lemma_display_items_push(s: Seq<SpecValue>, x: SpecValue)
    requires
        s.len() >= 1,
    ensures
        spec_display_items(s.push(x)) == spec_display_items(s) + seq![' '] + spec_display(x),
    decreases s,
{
    if s.len() == 1 {
        assert(s.push(x).drop_first() =~= seq![x]);
        assert(s.push(x)[0] == s[0]);
        assert(spec_display_items(seq![x]) == spec_display(x));
        assert(spec_display_items(s.push(x)) =~= spec_display_items(s) + seq![' ']
            + spec_display(x));
    } else {
        assert(s.push(x).drop_first() =~= s.drop_first().push(x));
        lemma_display_items_push(s.drop_first(), x);
        assert(s.push(x)[0] == s[0]);
        assert(spec_display_items(s.push(x)) =~= spec_display_items(s) + seq![' ']
            + spec_display(x));
    }
}

/// The print form of a value: the display form, with a quote marker in
/// front of symbols and lists, which are data rather than self-evaluating.
pub open spec fn spec_print(v: SpecValue) -> Seq<char> {
    match v {
        SpecValue::Symbol(s) => seq!['\''] + spec_display(v),
        SpecValue::List(items) => seq!['\''] + spec_display(v),
        _ => spec_display(v),
    }
}

impl Value {
    /// Renders the display form of this value.
    pub fn display(&self) -> (r: String)
        ensures
            r@ == spec_display(value_view(*self)),
        decreases *self,
    {
        proof {
            reveal_strlit("#t");
            reveal_strlit("#f");
            reveal_strlit("\"");
            reveal_strlit("(");
            reveal_strlit(")");
            reveal_strlit(" ");
        }
        match self {
            Value::Symbol(s) => s.clone(),
            Value::Integer(i) => isize_to_string(*i),
            Value::Boolean(b) => {
                if *b {
                    String::from_str("#t")
                } else {
                    String::from_str("#f")
                }
            },
            Value::StringValue(s) => {
                let mut r = String::from_str("\"");
                r.append(s.as_str());
                r.append("\"");
                proof {
                    assert(r@ =~= spec_display(value_view(*self)));
                }
                r
            },
            Value::List(items) => {
                let ghost vs = values_view(items@);
                let mut r = String::from_str("(");
                proof {
                    lemma_values_view_len(items@);
                    assert(r@ =~= seq!['(']);
                }
                let mut i: usize = 0;
                while i < items.len()
                    invariant
                        *self is List,
                        items@ == self->List_0@,
                        vs == values_view(items@),
                        vs.len() == items@.len(),
                        i <= items.len(),
                        r@ == seq!['('] + spec_display_items(vs.take(i as int)),
                    decreases items.len() - i,
                {
                    proof {
                        broadcast use vstd::std_specs::vec::axiom_vec_index_decreases;

                        let m = *self;
                        assert(decreases_to!(m => m->List_0));
                        assert(decreases_to!(m->List_0 => m->List_0[i as int]));
                        assert(decreases_to!(*self => items@[i as int]));
                    }
                    if i > 0 {
                        r.append(" ");
                    }
                    let piece = items[i].display();
                    r.append(piece.as_str());
                    proof {
                        reveal_strlit(" ");
                        reveal_strlit("(");
                        lemma_values_view_index(items@, i as int);
                        if i == 0 {
                            assert(vs.take(1int) =~= seq![vs[0]]);
                            assert(r@ =~= seq!['('] + spec_display_items(vs.take(1int)));
                        } else {
                            lemma_display_items_push(vs.take(i as int), vs[i as int]);
                            assert(vs.take(i as int).push(vs[i as int]) =~= vs.take(i + 1 as int));
                            assert(r@ =~= seq!['('] + spec_display_items(vs.take(i + 1 as int)));
                        }
                    }
                    i += 1;
                }
                r.append(")");
                proof {
                    assert(vs.take(items@.len() as int) =~= vs);
                    assert(r@ =~= spec_display(value_view(*self)));
                }
                r
            },
            Value::Func(params, body) => String::from_str("#<procedure>"),
        }
    }

    /// Renders the print form of this value, used for final output.
    pub fn to_string(&self) -> (r: String)
        ensures
            r@ == spec_print(value_view(*self)),
    {
        proof {
            reveal_strlit("'");
        }
        match self {
            Value::Symbol(s) => {
                let mut r = String::from_str("'");
                let d = self.display();
                r.append(d.as_str());
                proof {
                    assert(r@ =~= spec_print(value_view(*self)));
                }
                r
            },
            Value::List(items) => {
                let mut r = String::from_str("'");
                let d = self.display();
                r.append(d.as_str());
                proof {
                    assert(r@ =~= spec_print(value_view(*self)));
                }
                r
            },
            _ => self.display(),
        }
    }
}

} // verus!

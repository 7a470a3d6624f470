//! Syntax nodes and the parser that shapes a token sequence into an
//! ordered forest of them, using parenthesis nesting as the only grouping.
use vstd::prelude::*;

use crate::errors::ParseError;
use crate::token::SpecToken;
use crate::token::Token;
use crate::token::token_view;
use crate::token::tokens_view;

verus! {

/// One node of the syntax forest.
#[derive(Debug, PartialEq)]
pub enum ASTNode {
    Identifier(String),
    Integer(isize),
    Boolean(bool),
    StringNode(String),
    List(Vec<ASTNode>),
}

/// Spec-level model of an `ASTNode`.
pub enum SpecNode {
    Identifier(Seq<char>),
    Integer(int),
    Boolean(bool),
    StringNode(Seq<char>),
    List(Seq<SpecNode>),
}

/// The model an `ASTNode` value stands for.
pub open spec fn node_view(n: ASTNode) -> SpecNode
    decreases n,
{
    match n {
        ASTNode::Identifier(s) => SpecNode::Identifier(s@),
        ASTNode::Integer(v) => SpecNode::Integer(v as int),
        ASTNode::Boolean(b) => SpecNode::Boolean(b),
        ASTNode::StringNode(s) => SpecNode::StringNode(s@),
        ASTNode::List(v) => SpecNode::List(nodes_view(v@)),
    }
}

/// The models of a sequence of nodes, in order.
pub open spec fn nodes_view(s: Seq<ASTNode>) -> Seq<SpecNode>
    decreases s,
{
    if s.len() == 0 {
        Seq::empty()
    } else {
        seq![node_view(s[0])] + nodes_view(s.drop_first())
    }
}

pub broadcast proof fn lemma_nodes_view_len(s: Seq<ASTNode>)
    ensures
        #[trigger] nodes_view(s).len() == s.len(),
    decreases s,
{
    if s.len() > 0 {
        lemma_nodes_view_len(s.drop_first());
    }
}

pub broadcast proof fn lemma_nodes_view_index(s: Seq<ASTNode>, i: int)
    requires
        0 <= i < s.len(),
    ensures
        #[trigger] nodes_view(s)[i] == node_view(s[i]),
    decreases s,
{
    lemma_nodes_view_len(s);
    if i > 0 {
        lemma_nodes_view_index(s.drop_first(), i - 1);
    }
}

pub proof fn lemma_nodes_view_push(s: Seq<ASTNode>, x: ASTNode)
    ensures
        nodes_view(s.push(x)) == nodes_view(s).push(node_view(x)),
{
    lemma_nodes_view_len(s);
    lemma_nodes_view_len(s.push(x));
    assert forall|i: int| 0 <= i < s.len() + 1 implies nodes_view(s.push(x))[i] == nodes_view(
        s,
    ).push(node_view(x))[i] by {
        lemma_nodes_view_index(s.push(x), i);
        if i < s.len() {
            lemma_nodes_view_index(s, i);
        }
    }
    assert(nodes_view(s.push(x)) =~= nodes_view(s).push(node_view(x)));
}

/// A structural copy of one syntax node.
pub fn clone_node(n: &ASTNode) -> (r: ASTNode)
    ensures
        node_view(r) == node_view(*n),
    decreases *n,
{
    match n {
        ASTNode::Identifier(s) => ASTNode::Identifier(s.clone()),
        ASTNode::Integer(v) => ASTNode::Integer(*v),
        ASTNode::Boolean(b) => ASTNode::Boolean(*b),
        ASTNode::StringNode(s) => ASTNode::StringNode(s.clone()),
        ASTNode::List(v) => {
            let mut out: Vec<ASTNode> = Vec::new();
            let mut i: usize = 0;
            while i < v.len()
                invariant
                    *n is List,
                    v@ == n->List_0@,
                    i <= v.len(),
                    out@.len() == i,
                    forall|j: int| 0 <= j < i ==> node_view(out@[j]) == node_view(v@[j]),
                decreases v.len() - i,
            {
                proof {
                    broadcast use vstd::std_specs::vec::axiom_vec_index_decreases;

                    let m = *n;
                    assert(decreases_to!(m => m->List_0));
                    assert(decreases_to!(m->List_0 => m->List_0[i as int]));
                    assert(decreases_to!(*n => v@[i as int]));
                }
                let c = clone_node(&v[i]);
                out.push(c);
                i += 1;
            }
            proof {
                lemma_nodes_view_len(out@);
                lemma_nodes_view_len(v@);
                assert forall|j: int| 0 <= j < v@.len() implies nodes_view(out@)[j] == nodes_view(
                    v@,
                )[j] by {
                    lemma_nodes_view_index(out@, j);
                    lemma_nodes_view_index(v@, j);
                }
                assert(nodes_view(out@) =~= nodes_view(v@));
            }
            ASTNode::List(out)
        },
    }
}

/// Appends a finished node to the list being built on top of the stack.
pub open spec fn stack_append(stack: Seq<Seq<SpecNode>>, n: SpecNode) -> Seq<Seq<SpecNode>>
    recommends
        stack.len() >= 1,
{
    stack.drop_last().push(stack.last().push(n))
}

/// Feeds one token to the parse stack.  An opening paren starts a new
/// list; a closing paren finishes the top list and appends it one level
/// down, or is rejected at the top level; every other token appends the
/// matching leaf node.
pub open spec fn spec_parse_push(stack: Seq<Seq<SpecNode>>, t: SpecToken) -> Result<
    Seq<Seq<SpecNode>>,
    ParseError,
>
    recommends
        stack.len() >= 1,
{
    match t {
        SpecToken::OpenParen => Ok(stack.push(Seq::empty())),
        SpecToken::CloseParen => {
            if stack.len() <= 1 {
                Err(ParseError::ClosingParenWithoutOpening)
            } else {
                Ok(stack_append(stack.drop_last(), SpecNode::List(stack.last())))
            }
        },
        SpecToken::Identifier(s) => Ok(stack_append(stack, SpecNode::Identifier(s))),
        SpecToken::Integer(v) => Ok(stack_append(stack, SpecNode::Integer(v))),
        SpecToken::Boolean(b) => Ok(stack_append(stack, SpecNode::Boolean(b))),
        SpecToken::StringToken(s) => Ok(stack_append(stack, SpecNode::StringNode(s))),
    }
}

/// Runs the parse stack over the tokens from position `i` on.
pub open spec fn spec_parse_iter(
    ts: Seq<SpecToken>,
    i: int,
    stack: Seq<Seq<SpecNode>>,
) -> Result<Seq<Seq<SpecNode>>, ParseError>
    decreases ts.len() - i,
    when 0 <= i <= ts.len()
{
    if i >= ts.len() {
        Ok(stack)
    } else {
        match spec_parse_push(stack, ts[i]) {
            Err(e) => Err(e),
            Ok(st2) => spec_parse_iter(ts, i + 1, st2),
        }
    }
}

/// The syntax forest a token sequence denotes, or its structural error:
/// a stack deeper than one at the end means an unclosed group.
pub open spec fn spec_parse(ts: Seq<SpecToken>) -> Result<Seq<SpecNode>, ParseError> {
    match spec_parse_iter(ts, 0, seq![Seq::<SpecNode>::empty()]) {
        Err(e) => Err(e),
        Ok(stack) => {
            if stack.len() == 1 {
                Ok(stack[0])
            } else {
                Err(ParseError::UnexpectedEOI)
            }
        },
    }
}

/// The models of the lists on the parse stack, in order.
pub open spec fn stack_view(s: Seq<Vec<ASTNode>>) -> Seq<Seq<SpecNode>> {
    Seq::new(s.len(), |i: int| nodes_view(s[i]@))
}

/// Shapes a token sequence into the syntax forest it denotes, or reports
/// the structural error, exactly as the spec parser prescribes.
pub fn parse(tokens: &Vec<Token>) -> (r: Result<Vec<ASTNode>, ParseError>)
    ensures
        match r {
            Ok(nodes) => spec_parse(tokens_view(tokens@)) == Ok::<Seq<SpecNode>, ParseError>(
                nodes_view(nodes@),
            ),
            Err(e) => spec_parse(tokens_view(tokens@)) == Err::<Seq<SpecNode>, ParseError>(e),
        },
{
    let ghost ts = tokens_view(tokens@);
    let mut stack: Vec<Vec<ASTNode>> = Vec::new();
    stack.push(Vec::new());
    proof {
        assert(stack_view(stack@) =~= seq![Seq::<SpecNode>::empty()]);
    }
    let mut i: usize = 0;
    while i < tokens.len()
        invariant
            ts == tokens_view(tokens@),
            ts.len() == tokens@.len(),
            i <= tokens.len(),
            stack@.len() >= 1,
            spec_parse_iter(ts, i as int, stack_view(stack@)) == spec_parse_iter(
                ts,
                0,
                seq![Seq::<SpecNode>::empty()],
            ),
        decreases tokens.len() - i,
    {
        let ghost st = stack_view(stack@);
        proof {
            assert(ts[i as int] == token_view(tokens@[i as int]));
        }
        match &tokens[i] {
            Token::OpenParen => {
                stack.push(Vec::new());
                proof {
                    assert(stack_view(stack@) =~= st.push(Seq::<SpecNode>::empty()));
                    assert(spec_parse_push(st, ts[i as int]) == Ok::<
                        Seq<Seq<SpecNode>>,
                        ParseError,
                    >(stack_view(stack@)));
                }
            },
            Token::CloseParen => {
                if stack.len() <= 1 {
                    proof {
                        assert(spec_parse_iter(ts, i as int, st) == Err::<
                            Seq<Seq<SpecNode>>,
                            ParseError,
                        >(ParseError::ClosingParenWithoutOpening));
                    }
                    return Err(ParseError::ClosingParenWithoutOpening);
                }
                let inner = match stack.pop() {
                    Some(v) => v,
                    None => {
                        proof {
                            assert(false);
                        }
                        Vec::new()
                    },
                };
                let mut outer = match stack.pop() {
                    Some(v) => v,
                    None => {
                        proof {
                            assert(false);
                        }
                        Vec::new()
                    },
                };
                let ghost outer0 = outer@;
                let ghost inner0 = inner@;
                outer.push(ASTNode::List(inner));
                stack.push(outer);
                proof {
                    lemma_nodes_view_push(outer0, ASTNode::List(inner));
                    assert(stack_view(stack@) =~= stack_append(
                        st.drop_last(),
                        SpecNode::List(st.last()),
                    ));
                    assert(spec_parse_push(st, ts[i as int]) == Ok::<
                        Seq<Seq<SpecNode>>,
                        ParseError,
                    >(stack_view(stack@)));
                }
            },
            Token::Identifier(v) => {
                let node = ASTNode::Identifier(v.clone());
                let ghost node0 = node;
                let mut top = match stack.pop() {
                    Some(t) => t,
                    None => {
                        proof {
                            assert(false);
                        }
                        Vec::new()
                    },
                };
                let ghost top0 = top@;
                top.push(node);
                stack.push(top);
                proof {
                    lemma_nodes_view_push(top0, node0);
                    assert(node_view(node0) == SpecNode::Identifier(v@));
                    assert(stack_view(stack@) =~= stack_append(st, SpecNode::Identifier(v@)));
                    assert(spec_parse_push(st, ts[i as int]) == Ok::<
                        Seq<Seq<SpecNode>>,
                        ParseError,
                    >(stack_view(stack@)));
                }
            },
            Token::Integer(v) => {
                let node = ASTNode::Integer(*v);
                let ghost node0 = node;
                let mut top = match stack.pop() {
                    Some(t) => t,
                    None => {
                        proof {
                            assert(false);
                        }
                        Vec::new()
                    },
                };
                let ghost top0 = top@;
                top.push(node);
                stack.push(top);
                proof {
                    lemma_nodes_view_push(top0, node0);
                    assert(stack_view(stack@) =~= stack_append(st, SpecNode::Integer(*v as int)));
                    assert(spec_parse_push(st, ts[i as int]) == Ok::<
                        Seq<Seq<SpecNode>>,
                        ParseError,
                    >(stack_view(stack@)));
                }
            },
            Token::Boolean(v) => {
                let node = ASTNode::Boolean(*v);
                let ghost node0 = node;
                let mut top = match stack.pop() {
                    Some(t) => t,
                    None => {
                        proof {
                            assert(false);
                        }
                        Vec::new()
                    },
                };
                let ghost top0 = top@;
                top.push(node);
                stack.push(top);
                proof {
                    lemma_nodes_view_push(top0, node0);
                    assert(stack_view(stack@) =~= stack_append(st, SpecNode::Boolean(*v)));
                    assert(spec_parse_push(st, ts[i as int]) == Ok::<
                        Seq<Seq<SpecNode>>,
                        ParseError,
                    >(stack_view(stack@)));
                }
            },
            Token::StringToken(v) => {
                let node = ASTNode::StringNode(v.clone());
                let ghost node0 = node;
                let mut top = match stack.pop() {
                    Some(t) => t,
                    None => {
                        proof {
                            assert(false);
                        }
                        Vec::new()
                    },
                };
                let ghost top0 = top@;
                top.push(node);
                stack.push(top);
                proof {
                    lemma_nodes_view_push(top0, node0);
                    assert(node_view(node0) == SpecNode::StringNode(v@));
                    assert(stack_view(stack@) =~= stack_append(st, SpecNode::StringNode(v@)));
                    assert(spec_parse_push(st, ts[i as int]) == Ok::<
                        Seq<Seq<SpecNode>>,
                        ParseError,
                    >(stack_view(stack@)));
                }
            },
        }
        i += 1;
    }
    let ghost st = stack_view(stack@);
    proof {
        assert(spec_parse_iter(ts, tokens@.len() as int, st) == Ok::<
            Seq<Seq<SpecNode>>,
            ParseError,
        >(st));
    }
    if stack.len() == 1 {
        let nodes = match stack.pop() {
            Some(v) => v,
            None => {
                proof {
                    assert(false);
                }
                Vec::new()
            },
        };
        proof {
            assert(st[0] == nodes_view(nodes@));
        }
        Ok(nodes)
    } else {
        Err(ParseError::UnexpectedEOI)
    }
}

} // verus!

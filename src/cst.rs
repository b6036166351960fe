//! The concrete syntax tree: rule nodes with (optionally named) children, and
//! token nodes that own their full text, trivia included.
use vstd::prelude::*;
use vstd::utf8::encode_utf8;

verus! {

broadcast use vstd::std_specs::vec::group_vec_axioms;

/// A byte range `start..end` of the source text.
#[derive(Clone, Copy, Debug, PartialEq, Eq, Structural)]
pub struct TextRange {
    pub start: usize,
    pub end: usize,
}

impl TextRange {
    /// The number of bytes covered (none when `end` does not exceed `start`).
    pub open spec fn spec_len(self) -> nat {
        if self.end > self.start {
            (self.end - self.start) as nat
        } else {
            0
        }
    }
}

/// A node of the tree.
pub enum Node {
    Rule(RuleNode),
    Token(TokenNode),
}

/// A non-terminal: its kind and its ordered children.
pub struct RuleNode {
    pub kind: String,
    pub children: Vec<Edge>,
}

/// A terminal: its kind and its full text, leading and trailing trivia included.
pub struct TokenNode {
    pub kind: String,
    pub text: String,
}

/// A child, with the field name under which its parent's shape bound it.
pub struct Edge {
    pub name: Option<String>,
    pub node: Node,
}

/// The source text that a node covers: a token's own text, or its children's, in order.
pub open spec fn node_text(n: Node) -> Seq<u8>
    decreases n, 0nat,
{
    match n {
        Node::Token(t) => encode_utf8(t.text@),
        Node::Rule(r) => edges_text(r.children@),
    }
}

/// The texts of the nodes of `es`, concatenated.
pub open spec fn edges_text(es: Seq<Edge>) -> Seq<u8>
    decreases es, 0nat,
{
    if es.len() == 0 {
        seq![]
    } else {
        edges_text(es.subrange(0, es.len() - 1)) + node_text(es[es.len() - 1].node)
    }
}

/// The length in bytes of the text a node covers.
pub open spec fn node_len(n: Node) -> nat {
    node_text(n).len()
}

/// The number of rule levels on the longest path from `n` down to a leaf.
pub open spec fn height(n: Node) -> nat
    decreases n, 0nat,
{
    match n {
        Node::Token(_) => 0,
        Node::Rule(r) => 1 + edges_height(r.children@),
    }
}

/// The greatest height among the nodes of `es`.
pub open spec fn edges_height(es: Seq<Edge>) -> nat
    decreases es, 0nat,
{
    if es.len() == 0 {
        0
    } else {
        let a = edges_height(es.subrange(0, es.len() - 1));
        let b = height(es[es.len() - 1].node);
        if a > b {
            a
        } else {
            b
        }
    }
}

/// Taking one more child adds that child's text.
pub proof fn lemma_edges_text_step(es: Seq<Edge>, k: int)
    requires
        0 <= k < es.len(),
    ensures
        edges_text(es.subrange(0, k + 1)) == edges_text(es.subrange(0, k)) + node_text(es[k].node),
{
    let s = es.subrange(0, k + 1);
    assert(s.subrange(0, s.len() - 1) =~= es.subrange(0, k));
}

/// The text of the first `k` children is no longer than the text of all of them.
pub proof fn lemma_edges_prefix_len(es: Seq<Edge>, k: int)
    requires
        0 <= k <= es.len(),
    ensures
        edges_text(es.subrange(0, k)).len() <= edges_text(es).len(),
    decreases es.len(),
{
    if k == es.len() {
        assert(es.subrange(0, k) =~= es);
    } else {
        let init = es.subrange(0, es.len() - 1);
        lemma_edges_prefix_len(init, k);
        assert(init.subrange(0, k) =~= es.subrange(0, k));
    }
}

/// No child is higher than the highest of them.
pub proof fn lemma_edges_height(es: Seq<Edge>, k: int)
    requires
        0 <= k < es.len(),
    ensures
        height(es[k].node) <= edges_height(es),
    decreases es.len(),
{
    if k < es.len() - 1 {
        let init = es.subrange(0, es.len() - 1);
        lemma_edges_height(init, k);
        assert(init[k] == es[k]);
    }
}

/// The length in bytes of the text that `n` covers.
pub fn text_len(n: &Node) -> (r: usize)
    requires
        node_len(*n) <= usize::MAX,
    ensures
        r == node_len(*n),
    decreases n, 0nat,
{
    match n {
        Node::Token(t) => t.text.as_str().as_bytes().len(),
        Node::Rule(r) => {
            let ghost es = r.children@;
            let mut total: usize = 0;
            let mut k: usize = 0;
            while k < r.children.len()
                invariant
                    *n == Node::Rule(*r),
                    es == r.children@,
                    node_len(*n) <= usize::MAX,
                    node_text(*n) == edges_text(es),
                    k <= es.len(),
                    total == edges_text(es.subrange(0, k as int)).len(),
                decreases es.len() - k,
            {
                proof {
                    lemma_edges_text_step(es, k as int);
                    lemma_edges_prefix_len(es, k + 1);
                    assert(decreases_to!(r.children => r.children[k as int]));
                    assert(decreases_to!(r.children[k as int] => r.children[k as int].node));
                    assert(decreases_to!(*n => r.children[k as int].node));
                }
                let c = text_len(&r.children[k].node);
                total = total + c;
                k = k + 1;
            }
            assert(es.subrange(0, es.len() as int) =~= es);
            total
        },
    }
}

} // verus!

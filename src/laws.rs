//! Structural laws of trees and of the cursor walk over them.
use vstd::prelude::*;
use crate::cst::{edges_text, lemma_edges_text_step, node_len, node_text, Edge, Node, TextRange};
use crate::cursor::{edges_count, entry_of, node_count, walk, walk_edges};

verus! {

broadcast use vstd::std_specs::vec::group_vec_axioms;

/// The walk of a subtree has one entry per node of it.
pub proof fn lemma_walk_len(n: Node, name: Option<String>, off: nat, depth: nat)
    ensures
        walk(n, name, off, depth).len() == node_count(n),
    decreases n, 0nat,
{
    match n {
        Node::Rule(r) => {
            assert(decreases_to!(r.children => r.children@));
            lemma_walk_edges_len(r.children@, off, depth + 1);
        },
        Node::Token(_) => {},
    }
}

/// The walk of a list of subtrees has one entry per node of them.
pub proof fn lemma_walk_edges_len(es: Seq<Edge>, off: nat, depth: nat)
    ensures
        walk_edges(es, off, depth).len() == edges_count(es),
    decreases es, 0nat,
{
    if es.len() > 0 {
        let init = es.subrange(0, es.len() - 1);
        lemma_walk_edges_len(init, off, depth);
        lemma_walk_len(es[es.len() - 1].node, es[es.len() - 1].name, off + edges_text(init).len(), depth);
    }
}

/// Walk completeness: the walk from the root has exactly one entry per node of
/// the tree, the first being the root itself, whose range is the whole text.
/// A cursor built on the root therefore advances once fewer than there are
/// nodes before `go_to_next` reports that no node is left.
pub proof fn walk_completeness(root: Node)
    ensures
        walk(root, None, 0, 0).len() == node_count(root),
        node_count(root) >= 1,
        walk(root, None, 0, 0)[0] == entry_of(root, None, 0, 0),
        entry_of(root, None, 0, 0).range == (TextRange { start: 0, end: node_len(root) as usize }),
{
    lemma_walk_len(root, None, 0, 0);
}

/// Where child `k` of a list whose first child starts at `off` starts.
pub open spec fn child_start(es: Seq<Edge>, off: nat, k: int) -> nat {
    off + edges_text(es.subrange(0, k)).len()
}

/// Range coverage: the children of a rule node that starts at `off` cover its
/// range exactly, one after another: the first starts where the rule does, each
/// ends where the next starts, and the last ends where the rule does.
pub proof fn range_coverage(n: Node, off: nat, k: int)
    requires
        n matches Node::Rule(r) && 0 <= k < r.children@.len(),
    ensures
        n matches Node::Rule(r) && {
            let es = r.children@;
            &&& child_start(es, off, 0) == off
            &&& child_start(es, off, k) + node_len(es[k].node) == child_start(es, off, k + 1)
            &&& child_start(es, off, es.len() as int) == off + node_len(n)
        },
{
    if let Node::Rule(r) = n {
        let es = r.children@;
        assert(es.subrange(0, 0) =~= Seq::<Edge>::empty());
        lemma_edges_text_step(es, k);
        assert(es.subrange(0, es.len() as int) =~= es);
    }
}

/// The texts of the tokens of `n`, in pre-order.
pub open spec fn leaf_texts(n: Node) -> Seq<Seq<u8>>
    decreases n, 0nat,
{
    match n {
        Node::Rule(r) => edges_leaf_texts(r.children@),
        Node::Token(_) => seq![node_text(n)],
    }
}

/// The texts of the tokens of the subtrees of `es`, in pre-order.
pub open spec fn edges_leaf_texts(es: Seq<Edge>) -> Seq<Seq<u8>>
    decreases es, 0nat,
{
    if es.len() == 0 {
        seq![]
    } else {
        edges_leaf_texts(es.subrange(0, es.len() - 1)) + leaf_texts(es[es.len() - 1].node)
    }
}

/// Losslessness: the texts of the tokens of `n`, in order, make up its text.
pub proof fn losslessness(n: Node)
    ensures
        leaf_texts(n).flatten() == node_text(n),
    decreases n, 0nat,
{
    match n {
        Node::Rule(r) => {
            assert(decreases_to!(r.children => r.children@));
            lemma_edges_lossless(r.children@);
        },
        Node::Token(_) => {
            assert(seq![node_text(n)].flatten() =~= node_text(n)) by {
                reveal_with_fuel(Seq::flatten, 2);
            }
        },
    }
}

/// The tokens of a list of subtrees, in order, make up its text.
pub proof fn lemma_edges_lossless(es: Seq<Edge>)
    ensures
        edges_leaf_texts(es).flatten() == edges_text(es),
    decreases es, 0nat,
{
    if es.len() > 0 {
        let init = es.subrange(0, es.len() - 1);
        lemma_edges_lossless(init);
        losslessness(es[es.len() - 1].node);
        vstd::seq_lib::lemma_flatten_concat(edges_leaf_texts(init), leaf_texts(es[es.len() - 1].node));
    }
}

} // verus!

//! A forward-only cursor over a tree: the nodes in pre-order, each with its
//! kind, field name, text range, depth and number of children.
use vstd::prelude::*;
use crate::cst::{
    edges_height, edges_text, height, lemma_edges_height, lemma_edges_prefix_len, lemma_edges_text_step,
    node_len, node_text, text_len, Edge, Node, TextRange,
};

verus! {

broadcast use vstd::std_specs::vec::group_vec_axioms;

/// What the cursor knows of one node.
pub struct CursorEntry {
    pub kind: String,
    pub is_rule: bool,
    pub name: Option<String>,
    pub range: TextRange,
    pub depth: usize,
    pub child_count: usize,
}

/// The entry of node `n`, bound under `name`, starting at `off`, at `depth`.
pub open spec fn entry_of(n: Node, name: Option<String>, off: nat, depth: nat) -> CursorEntry {
    match n {
        Node::Rule(r) => CursorEntry {
            kind: r.kind,
            is_rule: true,
            name,
            range: TextRange { start: off as usize, end: (off + node_len(n)) as usize },
            depth: depth as usize,
            child_count: r.children@.len() as usize,
        },
        Node::Token(t) => CursorEntry {
            kind: t.kind,
            is_rule: false,
            name,
            range: TextRange { start: off as usize, end: (off + node_len(n)) as usize },
            depth: depth as usize,
            child_count: 0,
        },
    }
}

/// The entries of the subtree of `n` in pre-order: the node, then each child's subtree.
pub open spec fn walk(n: Node, name: Option<String>, off: nat, depth: nat) -> Seq<CursorEntry>
    decreases n, 0nat,
{
    seq![entry_of(n, name, off, depth)] + match n {
        Node::Rule(r) => walk_edges(r.children@, off, depth + 1),
        Node::Token(_) => seq![],
    }
}

/// The entries of the subtrees of `es`, the first of which starts at `off`.
pub open spec fn walk_edges(es: Seq<Edge>, off: nat, depth: nat) -> Seq<CursorEntry>
    decreases es, 0nat,
{
    if es.len() == 0 {
        seq![]
    } else {
        let init = es.subrange(0, es.len() - 1);
        walk_edges(init, off, depth) + walk(
            es[es.len() - 1].node,
            es[es.len() - 1].name,
            off + edges_text(init).len(),
            depth,
        )
    }
}

/// The number of nodes in the subtree of `n`.
pub open spec fn node_count(n: Node) -> nat
    decreases n, 0nat,
{
    1 + match n {
        Node::Rule(r) => edges_count(r.children@),
        Node::Token(_) => 0,
    }
}

/// The number of nodes in the subtrees of `es`.
pub open spec fn edges_count(es: Seq<Edge>) -> nat
    decreases es, 0nat,
{
    if es.len() == 0 {
        0
    } else {
        edges_count(es.subrange(0, es.len() - 1)) + node_count(es[es.len() - 1].node)
    }
}

fn clone_name(name: &Option<String>) -> (r: Option<String>)
    ensures
        r == *name,
{
    match name {
        Some(s) => Some(s.clone()),
        None => None,
    }
}

fn flatten(out: &mut Vec<CursorEntry>, n: &Node, name: &Option<String>, off: usize, depth: usize)
    requires
        off + node_len(*n) <= usize::MAX,
        depth + height(*n) < usize::MAX,
    ensures
        final(out)@ == old(out)@ + walk(*n, *name, off as nat, depth as nat),
    decreases n, 0nat,
{
    let len = text_len(n);
    let range = TextRange { start: off, end: off + len };
    match n {
        Node::Token(t) => {
            out.push(CursorEntry { kind: t.kind.clone(), is_rule: false, name: clone_name(name), range, depth, child_count: 0 });
            assert(out@ =~= old(out)@ + walk(*n, *name, off as nat, depth as nat));
        },
        Node::Rule(r) => {
            out.push(CursorEntry {
                kind: r.kind.clone(),
                is_rule: true,
                name: clone_name(name),
                range,
                depth,
                child_count: r.children.len(),
            });
            let ghost mid = out@;
            let ghost es = r.children@;
            let mut k: usize = 0;
            let mut pos: usize = off;
            while k < r.children.len()
                invariant
                    *n == Node::Rule(*r),
                    es == r.children@,
                    off + node_len(*n) <= usize::MAX,
                    depth + height(*n) < usize::MAX,
                    node_text(*n) == edges_text(es),
                    height(*n) == 1 + edges_height(es),
                    k <= es.len(),
                    pos == off + edges_text(es.subrange(0, k as int)).len(),
                    out@ == mid + walk_edges(es.subrange(0, k as int), off as nat, (depth + 1) as nat),
                decreases es.len() - k,
            {
                proof {
                    assert(decreases_to!(r.children => r.children[k as int]));
                    assert(decreases_to!(r.children[k as int] => r.children[k as int].node));
                    lemma_edges_text_step(es, k as int);
                    lemma_edges_prefix_len(es, k + 1);
                    lemma_edges_height(es, k as int);
                }
                flatten(out, &r.children[k].node, &r.children[k].name, pos, depth + 1);
                proof {
                    let s = es.subrange(0, k + 1);
                    assert(s.subrange(0, s.len() - 1) =~= es.subrange(0, k as int));
                    assert(s[s.len() - 1] == es[k as int]);
                    assert(out@ =~= mid + walk_edges(s, off as nat, (depth + 1) as nat));
                }
                let c = text_len(&r.children[k].node);
                pos = pos + c;
                k = k + 1;
            }
            assert(es.subrange(0, es.len() as int) =~= es);
            assert(out@ =~= old(out)@ + walk(*n, *name, off as nat, depth as nat));
        },
    }
}

/// A forward-only cursor: the pre-order entries of a tree and the current position.
pub struct Cursor {
    pub entries: Vec<CursorEntry>,
    pub position: usize,
}

impl Cursor {
    /// The position is on an entry.
    pub open spec fn wf(self) -> bool {
        self.position < self.entries@.len()
    }

    /// A cursor on the root of `root`, which is unbound and starts at offset zero.
    pub fn new(root: &Node) -> (r: Cursor)
        requires
            node_len(*root) <= usize::MAX,
            height(*root) < usize::MAX,
        ensures
            r.entries@ == walk(*root, None, 0, 0),
            r.position == 0,
            r.wf(),
    {
        let mut entries: Vec<CursorEntry> = Vec::new();
        flatten(&mut entries, root, &None, 0, 0);
        assert(entries@ =~= walk(*root, None, 0, 0));
        Cursor { entries, position: 0 }
    }

    /// Moves to the next node in pre-order; `false`, without moving, when there is none.
    pub fn go_to_next(&mut self) -> (r: bool)
        requires
            old(self).wf(),
        ensures
            r == (old(self).position + 1 < old(self).entries@.len()),
            final(self).entries == old(self).entries,
            final(self).position == if r {
                old(self).position + 1
            } else {
                old(self).position as int
            },
            final(self).wf(),
    {
        if self.position < self.entries.len() - 1 {
            self.position = self.position + 1;
            true
        } else {
            false
        }
    }

    /// The current node.
    pub fn node(&self) -> (r: &CursorEntry)
        requires
            self.wf(),
        ensures
            *r == self.entries@[self.position as int],
    {
        &self.entries[self.position]
    }

    /// The field name under which the current node is bound, if any.
    pub fn node_name(&self) -> (r: &Option<String>)
        requires
            self.wf(),
        ensures
            *r == self.entries@[self.position as int].name,
    {
        &self.entries[self.position].name
    }

    /// The byte range that the current node covers.
    pub fn text_range(&self) -> (r: TextRange)
        requires
            self.wf(),
        ensures
            r == self.entries@[self.position as int].range,
    {
        self.entries[self.position].range
    }

    /// The number of immediate children of the current node.
    pub fn child_count(&self) -> (r: usize)
        requires
            self.wf(),
        ensures
            r == self.entries@[self.position as int].child_count,
    {
        self.entries[self.position].child_count
    }

    /// Whether the entry at `q` lies inside the subtree of the current node:
    /// it follows it with no entry as shallow in between.
    pub open spec fn in_subtree(self, q: int) -> bool {
        let p = self.position as int;
        let d = self.entries@[p].depth;
        p < q < self.entries@.len() && forall|m: int| p < m <= q ==> (#[trigger] self.entries@[m]).depth > d
    }

    /// Whether the entry at `q` is an immediate child of the current node.
    pub open spec fn is_child(self, q: int) -> bool {
        self.in_subtree(q) && self.entries@[q].depth == self.entries@[self.position as int].depth + 1
    }

    /// The positions of the immediate children of the current node, in order,
    /// without moving the cursor.
    pub fn children(&self) -> (r: Vec<usize>)
        requires
            self.wf(),
        ensures
            forall|i: int| 0 <= i < r@.len() ==> self.is_child(#[trigger] r@[i] as int),
            forall|i: int, j: int| 0 <= i < j < r@.len() ==> r@[i] < r@[j],
            forall|q: int| #[trigger] self.is_child(q) ==> r@.contains(q as usize),
    {
        let p = self.position;
        let d = self.entries[p].depth;
        let mut r: Vec<usize> = Vec::new();
        let n = self.entries.len();
        assert(p < n);
        let mut q: usize = p + 1;
        while q < self.entries.len() && self.entries[q].depth > d
            invariant
                self.wf(),
                p == self.position,
                d == self.entries@[p as int].depth,
                p < q <= self.entries@.len(),
                forall|m: int| p < m < q ==> (#[trigger] self.entries@[m]).depth > d,
                forall|i: int| 0 <= i < r@.len() ==> self.is_child(#[trigger] r@[i] as int) && r@[i] < q,
                forall|i: int, j: int| 0 <= i < j < r@.len() ==> r@[i] < r@[j],
                forall|m: int| p < m < q && #[trigger] self.is_child(m) ==> r@.contains(m as usize),
            decreases self.entries@.len() - q,
        {
            let ghost r0 = r@;
            if self.entries[q].depth - 1 == d {
                r.push(q);
                assert(r@[r0.len() as int] == q);
                assert(self.is_child(q as int));
                assert forall|m: int| p < m < q + 1 && #[trigger] self.is_child(m) implies r@.contains(m as usize) by {
                    if m < q {
                        let i = choose|i: int| 0 <= i < r0.len() && r0[i] == m as usize;
                        assert(r@[i] == r0[i]);
                    } else {
                        assert(r@[r0.len() as int] == m as usize);
                    }
                }
            } else {
                assert forall|m: int| p < m < q + 1 && #[trigger] self.is_child(m) implies r@.contains(m as usize) by {
                    if m == q {
                        assert(self.entries@[m].depth != d + 1);
                    }
                }
            }
            q = q + 1;
        }
        assert forall|m: int| #[trigger] self.is_child(m) implies r@.contains(m as usize) by {
            if m >= q {
                assert(self.entries@[q as int].depth <= d);
            }
        }
        r
    }
}

} // verus!

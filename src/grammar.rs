//! The grammar item model: every named grammar item has a tag that fixes the
//! shape of its nodes, and the tag decides whether a node of that kind may be
//! inlined into its parent's line when it has exactly one child.
use vstd::prelude::*;

verus! {

/// How a grammar item shapes its nodes.
#[derive(Clone, Copy, Debug, PartialEq, Eq, Structural)]
pub enum ItemTag {
    Struct,
    Enum,
    Repeated,
    Separated,
    Precedence,
    Trivia,
    Keyword,
    Token,
    Fragment,
}

/// Lists (`Repeated`, `Separated`) are never inlined; every other kind may be.
pub open spec fn inlinable_tag(tag: ItemTag) -> bool {
    !(tag == ItemTag::Repeated || tag == ItemTag::Separated)
}

/// Whether items with `tag` may be inlined when they have a single child.
pub fn is_inlinable_tag(tag: ItemTag) -> (r: bool)
    ensures
        r == inlinable_tag(tag),
{
    match tag {
        ItemTag::Repeated | ItemTag::Separated => false,
        _ => true,
    }
}

/// A named grammar item.
pub struct GrammarItem {
    pub name: String,
    pub tag: ItemTag,
}

/// The items of a grammar, in definition order.
pub struct Grammar {
    pub items: Vec<GrammarItem>,
}

/// Whether some item of `items` named `name` is never inlined.
pub open spec fn never_inlined(items: Seq<GrammarItem>, name: Seq<char>) -> bool {
    exists|i: int| 0 <= i < items.len() && items[i].name@ == name && !inlinable_tag(#[trigger] items[i].tag)
}

/// The kinds whose nodes are never inlined, computed once per grammar.
pub struct InliningPolicy {
    pub never: Vec<String>,
}

impl InliningPolicy {
    /// Whether nodes of kind `name` are kept on a line of their own.
    pub open spec fn blocks(self, name: Seq<char>) -> bool {
        exists|j: int| 0 <= j < self.never@.len() && (#[trigger] self.never@[j])@ == name
    }

    /// Whether nodes of kind `name` are kept on a line of their own.
    pub fn is_blocked(&self, name: &String) -> (r: bool)
        ensures
            r == self.blocks(name@),
    {
        let mut j: usize = 0;
        while j < self.never.len()
            invariant
                j <= self.never@.len(),
                forall|q: int| 0 <= q < j ==> (#[trigger] self.never@[q])@ != name@,
            decreases self.never@.len() - j,
        {
            if self.never[j] == *name {
                return true;
            }
            j = j + 1;
        }
        false
    }
}

impl Grammar {
    /// The tag of the first item named `name`, or `None` when no item has that name.
    pub fn tag_of(&self, name: &String) -> (r: Option<ItemTag>)
        ensures
            r.is_none() <==> forall|i: int| 0 <= i < self.items@.len() ==> (#[trigger] self.items@[i]).name@ != name@,
            r matches Some(t) ==> exists|i: int|
                0 <= i < self.items@.len() && (#[trigger] self.items@[i]).name@ == name@ && self.items@[i].tag == t
                    && forall|j: int| 0 <= j < i ==> (#[trigger] self.items@[j]).name@ != name@,
    {
        let mut i: usize = 0;
        while i < self.items.len()
            invariant
                i <= self.items@.len(),
                forall|q: int| 0 <= q < i ==> (#[trigger] self.items@[q]).name@ != name@,
            decreases self.items@.len() - i,
        {
            if self.items[i].name == *name {
                return Some(self.items[i].tag);
            }
            i = i + 1;
        }
        None
    }

    /// The inlining policy of this grammar: the names of its list items.
    pub fn inlining_policy(&self) -> (r: InliningPolicy)
        ensures
            forall|name: Seq<char>| #[trigger] r.blocks(name) <==> never_inlined(self.items@, name),
    {
        let mut never: Vec<String> = Vec::new();
        let ghost mut from: Seq<int> = seq![];
        let mut i: usize = 0;
        while i < self.items.len()
            invariant
                i <= self.items@.len(),
                from.len() == never@.len(),
                forall|j: int| 0 <= j < never@.len() ==> 0 <= #[trigger] from[j] < i
                    && self.items@[from[j]].name@ == never@[j]@ && !inlinable_tag(self.items@[from[j]].tag),
                forall|q: int| 0 <= q < i && !inlinable_tag(#[trigger] self.items@[q].tag) ==> exists|j: int|
                    0 <= j < never@.len() && (#[trigger] never@[j])@ == self.items@[q].name@,
            decreases self.items@.len() - i,
        {
            if !is_inlinable_tag(self.items[i].tag) {
                let ghost n0 = never@;
                never.push(self.items[i].name.clone());
                proof {
                    from = from.push(i as int);
                }
                assert(never@[n0.len() as int] == self.items@[i as int].name);
                assert(forall|j: int| 0 <= j < n0.len() ==> never@[j] == n0[j]);
            }
            i = i + 1;
        }
        let r = InliningPolicy { never };
        assert forall|name: Seq<char>| #[trigger] r.blocks(name) <==> never_inlined(self.items@, name) by {
            if r.blocks(name) {
                let j = choose|j: int| 0 <= j < r.never@.len() && (#[trigger] r.never@[j])@ == name;
                assert(r.never@[j] == never@[j]);
                let q = from[j];
                assert(0 <= q < self.items@.len());
                assert(self.items@[q].name@ == name && !inlinable_tag(self.items@[q].tag));
                assert(never_inlined(self.items@, name));
            }
            if never_inlined(self.items@, name) {
                let q = choose|q: int| 0 <= q < self.items@.len() && self.items@[q].name@ == name
                    && !inlinable_tag(#[trigger] self.items@[q].tag);
                assert(!inlinable_tag(self.items@[q].tag));
                let j = choose|j: int| 0 <= j < never@.len() && (#[trigger] never@[j])@ == self.items@[q].name@;
                assert(r.never@[j]@ == name);
                assert(r.blocks(name));
            }
        }
        r
    }
}

} // verus!

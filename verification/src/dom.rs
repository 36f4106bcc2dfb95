use vstd::prelude::*;
use crate::chars::{sat_add, sat_add_exec, lemma_sat_add_assoc};

verus! {

/// One attribute of an element: a name and a value, both as character vectors.
pub struct Attr {
    pub name: Vec<char>,
    pub value: Vec<char>,
}

/// A node of the document tree. Nodes live in an arena (a vector) and refer to
/// each other by index; a node's children always carry indices strictly
/// greater than the node's own, which makes every walk terminate.
pub enum NodeKind {
    Element { tag: Vec<char>, attrs: Vec<Attr>, children: Vec<usize> },
    Text { text: Vec<char> },
}

pub struct Node {
    pub kind: NodeKind,
    pub parent: usize,
}

/// The mathematical view of an attribute: its two texts.
pub struct AbsAttr {
    pub name: Seq<char>,
    pub value: Seq<char>,
}

/// The mathematical view of a node's payload.
pub enum AbsKind {
    Elem { tag: Seq<char>, attrs: Seq<AbsAttr>, children: Seq<usize> },
    Text { text: Seq<char> },
}

/// The mathematical view of a node: what the parser's functional
/// specification speaks of.
pub struct AbsNode {
    pub kind: AbsKind,
    pub parent: usize,
}

pub open spec fn abs_attr(a: Attr) -> AbsAttr {
    AbsAttr { name: a.name@, value: a.value@ }
}

pub open spec fn abs_kind(k: NodeKind) -> AbsKind {
    match k {
        NodeKind::Element { tag, attrs, children } => AbsKind::Elem {
            tag: tag@,
            attrs: attrs@.map(|x: int, a: Attr| abs_attr(a)),
            children: children@,
        },
        NodeKind::Text { text } => AbsKind::Text { text: text@ },
    }
}

pub open spec fn abs_node(n: Node) -> AbsNode {
    AbsNode { kind: abs_kind(n.kind), parent: n.parent }
}

/// The mathematical view of a whole tree.
pub open spec fn abs(t: Seq<Node>) -> Seq<AbsNode> {
    t.map(|x: int, n: Node| abs_node(n))
}

/// `n` with one more child index.
pub open spec fn abs_with_child(n: AbsNode, c: usize) -> AbsNode {
    match n.kind {
        AbsKind::Elem { tag, attrs, children } => AbsNode {
            kind: AbsKind::Elem { tag, attrs, children: children.push(c) },
            parent: n.parent,
        },
        AbsKind::Text { .. } => n,
    }
}

/// A fresh node appended under `p`: the abstract form of the one operation
/// that grows a tree.
pub open spec fn abs_add_child(ns: Seq<AbsNode>, p: usize, kind: AbsKind) -> Seq<AbsNode> {
    let idx = ns.len() as usize;
    ns.push(AbsNode { kind, parent: p }).update(p as int, abs_with_child(ns[p as int], idx))
}

/// The children index list of node `i` (empty for a text node).
pub open spec fn kids(t: Seq<Node>, i: int) -> Seq<usize> {
    match t[i].kind {
        NodeKind::Element { children, .. } => children@,
        NodeKind::Text { .. } => Seq::empty(),
    }
}

/// Local well-formedness of node `i`: children lie strictly between `i` and
/// the arena's end and point back to `i`; every node but the root names an
/// earlier node as its parent; the root is an element and its own parent.
pub open spec fn node_ok(t: Seq<Node>, i: int) -> bool {
    &&& forall|k: int|
        0 <= k < kids(t, i).len() ==> i < #[trigger] kids(t, i)[k] < t.len() && t[kids(
            t,
            i,
        )[k] as int].parent == i
    &&& (i == 0 ==> t[i].parent == 0 && t[i].kind is Element)
    &&& (i > 0 ==> t[i].parent < i)
}

/// A well-formed document tree: nonempty, rooted at index 0.
pub open spec fn wf(t: Seq<Node>) -> bool {
    &&& t.len() >= 1
    &&& forall|i: int| 0 <= i < t.len() ==> #[trigger] node_ok(t, i)
}

/// Number of characters of text held beneath node `i` (the node itself
/// included), with saturating sums.
pub open spec fn text_len_of(t: Seq<Node>, i: int) -> usize
    decreases t.len() - i, 1int, 0int,
        when wf(t) && node_ok(t, i) && 0 <= i < t.len()
{
    match t[i].kind {
        NodeKind::Text { text } => text.len() as usize,
        NodeKind::Element { .. } => kids_text_len(t, i, 0),
    }
}

pub open spec fn kids_text_len(t: Seq<Node>, i: int, k: int) -> usize
    decreases t.len() - i, 0int, kids(t, i).len() - k,
        when wf(t) && node_ok(t, i) && 0 <= i < t.len() && 0 <= k <= kids(t, i).len()
{
    if k >= kids(t, i).len() {
        0
    } else {
        sat_add(text_len_of(t, kids(t, i)[k] as int), kids_text_len(t, i, k + 1))
    }
}

/// Whether node `i` is an element with the given tag.
pub open spec fn has_tag(t: Seq<Node>, i: int, tag: Seq<char>) -> bool {
    t[i].kind matches NodeKind::Element { tag: tg, .. } && tg@ == tag
}

/// Number of characters of text beneath node `i` that sit inside an anchor
/// (`a`) element, the decisive input of the link-density penalty.
pub open spec fn link_len_of(t: Seq<Node>, i: int) -> usize
    decreases t.len() - i, 1int, 0int,
        when wf(t) && node_ok(t, i) && 0 <= i < t.len()
{
    match t[i].kind {
        NodeKind::Text { .. } => 0,
        NodeKind::Element { tag, .. } => if tag@ == seq!['a'] {
            text_len_of(t, i)
        } else {
            kids_link_len(t, i, 0)
        },
    }
}

pub open spec fn kids_link_len(t: Seq<Node>, i: int, k: int) -> usize
    decreases t.len() - i, 0int, kids(t, i).len() - k,
        when wf(t) && node_ok(t, i) && 0 <= i < t.len() && 0 <= k <= kids(t, i).len()
{
    if k >= kids(t, i).len() {
        0
    } else {
        sat_add(link_len_of(t, kids(t, i)[k] as int), kids_link_len(t, i, k + 1))
    }
}

/// Whether node `i` lies in the subtree rooted at `r` (every node is in its
/// own subtree). Follows parent links, which strictly decrease.
pub open spec fn in_subtree(t: Seq<Node>, i: int, r: int) -> bool
    decreases i,
        when wf(t) && node_ok(t, i) && 0 <= i < t.len() && 0 <= r < t.len()
{
    if i == r {
        true
    } else if i <= r || i == 0 {
        false
    } else {
        in_subtree(t, t[i].parent as int, r)
    }
}

pub fn text_len(t: &Vec<Node>, i: usize) -> (r: usize)
    requires
        wf(t@),
        i < t@.len(),
    ensures
        r == text_len_of(t@, i as int),
    decreases t@.len() - i,
{
    proof {
        assert(node_ok(t@, i as int));
    }
    match &t[i].kind {
        NodeKind::Text { text } => text.len(),
        NodeKind::Element { children, .. } => {
            let mut acc: usize = 0;
            let mut k: usize = 0;
            while k < children.len()
                invariant
                    0 <= k <= children@.len(),
                    children@ == kids(t@, i as int),
                    sat_add(acc, kids_text_len(t@, i as int, k as int)) == kids_text_len(
                        t@,
                        i as int,
                        0,
                    ),
                decreases children@.len() - k,
            {
                let c = children[k];
                let tl = text_len(t, c);
                proof {
                    lemma_sat_add_assoc(acc, tl, kids_text_len(t@, i as int, k + 1));
                }
                acc = sat_add_exec(acc, tl);
                k = k + 1;
            }
            acc
        },
    }
}

pub fn link_len(t: &Vec<Node>, i: usize) -> (r: usize)
    requires
        wf(t@),
        i < t@.len(),
    ensures
        r == link_len_of(t@, i as int),
    decreases t@.len() - i,
{
    proof {
        assert(node_ok(t@, i as int));
    }
    match &t[i].kind {
        NodeKind::Text { .. } => 0,
        NodeKind::Element { tag, children, .. } => {
            if tag.len() == 1 && tag[0] == 'a' {
                proof {
                    assert(tag@ =~= seq!['a']);
                }
                text_len(t, i)
            } else {
                proof {
                    assert(tag@ != seq!['a']);
                }
                let mut acc: usize = 0;
                let mut k: usize = 0;
                while k < children.len()
                    invariant
                        0 <= k <= children@.len(),
                        children@ == kids(t@, i as int),
                        sat_add(acc, kids_link_len(t@, i as int, k as int)) == kids_link_len(
                            t@,
                            i as int,
                            0,
                        ),
                    decreases children@.len() - k,
                {
                    let c = children[k];
                    let ll = link_len(t, c);
                    proof {
                        lemma_sat_add_assoc(acc, ll, kids_link_len(t@, i as int, k + 1));
                    }
                    acc = sat_add_exec(acc, ll);
                    k = k + 1;
                }
                acc
            }
        },
    }
}

/// Whether node `i` lies in the subtree rooted at `r`.
pub fn subtree_member(t: &Vec<Node>, i: usize, r: usize) -> (b: bool)
    requires
        wf(t@),
        i < t@.len(),
        r < t@.len(),
    ensures
        b == in_subtree(t@, i as int, r as int),
    decreases i,
{
    if i == r {
        true
    } else if i <= r || i == 0 {
        false
    } else {
        proof {
            assert(node_ok(t@, i as int));
        }
        subtree_member(t, t[i].parent, r)
    }
}

} // verus!

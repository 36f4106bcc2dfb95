use vstd::prelude::*;
use crate::dom::{Node, NodeKind, kids, node_ok, wf};
use crate::score::{MIN_SCORE, SIB_RATIO, final_score_of, final_score, is_candidate, is_candidate_exec};

verus! {

/// A candidate whose final score reaches the acceptance threshold.
pub open spec fn above_min(t: Seq<Node>, i: int) -> bool {
    is_candidate(t, i) && final_score_of(t, i) >= MIN_SCORE
}

/// The selectable node with the highest final score among the first `k`
/// nodes, the earliest in document order winning ties.
pub open spec fn best_upto(t: Seq<Node>, k: int) -> Option<int>
    decreases k,
        when 0 <= k <= t.len()
{
    if k <= 0 {
        None
    } else {
        let prev = best_upto(t, k - 1);
        if !above_min(t, k - 1) {
            prev
        } else {
            match prev {
                Option::None => Option::Some(k - 1),
                Option::Some(b) => if final_score_of(t, k - 1) > final_score_of(t, b) {
                    Option::Some(k - 1)
                } else {
                    Option::Some(b)
                },
            }
        }
    }
}

/// The top candidate of the whole document, if any node is selectable.
pub open spec fn select_of(t: Seq<Node>) -> Option<int> {
    best_upto(t, t.len() as int)
}

/// What the selection promises: the chosen node is selectable and carries the
/// maximal score, earlier nodes with the same score having won; and when
/// nothing is chosen, nothing was selectable.
pub proof fn lemma_best_upto(t: Seq<Node>, k: int)
    requires
        wf(t),
        0 <= k <= t.len(),
    ensures
        best_upto(t, k) matches Some(b) ==> 0 <= b < k && above_min(t, b) && (forall|j: int|
            0 <= j < k && above_min(t, j) ==> final_score_of(t, j) <= final_score_of(t, b)) && (
        forall|j: int|
            0 <= j < b && above_min(t, j) ==> final_score_of(t, j) < final_score_of(t, b)),
        best_upto(t, k) is None ==> forall|j: int| 0 <= j < k ==> !above_min(t, j),
    decreases k,
{
    if k > 0 {
        lemma_best_upto(t, k - 1);
    }
}

/// The selection law over the whole document.
pub proof fn lemma_select_exact(t: Seq<Node>)
    requires
        wf(t),
    ensures
        select_of(t) matches Some(b) ==> 0 <= b < t.len() && above_min(t, b) && (forall|j: int|
            0 <= j < t.len() && above_min(t, j) ==> final_score_of(t, j) <= final_score_of(t, b))
            && (forall|j: int|
            0 <= j < b && above_min(t, j) ==> final_score_of(t, j) < final_score_of(t, b)),
        select_of(t) is None ==> forall|j: int| 0 <= j < t.len() ==> !above_min(t, j),
{
    lemma_best_upto(t, t.len() as int);
}

pub fn select_top(t: &Vec<Node>) -> (r: Option<usize>)
    requires
        wf(t@),
    ensures
        match r {
            Option::None => select_of(t@) is None,
            Option::Some(b) => select_of(t@) == Option::Some(b as int),
        },
{
    let mut cur: Option<usize> = Option::None;
    let mut k: usize = 0;
    while k < t.len()
        invariant
            0 <= k <= t@.len(),
            match cur {
                Option::None => best_upto(t@, k as int) is None,
                Option::Some(b) => b < t@.len() && best_upto(t@, k as int) == Option::Some(
                    b as int,
                ),
            },
        decreases t@.len() - k,
    {
        if is_candidate_exec(t, k) {
            let sc = final_score(t, k);
            if sc >= MIN_SCORE {
                match cur {
                    Option::None => {
                        cur = Option::Some(k);
                    },
                    Option::Some(b) => {
                        let sb = final_score(t, b);
                        if sc > sb {
                            cur = Option::Some(k);
                        }
                    },
                }
            }
        }
        k = k + 1;
    }
    cur
}

/// Whether sibling `c` of the chosen node `top` belongs to the content: the
/// chosen node itself, or a candidate whose score is within proportional
/// range of the top score.
pub open spec fn keep_sib(t: Seq<Node>, c: int, top: int) -> bool {
    c == top || (is_candidate(t, c) && final_score_of(t, c) * SIB_RATIO >= final_score_of(t, top))
}

/// The content roots among the first `k` siblings of the chosen node, in
/// document order.
pub open spec fn merged_upto(t: Seq<Node>, top: int, k: int) -> Seq<usize>
    decreases k,
        when 0 <= k <= kids(t, t[top].parent as int).len()
{
    if k <= 0 {
        Seq::empty()
    } else {
        let cs = kids(t, t[top].parent as int);
        let pre = merged_upto(t, top, k - 1);
        if keep_sib(t, cs[k - 1] as int, top) {
            pre.push(cs[k - 1])
        } else {
            pre
        }
    }
}

/// The roots of the selected content: the top candidate together with its
/// qualifying siblings, in document order.
pub open spec fn content_ids(t: Seq<Node>, top: int) -> Seq<usize> {
    merged_upto(t, top, kids(t, t[top].parent as int).len() as int)
}

pub proof fn lemma_merged_upto(t: Seq<Node>, top: int, k: int)
    requires
        wf(t),
        0 <= top < t.len(),
        0 <= k <= kids(t, t[top].parent as int).len(),
    ensures
        forall|j: int|
            0 <= j < k && keep_sib(t, kids(t, t[top].parent as int)[j] as int, top)
                ==> merged_upto(t, top, k).contains(#[trigger] kids(t, t[top].parent as int)[j]),
        forall|m: int|
            0 <= m < merged_upto(t, top, k).len() ==> keep_sib(
                t,
                #[trigger] merged_upto(t, top, k)[m] as int,
                top,
            ),
    decreases k,
{
    if k > 0 {
        lemma_merged_upto(t, top, k - 1);
        let cs = kids(t, t[top].parent as int);
        let pre = merged_upto(t, top, k - 1);
        let cur = merged_upto(t, top, k);
        if keep_sib(t, cs[k - 1] as int, top) {
            assert(cur == pre.push(cs[k - 1]));
            assert(cur[cur.len() - 1] == cs[k - 1]);
            assert(cur.contains(cs[k - 1]));
            assert forall|j: int|
                0 <= j < k && keep_sib(t, cs[j] as int, top) implies cur.contains(
                #[trigger] cs[j],
            ) by {
                if j < k - 1 {
                    let w = choose|w: int| 0 <= w < pre.len() && pre[w] == cs[j];
                    assert(cur[w] == cs[j]);
                }
            }
        }
    }
}

/// The sibling-merge law: every sibling of the top candidate that qualifies
/// (the top candidate itself, or a candidate scoring within proportional
/// range of it) stands in the selected content, and nothing else does.
pub proof fn lemma_content_membership(t: Seq<Node>, top: int)
    requires
        wf(t),
        0 <= top < t.len(),
    ensures
        forall|j: int|
            0 <= j < kids(t, t[top].parent as int).len() && keep_sib(
                t,
                kids(t, t[top].parent as int)[j] as int,
                top,
            ) ==> content_ids(t, top).contains(#[trigger] kids(t, t[top].parent as int)[j]),
        forall|m: int|
            0 <= m < content_ids(t, top).len() ==> keep_sib(
                t,
                #[trigger] content_ids(t, top)[m] as int,
                top,
            ),
{
    lemma_merged_upto(t, top, kids(t, t[top].parent as int).len() as int);
}

pub fn merge_siblings(t: &Vec<Node>, top: usize) -> (r: Vec<usize>)
    requires
        wf(t@),
        top < t@.len(),
    ensures
        r@ == content_ids(t@, top as int),
        forall|k: int| 0 <= k < r@.len() ==> #[trigger] r@[k] < t@.len(),
{
    proof {
        assert(node_ok(t@, top as int));
        assert(node_ok(t@, t@[top as int].parent as int));
    }
    let p = t[top].parent;
    let top_score = final_score(t, top);
    let mut out: Vec<usize> = Vec::new();
    let ghost cs = kids(t@, p as int);
    let n = match &t[p].kind {
        NodeKind::Element { children, .. } => children.len(),
        NodeKind::Text { .. } => 0,
    };
    proof {
        assert(n == cs.len());
    }
    let mut k: usize = 0;
    while k < n
        invariant
            0 <= k <= cs.len(),
            cs == kids(t@, t@[top as int].parent as int),
            p == t@[top as int].parent,
            n == cs.len(),
            out@ == merged_upto(t@, top as int, k as int),
            forall|kk: int| 0 <= kk < out@.len() ==> #[trigger] out@[kk] < t@.len(),
        decreases n - k,
    {
        let c = match &t[p].kind {
            NodeKind::Element { children, .. } => children[k],
            NodeKind::Text { .. } => 0,
        };
        proof {
            assert(c == cs[k as int]);
            assert(c < t@.len());
        }
        if c == top {
            out.push(c);
        } else if is_candidate_exec(t, c) {
            let sc = final_score(t, c);
            let scu: u128 = sc as u128;
            proof {
                assert(scu * 5 <= 0xffff_ffff_ffff_ffff * 5) by (nonlinear_arith)
                    requires
                        scu <= 0xffff_ffff_ffff_ffff,
                ;
            }
            if scu * (SIB_RATIO as u128) >= (top_score as u128) {
                out.push(c);
            }
        }
        k = k + 1;
    }
    out
}

} // verus!

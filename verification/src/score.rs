use vstd::prelude::*;
use crate::chars::{sat_add, sat_add_exec, has_sub, contains_sub};
use crate::dom::{Node, NodeKind, node_ok, wf, text_len_of, link_len_of, text_len, link_len, has_tag};

verus! {

/// Minimum character count below which a block is ignored entirely.
pub const MIN_TEXT: usize = 25;

/// A block's base score is its text length divided by this.
pub const LEN_DIV: usize = 8;

/// Bonus (or penalty) for a class/id hint word.
pub const HINT_BONUS: usize = 25;

/// Minimum final score a candidate must reach to be selectable.
pub const MIN_SCORE: usize = 10;

/// A sibling is merged when its score times this reaches the top score.
pub const SIB_RATIO: usize = 5;

/// Block elements that compete as content candidates.
pub open spec fn is_candidate(t: Seq<Node>, i: int) -> bool {
    ||| has_tag(t, i, "p"@)
    ||| has_tag(t, i, "div"@)
    ||| has_tag(t, i, "article"@)
    ||| has_tag(t, i, "section"@)
}

pub fn is_candidate_exec(t: &Vec<Node>, i: usize) -> (r: bool)
    requires
        i < t@.len(),
    ensures
        r == is_candidate(t@, i as int),
{
    match &t[i].kind {
        NodeKind::Element { tag, .. } => crate::chars::chars_eq_str(tag, "p")
            || crate::chars::chars_eq_str(tag, "div") || crate::chars::chars_eq_str(tag, "article")
            || crate::chars::chars_eq_str(tag, "section"),
        NodeKind::Text { .. } => false,
    }
}

pub open spec fn attrs_of(t: Seq<Node>, i: int) -> Seq<crate::dom::Attr> {
    match t[i].kind {
        NodeKind::Element { attrs, .. } => attrs@,
        NodeKind::Text { .. } => Seq::empty(),
    }
}

/// The value of the first attribute called `name`, or empty text.
pub open spec fn attr_val(attrs: Seq<crate::dom::Attr>, name: Seq<char>, k: int) -> Seq<char>
    decreases attrs.len() - k,
        when 0 <= k <= attrs.len()
{
    if k >= attrs.len() {
        Seq::empty()
    } else if attrs[k].name@ == name {
        attrs[k].value@
    } else {
        attr_val(attrs, name, k + 1)
    }
}

pub fn attr_val_exec(attrs: &Vec<crate::dom::Attr>, name: &str) -> (r: Vec<char>)
    ensures
        r@ == attr_val(attrs@, name@, 0),
{
    let mut k: usize = 0;
    while k < attrs.len()
        invariant
            0 <= k <= attrs@.len(),
            attr_val(attrs@, name@, 0) == attr_val(attrs@, name@, k as int),
        decreases attrs@.len() - k,
    {
        if crate::chars::chars_eq_str(&attrs[k].name, name) {
            let mut out: Vec<char> = Vec::new();
            let mut j: usize = 0;
            while j < attrs[k].value.len()
                invariant
                    k < attrs@.len(),
                    0 <= j <= attrs@[k as int].value@.len(),
                    out@ == attrs@[k as int].value@.take(j as int),
                decreases attrs@[k as int].value@.len() - j,
            {
                out.push(attrs[k].value[j]);
                j = j + 1;
            }
            proof {
                assert(out@ =~= attrs@[k as int].value@);
            }
            return out;
        }
        k = k + 1;
    }
    Vec::new()
}

/// The text the class/id hints are read from: class value, a space, id value.
pub open spec fn hint_src(t: Seq<Node>, i: int) -> Seq<char> {
    attr_val(attrs_of(t, i), "class"@, 0) + seq![' '] + attr_val(attrs_of(t, i), "id"@, 0)
}

/// A class or id naming one of these suggests main content.
pub open spec fn has_pos_hint(s: Seq<char>) -> bool {
    ||| has_sub(s, "article"@)
    ||| has_sub(s, "content"@)
    ||| has_sub(s, "main"@)
    ||| has_sub(s, "post"@)
    ||| has_sub(s, "entry"@)
    ||| has_sub(s, "text"@)
}

/// A class or id naming one of these suggests boilerplate.
pub open spec fn has_neg_hint(s: Seq<char>) -> bool {
    ||| has_sub(s, "comment"@)
    ||| has_sub(s, "sidebar"@)
    ||| has_sub(s, "footer"@)
    ||| has_sub(s, "nav"@)
    ||| has_sub(s, "menu"@)
    ||| has_sub(s, "banner"@)
    ||| has_sub(s, "widget"@)
    ||| has_sub(s, "promo"@)
}

/// The hint-adjusted base score of a candidate: text length over `LEN_DIV`,
/// raised or lowered by `HINT_BONUS` for a positive or negative class/id
/// hint; zero for short blocks and for non-candidates.
pub open spec fn hinted_of(t: Seq<Node>, i: int) -> usize {
    if !is_candidate(t, i) {
        0
    } else if text_len_of(t, i) < MIN_TEXT {
        0
    } else {
        let base = ((text_len_of(t, i) as int) / (LEN_DIV as int)) as usize;
        let b2 = if has_pos_hint(hint_src(t, i)) {
            sat_add(base, HINT_BONUS)
        } else {
            base
        };
        if has_neg_hint(hint_src(t, i)) {
            if b2 >= HINT_BONUS {
                (b2 - HINT_BONUS) as usize
            } else {
                0
            }
        } else {
            b2
        }
    }
}

pub fn hinted(t: &Vec<Node>, i: usize) -> (r: usize)
    requires
        wf(t@),
        i < t@.len(),
    ensures
        r == hinted_of(t@, i as int),
{
    proof {
        assert(node_ok(t@, i as int));
    }
    if !is_candidate_exec(t, i) {
        return 0;
    }
    let tl = text_len(t, i);
    if tl < MIN_TEXT {
        return 0;
    }
    let base = tl / LEN_DIV;
    let src: Vec<char> = match &t[i].kind {
        NodeKind::Element { attrs, .. } => {
            let mut s = attr_val_exec(attrs, "class");
            s.push(' ');
            let idv = attr_val_exec(attrs, "id");
            let mut j: usize = 0;
            while j < idv.len()
                invariant
                    0 <= j <= idv@.len(),
                    s@ == attr_val(attrs_of(t@, i as int), "class"@, 0) + seq![' ']
                        + idv@.take(j as int),
                    idv@ == attr_val(attrs_of(t@, i as int), "id"@, 0),
                decreases idv@.len() - j,
            {
                s.push(idv[j]);
                j = j + 1;
                proof {
                    assert(s@ =~= attr_val(attrs_of(t@, i as int), "class"@, 0) + seq![' ']
                        + idv@.take(j as int));
                }
            }
            proof {
                assert(idv@.take(idv@.len() as int) =~= idv@);
            }
            s
        },
        NodeKind::Text { .. } => Vec::new(),
    };
    proof {
        assert(src@ == hint_src(t@, i as int));
    }
    let pos = contains_sub(&src, "article") || contains_sub(&src, "content") || contains_sub(
        &src,
        "main",
    ) || contains_sub(&src, "post") || contains_sub(&src, "entry") || contains_sub(&src, "text");
    let neg = contains_sub(&src, "comment") || contains_sub(&src, "sidebar") || contains_sub(
        &src,
        "footer",
    ) || contains_sub(&src, "nav") || contains_sub(&src, "menu") || contains_sub(&src, "banner")
        || contains_sub(&src, "widget") || contains_sub(&src, "promo");
    let b2 = if pos {
        sat_add_exec(base, HINT_BONUS)
    } else {
        base
    };
    if neg {
        if b2 >= HINT_BONUS {
            b2 - HINT_BONUS
        } else {
            0
        }
    } else {
        b2
    }
}

/// What node `c` adds to the running score of node `i`: its full adjusted
/// base to its parent, half of it to its grandparent.
pub open spec fn upward_share(t: Seq<Node>, c: int, i: int) -> usize {
    let h = hinted_of(t, c);
    let p = t[c].parent as int;
    let g = t[p].parent as int;
    sat_add(
        if p == i && c != i {
            h
        } else {
            0
        },
        if g == i && c != i {
            (h / 2) as usize
        } else {
            0
        },
    )
}

pub open spec fn prop_upto(t: Seq<Node>, i: int, k: int) -> usize
    decreases k,
        when 0 <= k <= t.len()
{
    if k <= 0 {
        0
    } else {
        sat_add(prop_upto(t, i, k - 1), upward_share(t, k - 1, i))
    }
}

/// The propagated score of node `i`: its own adjusted base plus what every
/// descendant candidate sends up to its parent and grandparent.
pub open spec fn total_of(t: Seq<Node>, i: int) -> usize {
    sat_add(hinted_of(t, i), prop_upto(t, i, t.len() as int))
}

pub fn total_score(t: &Vec<Node>, i: usize) -> (r: usize)
    requires
        wf(t@),
        i < t@.len(),
    ensures
        r == total_of(t@, i as int),
{
    let mut acc: usize = 0;
    let mut c: usize = 0;
    while c < t.len()
        invariant
            0 <= c <= t@.len(),
            acc == prop_upto(t@, i as int, c as int),
        decreases t@.len() - c,
    {
        proof {
            assert(node_ok(t@, c as int));
        }
        let h = hinted(t, c);
        let p = t[c].parent;
        let g = t[p].parent;
        let part1: usize = if p == i && c != i {
            h
        } else {
            0
        };
        let part2: usize = if g == i && c != i {
            h / 2
        } else {
            0
        };
        let con = sat_add_exec(part1, part2);
        proof {
            assert(con == upward_share(t@, c as int, i as int));
        }
        acc = sat_add_exec(acc, con);
        c = c + 1;
    }
    let h = hinted(t, i);
    sat_add_exec(h, acc)
}

/// The multiplicative link-density cut: `tot` scaled by the share of the
/// text that is not anchor text, in thousandths.
pub open spec fn density_cut(tot: usize, tl: usize, ll: usize) -> usize {
    if tl <= 0 {
        0
    } else {
        let ld0 = (ll as int) * 1000 / (tl as int);
        let ld = if ld0 > 1000 {
            1000int
        } else {
            ld0
        };
        ((tot as int) * (1000 - ld) / 1000) as usize
    }
}

/// The link-density law: with the same propagated score and the same text
/// length, more anchor text never raises the final score.
pub proof fn lemma_density_cut_antitone(tot: usize, tl: usize, ll1: usize, ll2: usize)
    requires
        ll1 <= ll2,
    ensures
        density_cut(tot, tl, ll2) <= density_cut(tot, tl, ll1),
{
    if tl > 0 {
        let t = tot as int;
        let ld0a = (ll1 as int) * 1000 / (tl as int);
        let ld0b = (ll2 as int) * 1000 / (tl as int);
        assert((ll1 as int) * 1000 <= (ll2 as int) * 1000) by (nonlinear_arith)
            requires
                ll1 <= ll2,
        ;
        assert(ld0a <= ld0b) by (nonlinear_arith)
            requires
                (ll1 as int) * 1000 <= (ll2 as int) * 1000,
                tl > 0,
                ld0a == (ll1 as int) * 1000 / (tl as int),
                ld0b == (ll2 as int) * 1000 / (tl as int),
        ;
        let lda: int = if ld0a > 1000 {
            1000
        } else {
            ld0a
        };
        let ldb: int = if ld0b > 1000 {
            1000
        } else {
            ld0b
        };
        assert(lda <= ldb);
        assert(ld0a >= 0 && ld0b >= 0) by (nonlinear_arith)
            requires
                tl > 0,
                ld0a == (ll1 as int) * 1000 / (tl as int),
                ld0b == (ll2 as int) * 1000 / (tl as int),
        ;
        assert(t * (1000 - ldb) <= t * (1000 - lda)) by (nonlinear_arith)
            requires
                lda <= ldb,
                t >= 0,
        ;
        assert(t * (1000 - ldb) / 1000 <= t * (1000 - lda) / 1000) by (nonlinear_arith)
            requires
                t * (1000 - ldb) <= t * (1000 - lda),
        ;
        assert(t * (1000 - lda) / 1000 <= t * 1000 / 1000) by (nonlinear_arith)
            requires
                0 <= lda <= 1000,
                t >= 0,
        ;
        assert(t * 1000 / 1000 == t) by (nonlinear_arith);
        assert(t * (1000 - ldb) / 1000 >= 0) by (nonlinear_arith)
            requires
                t >= 0,
                ldb <= 1000,
        ;
    }
}

proof fn lemma_prop_upto_bound(t: Seq<Node>, i: int, c: int, k: int)
    requires
        wf(t),
        0 <= i < t.len(),
        0 <= c < k <= t.len(),
        t[c].parent == i,
        c != i,
    ensures
        prop_upto(t, i, k) >= hinted_of(t, c),
    decreases k,
{
    if c == k - 1 {
        assert(upward_share(t, c, i) >= hinted_of(t, c));
    } else {
        lemma_prop_upto_bound(t, i, c, k - 1);
    }
}

/// The score-propagation law: a block's propagated score is at least its own
/// adjusted base, and at least the adjusted base of each of its children —
/// nesting content-dense blocks under a common parent accumulates.
pub proof fn lemma_propagation(t: Seq<Node>, i: int, c: int)
    requires
        wf(t),
        0 <= i < t.len(),
        0 <= c < t.len(),
        t[c].parent == i,
        c != i,
    ensures
        total_of(t, i) >= hinted_of(t, i),
        total_of(t, i) >= hinted_of(t, c),
{
    lemma_prop_upto_bound(t, i, c, t.len() as int);
}

proof fn lemma_prop_zero(t: Seq<Node>, q: int, k: int)
    requires
        0 <= k <= t.len(),
        forall|x: int| 0 <= x < t.len() ==> #[trigger] upward_share(t, x, q) == 0,
    ensures
        prop_upto(t, q, k) == 0,
    decreases k,
{
    if k > 0 {
        lemma_prop_zero(t, q, k - 1);
    }
}

/// The cross-document form of score propagation: a block with a scoring
/// child candidate strictly outscores a lone block of no greater adjusted
/// base that nothing sends a share to — nesting content-dense blocks under
/// one parent accumulates where a flat block stands alone.
pub proof fn lemma_structured_outscores_flat(
    t1: Seq<Node>,
    d: int,
    c: int,
    t2: Seq<Node>,
    q: int,
)
    requires
        wf(t1),
        0 <= d < t1.len(),
        0 <= c < t1.len(),
        t1[c].parent == d,
        c != d,
        wf(t2),
        0 <= q < t2.len(),
        hinted_of(t1, d) >= hinted_of(t2, q),
        hinted_of(t1, c) > 0,
        total_of(t1, d) < usize::MAX,
        forall|x: int| 0 <= x < t2.len() ==> #[trigger] upward_share(t2, x, q) == 0,
    ensures
        total_of(t1, d) > total_of(t2, q),
{
    lemma_prop_upto_bound(t1, d, c, t1.len() as int);
    lemma_prop_zero(t2, q, t2.len() as int);
}

/// The final score: the propagated score, cut multiplicatively by link
/// density (anchor text per thousand characters of text).
pub open spec fn final_score_of(t: Seq<Node>, i: int) -> usize {
    density_cut(total_of(t, i), text_len_of(t, i), link_len_of(t, i))
}

pub fn final_score(t: &Vec<Node>, i: usize) -> (r: usize)
    requires
        wf(t@),
        i < t@.len(),
    ensures
        r == final_score_of(t@, i as int),
{
    let tl = text_len(t, i);
    if tl == 0 {
        return 0;
    }
    let ll = link_len(t, i);
    let tot = total_score(t, i);
    proof {
        assert((ll as u128) * 1000 <= 0xffff_ffff_ffff_ffff * 1000) by (nonlinear_arith)
            requires
                ll as u128 <= 0xffff_ffff_ffff_ffff,
        ;
    }
    let ld0: u128 = (ll as u128) * 1000 / (tl as u128);
    let ld: u128 = if ld0 > 1000 {
        1000
    } else {
        ld0
    };
    proof {
        assert((tot as u128) * (1000 - ld) <= 0xffff_ffff_ffff_ffff * 1000) by (nonlinear_arith)
            requires
                tot as u128 <= 0xffff_ffff_ffff_ffff,
                ld <= 1000,
        ;
    }
    let m: u128 = (tot as u128) * (1000 - ld);
    let r128: u128 = m / 1000;
    proof {
        assert(m <= (tot as u128) * 1000) by (nonlinear_arith)
            requires
                ld <= 1000,
                m == (tot as u128) * (1000 - ld),
        ;
        assert((tot as u128) * 1000 / 1000 == tot as u128) by (nonlinear_arith);
        assert(r128 <= tot as u128) by {
            assert(m / 1000 <= (tot as u128) * 1000 / 1000) by (nonlinear_arith)
                requires
                    m <= (tot as u128) * 1000,
            ;
        }
    }
    let r = r128 as usize;
    proof {
        assert(r == final_score_of(t@, i as int));
    }
    r
}

} // verus!

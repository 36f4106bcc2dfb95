use vstd::prelude::*;
use crate::chars::{clean_text, match_at};
use crate::dom::{Node, has_tag, in_subtree, subtree_member, wf};
use crate::render::{raw_text, raw_text_exec};

verus! {

/// The first position at or after `j` where `nee` occurs in `hay`.
pub open spec fn find_sub_from(hay: Seq<char>, nee: Seq<char>, j: int) -> Option<int>
    decreases hay.len() - j,
        when 0 <= j <= hay.len() && nee.len() >= 1
{
    if j + nee.len() > hay.len() {
        None
    } else if match_at(hay, nee, j) {
        Some(j)
    } else {
        find_sub_from(hay, nee, j + 1)
    }
}

pub fn find_sub(hay: &Vec<char>, nee: &str) -> (r: Option<usize>)
    requires
        nee@.len() >= 1,
    ensures
        match r {
            None => find_sub_from(hay@, nee@, 0) is None,
            Some(j) => match_at(hay@, nee@, j as int) && find_sub_from(hay@, nee@, 0) == Some(
                j as int,
            ),
        },
{
    let n = nee.unicode_len();
    if n > hay.len() {
        return None;
    }
    let mut j: usize = 0;
    while j <= hay.len() - n
        invariant
            1 <= n <= hay@.len(),
            n == nee@.len(),
            0 <= j <= hay@.len(),
            find_sub_from(hay@, nee@, 0) == find_sub_from(hay@, nee@, j as int),
        decreases hay@.len() - j,
    {
        if crate::chars::match_at_exec(hay, j, nee) {
            return Some(j);
        }
        j = j + 1;
    }
    None
}

/// Whether some `h1` or `h2` element anywhere in the document carries
/// exactly this normalized text.
pub open spec fn heading_at(t: Seq<Node>, i: int, x: Seq<char>) -> bool {
    (has_tag(t, i, "h1"@) || has_tag(t, i, "h2"@)) && clean_text(raw_text(t, i)) == x
}

pub open spec fn heading_matches(t: Seq<Node>, x: Seq<char>) -> bool {
    exists|i: int| 0 <= i < t.len() && #[trigger] heading_at(t, i, x)
}

pub fn heading_matches_exec(t: &Vec<Node>, x: &Vec<char>) -> (r: bool)
    requires
        wf(t@),
    ensures
        r == heading_matches(t@, x@),
{
    let mut i: usize = 0;
    while i < t.len()
        invariant
            0 <= i <= t@.len(),
            forall|ii: int| 0 <= ii < i ==> !heading_at(t@, ii, x@),
        decreases t@.len() - i,
    {
        let is_heading = match &t[i].kind {
            crate::dom::NodeKind::Element { tag, .. } => crate::chars::chars_eq_str(tag, "h1")
                || crate::chars::chars_eq_str(tag, "h2"),
            crate::dom::NodeKind::Text { .. } => false,
        };
        if is_heading {
            let raw = raw_text_exec(t, i);
            let cleaned = crate::chars::clean_text_exec(&raw);
            if crate::chars::chars_eq(&cleaned, x) {
                proof {
                    assert(heading_at(t@, i as int, x@));
                }
                return true;
            }
        }
        i = i + 1;
    }
    false
}

/// One attempt at stripping a site-name suffix: where `sep` occurs in the
/// title and the piece before or after its first occurrence is exactly the
/// text of some `h1`/`h2` heading, that piece is the title.
pub open spec fn split_on(t: Seq<Node>, s: Seq<char>, sep: Seq<char>) -> Option<Seq<char>> {
    match find_sub_from(s, sep, 0) {
        None => None,
        Some(j) => {
            let left = s.take(j);
            let right = s.skip(j + sep.len());
            if heading_matches(t, left) {
                Some(left)
            } else if heading_matches(t, right) {
                Some(right)
            } else {
                None
            }
        },
    }
}

/// The title with a site-name suffix stripped, trying the common separators
/// in turn; the full text stands where no segment matches a heading.
pub open spec fn cleaned_title(t: Seq<Node>, s: Seq<char>) -> Seq<char> {
    match split_on(t, s, " | "@) {
        Some(x) => x,
        None => match split_on(t, s, " - "@) {
            Some(x) => x,
            None => match split_on(t, s, " :: "@) {
                Some(x) => x,
                None => s,
            },
        },
    }
}

fn copy_range(v: &Vec<char>, from: usize, to: usize) -> (r: Vec<char>)
    requires
        from <= to <= v@.len(),
    ensures
        r@ == v@.subrange(from as int, to as int),
{
    let mut out: Vec<char> = Vec::new();
    let mut k: usize = from;
    while k < to
        invariant
            from <= k <= to,
            to <= v@.len(),
            out@ == v@.subrange(from as int, k as int),
        decreases to - k,
    {
        out.push(v[k]);
        k = k + 1;
        proof {
            assert(out@ =~= v@.subrange(from as int, k as int));
        }
    }
    out
}

fn split_on_exec(t: &Vec<Node>, s: &Vec<char>, sep: &str) -> (r: Option<Vec<char>>)
    requires
        wf(t@),
        sep@.len() >= 1,
    ensures
        match r {
            None => split_on(t@, s@, sep@) is None,
            Some(x) => split_on(t@, s@, sep@) == Some(x@),
        },
{
    match find_sub(s, sep) {
        None => None,
        Some(j) => {
            let n = sep.unicode_len();
            let slen = s.len();
            proof {
                assert(j + n <= slen);
            }
            let left = copy_range(s, 0, j);
            let right = copy_range(s, j + n, slen);
            proof {
                assert(left@ =~= s@.take(j as int));
                assert(right@ =~= s@.skip(j + sep@.len()));
            }
            if heading_matches_exec(t, &left) {
                Some(left)
            } else if heading_matches_exec(t, &right) {
                Some(right)
            } else {
                None
            }
        },
    }
}

fn cleaned_title_exec(t: &Vec<Node>, s: Vec<char>) -> (r: Vec<char>)
    requires
        wf(t@),
    ensures
        r@ == cleaned_title(t@, s@),
{
    proof {
        reveal_strlit(" | ");
        reveal_strlit(" - ");
        reveal_strlit(" :: ");
    }
    match split_on_exec(t, &s, " | ") {
        Some(x) => x,
        None => match split_on_exec(t, &s, " - ") {
            Some(x) => x,
            None => match split_on_exec(t, &s, " :: ") {
                Some(x) => x,
                None => s,
            },
        },
    }
}

/// The first element with the given tag, in document order (arena order is
/// document order of open tags).
pub open spec fn find_tag_from(t: Seq<Node>, tag: Seq<char>, k: int) -> Option<int>
    decreases t.len() - k,
        when 0 <= k <= t.len()
{
    if k >= t.len() {
        None
    } else if has_tag(t, k, tag) {
        Some(k)
    } else {
        find_tag_from(t, tag, k + 1)
    }
}

pub fn find_tag(t: &Vec<Node>, tag: &str) -> (r: Option<usize>)
    ensures
        match r {
            None => find_tag_from(t@, tag@, 0) is None,
            Some(i) => i < t@.len() && find_tag_from(t@, tag@, 0) == Some(i as int),
        },
{
    let mut k: usize = 0;
    while k < t.len()
        invariant
            0 <= k <= t@.len(),
            find_tag_from(t@, tag@, 0) == find_tag_from(t@, tag@, k as int),
        decreases t@.len() - k,
    {
        let hit = match &t[k].kind {
            crate::dom::NodeKind::Element { tag: tg, .. } => crate::chars::chars_eq_str(tg, tag),
            crate::dom::NodeKind::Text { .. } => false,
        };
        if hit {
            return Some(k);
        }
        k = k + 1;
    }
    None
}

/// Whether node `i` lies inside the selected content.
pub open spec fn in_content(t: Seq<Node>, roots: Seq<usize>, i: int) -> bool {
    exists|k: int| 0 <= k < roots.len() && in_subtree(t, i, #[trigger] roots[k] as int)
}

pub fn in_content_exec(t: &Vec<Node>, roots: &Vec<usize>, i: usize) -> (r: bool)
    requires
        wf(t@),
        i < t@.len(),
        forall|k: int| 0 <= k < roots@.len() ==> #[trigger] roots@[k] < t@.len(),
    ensures
        r == in_content(t@, roots@, i as int),
{
    let mut k: usize = 0;
    while k < roots.len()
        invariant
            0 <= k <= roots@.len(),
            forall|kk: int| 0 <= kk < k ==> !in_subtree(t@, i as int, #[trigger] roots@[kk] as int),
        decreases roots@.len() - k,
    {
        if subtree_member(t, i, roots[k]) {
            return true;
        }
        k = k + 1;
    }
    false
}

/// The first element with the given tag that lies inside the selected
/// content.
pub open spec fn find_heading_from(t: Seq<Node>, roots: Seq<usize>, tag: Seq<char>, k: int) -> Option<
    int,
>
    decreases t.len() - k,
        when 0 <= k <= t.len()
{
    if k >= t.len() {
        None
    } else if has_tag(t, k, tag) && in_content(t, roots, k) {
        Some(k)
    } else {
        find_heading_from(t, roots, tag, k + 1)
    }
}

pub fn find_heading(t: &Vec<Node>, roots: &Vec<usize>, tag: &str) -> (r: Option<usize>)
    requires
        wf(t@),
        forall|k: int| 0 <= k < roots@.len() ==> #[trigger] roots@[k] < t@.len(),
    ensures
        match r {
            None => find_heading_from(t@, roots@, tag@, 0) is None,
            Some(i) => i < t@.len() && find_heading_from(t@, roots@, tag@, 0) == Some(i as int),
        },
{
    let mut k: usize = 0;
    while k < t.len()
        invariant
            0 <= k <= t@.len(),
            find_heading_from(t@, roots@, tag@, 0) == find_heading_from(t@, roots@, tag@, k as int),
        decreases t@.len() - k,
    {
        let hit = match &t[k].kind {
            crate::dom::NodeKind::Element { tag: tg, .. } => crate::chars::chars_eq_str(tg, tag),
            crate::dom::NodeKind::Text { .. } => false,
        };
        if hit && in_content_exec(t, roots, k) {
            return Some(k);
        }
        k = k + 1;
    }
    None
}

/// The document title: the `<title>` element's text with any site-name
/// suffix stripped when there is one, else the first `h1` (then `h2`)
/// heading inside the selected content, else empty; always
/// whitespace-normalized.
pub open spec fn title_of(t: Seq<Node>, roots: Seq<usize>) -> Seq<char> {
    match find_tag_from(t, "title"@, 0) {
        Some(n) => cleaned_title(t, clean_text(raw_text(t, n))),
        None => match find_heading_from(t, roots, "h1"@, 0) {
            Some(h) => clean_text(raw_text(t, h)),
            None => match find_heading_from(t, roots, "h2"@, 0) {
                Some(h) => clean_text(raw_text(t, h)),
                None => Seq::empty(),
            },
        },
    }
}

pub fn title_extract(t: &Vec<Node>, roots: &Vec<usize>) -> (r: Vec<char>)
    requires
        wf(t@),
        forall|k: int| 0 <= k < roots@.len() ==> #[trigger] roots@[k] < t@.len(),
    ensures
        r@ == title_of(t@, roots@),
{
    match find_tag(t, "title") {
        Some(n) => {
            let raw = raw_text_exec(t, n);
            let cleaned = crate::chars::clean_text_exec(&raw);
            cleaned_title_exec(t, cleaned)
        },
        None => {
            match find_heading(t, roots, "h1") {
                Some(h) => {
                    let raw = raw_text_exec(t, h);
                    crate::chars::clean_text_exec(&raw)
                },
                None => {
                    match find_heading(t, roots, "h2") {
                        Some(h) => {
                            let raw = raw_text_exec(t, h);
                            crate::chars::clean_text_exec(&raw)
                        },
                        None => Vec::new(),
                    }
                },
            }
        },
    }
}

} // verus!

use vstd::prelude::*;
use crate::chars::{is_ws_exec, match_at, match_at_exec, chars_eq_str, str_to_chars};
use crate::dom::{AbsAttr, AbsKind, AbsNode, Attr, Node, NodeKind, abs, abs_add_child, abs_attr,
    kids, node_ok, wf};

verus! {

/// ASCII lower-casing, the normal form for tag and attribute names.
pub open spec fn lower_c(c: char) -> char {
    match c {
        'A' => 'a',
        'B' => 'b',
        'C' => 'c',
        'D' => 'd',
        'E' => 'e',
        'F' => 'f',
        'G' => 'g',
        'H' => 'h',
        'I' => 'i',
        'J' => 'j',
        'K' => 'k',
        'L' => 'l',
        'M' => 'm',
        'N' => 'n',
        'O' => 'o',
        'P' => 'p',
        'Q' => 'q',
        'R' => 'r',
        'S' => 's',
        'T' => 't',
        'U' => 'u',
        'V' => 'v',
        'W' => 'w',
        'X' => 'x',
        'Y' => 'y',
        'Z' => 'z',
        _ => c,
    }
}

#[verifier::when_used_as_spec(lower_c)]
pub fn lower_c_exec(c: char) -> (r: char)
    ensures
        r == lower_c(c),
{
    match c {
        'A' => 'a',
        'B' => 'b',
        'C' => 'c',
        'D' => 'd',
        'E' => 'e',
        'F' => 'f',
        'G' => 'g',
        'H' => 'h',
        'I' => 'i',
        'J' => 'j',
        'K' => 'k',
        'L' => 'l',
        'M' => 'm',
        'N' => 'n',
        'O' => 'o',
        'P' => 'p',
        'Q' => 'q',
        'R' => 'r',
        'S' => 's',
        'T' => 't',
        'U' => 'u',
        'V' => 'v',
        'W' => 'w',
        'X' => 'x',
        'Y' => 'y',
        'Z' => 'z',
        _ => c,
    }
}

/// Elements that never take children and therefore never go on the open stack.
pub open spec fn is_void(tag: Seq<char>) -> bool {
    ||| tag == "br"@
    ||| tag == "hr"@
    ||| tag == "img"@
    ||| tag == "input"@
    ||| tag == "meta"@
    ||| tag == "link"@
    ||| tag == "area"@
    ||| tag == "col"@
    ||| tag == "embed"@
    ||| tag == "source"@
    ||| tag == "wbr"@
}

pub fn void_tag(tag: &Vec<char>) -> (r: bool)
    ensures
        r == is_void(tag@),
{
    chars_eq_str(tag, "br") || chars_eq_str(tag, "hr") || chars_eq_str(tag, "img")
        || chars_eq_str(tag, "input") || chars_eq_str(tag, "meta") || chars_eq_str(tag, "link")
        || chars_eq_str(tag, "area") || chars_eq_str(tag, "col") || chars_eq_str(tag, "embed")
        || chars_eq_str(tag, "source") || chars_eq_str(tag, "wbr")
}

/// The tag of element `i`.
pub open spec fn tag_of(t: Seq<Node>, i: int) -> Seq<char> {
    match t[i].kind {
        NodeKind::Element { tag, .. } => tag@,
        NodeKind::Text { .. } => Seq::empty(),
    }
}

/// A node kind that brings no children of its own.
pub open spec fn childless(kind: NodeKind) -> bool {
    match kind {
        NodeKind::Element { children, .. } => children@.len() == 0,
        NodeKind::Text { .. } => true,
    }
}

/// The single-node tree that parsing starts from: a synthetic root element
/// whose tag no heuristic ever selects.
pub fn new_tree() -> (t: Vec<Node>)
    ensures
        wf(t@),
        t@.len() == 1,
        kids(t@, 0).len() == 0,
        tag_of(t@, 0) == "#root"@,
        abs(t@) == seq![abs_root()],
{
    let mut t: Vec<Node> = Vec::new();
    let tag = crate::chars::str_to_chars("#root");
    t.push(
        Node { kind: NodeKind::Element { tag, attrs: Vec::new(), children: Vec::new() }, parent: 0 },
    );
    proof {
        assert(node_ok(t@, 0));
        assert(wf(t@));
        assert(abs(t@)[0].kind matches AbsKind::Elem { tag: tg, attrs: ats, children: cs }
            && tg =~= "#root"@ && ats =~= Seq::<AbsAttr>::empty() && cs =~= Seq::<usize>::empty());
        assert(abs(t@) =~= seq![abs_root()]);
    }
    t
}

/// Appends a fresh node under element `p`: the node itself at the end of the
/// arena, and its index at the end of `p`'s children. This is the only way the
/// parser grows a tree, and it keeps the tree well-formed.
pub fn push_child_node(nodes: &mut Vec<Node>, p: usize, kind: NodeKind) -> (idx: usize)
    requires
        wf(old(nodes)@),
        p < old(nodes)@.len(),
        old(nodes)@[p as int].kind is Element,
        childless(kind),
    ensures
        wf(final(nodes)@),
        final(nodes)@.len() == old(nodes)@.len() + 1,
        idx == old(nodes)@.len(),
        forall|i: int| 0 <= i < old(nodes)@.len() && i != p ==> final(nodes)@[i] == old(nodes)@[i],
        final(nodes)@[p as int].parent == old(nodes)@[p as int].parent,
        final(nodes)@[p as int].kind is Element,
        tag_of(final(nodes)@, p as int) == tag_of(old(nodes)@, p as int),
        kids(final(nodes)@, p as int) == kids(old(nodes)@, p as int).push(
            old(nodes)@.len() as usize,
        ),
        final(nodes)@[idx as int] == (Node { kind, parent: p }),
        crate::dom::abs(final(nodes)@) == crate::dom::abs_add_child(
            crate::dom::abs(old(nodes)@),
            p,
            crate::dom::abs_kind(kind),
        ),
{
    let ghost t0 = nodes@;
    let idx = nodes.len();
    nodes.push(Node { kind, parent: p });
    let pn = &mut nodes[p];
    match &mut pn.kind {
        NodeKind::Element { children, .. } => {
            children.push(idx);
        },
        NodeKind::Text { .. } => {},
    }
    proof {
        let t = nodes@;
        assert forall|i: int| 0 <= i < t.len() implies #[trigger] node_ok(t, i) by {
            assert(node_ok(t0, if i == idx { p as int } else { i }));
            if i == idx {
                assert(kids(t, i).len() == 0);
            } else if i == p {
                assert(kids(t, i) == kids(t0, i).push(idx as usize));
                assert forall|k: int| 0 <= k < kids(t, i).len() implies i < #[trigger] kids(
                    t,
                    i,
                )[k] < t.len() && t[kids(t, i)[k] as int].parent == i by {
                    if k < kids(t0, i).len() {
                        assert(kids(t, i)[k] == kids(t0, i)[k]);
                        assert(i < kids(t0, i)[k] < t0.len());
                        assert(t[kids(t, i)[k] as int].parent == t0[kids(
                            t0,
                            i,
                        )[k] as int].parent);
                    } else {
                        assert(kids(t, i)[k] == idx as usize);
                    }
                }
            } else {
                assert(node_ok(t0, i));
                assert(kids(t, i) == kids(t0, i));
                assert forall|k: int| 0 <= k < kids(t, i).len() implies i < #[trigger] kids(
                    t,
                    i,
                )[k] < t.len() && t[kids(t, i)[k] as int].parent == i by {
                    assert(i < kids(t0, i)[k] < t0.len());
                    assert(t[kids(t, i)[k] as int].parent == t0[kids(t0, i)[k] as int].parent);
                }
            }
        }
        assert(wf(t));
        assert(crate::dom::abs(t) =~= crate::dom::abs_add_child(
            crate::dom::abs(t0),
            p,
            crate::dom::abs_kind(kind),
        ));
    }
    idx
}

/// One step of tag-level tokenization.
pub enum TagStep {
    /// A stray `<` that is taken as literal text.
    Lit { next: usize },
    /// A comment, doctype or processing instruction, dropped whole.
    Skip { next: usize },
    Close { name: Vec<char>, next: usize },
    Open { name: Vec<char>, attrs: Vec<Attr>, self_close: bool, next: usize },
}

pub open spec fn step_next(s: TagStep) -> usize {
    match s {
        TagStep::Lit { next } => next,
        TagStep::Skip { next } => next,
        TagStep::Close { next, .. } => next,
        TagStep::Open { next, .. } => next,
    }
}

pub open spec fn is_name_start_c(c: char) -> bool {
    ('a' <= c && c <= 'z') || ('A' <= c && c <= 'Z')
}

#[verifier::when_used_as_spec(is_name_start_c)]
fn is_name_start(c: char) -> (r: bool)
    ensures
        r == is_name_start_c(c),
{
    ('a' <= c && c <= 'z') || ('A' <= c && c <= 'Z')
}

pub open spec fn is_name_c(c: char) -> bool {
    ('a' <= c && c <= 'z') || ('A' <= c && c <= 'Z') || ('0' <= c && c <= '9') || c == '-' || c
        == ':'
}

#[verifier::when_used_as_spec(is_name_c)]
fn is_name_char(c: char) -> (r: bool)
    ensures
        r == is_name_c(c),
{
    ('a' <= c && c <= 'z') || ('A' <= c && c <= 'Z') || ('0' <= c && c <= '9') || c == '-' || c
        == ':'
}

pub open spec fn is_attr_name_c(c: char) -> bool {
    !(c == ' ' || c == '\t' || c == '\n' || c == '\r' || c == '=' || c == '>' || c == '/' || c
        == '"' || c == '\'')
}

#[verifier::when_used_as_spec(is_attr_name_c)]
fn is_attr_name_char(c: char) -> (r: bool)
    ensures
        r == is_attr_name_c(c),
{
    !(c == ' ' || c == '\t' || c == '\n' || c == '\r' || c == '=' || c == '>' || c == '/' || c
        == '"' || c == '\'')
}

/// The entity spellings the tokenizer decodes, after the `&`.
pub open spec fn ent_amp() -> Seq<char> {
    seq!['a', 'm', 'p', ';']
}

pub open spec fn ent_lt() -> Seq<char> {
    seq!['l', 't', ';']
}

pub open spec fn ent_gt() -> Seq<char> {
    seq!['g', 't', ';']
}

pub open spec fn ent_quot() -> Seq<char> {
    seq!['q', 'u', 'o', 't', ';']
}

pub open spec fn ent_num39() -> Seq<char> {
    seq!['#', '3', '9', ';']
}

pub open spec fn ent_apos() -> Seq<char> {
    seq!['a', 'p', 'o', 's', ';']
}

/// Where the text run that starts at `j` ends: at the next `<`, or at the
/// end of the input. Entity references step over their whole spelling.
pub open spec fn scan_end(v: Seq<char>, j: int) -> int
    decreases v.len() - j,
        when 0 <= j <= v.len()
{
    if j >= v.len() || v[j] == '<' {
        j
    } else if v[j] == '&' {
        if match_at(v, ent_amp(), j + 1) {
            scan_end(v, j + 5)
        } else if match_at(v, ent_lt(), j + 1) {
            scan_end(v, j + 4)
        } else if match_at(v, ent_gt(), j + 1) {
            scan_end(v, j + 4)
        } else if match_at(v, ent_quot(), j + 1) {
            scan_end(v, j + 6)
        } else if match_at(v, ent_num39(), j + 1) {
            scan_end(v, j + 5)
        } else if match_at(v, ent_apos(), j + 1) {
            scan_end(v, j + 6)
        } else {
            scan_end(v, j + 1)
        }
    } else {
        scan_end(v, j + 1)
    }
}

/// The decoded text of the run that starts at `j`: the five named entities
/// become their characters, everything else passes through.
pub open spec fn scan_out(v: Seq<char>, j: int) -> Seq<char>
    decreases v.len() - j,
        when 0 <= j <= v.len()
{
    if j >= v.len() || v[j] == '<' {
        Seq::empty()
    } else if v[j] == '&' {
        if match_at(v, ent_amp(), j + 1) {
            seq!['&'] + scan_out(v, j + 5)
        } else if match_at(v, ent_lt(), j + 1) {
            seq!['<'] + scan_out(v, j + 4)
        } else if match_at(v, ent_gt(), j + 1) {
            seq!['>'] + scan_out(v, j + 4)
        } else if match_at(v, ent_quot(), j + 1) {
            seq!['"'] + scan_out(v, j + 6)
        } else if match_at(v, ent_num39(), j + 1) {
            seq!['\''] + scan_out(v, j + 5)
        } else if match_at(v, ent_apos(), j + 1) {
            seq!['\''] + scan_out(v, j + 6)
        } else {
            seq!['&'] + scan_out(v, j + 1)
        }
    } else {
        seq![v[j]] + scan_out(v, j + 1)
    }
}

/// Reads a run of text starting at `i` (which is not `<`), decoding the five
/// named entities and leaving every other entity as literal text.
fn scan_text(v: &Vec<char>, i: usize) -> (r: (usize, Vec<char>))
    requires
        i < v@.len(),
        v@[i as int] != '<',
    ensures
        i < r.0 <= v@.len(),
        r.0 == scan_end(v@, i as int),
        r.1@ == scan_out(v@, i as int),
{
    proof {
        reveal_strlit("amp;");
        reveal_strlit("lt;");
        reveal_strlit("gt;");
        reveal_strlit("quot;");
        reveal_strlit("#39;");
        reveal_strlit("apos;");
    }
    let mut j: usize = i;
    let mut out: Vec<char> = Vec::new();
    while j < v.len() && v[j] != '<'
        invariant
            i <= j <= v@.len(),
            scan_end(v@, i as int) == scan_end(v@, j as int),
            out@ + scan_out(v@, j as int) =~= scan_out(v@, i as int),
        decreases v@.len() - j,
    {
        proof {
            reveal_strlit("amp;");
            reveal_strlit("lt;");
            reveal_strlit("gt;");
            reveal_strlit("quot;");
            reveal_strlit("#39;");
            reveal_strlit("apos;");
            assert("amp;"@ =~= ent_amp());
            assert("lt;"@ =~= ent_lt());
            assert("gt;"@ =~= ent_gt());
            assert("quot;"@ =~= ent_quot());
            assert("#39;"@ =~= ent_num39());
            assert("apos;"@ =~= ent_apos());
        }
        let c = v[j];
        if c == '&' {
            if match_at_exec(v, j + 1, "amp;") {
                out.push('&');
                j = j + 5;
            } else if match_at_exec(v, j + 1, "lt;") {
                out.push('<');
                j = j + 4;
            } else if match_at_exec(v, j + 1, "gt;") {
                out.push('>');
                j = j + 4;
            } else if match_at_exec(v, j + 1, "quot;") {
                out.push('"');
                j = j + 6;
            } else if match_at_exec(v, j + 1, "#39;") {
                out.push('\'');
                j = j + 5;
            } else if match_at_exec(v, j + 1, "apos;") {
                out.push('\'');
                j = j + 6;
            } else {
                out.push('&');
                j = j + 1;
            }
        } else {
            out.push(c);
            j = j + 1;
        }
        proof {
            assert(out@ + scan_out(v@, j as int) =~= scan_out(v@, i as int));
        }
    }
    proof {
        assert(scan_out(v@, j as int) =~= Seq::<char>::empty());
        assert(out@ =~= scan_out(v@, i as int));
    }
    (j, out)
}

/// A position bumped past `j`: tokenization always moves, even on input the
/// grammar never produces.
pub open spec fn bump(j: int, e: int, n: int) -> int {
    if e <= j {
        j + 1
    } else if e > n {
        n
    } else {
        e
    }
}

pub open spec fn ws_end(v: Seq<char>, k: int) -> int
    decreases v.len() - k,
        when 0 <= k <= v.len()
{
    if k >= v.len() || !crate::chars::is_ws(v[k]) {
        k
    } else {
        ws_end(v, k + 1)
    }
}

pub open spec fn skip_end(v: Seq<char>, k: int) -> int
    decreases v.len() - k,
        when 0 <= k <= v.len()
{
    if k >= v.len() || v[k] == '>' {
        k
    } else {
        skip_end(v, k + 1)
    }
}

pub open spec fn name_end(v: Seq<char>, k: int) -> int
    decreases v.len() - k,
        when 0 <= k <= v.len()
{
    if k < v.len() && is_name_c(v[k]) {
        name_end(v, k + 1)
    } else {
        k
    }
}

pub open spec fn name_seq(v: Seq<char>, k: int) -> Seq<char>
    decreases v.len() - k,
        when 0 <= k <= v.len()
{
    if k < v.len() && is_name_c(v[k]) {
        seq![lower_c(v[k])] + name_seq(v, k + 1)
    } else {
        Seq::empty()
    }
}

pub open spec fn aname_end(v: Seq<char>, k: int) -> int
    decreases v.len() - k,
        when 0 <= k <= v.len()
{
    if k < v.len() && is_attr_name_c(v[k]) {
        aname_end(v, k + 1)
    } else {
        k
    }
}

pub open spec fn aname_seq(v: Seq<char>, k: int) -> Seq<char>
    decreases v.len() - k,
        when 0 <= k <= v.len()
{
    if k < v.len() && is_attr_name_c(v[k]) {
        seq![lower_c(v[k])] + aname_seq(v, k + 1)
    } else {
        Seq::empty()
    }
}

pub open spec fn q_end(v: Seq<char>, k: int, q: char) -> int
    decreases v.len() - k,
        when 0 <= k <= v.len()
{
    if k >= v.len() || v[k] == q {
        k
    } else {
        q_end(v, k + 1, q)
    }
}

pub open spec fn b_end(v: Seq<char>, k: int) -> int
    decreases v.len() - k,
        when 0 <= k <= v.len()
{
    if k >= v.len() || crate::chars::is_ws(v[k]) || v[k] == '>' {
        k
    } else {
        b_end(v, k + 1)
    }
}

/// The value after an `=`, starting at `k`: quoted or bare.
pub struct ValSpec {
    pub value: Seq<char>,
    pub end: int,
}

pub open spec fn val_at(v: Seq<char>, k: int) -> ValSpec {
    let j4 = ws_end(v, k);
    if j4 < v.len() && (v[j4] == '"' || v[j4] == '\'') {
        let e = q_end(v, j4 + 1, v[j4]);
        ValSpec {
            value: v.subrange(j4 + 1, e),
            end: if e < v.len() {
                e + 1
            } else {
                e
            },
        }
    } else {
        let e = b_end(v, j4);
        ValSpec { value: v.subrange(j4, e), end: e }
    }
}

/// One pass of the attribute machine at `j`: at most one attribute, a
/// self-close flag, and where the next pass starts.
pub struct GroupSpec {
    pub attr: Option<AbsAttr>,
    pub selfc: bool,
    pub end: int,
}

pub open spec fn attr_group(v: Seq<char>, j: int) -> GroupSpec {
    let j1 = ws_end(v, j);
    if j1 < v.len() && v[j1] == '/' {
        GroupSpec {
            attr: None,
            selfc: j1 + 1 < v.len() && v[j1 + 1] == '>',
            end: bump(j, j1 + 1, v.len() as int),
        }
    } else if j1 < v.len() && v[j1] != '>' {
        let j2 = aname_end(v, j1);
        let nm = aname_seq(v, j1);
        let j3 = ws_end(v, j2);
        let vr = if j3 < v.len() && v[j3] == '=' {
            val_at(v, j3 + 1)
        } else {
            ValSpec { value: Seq::empty(), end: j3 }
        };
        GroupSpec {
            attr: if nm.len() > 0 {
                Some(AbsAttr { name: nm, value: vr.value })
            } else {
                None
            },
            selfc: false,
            end: bump(j, vr.end, v.len() as int),
        }
    } else {
        GroupSpec { attr: None, selfc: false, end: bump(j, j1, v.len() as int) }
    }
}

/// The whole attribute list from `j` to the closing `>`.
pub struct AttrsSpec {
    pub attrs: Seq<AbsAttr>,
    pub selfc: bool,
    pub next: int,
}

pub open spec fn attrs_rest(v: Seq<char>, j: int) -> AttrsSpec
    decreases v.len() - j,
        when 0 <= j
{
    if j >= v.len() {
        AttrsSpec { attrs: Seq::empty(), selfc: false, next: v.len() as int }
    } else if v[j] == '>' {
        AttrsSpec { attrs: Seq::empty(), selfc: false, next: j + 1 }
    } else {
        let g = attr_group(v, j);
        let rest = attrs_rest(v, g.end);
        AttrsSpec {
            attrs: match g.attr {
                Some(a) => seq![a] + rest.attrs,
                None => rest.attrs,
            },
            selfc: g.selfc || rest.selfc,
            next: rest.next,
        }
    }
}

/// The abstract form of one tokenization step.
pub enum AbsStep {
    Lit { next: int },
    Skip { next: int },
    Close { name: Seq<char>, next: int },
    Open { name: Seq<char>, attrs: Seq<AbsAttr>, self_close: bool, next: int },
}

pub open spec fn abs_step(s: TagStep) -> AbsStep {
    match s {
        TagStep::Lit { next } => AbsStep::Lit { next: next as int },
        TagStep::Skip { next } => AbsStep::Skip { next: next as int },
        TagStep::Close { name, next } => AbsStep::Close { name: name@, next: next as int },
        TagStep::Open { name, attrs, self_close, next } => AbsStep::Open {
            name: name@,
            attrs: attrs@.map(|x: int, a: Attr| abs_attr(a)),
            self_close,
            next: next as int,
        },
    }
}

/// What the tokenizer does at the `<` at position `i`: the functional
/// specification of `parse_tag`.
pub open spec fn tag_event(v: Seq<char>, i: int) -> AbsStep {
    if i + 1 >= v.len() {
        AbsStep::Lit { next: v.len() as int }
    } else {
        let c2 = v[i + 1];
        if c2 == '!' || c2 == '?' {
            let e = skip_end(v, i + 2);
            AbsStep::Skip {
                next: if e < v.len() {
                    e + 1
                } else {
                    e
                },
            }
        } else if c2 == '/' {
            let e = skip_end(v, name_end(v, i + 2));
            AbsStep::Close {
                name: name_seq(v, i + 2),
                next: if e < v.len() {
                    e + 1
                } else {
                    e
                },
            }
        } else if is_name_start_c(c2) {
            let ar = attrs_rest(v, name_end(v, i + 2));
            AbsStep::Open {
                name: seq![lower_c(c2)] + name_seq(v, i + 2),
                attrs: ar.attrs,
                self_close: ar.selfc,
                next: ar.next,
            }
        } else {
            AbsStep::Lit { next: i + 1 }
        }
    }
}

/// Tokenizes the markup starting at the `<` at position `i`.
#[verifier::rlimit(100)]
fn parse_tag(v: &Vec<char>, i: usize) -> (step: TagStep)
    requires
        i < v@.len(),
        v@[i as int] == '<',
    ensures
        i < step_next(step) <= v@.len(),
        abs_step(step) == tag_event(v@, i as int),
{
    let n = v.len();
    if i + 1 >= n {
        return TagStep::Lit { next: n };
    }
    let c2 = v[i + 1];
    if c2 == '!' || c2 == '?' {
        let mut j: usize = i + 2;
        while j < n && v[j] != '>'
            invariant
                i + 2 <= j <= n,
                n == v@.len(),
                skip_end(v@, i + 2) == skip_end(v@, j as int),
            decreases n - j,
        {
            j = j + 1;
        }
        let nx: usize = if j < n {
            j + 1
        } else {
            n
        };
        return TagStep::Skip { next: nx };
    }
    if c2 == '/' {
        let mut j: usize = i + 2;
        let mut name: Vec<char> = Vec::new();
        while j < n && is_name_char(v[j])
            invariant
                i + 2 <= j <= n,
                n == v@.len(),
                name_end(v@, i + 2) == name_end(v@, j as int),
                name@ + name_seq(v@, j as int) =~= name_seq(v@, i + 2),
            decreases n - j,
        {
            name.push(lower_c_exec(v[j]));
            j = j + 1;
            proof {
                assert(name@ + name_seq(v@, j as int) =~= name_seq(v@, i + 2));
            }
        }
        proof {
            assert(j == name_end(v@, i + 2));
            assert(name@ =~= name_seq(v@, i + 2));
        }
        while j < n && v[j] != '>'
            invariant
                i + 2 <= j <= n,
                n == v@.len(),
                skip_end(v@, name_end(v@, i + 2)) == skip_end(v@, j as int),
            decreases n - j,
        {
            j = j + 1;
        }
        let nx: usize = if j < n {
            j + 1
        } else {
            n
        };
        return TagStep::Close { name, next: nx };
    }
    if is_name_start(c2) {
        let mut j: usize = i + 2;
        let mut name: Vec<char> = Vec::new();
        name.push(lower_c_exec(c2));
        while j < n && is_name_char(v[j])
            invariant
                i + 2 <= j <= n,
                n == v@.len(),
                name_end(v@, i + 2) == name_end(v@, j as int),
                name@ + name_seq(v@, j as int) =~= seq![lower_c(v@[i + 1])] + name_seq(v@, i + 2),
            decreases n - j,
        {
            name.push(lower_c_exec(v[j]));
            j = j + 1;
            proof {
                assert(name@ + name_seq(v@, j as int) =~= seq![lower_c(v@[i + 1])] + name_seq(
                    v@,
                    i + 2,
                ));
            }
        }
        let ghost ja = j as int;
        proof {
            assert(ja == name_end(v@, i + 2));
            assert(name@ =~= seq![lower_c(v@[i + 1])] + name_seq(v@, i + 2));
        }
        let mut attrs: Vec<Attr> = Vec::new();
        let mut selfc: bool = false;
        while j < n && v[j] != '>'
            invariant
                i + 2 <= j <= n,
                n == v@.len(),
                ja == name_end(v@, i + 2),
                attrs_rest(v@, ja).attrs =~= attrs@.map(|x: int, a: Attr| abs_attr(a))
                    + attrs_rest(v@, j as int).attrs,
                attrs_rest(v@, ja).selfc == (selfc || attrs_rest(v@, j as int).selfc),
                attrs_rest(v@, ja).next == attrs_rest(v@, j as int).next,
            decreases n - j,
        {
            let ghost j0 = j as int;
            let ghost g = attr_group(v@, j0);
            let j_before: usize = j;
            while j < n && is_ws_exec(v[j])
                invariant
                    j_before <= j <= n,
                    n == v@.len(),
                    ws_end(v@, j_before as int) == ws_end(v@, j as int),
                decreases n - j,
            {
                j = j + 1;
            }
            proof {
                assert(j == ws_end(v@, j0));
            }
            if j < n && v[j] == '/' {
                if j + 1 < n && v[j + 1] == '>' {
                    selfc = true;
                }
                j = j + 1;
                proof {
                    assert(j == g.end);
                    assert(g.attr is None);
                }
            } else if j < n && v[j] != '>' {
                let ghost j1 = j as int;
                let mut aname: Vec<char> = Vec::new();
                while j < n && is_attr_name_char(v[j])
                    invariant
                        j1 <= j <= n,
                        n == v@.len(),
                        aname_end(v@, j1) == aname_end(v@, j as int),
                        aname@ + aname_seq(v@, j as int) =~= aname_seq(v@, j1),
                    decreases n - j,
                {
                    aname.push(lower_c_exec(v[j]));
                    j = j + 1;
                    proof {
                        assert(aname@ + aname_seq(v@, j as int) =~= aname_seq(v@, j1));
                    }
                }
                proof {
                    assert(j == aname_end(v@, j1));
                    assert(aname@ =~= aname_seq(v@, j1));
                }
                let ghost j2 = j as int;
                while j < n && is_ws_exec(v[j])
                    invariant
                        j2 <= j <= n,
                        n == v@.len(),
                        ws_end(v@, j2) == ws_end(v@, j as int),
                    decreases n - j,
                {
                    j = j + 1;
                }
                proof {
                    assert(j == ws_end(v@, j2));
                }
                let ghost j3 = j as int;
                let mut aval: Vec<char> = Vec::new();
                if j < n && v[j] == '=' {
                    j = j + 1;
                    while j < n && is_ws_exec(v[j])
                        invariant
                            j3 + 1 <= j <= n,
                            n == v@.len(),
                            ws_end(v@, j3 + 1) == ws_end(v@, j as int),
                        decreases n - j,
                    {
                        j = j + 1;
                    }
                    proof {
                        assert(j == ws_end(v@, j3 + 1));
                    }
                    let ghost j4 = j as int;
                    if j < n && (v[j] == '"' || v[j] == '\'') {
                        let q = v[j];
                        j = j + 1;
                        while j < n && v[j] != q
                            invariant
                                j4 + 1 <= j <= n,
                                n == v@.len(),
                                q == v@[j4],
                                q_end(v@, j4 + 1, q) == q_end(v@, j as int, q),
                                aval@ =~= v@.subrange(j4 + 1, j as int),
                            decreases n - j,
                        {
                            aval.push(v[j]);
                            j = j + 1;
                            proof {
                                assert(aval@ =~= v@.subrange(j4 + 1, j as int));
                            }
                        }
                        proof {
                            assert(j == q_end(v@, j4 + 1, q));
                            assert(aval@ =~= val_at(v@, j3 + 1).value);
                        }
                        if j < n {
                            j = j + 1;
                        }
                        proof {
                            assert(j == val_at(v@, j3 + 1).end);
                        }
                    } else {
                        while j < n && !is_ws_exec(v[j]) && v[j] != '>'
                            invariant
                                j4 <= j <= n,
                                n == v@.len(),
                                b_end(v@, j4) == b_end(v@, j as int),
                                aval@ =~= v@.subrange(j4, j as int),
                            decreases n - j,
                        {
                            aval.push(v[j]);
                            j = j + 1;
                            proof {
                                assert(aval@ =~= v@.subrange(j4, j as int));
                            }
                        }
                        proof {
                            assert(j == b_end(v@, j4));
                            assert(aval@ =~= val_at(v@, j3 + 1).value);
                            assert(j == val_at(v@, j3 + 1).end);
                        }
                    }
                }
                let ghost ganame = aname@;
                let ghost gaval = aval@;
                if aname.len() > 0 {
                    attrs.push(Attr { name: aname, value: aval });
                    proof {
                        assert(g.attr == Some(AbsAttr { name: ganame, value: gaval }));
                    }
                } else {
                    proof {
                        assert(g.attr is None);
                    }
                }
                proof {
                    assert(g.selfc == false);
                }
            }
            if j == j_before {
                j = j + 1;
            }
            proof {
                assert(j == g.end);
                assert(attrs_rest(v@, j0).attrs == match g.attr {
                    Some(a) => seq![a] + attrs_rest(v@, g.end).attrs,
                    None => attrs_rest(v@, g.end).attrs,
                });
                assert(attrs_rest(v@, ja).attrs =~= attrs@.map(|x: int, a: Attr| abs_attr(a))
                    + attrs_rest(v@, j as int).attrs);
                assert(attrs_rest(v@, ja).selfc == (selfc || attrs_rest(v@, j as int).selfc));
                assert(attrs_rest(v@, ja).next == attrs_rest(v@, j as int).next);
            }
        }
        let nx: usize = if j < n {
            j + 1
        } else {
            n
        };
        proof {
            assert(attrs_rest(v@, j as int).attrs =~= Seq::<AbsAttr>::empty());
            assert(attrs@.map(|x: int, a: Attr| abs_attr(a)) =~= attrs_rest(v@, ja).attrs);
        }
        return TagStep::Open { name, attrs, self_close: selfc, next: nx };
    }
    TagStep::Lit { next: i + 1 }
}

/// Elements whose content is raw text: no markup is recognized inside them
/// until the matching close tag.
pub open spec fn is_raw(tag: Seq<char>) -> bool {
    tag == "script"@ || tag == "style"@
}

fn raw_tag(tag: &Vec<char>) -> (r: bool)
    ensures
        r == is_raw(tag@),
{
    chars_eq_str(tag, "script") || chars_eq_str(tag, "style")
}

/// The characters of `name` stand lower-cased at position `p + k` onwards.
pub open spec fn raw_match(v: Seq<char>, p: int, name: Seq<char>, k: int) -> bool
    decreases name.len() - k,
        when 0 <= k <= name.len()
{
    if k >= name.len() {
        true
    } else {
        p + k < v.len() && lower_c(v[p + k]) == name[k] && raw_match(v, p, name, k + 1)
    }
}

/// A `</` followed by the element's name starts at `j`.
pub open spec fn raw_hit(v: Seq<char>, j: int, name: Seq<char>) -> bool {
    v[j] == '<' && j + 1 < v.len() && v[j + 1] == '/' && raw_match(v, j + 2, name, 0)
}

/// The first position at or after `j` where the raw element's close tag
/// starts, or the end of the input.
pub open spec fn frc(v: Seq<char>, j: int, name: Seq<char>) -> int
    decreases v.len() - j,
        when 0 <= j <= v.len()
{
    if j >= v.len() {
        v.len() as int
    } else if raw_hit(v, j, name) {
        j
    } else {
        frc(v, j + 1, name)
    }
}

fn raw_hit_at(v: &Vec<char>, j: usize, name: &Vec<char>) -> (b: bool)
    requires
        j < v@.len(),
    ensures
        b == raw_hit(v@, j as int, name@),
{
    let n = v.len();
    if !(v[j] == '<' && j + 1 < n && v[j + 1] == '/') {
        return false;
    }
    let mut k: usize = 0;
    while k < name.len()
        invariant
            0 <= k <= name@.len(),
            j + 2 <= n,
            n == v@.len(),
            v@[j as int] == '<',
            j + 1 < n,
            v@[j + 1] == '/',
            raw_match(v@, j + 2, name@, 0) == raw_match(v@, j + 2, name@, k as int),
        decreases name@.len() - k,
    {
        if k >= n - (j + 2) {
            proof {
                assert(!raw_match(v@, j + 2, name@, k as int));
            }
            return false;
        }
        if lower_c_exec(v[j + 2 + k]) != name[k] {
            proof {
                assert(!raw_match(v@, j + 2, name@, k as int));
            }
            return false;
        }
        k = k + 1;
    }
    proof {
        assert(raw_match(v@, j + 2, name@, k as int));
        assert(raw_hit(v@, j as int, name@));
    }
    true
}

/// First position at or after `from` where `</` followed by `name` starts, or
/// the end of the input if there is none.
fn find_raw_close(v: &Vec<char>, from: usize, name: &Vec<char>) -> (r: usize)
    requires
        from <= v@.len(),
    ensures
        from <= r <= v@.len(),
        r == frc(v@, from as int, name@),
{
    let n = v.len();
    let mut j: usize = from;
    while j < n
        invariant
            from <= j <= n,
            n == v@.len(),
            frc(v@, from as int, name@) == frc(v@, j as int, name@),
        decreases n - j,
    {
        if raw_hit_at(v, j, name) {
            return j;
        }
        j = j + 1;
    }
    n
}

/// The position in the open stack, scanning from the top and sparing the
/// root, of the nearest element with this tag; 0 when there is none.
pub open spec fn stack_find(ns: Seq<AbsNode>, st: Seq<usize>, name: Seq<char>, k: int) -> int
    decreases k,
{
    if k <= 1 {
        0
    } else {
        let c = st[k - 1];
        if c < ns.len() && (ns[c as int].kind matches AbsKind::Elem { tag, .. } && tag == name) {
            k - 1
        } else {
            stack_find(ns, st, name, k - 1)
        }
    }
}

fn find_open(nodes: &Vec<Node>, stack: &Vec<usize>, name: &Vec<char>) -> (r: usize)
    requires
        forall|k: int| 0 <= k < stack@.len() ==> #[trigger] stack@[k] < nodes@.len(),
    ensures
        r == stack_find(abs(nodes@), stack@, name@, stack@.len() as int),
        r < stack@.len() || stack@.len() == 0,
{
    let mut k = stack.len();
    while k > 1
        invariant
            0 <= k <= stack@.len(),
            forall|kk: int| 0 <= kk < stack@.len() ==> #[trigger] stack@[kk] < nodes@.len(),
            stack_find(abs(nodes@), stack@, name@, stack@.len() as int) == stack_find(
                abs(nodes@),
                stack@,
                name@,
                k as int,
            ),
        decreases k,
    {
        k = k - 1;
        let cand = stack[k];
        let hit = match &nodes[cand].kind {
            NodeKind::Element { tag, .. } => crate::chars::chars_eq(tag, name),
            NodeKind::Text { .. } => false,
        };
        proof {
            assert(abs(nodes@)[cand as int] == crate::dom::abs_node(nodes@[cand as int]));
        }
        if hit {
            proof {
                assert(stack_find(abs(nodes@), stack@, name@, k + 1) == k as int);
            }
            return k;
        }
    }
    0
}

/// The root the parser starts from, abstractly.
pub open spec fn abs_root() -> AbsNode {
    AbsNode {
        kind: AbsKind::Elem { tag: "#root"@, attrs: Seq::empty(), children: Seq::empty() },
        parent: 0,
    }
}

/// One pass of the parser's main loop, abstractly: from position `i` with
/// tree `ns` and open stack `st` to the finished tree. The functional
/// specification of `parse_document`.
pub open spec fn parse_loop(v: Seq<char>, i: int, ns: Seq<AbsNode>, st: Seq<usize>) -> Seq<
    AbsNode,
>
    decreases v.len() - i,
        when 0 <= i && st.len() >= 1
{
    if i >= v.len() {
        ns
    } else {
        let n = v.len() as int;
        let top = st[st.len() - 1];
        if v[i] != '<' {
            parse_loop(
                v,
                bump(i, scan_end(v, i), n),
                abs_add_child(ns, top, AbsKind::Text { text: scan_out(v, i) }),
                st,
            )
        } else {
            match tag_event(v, i) {
                AbsStep::Lit { next } => parse_loop(
                    v,
                    bump(i, next, n),
                    abs_add_child(ns, top, AbsKind::Text { text: seq!['<'] }),
                    st,
                ),
                AbsStep::Skip { next } => parse_loop(v, bump(i, next, n), ns, st),
                AbsStep::Close { name, next } => {
                    let f = stack_find(ns, st, name, st.len() as int);
                    parse_loop(
                        v,
                        bump(i, next, n),
                        ns,
                        if f > 0 {
                            st.take(f)
                        } else {
                            st
                        },
                    )
                },
                AbsStep::Open { name, attrs, self_close, next } => {
                    let idx = ns.len() as usize;
                    let ns2 = abs_add_child(
                        ns,
                        top,
                        AbsKind::Elem { tag: name, attrs, children: Seq::empty() },
                    );
                    let nx = bump(i, next, n);
                    if self_close || is_void(name) {
                        parse_loop(v, nx, ns2, st)
                    } else if is_raw(name) {
                        let ca = frc(v, nx, name);
                        let ns3 = if ca > nx {
                            abs_add_child(ns2, idx, AbsKind::Text { text: v.subrange(nx, ca) })
                        } else {
                            ns2
                        };
                        parse_loop(v, bump(i, ca, n), ns3, st)
                    } else if st.len() < 256 {
                        parse_loop(v, nx, ns2, st.push(idx))
                    } else {
                        parse_loop(v, nx, ns2, st)
                    }
                },
            }
        }
    }
}

/// What parsing a document yields, abstractly.
pub open spec fn parse_spec(html: Seq<char>) -> Seq<AbsNode> {
    parse_loop(html, 0, seq![abs_root()], seq![0usize])
}

/// Parses markup into a document tree: a best-effort, never-failing
/// tokenizer in the HTML5 error-recovery spirit. Unterminated tags close at
/// end of input; close tags without a matching open element are dropped;
/// nesting deeper than the open-element stack allows is flattened. Tag and
/// attribute names are lower-cased; the five named entities are decoded and
/// all others pass through as literal text. The tree is pinned, through its
/// mathematical view, to the functional specification `parse_spec`.
#[verifier::rlimit(100)]
pub fn parse_document(html: &str) -> (t: Vec<Node>)
    ensures
        wf(t@),
        tag_of(t@, 0) == "#root"@,
        abs(t@) == parse_spec(html@),
        html@.len() == 0 ==> t@.len() == 1 && kids(t@, 0).len() == 0,
{
    let v = str_to_chars(html);
    let mut nodes = new_tree();
    let mut stack: Vec<usize> = Vec::new();
    stack.push(0);
    proof {
        assert(node_ok(nodes@, 0));
        assert(stack@ =~= seq![0usize]);
        assert(parse_loop(v@, 0, abs(nodes@), stack@) == parse_spec(html@));
    }
    let mut i: usize = 0;
    while i < v.len()
        invariant
            wf(nodes@),
            tag_of(nodes@, 0) == "#root"@,
            v@ == html@,
            html@.len() == 0 ==> nodes@.len() == 1 && kids(nodes@, 0).len() == 0,
            0 <= i <= v@.len(),
            stack@.len() >= 1,
            stack@[0] == 0,
            forall|k: int|
                0 <= k < stack@.len() ==> #[trigger] stack@[k] < nodes@.len()
                    && nodes@[stack@[k] as int].kind is Element,
            parse_loop(v@, i as int, abs(nodes@), stack@) == parse_spec(html@),
        decreases v@.len() - i,
    {
        let ghost i0 = i as int;
        let ghost ns0 = abs(nodes@);
        let ghost st0 = stack@;
        let ghost n0 = v@.len() as int;
        if v[i] != '<' {
            let (j, text) = scan_text(&v, i);
            let ghost gtext = text@;
            let top = stack[stack.len() - 1];
            push_child_node(&mut nodes, top, NodeKind::Text { text });
            i = j;
            proof {
                assert(i as int == bump(i0, scan_end(v@, i0), n0));
                assert(abs(nodes@) == abs_add_child(ns0, top, AbsKind::Text { text: gtext }));
                assert(parse_loop(v@, i as int, abs(nodes@), stack@) == parse_spec(html@));
            }
        } else {
            let step = parse_tag(&v, i);
            proof {
                assert(abs_step(step) == tag_event(v@, i0));
            }
            match step {
                TagStep::Lit { next } => {
                    let mut text: Vec<char> = Vec::new();
                    text.push('<');
                    proof {
                        assert(text@ =~= seq!['<']);
                    }
                    let top = stack[stack.len() - 1];
                    push_child_node(&mut nodes, top, NodeKind::Text { text });
                    i = next;
                    proof {
                        assert(tag_event(v@, i0) == AbsStep::Lit { next: next as int });
                        assert(i as int == bump(i0, next as int, n0));
                        assert(parse_loop(v@, i as int, abs(nodes@), stack@) == parse_spec(
                            html@,
                        ));
                    }
                },
                TagStep::Skip { next } => {
                    i = next;
                    proof {
                        assert(tag_event(v@, i0) == AbsStep::Skip { next: next as int });
                        assert(i as int == bump(i0, next as int, n0));
                        assert(parse_loop(v@, i as int, abs(nodes@), stack@) == parse_spec(
                            html@,
                        ));
                    }
                },
                TagStep::Close { name, next } => {
                    let found = find_open(&nodes, &stack, &name);
                    proof {
                        assert(tag_event(v@, i0) == AbsStep::Close {
                            name: name@,
                            next: next as int,
                        });
                        assert(found as int == stack_find(ns0, st0, name@, st0.len() as int));
                    }
                    if found > 0 {
                        stack.truncate(found);
                        proof {
                            assert(stack@ =~= st0.take(found as int));
                        }
                    }
                    i = next;
                    proof {
                        assert(i as int == bump(i0, next as int, n0));
                        assert(parse_loop(v@, i as int, abs(nodes@), stack@) == parse_spec(
                            html@,
                        ));
                    }
                },
                TagStep::Open { name, attrs, self_close, next } => {
                    let ghost gname = name@;
                    let ghost gattrs = attrs@;
                    let top = stack[stack.len() - 1];
                    let is_v = void_tag(&name);
                    let is_r = raw_tag(&name);
                    let idx = push_child_node(
                        &mut nodes,
                        top,
                        NodeKind::Element { tag: name, attrs, children: Vec::new() },
                    );
                    proof {
                        assert(tag_event(v@, i0) == AbsStep::Open {
                            name: gname,
                            attrs: gattrs.map(|x: int, a: Attr| abs_attr(a)),
                            self_close,
                            next: next as int,
                        });
                        assert(abs(nodes@) == abs_add_child(
                            ns0,
                            top,
                            AbsKind::Elem {
                                tag: gname,
                                attrs: gattrs.map(|x: int, a: Attr| abs_attr(a)),
                                children: Seq::empty(),
                            },
                        ));
                        assert(idx as int == ns0.len());
                    }
                    if self_close || is_v {
                        i = next;
                        proof {
                            assert(i as int == bump(i0, next as int, n0));
                            assert(parse_loop(v@, i as int, abs(nodes@), stack@) == parse_spec(
                                html@,
                            ));
                        }
                    } else if is_r {
                        let close_at = match &nodes[idx].kind {
                            NodeKind::Element { tag, .. } => find_raw_close(&v, next, tag),
                            NodeKind::Text { .. } => next,
                        };
                        proof {
                            assert(next as int == bump(i0, next as int, n0));
                            assert(close_at as int == frc(v@, next as int, gname));
                        }
                        if close_at > next {
                            let mut raw: Vec<char> = Vec::new();
                            let mut p: usize = next;
                            while p < close_at
                                invariant
                                    next <= p <= close_at,
                                    close_at <= v@.len(),
                                    raw@ =~= v@.subrange(next as int, p as int),
                                decreases close_at - p,
                            {
                                raw.push(v[p]);
                                p = p + 1;
                                proof {
                                    assert(raw@ =~= v@.subrange(next as int, p as int));
                                }
                            }
                            let ghost graw = raw@;
                            push_child_node(&mut nodes, idx, NodeKind::Text { text: raw });
                            proof {
                                assert(graw =~= v@.subrange(next as int, close_at as int));
                            }
                        }
                        i = close_at;
                        proof {
                            assert(i as int == bump(i0, close_at as int, n0));
                            assert(parse_loop(v@, i as int, abs(nodes@), stack@) == parse_spec(
                                html@,
                            ));
                        }
                    } else if stack.len() < 256 {
                        stack.push(idx);
                        i = next;
                        proof {
                            assert(i as int == bump(i0, next as int, n0));
                            assert(parse_loop(v@, i as int, abs(nodes@), stack@) == parse_spec(
                                html@,
                            ));
                        }
                    } else {
                        i = next;
                        proof {
                            assert(i as int == bump(i0, next as int, n0));
                            assert(parse_loop(v@, i as int, abs(nodes@), stack@) == parse_spec(
                                html@,
                            ));
                        }
                    }
                },
            }
        }
    }
    nodes
}

} // verus!

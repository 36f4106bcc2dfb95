use vstd::prelude::*;
use crate::chars::soften_ws;
use crate::dom::{Attr, Node, NodeKind, kids, node_ok, wf};
use crate::parse::is_void;
use crate::urls::{BaseUrl, resolve_of, resolve_chars};

verus! {

/// Elements stripped from the content wholesale.
pub open spec fn is_removed(tag: Seq<char>) -> bool {
    ||| tag == "script"@
    ||| tag == "style"@
    ||| tag == "form"@
    ||| tag == "iframe"@
    ||| tag == "noscript"@
}

pub fn removed_tag(tag: &Vec<char>) -> (r: bool)
    ensures
        r == is_removed(tag@),
{
    crate::chars::chars_eq_str(tag, "script") || crate::chars::chars_eq_str(tag, "style")
        || crate::chars::chars_eq_str(tag, "form") || crate::chars::chars_eq_str(tag, "iframe")
        || crate::chars::chars_eq_str(tag, "noscript")
}

/// Elements whose boundary becomes a newline in the plain-text rendition.
pub open spec fn is_block(tag: Seq<char>) -> bool {
    ||| tag == "p"@
    ||| tag == "div"@
    ||| tag == "article"@
    ||| tag == "section"@
    ||| tag == "h1"@
    ||| tag == "h2"@
    ||| tag == "h3"@
    ||| tag == "h4"@
    ||| tag == "h5"@
    ||| tag == "h6"@
    ||| tag == "li"@
    ||| tag == "ul"@
    ||| tag == "ol"@
    ||| tag == "blockquote"@
    ||| tag == "pre"@
    ||| tag == "br"@
    ||| tag == "tr"@
    ||| tag == "table"@
}

pub fn block_tag(tag: &Vec<char>) -> (r: bool)
    ensures
        r == is_block(tag@),
{
    crate::chars::chars_eq_str(tag, "p") || crate::chars::chars_eq_str(tag, "div")
        || crate::chars::chars_eq_str(tag, "article") || crate::chars::chars_eq_str(tag, "section")
        || crate::chars::chars_eq_str(tag, "h1") || crate::chars::chars_eq_str(tag, "h2")
        || crate::chars::chars_eq_str(tag, "h3") || crate::chars::chars_eq_str(tag, "h4")
        || crate::chars::chars_eq_str(tag, "h5") || crate::chars::chars_eq_str(tag, "h6")
        || crate::chars::chars_eq_str(tag, "li") || crate::chars::chars_eq_str(tag, "ul")
        || crate::chars::chars_eq_str(tag, "ol") || crate::chars::chars_eq_str(tag, "blockquote")
        || crate::chars::chars_eq_str(tag, "pre") || crate::chars::chars_eq_str(tag, "br")
        || crate::chars::chars_eq_str(tag, "tr") || crate::chars::chars_eq_str(tag, "table")
}

/// Markup escaping of one character.
pub open spec fn esc_char(c: char) -> Seq<char> {
    if c == '&' {
        seq!['&', 'a', 'm', 'p', ';']
    } else if c == '<' {
        seq!['&', 'l', 't', ';']
    } else if c == '>' {
        seq!['&', 'g', 't', ';']
    } else if c == '"' {
        seq!['&', 'q', 'u', 'o', 't', ';']
    } else {
        seq![c]
    }
}

pub open spec fn esc_all(s: Seq<char>, k: int) -> Seq<char>
    decreases s.len() - k,
        when 0 <= k <= s.len()
{
    if k >= s.len() {
        Seq::empty()
    } else {
        esc_char(s[k]) + esc_all(s, k + 1)
    }
}

fn push_esc(out: &mut Vec<char>, c: char)
    ensures
        final(out)@ == old(out)@ + esc_char(c),
{
    if c == '&' {
        out.push('&');
        out.push('a');
        out.push('m');
        out.push('p');
        out.push(';');
    } else if c == '<' {
        out.push('&');
        out.push('l');
        out.push('t');
        out.push(';');
    } else if c == '>' {
        out.push('&');
        out.push('g');
        out.push('t');
        out.push(';');
    } else if c == '"' {
        out.push('&');
        out.push('q');
        out.push('u');
        out.push('o');
        out.push('t');
        out.push(';');
    } else {
        out.push(c);
    }
    proof {
        assert(final(out)@ =~= old(out)@ + esc_char(c));
    }
}

fn esc_append(out: &mut Vec<char>, v: &Vec<char>)
    ensures
        final(out)@ == old(out)@ + esc_all(v@, 0),
{
    let mut k: usize = 0;
    while k < v.len()
        invariant
            0 <= k <= v@.len(),
            out@ + esc_all(v@, k as int) =~= old(out)@ + esc_all(v@, 0),
        decreases v@.len() - k,
    {
        push_esc(out, v[k]);
        k = k + 1;
        proof {
            assert(out@ + esc_all(v@, k as int) =~= old(out)@ + esc_all(v@, 0));
        }
    }
    proof {
        assert(out@ =~= old(out)@ + esc_all(v@, 0));
    }
}

fn append_chars(out: &mut Vec<char>, v: &Vec<char>)
    ensures
        final(out)@ == old(out)@ + v@,
{
    let mut k: usize = 0;
    while k < v.len()
        invariant
            0 <= k <= v@.len(),
            out@ == old(out)@ + v@.take(k as int),
        decreases v@.len() - k,
    {
        out.push(v[k]);
        k = k + 1;
        proof {
            assert(out@ =~= old(out)@ + v@.take(k as int));
        }
    }
    proof {
        assert(v@.take(v@.len() as int) =~= v@);
    }
}

/// What one attribute contributes to the serialized open tag: only `href`,
/// `src`, `alt` and `title` survive, and `href`/`src` values are resolved
/// against the base URL.
pub open spec fn attr_piece(a: Attr, base: Seq<char>) -> Seq<char> {
    if a.name@ == "href"@ || a.name@ == "src"@ {
        seq![' '] + a.name@ + seq!['=', '"'] + esc_all(resolve_of(base, a.value@), 0) + seq!['"']
    } else if a.name@ == "alt"@ || a.name@ == "title"@ {
        seq![' '] + a.name@ + seq!['=', '"'] + esc_all(a.value@, 0) + seq!['"']
    } else {
        Seq::empty()
    }
}

pub open spec fn ser_attrs(attrs: Seq<Attr>, base: Seq<char>, k: int) -> Seq<char>
    decreases attrs.len() - k,
        when 0 <= k <= attrs.len()
{
    if k >= attrs.len() {
        Seq::empty()
    } else {
        attr_piece(attrs[k], base) + ser_attrs(attrs, base, k + 1)
    }
}

fn ser_attrs_exec(out: &mut Vec<char>, attrs: &Vec<Attr>, b: &BaseUrl)
    ensures
        final(out)@ == old(out)@ + ser_attrs(attrs@, b.text_view(), 0),
{
    let mut k: usize = 0;
    while k < attrs.len()
        invariant
            0 <= k <= attrs@.len(),
            out@ + ser_attrs(attrs@, b.text_view(), k as int) =~= old(out)@ + ser_attrs(
                attrs@,
                b.text_view(),
                0,
            ),
        decreases attrs@.len() - k,
    {
        let is_link = crate::chars::chars_eq_str(&attrs[k].name, "href")
            || crate::chars::chars_eq_str(&attrs[k].name, "src");
        let is_plain = crate::chars::chars_eq_str(&attrs[k].name, "alt")
            || crate::chars::chars_eq_str(&attrs[k].name, "title");
        if is_link {
            out.push(' ');
            append_chars(out, &attrs[k].name);
            out.push('=');
            out.push('"');
            let resolved = resolve_chars(b, &attrs[k].value);
            esc_append(out, &resolved);
            out.push('"');
        } else if is_plain {
            out.push(' ');
            append_chars(out, &attrs[k].name);
            out.push('=');
            out.push('"');
            esc_append(out, &attrs[k].value);
            out.push('"');
        }
        k = k + 1;
        proof {
            assert(out@ + ser_attrs(attrs@, b.text_view(), k as int) =~= old(out)@ + ser_attrs(
                attrs@,
                b.text_view(),
                0,
            ));
        }
    }
    proof {
        assert(out@ =~= old(out)@ + ser_attrs(attrs@, b.text_view(), 0));
    }
}

/// The serialized form of node `i`: removed elements vanish, void elements
/// self-close, everything else is an open tag with the surviving attributes,
/// the serialized children, and a close tag; text is escaped.
pub open spec fn ser_node(t: Seq<Node>, base: Seq<char>, i: int) -> Seq<char>
    decreases t.len() - i, 1int, 0int,
        when wf(t) && node_ok(t, i) && 0 <= i < t.len()
{
    match t[i].kind {
        NodeKind::Text { text } => esc_all(text@, 0),
        NodeKind::Element { tag, attrs, .. } => if is_removed(tag@) {
            Seq::empty()
        } else if is_void(tag@) {
            seq!['<'] + tag@ + ser_attrs(attrs@, base, 0) + seq!['/', '>']
        } else {
            seq!['<'] + tag@ + ser_attrs(attrs@, base, 0) + seq!['>'] + ser_kids(t, base, i, 0)
                + seq!['<', '/'] + tag@ + seq!['>']
        },
    }
}

pub open spec fn ser_kids(t: Seq<Node>, base: Seq<char>, i: int, k: int) -> Seq<char>
    decreases t.len() - i, 0int, kids(t, i).len() - k,
        when wf(t) && node_ok(t, i) && 0 <= i < t.len() && 0 <= k <= kids(t, i).len()
{
    if k >= kids(t, i).len() {
        Seq::empty()
    } else {
        ser_node(t, base, kids(t, i)[k] as int) + ser_kids(t, base, i, k + 1)
    }
}

pub fn ser_node_exec(t: &Vec<Node>, b: &BaseUrl, i: usize, out: &mut Vec<char>)
    requires
        wf(t@),
        i < t@.len(),
    ensures
        final(out)@ == old(out)@ + ser_node(t@, b.text_view(), i as int),
    decreases t@.len() - i,
{
    proof {
        assert(node_ok(t@, i as int));
    }
    match &t[i].kind {
        NodeKind::Text { text } => {
            esc_append(out, text);
        },
        NodeKind::Element { tag, attrs, children } => {
            if removed_tag(tag) {
            } else {
                out.push('<');
                append_chars(out, tag);
                ser_attrs_exec(out, attrs, b);
                if crate::parse::void_tag(tag) {
                    out.push('/');
                    out.push('>');
                    proof {
                        assert(out@ =~= old(out)@ + ser_node(t@, b.text_view(), i as int));
                    }
                } else {
                    out.push('>');
                    let ghost mid = out@;
                    let mut k: usize = 0;
                    while k < children.len()
                        invariant
                            0 <= k <= children@.len(),
                            children@ == kids(t@, i as int),
                            out@ + ser_kids(t@, b.text_view(), i as int, k as int) =~= mid
                                + ser_kids(t@, b.text_view(), i as int, 0),
                        decreases children@.len() - k,
                    {
                        let c = children[k];
                        proof {
                            assert(i < kids(t@, i as int)[k as int] < t@.len());
                        }
                        ser_node_exec(t, b, c, out);
                        k = k + 1;
                        proof {
                            assert(out@ + ser_kids(t@, b.text_view(), i as int, k as int) =~= mid
                                + ser_kids(t@, b.text_view(), i as int, 0));
                        }
                    }
                    out.push('<');
                    out.push('/');
                    append_chars(out, tag);
                    out.push('>');
                    proof {
                        assert(out@ =~= old(out)@ + ser_node(t@, b.text_view(), i as int));
                    }
                }
            }
        },
    }
}

/// The raw text-node concatenation beneath node `i` for the plain-text
/// rendition: removed elements vanish, and a block element is fenced by
/// newlines. Whitespace is collapsed afterwards, over the whole rendition,
/// so spaces at inline-element boundaries survive.
pub open spec fn txt_node(t: Seq<Node>, i: int) -> Seq<char>
    decreases t.len() - i, 1int, 0int,
        when wf(t) && node_ok(t, i) && 0 <= i < t.len()
{
    match t[i].kind {
        NodeKind::Text { text } => crate::chars::soften_ws(text@),
        NodeKind::Element { tag, .. } => if is_removed(tag@) {
            Seq::empty()
        } else {
            let inner = txt_kids(t, i, 0);
            if is_block(tag@) {
                seq!['\n'] + inner + seq!['\n']
            } else {
                inner
            }
        },
    }
}

pub open spec fn txt_kids(t: Seq<Node>, i: int, k: int) -> Seq<char>
    decreases t.len() - i, 0int, kids(t, i).len() - k,
        when wf(t) && node_ok(t, i) && 0 <= i < t.len() && 0 <= k <= kids(t, i).len()
{
    if k >= kids(t, i).len() {
        Seq::empty()
    } else {
        txt_node(t, kids(t, i)[k] as int) + txt_kids(t, i, k + 1)
    }
}

pub fn txt_node_exec(t: &Vec<Node>, i: usize) -> (r: Vec<char>)
    requires
        wf(t@),
        i < t@.len(),
    ensures
        r@ == txt_node(t@, i as int),
    decreases t@.len() - i,
{
    proof {
        assert(node_ok(t@, i as int));
    }
    match &t[i].kind {
        NodeKind::Text { text } => crate::chars::soften_ws_exec(text),
        NodeKind::Element { tag, children, .. } => {
            if removed_tag(tag) {
                Vec::new()
            } else {
                let mut inner: Vec<char> = Vec::new();
                let mut k: usize = 0;
                while k < children.len()
                    invariant
                        0 <= k <= children@.len(),
                        children@ == kids(t@, i as int),
                        inner@ + txt_kids(t@, i as int, k as int) =~= txt_kids(t@, i as int, 0),
                    decreases children@.len() - k,
                {
                    let c = children[k];
                    proof {
                        assert(i < kids(t@, i as int)[k as int] < t@.len());
                    }
                    let piece = txt_node_exec(t, c);
                    append_chars(&mut inner, &piece);
                    k = k + 1;
                    proof {
                        assert(inner@ + txt_kids(t@, i as int, k as int) =~= txt_kids(
                            t@,
                            i as int,
                            0,
                        ));
                    }
                }
                proof {
                    assert(inner@ =~= txt_kids(t@, i as int, 0));
                }
                if block_tag(tag) {
                    let mut fenced: Vec<char> = Vec::new();
                    fenced.push('\n');
                    append_chars(&mut fenced, &inner);
                    fenced.push('\n');
                    proof {
                        assert(fenced@ =~= seq!['\n'] + inner@ + seq!['\n']);
                    }
                    fenced
                } else {
                    inner
                }
            }
        },
    }
}

/// The plain-text rendition of the selected content: the raw text with block
/// fences, whitespace-collapsed with block boundaries kept as newlines.
pub open spec fn text_render(t: Seq<Node>, roots: Seq<usize>) -> Seq<char> {
    crate::chars::render_collapse(txt_roots(t, roots, 0))
}

/// The raw text beneath node `i`, undecorated: what the title heuristics
/// compare against.
pub open spec fn raw_text(t: Seq<Node>, i: int) -> Seq<char>
    decreases t.len() - i, 1int, 0int,
        when wf(t) && node_ok(t, i) && 0 <= i < t.len()
{
    match t[i].kind {
        NodeKind::Text { text } => text@,
        NodeKind::Element { .. } => raw_text_kids(t, i, 0),
    }
}

pub open spec fn raw_text_kids(t: Seq<Node>, i: int, k: int) -> Seq<char>
    decreases t.len() - i, 0int, kids(t, i).len() - k,
        when wf(t) && node_ok(t, i) && 0 <= i < t.len() && 0 <= k <= kids(t, i).len()
{
    if k >= kids(t, i).len() {
        Seq::empty()
    } else {
        raw_text(t, kids(t, i)[k] as int) + raw_text_kids(t, i, k + 1)
    }
}

pub fn raw_text_exec(t: &Vec<Node>, i: usize) -> (r: Vec<char>)
    requires
        wf(t@),
        i < t@.len(),
    ensures
        r@ == raw_text(t@, i as int),
    decreases t@.len() - i,
{
    proof {
        assert(node_ok(t@, i as int));
    }
    match &t[i].kind {
        NodeKind::Text { text } => {
            let mut out: Vec<char> = Vec::new();
            append_chars(&mut out, text);
            out
        },
        NodeKind::Element { children, .. } => {
            let mut out: Vec<char> = Vec::new();
            let mut k: usize = 0;
            while k < children.len()
                invariant
                    0 <= k <= children@.len(),
                    children@ == kids(t@, i as int),
                    out@ + raw_text_kids(t@, i as int, k as int) =~= raw_text_kids(t@, i as int, 0),
                decreases children@.len() - k,
            {
                let c = children[k];
                proof {
                    assert(i < kids(t@, i as int)[k as int] < t@.len());
                }
                let piece = raw_text_exec(t, c);
                append_chars(&mut out, &piece);
                k = k + 1;
                proof {
                    assert(out@ + raw_text_kids(t@, i as int, k as int) =~= raw_text_kids(
                        t@,
                        i as int,
                        0,
                    ));
                }
            }
            proof {
                assert(out@ =~= raw_text_kids(t@, i as int, 0));
            }
            out
        },
    }
}

/// The serialized content: the roots of the selected content, one after the
/// other.
pub open spec fn ser_roots(t: Seq<Node>, base: Seq<char>, roots: Seq<usize>, k: int) -> Seq<char>
    decreases roots.len() - k,
        when 0 <= k <= roots.len()
{
    if k >= roots.len() {
        Seq::empty()
    } else {
        ser_node(t, base, roots[k] as int) + ser_roots(t, base, roots, k + 1)
    }
}

/// The plain-text content of the selected roots, one after the other.
pub open spec fn txt_roots(t: Seq<Node>, roots: Seq<usize>, k: int) -> Seq<char>
    decreases roots.len() - k,
        when 0 <= k <= roots.len()
{
    if k >= roots.len() {
        Seq::empty()
    } else {
        txt_node(t, roots[k] as int) + txt_roots(t, roots, k + 1)
    }
}

pub fn ser_roots_exec(t: &Vec<Node>, b: &BaseUrl, roots: &Vec<usize>) -> (r: Vec<char>)
    requires
        wf(t@),
        forall|k: int| 0 <= k < roots@.len() ==> #[trigger] roots@[k] < t@.len(),
    ensures
        r@ == ser_roots(t@, b.text_view(), roots@, 0),
{
    let mut out: Vec<char> = Vec::new();
    let mut k: usize = 0;
    while k < roots.len()
        invariant
            0 <= k <= roots@.len(),
            out@ + ser_roots(t@, b.text_view(), roots@, k as int) =~= ser_roots(
                t@,
                b.text_view(),
                roots@,
                0,
            ),
        decreases roots@.len() - k,
    {
        ser_node_exec(t, b, roots[k], &mut out);
        k = k + 1;
        proof {
            assert(out@ + ser_roots(t@, b.text_view(), roots@, k as int) =~= ser_roots(
                t@,
                b.text_view(),
                roots@,
                0,
            ));
        }
    }
    proof {
        assert(out@ =~= ser_roots(t@, b.text_view(), roots@, 0));
    }
    out
}

pub fn txt_roots_exec(t: &Vec<Node>, roots: &Vec<usize>) -> (r: Vec<char>)
    requires
        wf(t@),
        forall|k: int| 0 <= k < roots@.len() ==> #[trigger] roots@[k] < t@.len(),
    ensures
        r@ == txt_roots(t@, roots@, 0),
{
    let mut out: Vec<char> = Vec::new();
    let mut k: usize = 0;
    while k < roots.len()
        invariant
            0 <= k <= roots@.len(),
            out@ + txt_roots(t@, roots@, k as int) =~= txt_roots(t@, roots@, 0),
        decreases roots@.len() - k,
    {
        let piece = txt_node_exec(t, roots[k]);
        append_chars(&mut out, &piece);
        k = k + 1;
        proof {
            assert(out@ + txt_roots(t@, roots@, k as int) =~= txt_roots(t@, roots@, 0));
        }
    }
    proof {
        assert(out@ =~= txt_roots(t@, roots@, 0));
    }
    out
}

} // verus!

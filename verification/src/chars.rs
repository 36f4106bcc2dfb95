use vstd::prelude::*;

verus! {

/// Saturating addition on `usize`: the arithmetic of all length and score
/// accumulation in this crate, so that sums over arbitrarily large documents
/// are total without a bound on the input.
pub open spec fn sat_add(a: usize, b: usize) -> usize {
    if a + b > usize::MAX {
        usize::MAX
    } else {
        (a + b) as usize
    }
}

pub proof fn lemma_sat_add_assoc(a: usize, b: usize, c: usize)
    ensures
        sat_add(sat_add(a, b), c) == sat_add(a, sat_add(b, c)),
{
}

pub fn sat_add_exec(a: usize, b: usize) -> (r: usize)
    ensures
        r == sat_add(a, b),
{
    if a > usize::MAX - b {
        usize::MAX
    } else {
        a + b
    }
}

/// Whitespace as the tokenizer and the text renderer see it.
pub open spec fn is_ws(c: char) -> bool {
    c == ' ' || c == '\t' || c == '\n' || c == '\r'
}

pub fn is_ws_exec(c: char) -> (r: bool)
    ensures
        r == is_ws(c),
{
    c == ' ' || c == '\t' || c == '\n' || c == '\r'
}

/// The characters of `s`, in order, as a vector.
pub fn str_to_chars(s: &str) -> (r: Vec<char>)
    ensures
        r@ == s@,
{
    let mut r: Vec<char> = Vec::new();
    for c in it: s.chars()
        invariant
            it.seq() == s@,
            r@ == it.seq().take(it.index() as int),
    {
        r.push(c);
    }
    proof {
        assert(r@ =~= s@);
    }
    r
}

/// Relies on char's `Iterator` collection into `String`: the string made of
/// exactly the characters of `v`, in order.
#[verifier::external_body]
pub(crate) fn chars_to_string(v: &Vec<char>) -> (r: String)
    ensures
        r@ == v@,
{
    v.iter().collect()
}

/// `nee` occurs in `hay` starting at position `j`.
pub open spec fn match_at(hay: Seq<char>, nee: Seq<char>, j: int) -> bool {
    0 <= j && j + nee.len() <= hay.len() && hay.subrange(j, j + nee.len()) == nee
}

/// `nee` occurs somewhere in `hay`.
pub open spec fn has_sub(hay: Seq<char>, nee: Seq<char>) -> bool {
    exists|j: int| match_at(hay, nee, j)
}

pub fn match_at_exec(hay: &Vec<char>, j: usize, nee: &str) -> (r: bool)
    requires
        j <= hay@.len(),
    ensures
        r == match_at(hay@, nee@, j as int),
{
    let n = nee.unicode_len();
    if hay.len() - j < n {
        return false;
    }
    let mut k: usize = 0;
    while k < n
        invariant
            0 <= k <= n,
            j + n <= hay@.len(),
            n == nee@.len(),
            forall|kk: int| 0 <= kk < k ==> hay@[j + kk] == nee@[kk],
        decreases n - k,
    {
        if hay[j + k] != nee.get_char(k) {
            proof {
                assert(hay@.subrange(j as int, j + n)[k as int] != nee@[k as int]);
            }
            return false;
        }
        k = k + 1;
    }
    proof {
        assert(hay@.subrange(j as int, j + n) =~= nee@);
    }
    true
}

pub fn contains_sub(hay: &Vec<char>, nee: &str) -> (r: bool)
    ensures
        r == has_sub(hay@, nee@),
{
    let n = nee.unicode_len();
    if n > hay.len() {
        proof {
            assert(forall|j: int| !match_at(hay@, nee@, j));
        }
        return false;
    }
    if n == 0 {
        proof {
            assert(hay@.subrange(0, 0) =~= nee@);
            assert(match_at(hay@, nee@, 0));
        }
        return true;
    }
    let mut j: usize = 0;
    while j <= hay.len() - n
        invariant
            1 <= n <= hay@.len(),
            n == nee@.len(),
            0 <= j <= hay@.len(),
            forall|jj: int| 0 <= jj < j ==> !match_at(hay@, nee@, jj),
        decreases hay@.len() - j,
    {
        if match_at_exec(hay, j, nee) {
            return true;
        }
        j = j + 1;
    }
    proof {
        assert(forall|jj: int| j <= jj ==> !match_at(hay@, nee@, jj));
    }
    false
}

/// The two character vectors hold the same text.
pub fn chars_eq_str(a: &Vec<char>, s: &str) -> (r: bool)
    ensures
        r == (a@ == s@),
{
    let n = s.unicode_len();
    if a.len() != n {
        return false;
    }
    let mut k: usize = 0;
    while k < n
        invariant
            0 <= k <= n,
            n == s@.len(),
            a@.len() == n,
            forall|kk: int| 0 <= kk < k ==> a@[kk] == s@[kk],
        decreases n - k,
    {
        if a[k] != s.get_char(k) {
            return false;
        }
        k = k + 1;
    }
    proof {
        assert(a@ =~= s@);
    }
    true
}

/// The two character vectors hold the same text.
pub fn chars_eq(a: &Vec<char>, b: &Vec<char>) -> (r: bool)
    ensures
        r == (a@ == b@),
{
    if a.len() != b.len() {
        return false;
    }
    let mut k: usize = 0;
    while k < a.len()
        invariant
            0 <= k <= a@.len(),
            a@.len() == b@.len(),
            forall|kk: int| 0 <= kk < k ==> a@[kk] == b@[kk],
        decreases a@.len() - k,
    {
        if a[k] != b[k] {
            return false;
        }
        k = k + 1;
    }
    proof {
        assert(a@ =~= b@);
    }
    true
}

/// Whitespace collapsing: from position `k` on, with `prev_ws` saying whether
/// the character before `k` was (or counts as) whitespace. Each maximal run of
/// whitespace becomes one space; a run at the start (or after nothing) is
/// dropped entirely.
pub open spec fn collapse_from(s: Seq<char>, k: int, prev_ws: bool) -> Seq<char>
    decreases s.len() - k,
        when 0 <= k <= s.len()
{
    if k >= s.len() {
        Seq::empty()
    } else if is_ws(s[k]) {
        if prev_ws {
            collapse_from(s, k + 1, true)
        } else {
            seq![' '] + collapse_from(s, k + 1, true)
        }
    } else {
        seq![s[k]] + collapse_from(s, k + 1, false)
    }
}

/// `s` with trailing whitespace dropped.
pub open spec fn trim_trail(s: Seq<char>) -> Seq<char>
    decreases s.len(),
{
    if s.len() > 0 && is_ws(s[s.len() - 1]) {
        trim_trail(s.drop_last())
    } else {
        s
    }
}

/// Whitespace-normal form of a piece of text: runs collapsed to single
/// spaces, nothing leading or trailing.
pub open spec fn clean_text(s: Seq<char>) -> Seq<char> {
    trim_trail(collapse_from(s, 0, true))
}

/// Every whitespace character as a plain space: inside a text node, a source
/// line break carries no block meaning.
pub open spec fn soften_ws(s: Seq<char>) -> Seq<char> {
    s.map_values(
        |c: char|
            if is_ws(c) {
                ' '
            } else {
                c
            },
    )
}

pub fn soften_ws_exec(v: &Vec<char>) -> (r: Vec<char>)
    ensures
        r@ == soften_ws(v@),
{
    let mut out: Vec<char> = Vec::new();
    let mut k: usize = 0;
    while k < v.len()
        invariant
            0 <= k <= v@.len(),
            out@.len() == k,
            forall|kk: int| 0 <= kk < k ==> out@[kk] == soften_ws(v@)[kk],
        decreases v@.len() - k,
    {
        let c = v[k];
        if is_ws_exec(c) {
            out.push(' ');
        } else {
            out.push(c);
        }
        k = k + 1;
    }
    proof {
        assert(out@ =~= soften_ws(v@));
    }
    out
}

/// What a run of whitespace turns into: nothing at the edges, a newline when
/// the run crossed a block boundary, a single space otherwise.
#[derive(Clone, Copy)]
pub enum SepState {
    AtStart,
    NoSep,
    SpaceSep,
    LineSep,
}

pub open spec fn sep_after(p: SepState, c: char) -> SepState {
    match p {
        SepState::AtStart => SepState::AtStart,
        SepState::LineSep => SepState::LineSep,
        _ => if c == '\n' {
            SepState::LineSep
        } else {
            SepState::SpaceSep
        },
    }
}

pub open spec fn sep_text(p: SepState) -> Seq<char> {
    match p {
        SepState::SpaceSep => seq![' '],
        SepState::LineSep => seq!['\n'],
        _ => Seq::empty(),
    }
}

/// Whitespace collapsing that keeps block boundaries: each maximal run of
/// whitespace becomes one newline when it holds one, else one space; runs at
/// either edge vanish.
pub open spec fn fold_ws(s: Seq<char>, k: int, pend: SepState) -> Seq<char>
    decreases s.len() - k,
        when 0 <= k <= s.len()
{
    if k >= s.len() {
        Seq::empty()
    } else if is_ws(s[k]) {
        fold_ws(s, k + 1, sep_after(pend, s[k]))
    } else {
        sep_text(pend) + seq![s[k]] + fold_ws(s, k + 1, SepState::NoSep)
    }
}

pub open spec fn render_collapse(s: Seq<char>) -> Seq<char> {
    fold_ws(s, 0, SepState::AtStart)
}

pub fn render_collapse_exec(v: &Vec<char>) -> (r: Vec<char>)
    ensures
        r@ == render_collapse(v@),
{
    let mut out: Vec<char> = Vec::new();
    let mut pend = SepState::AtStart;
    let mut k: usize = 0;
    while k < v.len()
        invariant
            0 <= k <= v@.len(),
            out@ + fold_ws(v@, k as int, pend) =~= fold_ws(v@, 0, SepState::AtStart),
        decreases v@.len() - k,
    {
        let c = v[k];
        if is_ws_exec(c) {
            pend = match pend {
                SepState::AtStart => SepState::AtStart,
                SepState::LineSep => SepState::LineSep,
                _ => if c == '\n' {
                    SepState::LineSep
                } else {
                    SepState::SpaceSep
                },
            };
        } else {
            match pend {
                SepState::SpaceSep => out.push(' '),
                SepState::LineSep => out.push('\n'),
                _ => {},
            }
            out.push(c);
            pend = SepState::NoSep;
        }
        k = k + 1;
        proof {
            assert(out@ + fold_ws(v@, k as int, pend) =~= fold_ws(v@, 0, SepState::AtStart));
        }
    }
    proof {
        assert(out@ =~= fold_ws(v@, 0, SepState::AtStart));
    }
    out
}

pub fn clean_text_exec(v: &Vec<char>) -> (r: Vec<char>)
    ensures
        r@ == clean_text(v@),
{
    let mut out: Vec<char> = Vec::new();
    let mut prev_ws: bool = true;
    let mut k: usize = 0;
    while k < v.len()
        invariant
            0 <= k <= v@.len(),
            out@ + collapse_from(v@, k as int, prev_ws) =~= collapse_from(v@, 0, true),
        decreases v@.len() - k,
    {
        let c = v[k];
        if is_ws_exec(c) {
            if !prev_ws {
                out.push(' ');
            }
            prev_ws = true;
        } else {
            out.push(c);
            prev_ws = false;
        }
        k = k + 1;
        proof {
            assert(out@ + collapse_from(v@, k as int, prev_ws) =~= collapse_from(v@, 0, true));
        }
    }
    while out.len() > 0 && is_ws_exec(out[out.len() - 1])
        invariant
            trim_trail(out@) == trim_trail(collapse_from(v@, 0, true)),
        decreases out@.len(),
    {
        out.pop();
    }
    proof {
        assert(trim_trail(out@) == out@);
    }
    out
}

} // verus!

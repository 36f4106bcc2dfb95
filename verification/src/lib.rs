#![verifier::loop_isolation(false)]
use vstd::prelude::*;

pub mod chars;
pub mod dom;
pub mod parse;
pub mod render;
pub mod score;
pub mod select;
pub mod title;
pub mod urls;

verus! {

use crate::chars::chars_to_string;
use crate::dom::{Node, abs, wf};
use crate::parse::{parse_document, parse_spec, tag_of};
use crate::render::{ser_roots, ser_roots_exec, text_render, txt_roots_exec};
use crate::score::is_candidate;
use crate::select::{above_min, best_upto, content_ids, lemma_select_exact, merge_siblings, select_of, select_top};
use crate::title::{title_extract, title_of};
use crate::urls::{parse_base, url_ok};

/// What one successful extraction yields: a document title, a cleaned markup
/// fragment, and a plain-text rendition of the same content.
#[derive(Debug)]
pub struct ExtractionResult {
    pub title: String,
    pub content: String,
    pub text: String,
}

/// Why an extraction yields nothing. The tokenizer recovers from every
/// input, so `MalformedInput` is never raised; it is kept for callers that
/// match on the full taxonomy.
#[derive(Clone, Copy, PartialEq, Eq, Structural, Debug)]
pub enum ExtractionError {
    MalformedInput,
    NoContentFound,
    BaseUrlInvalid,
}

/// The contract of extraction against a given document tree: `Ok` exactly
/// when a candidate was selectable and the base URL parses, with the three
/// fields pinned to the selection, serialization and title specifications;
/// `NoContentFound` exactly when nothing was selectable; `BaseUrlInvalid`
/// exactly when something was selectable but the base URL does not parse.
pub open spec fn extract_matches(
    r: Result<ExtractionResult, ExtractionError>,
    t: Seq<Node>,
    base: Seq<char>,
) -> bool {
    match r {
        Result::Ok(res) => {
            &&& select_of(t) matches Some(top)
            &&& url_ok(base)
            &&& res.title@ == title_of(t, content_ids(t, top))
            &&& res.content@ == ser_roots(t, base, content_ids(t, top), 0)
            &&& res.text@ == text_render(t, content_ids(t, top))
        },
        Result::Err(e) => match e {
            ExtractionError::NoContentFound => select_of(t) is None,
            ExtractionError::BaseUrlInvalid => select_of(t) is Some && !url_ok(base),
            ExtractionError::MalformedInput => false,
        },
    }
}

/// The extraction pipeline on an already-built document tree: selection,
/// base URL validation, sanitizing serialization and title extraction, with
/// the result pinned exactly by `extract_matches`.
pub fn extract_from_tree(t: &Vec<Node>, base_url: &str) -> (r: Result<
    ExtractionResult,
    ExtractionError,
>)
    requires
        wf(t@),
    ensures
        extract_matches(r, t@, base_url@),
{
    let sel = select_top(t);
    match sel {
        Option::None => Result::Err(ExtractionError::NoContentFound),
        Option::Some(top) => {
            proof {
                lemma_select_exact(t@);
            }
            match parse_base(base_url) {
                Option::None => Result::Err(ExtractionError::BaseUrlInvalid),
                Option::Some(b) => {
                    let roots = merge_siblings(t, top);
                    let content = ser_roots_exec(t, &b, &roots);
                    let text_raw = txt_roots_exec(t, &roots);
                    let text = crate::chars::render_collapse_exec(&text_raw);
                    let title = title_extract(t, &roots);
                    Result::Ok(
                        ExtractionResult {
                            title: chars_to_string(&title),
                            content: chars_to_string(&content),
                            text: chars_to_string(&text),
                        },
                    )
                },
            }
        },
    }
}

/// Extracts the main article content of `html`, resolving links against
/// `base_url`. A pure function of its two arguments: parsing never fails,
/// selection may find no content, and an unparseable base URL is rejected
/// only once content was found. The document tree is pinned to the parser's
/// functional specification (`parse_spec`), and the result to the extraction
/// contract over that tree, so equal inputs admit only equally-abstracted
/// trees and equally-specified results.
pub fn extract(html: &str, base_url: &str) -> (r: Result<ExtractionResult, ExtractionError>)
    ensures
        exists|t: Seq<Node>|
            #[trigger] wf(t) && abs(t) == parse_spec(html@) && extract_matches(r, t, base_url@),
        html@.len() == 0 ==> r == Result::<ExtractionResult, ExtractionError>::Err(
            ExtractionError::NoContentFound,
        ),
        r matches Err(e) ==> e != ExtractionError::MalformedInput,
{
    let t = parse_document(html);
    proof {
        if html@.len() == 0 {
            reveal_strlit("#root");
            reveal_strlit("p");
            reveal_strlit("div");
            reveal_strlit("article");
            reveal_strlit("section");
            assert(crate::dom::node_ok(t@, 0));
            assert("#root"@.len() == 5 && "p"@.len() == 1 && "div"@.len() == 3 && "article"@.len()
                == 7 && "section"@.len() == 7);
            assert(tag_of(t@, 0) == "#root"@);
            assert(!is_candidate(t@, 0));
            assert(!above_min(t@, 0));
            assert(best_upto(t@, 0) is None);
            assert(best_upto(t@, 1) is None);
            assert(select_of(t@) is None);
        }
    }
    let r = extract_from_tree(&t, base_url);
    proof {
        assert(wf(t@) && abs(t@) == parse_spec(html@) && extract_matches(r, t@, base_url@));
    }
    r
}

/// A row with nothing in it, the batch stand-in for a failed extraction.
pub open spec fn empty_row(res: ExtractionResult) -> bool {
    res.title@.len() == 0 && res.content@.len() == 0 && res.text@.len() == 0
}

/// What one batch row may hold against some document tree: a pinned
/// successful extraction, or an all-empty row where nothing was selectable
/// or the base URL does not parse.
pub open spec fn row_from_tree(res: ExtractionResult, t: Seq<Node>, base: Seq<char>) -> bool {
    ||| extract_matches(Result::Ok(res), t, base)
    ||| (select_of(t) is None && empty_row(res))
    ||| (!url_ok(base) && empty_row(res))
}

pub open spec fn row_matches(res: ExtractionResult, html: Seq<char>, base: Seq<char>) -> bool {
    &&& html.len() == 0 ==> empty_row(res)
    &&& exists|t: Seq<Node>|
        #[trigger] wf(t) && abs(t) == parse_spec(html) && row_from_tree(res, t, base)
}

/// The batch adapter: one output row per input row, in the same positions;
/// a failing row becomes three empty fields and never aborts the batch.
pub fn extract_batch(rows: &Vec<String>, base_url: &str) -> (out: Vec<ExtractionResult>)
    ensures
        out@.len() == rows@.len(),
        forall|i: int|
            0 <= i < rows@.len() ==> #[trigger] row_matches(out@[i], rows@[i]@, base_url@),
{
    let mut out: Vec<ExtractionResult> = Vec::new();
    let mut i: usize = 0;
    while i < rows.len()
        invariant
            0 <= i <= rows@.len(),
            out@.len() == i,
            forall|j: int|
                0 <= j < i ==> #[trigger] row_matches(out@[j], rows@[j]@, base_url@),
        decreases rows@.len() - i,
    {
        let r = extract(rows[i].as_str(), base_url);
        let ghost tw = choose|t: Seq<Node>|
            #[trigger] wf(t) && abs(t) == parse_spec(rows@[i as int]@) && extract_matches(
                r,
                t,
                base_url@,
            );
        match r {
            Result::Ok(res) => {
                proof {
                    assert(wf(tw) && abs(tw) == parse_spec(rows@[i as int]@) && row_from_tree(
                        res,
                        tw,
                        base_url@,
                    ));
                }
                out.push(res);
            },
            Result::Err(_) => {
                let res = ExtractionResult {
                    title: String::new(),
                    content: String::new(),
                    text: String::new(),
                };
                proof {
                    assert(wf(tw) && abs(tw) == parse_spec(rows@[i as int]@) && row_from_tree(
                        res,
                        tw,
                        base_url@,
                    ));
                }
                out.push(res);
            },
        }
        i = i + 1;
    }
    out
}

/// Determinism of extraction against a tree: results that both meet the
/// extraction contract for the same document tree and the same base URL
/// carry the same fields and the same error.
pub proof fn lemma_extract_deterministic(
    t: Seq<Node>,
    base: Seq<char>,
    r1: Result<ExtractionResult, ExtractionError>,
    r2: Result<ExtractionResult, ExtractionError>,
)
    requires
        wf(t),
        extract_matches(r1, t, base),
        extract_matches(r2, t, base),
    ensures
        r1 is Ok <==> r2 is Ok,
        r1 matches Ok(a) ==> (r2 matches Ok(b) && a.title@ == b.title@ && a.content@ == b.content@
            && a.text@ == b.text@),
        r1 matches Err(e1) ==> (r2 matches Err(e2) && e1 == e2),
{
}

} // verus!

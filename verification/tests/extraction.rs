use parse_html::{extract, extract_batch, ExtractionError};
use parse_html::parse::parse_document;
use parse_html::score::final_score;

const BASE: &str = "http://example.com/dir/";

fn filler(n: usize) -> String {
    // n characters of plain prose-like text without markup characters
    let mut s = String::new();
    while s.len() < n {
        s.push_str("lorem ipsum dolor sit ");
    }
    s.truncate(n);
    s
}

#[test]
fn determinism_same_input_same_output() {
    let html = format!("<div class=\"content\"><p>{}</p><p>{}</p></div>", filler(120), filler(90));
    let a = extract(&html, BASE).unwrap();
    let b = extract(&html, BASE).unwrap();
    assert_eq!(a.title, b.title);
    assert_eq!(a.content, b.content);
    assert_eq!(a.text, b.text);
}

#[test]
fn totality_on_garbage() {
    let inputs: Vec<String> = vec![
        String::new(),
        "<<<>>>&&&<p".to_string(),
        "plain text with no tags at all".to_string(),
        "<div".to_string(),
        "</div></p></span>".to_string(),
        "<!doctype html><!-- comment --><?pi?>".to_string(),
        "<a href=\"x".to_string(),
        "\u{0}\u{1}\u{2}binary<>junk".to_string(),
        "<div>".repeat(1000),
        format!("<p>{}", filler(100)),
    ];
    for html in inputs {
        // must return a value, never abort
        let _ = extract(&html, BASE);
    }
}

#[test]
fn empty_input_is_no_content() {
    assert_eq!(extract("", BASE).unwrap_err(), ExtractionError::NoContentFound);
    assert_eq!(extract("", "not a url").unwrap_err(), ExtractionError::NoContentFound);
}

#[test]
fn short_text_is_no_content() {
    assert_eq!(
        extract("<p>too short</p>", BASE).unwrap_err(),
        ExtractionError::NoContentFound
    );
}

#[test]
fn invalid_base_url_is_rejected() {
    let html = format!("<div><p>{}</p></div>", filler(200));
    assert_eq!(
        extract(&html, "not a url").unwrap_err(),
        ExtractionError::BaseUrlInvalid
    );
}

#[test]
fn link_density_penalty_prefers_plain_block() {
    // block A: longer raw text, but 90% of it inside anchors
    // block B: shorter, almost all plain
    let a_anchor = filler(400);
    let a_plain = filler(44);
    let b_plain = filler(285);
    let b_anchor = filler(15);
    let html = format!(
        "<div>phrase-aaa <a href=\"/x\">{}</a>{}</div><div>phrase-bbb {}<a href=\"/y\">{}</a></div>",
        a_anchor, a_plain, b_plain, b_anchor
    );
    let res = extract(&html, BASE).unwrap();
    assert!(res.content.contains("phrase-bbb"));
    assert!(!res.content.contains("phrase-aaa"));
}

#[test]
fn score_propagation_rewards_structured_block() {
    let structured = format!(
        "<div><p>{}</p><p>{}</p><p>{}</p></div>",
        filler(120),
        filler(120),
        filler(120)
    );
    let flat = format!("<p>{}</p>", filler(360));
    let t1 = parse_document(&structured);
    let t2 = parse_document(&flat);
    // node 1 is the first element opened in each document
    let div_score = final_score(&t1, 1);
    let p_score = final_score(&t2, 1);
    assert!(div_score > p_score, "{} vs {}", div_score, p_score);
}

#[test]
fn title_from_title_element() {
    let html = format!("<title>My Headline</title><div><p>{}</p></div>", filler(200));
    let res = extract(&html, BASE).unwrap();
    assert_eq!(res.title, "My Headline");
}

#[test]
fn title_falls_back_to_h1_in_content() {
    let html = format!("<div><h1>Inner Headline</h1><p>{}</p></div>", filler(200));
    let res = extract(&html, BASE).unwrap();
    assert_eq!(res.title, "Inner Headline");
}

#[test]
fn title_site_suffix_stripped_when_heading_matches() {
    let html = format!(
        "<title>Real Head - My Site</title><div><h1>Real Head</h1><p>{}</p></div>",
        filler(200)
    );
    let res = extract(&html, BASE).unwrap();
    assert_eq!(res.title, "Real Head");
    // without a matching heading the full title stays
    let html2 = format!("<title>Real Head - My Site</title><div><p>{}</p></div>", filler(200));
    let res2 = extract(&html2, BASE).unwrap();
    assert_eq!(res2.title, "Real Head - My Site");
}

#[test]
fn title_empty_without_title_or_heading() {
    let html = format!("<div><p>{}</p></div>", filler(200));
    let res = extract(&html, BASE).unwrap();
    assert_eq!(res.title, "");
}

#[test]
fn sibling_merge_keeps_qualifying_neighbours() {
    // the two p blocks score below acceptance on their own, yet within
    // proportional range of the winning div
    let html = format!(
        "<p>first-part {}</p><div>middle-part {}</div><p>last-part {}</p>",
        filler(57),
        filler(288),
        filler(58)
    );
    let res = extract(&html, BASE).unwrap();
    assert!(res.content.contains("first-part"));
    assert!(res.content.contains("middle-part"));
    assert!(res.content.contains("last-part"));
    let a = res.content.find("first-part").unwrap();
    let b = res.content.find("middle-part").unwrap();
    let c = res.content.find("last-part").unwrap();
    assert!(a < b && b < c);
}

#[test]
fn batch_rows_keep_their_positions() {
    let valid = format!("<title>Row Zero</title><div><p>{}</p></div>", filler(200));
    let rows: Vec<String> = vec![valid, String::new(), "<<<malformed>>>".to_string()];
    let out = extract_batch(&rows, BASE);
    assert_eq!(out.len(), 3);
    assert_eq!(out[0].title, "Row Zero");
    assert!(!out[0].content.is_empty());
    assert_eq!(out[1].title, "");
    assert_eq!(out[1].content, "");
    assert_eq!(out[1].text, "");
    assert_eq!(out[2].title, "");
    assert_eq!(out[2].content, "");
    assert_eq!(out[2].text, "");
}

#[test]
fn relative_links_resolve_against_base() {
    let html = format!(
        "<div><p>{}</p><img src=\"pic.png\"/><a href=\"sub/page.html\">more here</a></div>",
        filler(200)
    );
    let res = extract(&html, BASE).unwrap();
    assert!(res.content.contains("http://example.com/dir/pic.png"));
    assert!(res.content.contains("http://example.com/dir/sub/page.html"));
}

#[test]
fn scripts_and_styles_are_stripped() {
    let html = format!(
        "<div><script>var x = 1 < 2;</script><style>p {{ color: red }}</style><p>{}</p></div>",
        filler(200)
    );
    let res = extract(&html, BASE).unwrap();
    assert!(!res.content.contains("var x"));
    assert!(!res.content.contains("color"));
    assert!(!res.text.contains("var x"));
}

#[test]
fn entities_decode_and_escape_round_trip() {
    let html = format!("<div><p>fish &amp; chips &lt;cheap&gt; {}</p></div>", filler(200));
    let res = extract(&html, BASE).unwrap();
    assert!(res.text.contains("fish & chips <cheap>"));
    assert!(res.content.contains("fish &amp; chips &lt;cheap&gt;"));
}

#[test]
fn whitespace_collapses_in_text() {
    let html = format!("<div><p>spaced   out\n\n\twords {}</p></div>", filler(200));
    let res = extract(&html, BASE).unwrap();
    assert!(res.text.contains("spaced out words"));
}

#[test]
fn hints_raise_and_lower_scores() {
    let plain = format!("<div>{}</div>", filler(300));
    let marked = format!("<div class=\"sidebar\">{}</div>", filler(300));
    let boosted = format!("<div class=\"article\">{}</div>", filler(300));
    let tp = parse_document(&plain);
    let tm = parse_document(&marked);
    let tb = parse_document(&boosted);
    assert!(final_score(&tm, 1) < final_score(&tp, 1));
    assert!(final_score(&tb, 1) > final_score(&tp, 1));
}

#[test]
fn inline_boundaries_keep_spaces() {
    let html = format!("<div><p>alpha <em>beta</em> gamma\ndelta {}</p></div>", filler(200));
    let res = extract(&html, BASE).unwrap();
    // the space before an inline element survives; a source line break is a space
    assert!(res.text.contains("alpha beta gamma delta"));
}

#[test]
fn text_rendition_has_block_newlines() {
    let html = format!("<div><p>alpha {}</p><p>beta {}</p></div>", filler(100), filler(100));
    let res = extract(&html, BASE).unwrap();
    let a = res.text.find("alpha").unwrap();
    let b = res.text.find("beta").unwrap();
    assert!(a < b);
    assert!(res.text[a..b].contains('\n'));
}

use vstd::prelude::*;

verus! {

#[verifier::external_type_specification]
#[verifier::external_body]
pub struct ExUrl(url::Url);

/// Whether `url::Url::parse` accepts `s` as an absolute URL. Parsing is a
/// function of the text alone.
pub uninterp spec fn url_ok(s: Seq<char>) -> bool;

/// What resolving the reference `rel` against the base URL text `base`
/// yields: the joined absolute URL's text where the join succeeds, and `rel`
/// unchanged where it does not. A function of the two texts alone.
pub uninterp spec fn resolve_of(base: Seq<char>, rel: Seq<char>) -> Seq<char>;

/// A parsed base URL, kept beside the text it was parsed from. The only
/// constructor is `parse_base`, so `url` always is `url::Url::parse` of
/// `text`.
pub struct BaseUrl {
    text: String,
    url: url::Url,
}

impl BaseUrl {
    pub closed spec fn text_view(&self) -> Seq<char> {
        self.text@
    }
}

/// Relies on `url::Url::parse`: it returns `Ok` exactly on the strings it
/// accepts as absolute URLs, and acceptance depends on the string alone.
#[verifier::external_body]
pub(crate) fn parse_base(s: &str) -> (r: Option<BaseUrl>)
    ensures
        r is Some == url_ok(s@),
        r matches Some(b) ==> b.text_view() == s@,
{
    match url::Url::parse(s) {
        Ok(u) => Some(BaseUrl { text: s.to_string(), url: u }),
        Err(_) => None,
    }
}

/// Relies on `url::Url::join`: resolving a reference against a base URL is a
/// function of the two texts alone. Where the join fails, the reference is
/// handed back unchanged.
#[verifier::external_body]
pub(crate) fn resolve_str(b: &BaseUrl, rel: &str) -> (r: String)
    ensures
        r@ == resolve_of(b.text_view(), rel@),
{
    match b.url.join(rel) {
        Ok(u) => String::from(u),
        Err(_) => rel.to_string(),
    }
}

/// Resolves a reference given as characters, as the serializer holds them.
pub(crate) fn resolve_chars(b: &BaseUrl, rel: &Vec<char>) -> (r: Vec<char>)
    ensures
        r@ == resolve_of(b.text_view(), rel@),
{
    let s = crate::chars::chars_to_string(rel);
    let joined = resolve_str(b, s.as_str());
    crate::chars::str_to_chars(joined.as_str())
}

} // verus!

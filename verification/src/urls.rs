use vstd::prelude::*;

verus! {

#[verifier::external_type_specification]
#[verifier::external_body]
pub struct ExUrl(url::Url);

/// Whether `url::Url::parse` accepts `s` as a well-formed absolute URL.
/// Parsing is a function of the input text alone.
pub uninterp spec fn url_parse_ok(s: Seq<char>) -> bool;

/// Relies on url::Url::parse: parses an absolute URL from a string,
/// returning an error exactly when the text is not a well-formed absolute
/// URL.  The outcome depends on the input text alone.
#[verifier::external_body]
pub fn parse_url(s: &str) -> (r: Option<url::Url>)
    ensures
        r is Some <==> url_parse_ok(s@),
{
    url::Url::parse(s).ok()
}

/// Relies on url::Url::join: resolves `raw` against `base`.  Which inputs
/// succeed depends on the base value, which is opaque here, so nothing is
/// promised of the outcome.
#[verifier::external_body]
pub fn join_url(base: &url::Url, raw: &str) -> (r: Option<url::Url>) {
    base.join(raw).ok()
}

} // verus!

use vstd::prelude::*;

verus! {

/// What `html_escape::decode_html_entities` turns `s` into: the text with
/// every exact named or numeric character reference replaced by the
/// character it names.  The result is a function of the input text alone.
pub uninterp spec fn decoded_entities(s: Seq<char>) -> Seq<char>;

/// Relies on html_escape::decode_html_entities: decodes HTML entities in
/// the given string.  Its search only ever starts at an ampersand, so text
/// without one comes back unchanged.
#[verifier::external_body]
pub fn decode_entities(s: &str) -> (r: String)
    ensures
        r@ == decoded_entities(s@),
        (forall|i: int| 0 <= i < s@.len() ==> s@[i] != '&') ==> r@ == s@,
{
    html_escape::decode_html_entities(s).into_owned()
}

} // verus!

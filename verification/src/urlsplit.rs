//! The one outside call of the library: the `url` crate splits a raw URL
//! string into its path and its fragment. Everything downstream works on
//! those two plain strings.

use vstd::prelude::*;

verus! {

#[verifier::external_type_specification]
#[verifier::external_body]
pub struct ExParseError(url::ParseError);

/// The path and the fragment that the `url` crate reads out of an absolute
/// URL string.
pub struct UrlParts {
    pub path: String,
    pub fragment: Option<String>,
}

/// Whether `url::Url::parse` accepts the string as an absolute URL.
pub uninterp spec fn url_accepts(s: Seq<char>) -> bool;

/// The path of the URL that `url::Url::parse` reads from an accepted string.
pub uninterp spec fn url_path_of(s: Seq<char>) -> Seq<char>;

/// The fragment, if any, that `url::Url::parse` reads from an accepted string.
pub uninterp spec fn url_fragment_of(s: Seq<char>) -> Option<Seq<char>>;

/// Relies on `url::Url::parse` and the accessors `Url::path` and
/// `Url::fragment`: parsing either fails or yields a URL whose path and
/// fragment are functions of the input string alone.
#[verifier::external_body]
pub(crate) fn split_url(raw: &str) -> (r: Result<UrlParts, url::ParseError>)
    ensures
        r is Ok <==> url_accepts(raw@),
        r matches Ok(p) ==> p.path@ == url_path_of(raw@),
        r matches Ok(p) ==> match (p.fragment, url_fragment_of(raw@)) {
            (Some(f), Some(g)) => f@ == g,
            (None, None) => true,
            _ => false,
        },
{
    let u = url::Url::parse(raw)?;
    Ok(UrlParts {
        path: u.path().to_string(),
        fragment: u.fragment().map(|f| f.to_string()),
    })
}

} // verus!

//! The URIs by which the balancer reaches a backend, built with `http`.
use vstd::prelude::*;

verus! {

#[verifier::external_type_specification]
#[verifier::external_body]
pub struct ExUri(http::Uri);

#[verifier::external_type_specification]
#[verifier::external_body]
pub struct ExHttpError(http::Error);

/// What `http::Uri::builder()`, given this scheme, authority and
/// path-and-query, builds: the URI made of these parts, or the error of a part
/// it cannot parse or of parts that form no valid URI.
pub uninterp spec fn uri_from_parts(
    scheme: Seq<char>,
    authority: Seq<char>,
    path_and_query: Seq<char>,
) -> Result<http::Uri, http::Error>;

/// Runs `http::Uri::builder().scheme(..).authority(..).path_and_query(..).build()`.
/// Claimed of it: its outcome, the URI or the error, depends on the text of
/// the three parts alone, and is named `uri_from_parts` of them. Which parts
/// are accepted, and the URI's own content, are left to that name.
#[verifier::external_body]
pub(crate) fn build_uri(scheme: &str, authority: String, path_and_query: String) -> (r: Result<
    http::Uri,
    http::Error,
>)
    ensures
        r == uri_from_parts(scheme@, authority@, path_and_query@),
{
    http::Uri::builder().scheme(scheme).authority(authority).path_and_query(path_and_query).build()
}

/// The parts of a URI that `http` refused to build.
pub struct InvalidUri {
    pub authority: String,
    pub path_and_query: String,
}

/// Builds the `http` URI with the given authority and path-and-query; the
/// error carries the two parts when `http` refuses them.
pub fn http_uri(authority: String, path_and_query: String) -> (r: Result<http::Uri, InvalidUri>)
    ensures
        r is Ok <==> uri_from_parts("http"@, authority@, path_and_query@) is Ok,
        r matches Ok(u) ==> uri_from_parts("http"@, authority@, path_and_query@) == Ok::<
            http::Uri,
            http::Error,
        >(u),
        r matches Err(e) ==> e.authority@ == authority@ && e.path_and_query@ == path_and_query@,
{
    let a = authority.clone();
    let p = path_and_query.clone();
    match build_uri("http", authority, path_and_query) {
        Ok(u) => Ok(u),
        Err(_) => Err(InvalidUri { authority: a, path_and_query: p }),
    }
}

} // verus!

//! Addresses, as `axum::http::Uri` takes them apart and puts them together.

use crate::text::{before, byte_len, lowered, opt_text};
use vstd::prelude::*;

verus! {

/// The error of `axum::http`, to which each of its more special errors converts.
#[verifier::external_type_specification]
#[verifier::external_body]
pub struct ExHttpError(axum::http::Error);

/// The components of an address.
pub struct UriParts {
    pub scheme: Option<String>,
    pub authority: Option<String>,
    pub host: Option<String>,
    pub port: Option<u16>,
    pub path: String,
    pub query: Option<String>,
}

/// The components of an address, as mathematical values.
pub struct UriView {
    pub scheme: Option<Seq<char>>,
    pub authority: Option<Seq<char>>,
    pub host: Option<Seq<char>>,
    pub port: Option<u16>,
    pub path: Seq<char>,
    pub query: Option<Seq<char>>,
}

impl View for UriParts {
    type V = UriView;

    open spec fn view(&self) -> UriView {
        UriView {
            scheme: opt_text(self.scheme),
            authority: opt_text(self.authority),
            host: opt_text(self.host),
            port: self.port,
            path: self.path@,
            query: opt_text(self.query),
        }
    }
}

/// The components of the address that `text` is, or `None` if it is none.
pub uninterp spec fn uri_parts(text: Seq<char>) -> Option<UriView>;

/// The longest address, and the longest path of one, in bytes.
pub const MAX_LEN: usize = 65534;

/// The characters that may stand in a path.
pub open spec fn is_path_char(c: char) -> bool {
    ||| c == '!'
    ||| c == '"'
    ||| '$' <= c <= ';'
    ||| c == '='
    ||| '@' <= c <= '_'
    ||| 'a' <= c <= '~'
    ||| c >= '\u{80}'
}

/// A path that begins with a slash and holds only what may stand in a path.
pub open spec fn is_path(path: Seq<char>) -> bool {
    &&& path.len() > 0
    &&& path[0] == '/'
    &&& forall|i: int| 0 <= i < path.len() ==> is_path_char(#[trigger] path[i])
}

/// `text` begins with `prefix`, ASCII letters in either case.
pub open spec fn begins_as(text: Seq<char>, prefix: Seq<char>) -> bool {
    text.len() >= prefix.len() && lowered(text.take(prefix.len() as int)) == prefix
}

/// How the components of an address relate to each other and to the address.
pub open spec fn well_parsed(text: Seq<char>, uri: UriView) -> bool {
    &&& uri.scheme is Some ==> uri.authority is Some && is_path(uri.path)
    &&& uri.scheme is Some ==> uri_parts(before(text, '#')) == Some(uri)
    &&& uri.scheme is Some && uri.path.len() > 1 ==> byte_len(
        address(uri.scheme->0, uri.authority->0, uri.path),
    ) <= MAX_LEN
    &&& uri.scheme == Some("http"@) ==> begins_as(text, "http://"@)
    &&& uri.scheme == Some("https"@) ==> begins_as(text, "https://"@)
    &&& uri.authority matches Some(authority) ==> !authority.contains('#') && (uri.host matches Some(
        host,
    ) ==> host.len() <= authority.len())
}

/// The text of an address with a scheme, an authority and a path.
pub open spec fn address(scheme: Seq<char>, authority: Seq<char>, path: Seq<char>) -> Seq<char> {
    scheme + "://"@ + authority + path
}

/// The address with these components and another path, without a query.
pub open spec fn redirected(uri: UriView, path: Seq<char>) -> UriView {
    UriView { path, query: None, ..uri }
}

/// Whether `text` is the address with the components `uri` but another path, and has these
/// components itself unless it is too long.
pub open spec fn is_redirection(uri: UriView, path: Seq<char>, text: Seq<char>) -> bool {
    &&& text == address(uri.scheme->0, uri.authority->0, path)
    &&& byte_len(text) <= MAX_LEN ==> uri_parts(text) == Some(redirected(uri, path))
}

/// Parses `text` with `axum::http::Uri`'s `FromStr` and reads the components with its
/// getters `scheme_str`, `authority`, `host`, `port_u16`, `path` and `query`.
///
/// What they give is a function of the text alone, here named `uri_parts`. Beyond that:
/// an address with a scheme has an authority and a path of path characters that
/// begins with a slash; a fragment has no part in the components of such an address; scheme,
/// authority and path make no more than `MAX_LEN` bytes together, unless the path is only
/// the slash that stands for an absent one; the scheme is `http` or `https` only if the text
/// begins with it and `://` in upper or lower case; and an authority holds no `#` and is at
/// least as long as its host.
#[verifier::external_body]
pub(crate) fn parse_uri(text: &str) -> (r: Result<UriParts, axum::http::Error>)
    ensures
        match r {
            Ok(uri) => uri_parts(text@) == Some(uri@) && well_parsed(text@, uri@),
            Err(_) => uri_parts(text@) is None,
        },
{
    let uri = text.parse::<axum::http::Uri>()?;
    Ok(UriParts {
        scheme: uri.scheme_str().map(str::to_owned),
        authority: uri.authority().map(|authority| authority.as_str().to_owned()),
        host: uri.host().map(str::to_owned),
        port: uri.port_u16(),
        path: uri.path().to_owned(),
        query: uri.query().map(str::to_owned),
    })
}

/// Replaces path and query of the address `text` by `path`: `Uri::into_parts`, the
/// `FromStr` of `PathAndQuery`, `Uri::from_parts` and `Uri`'s `Display`.
///
/// This succeeds for an address with a scheme and a path of path characters that is no longer
/// than `MAX_LEN` bytes. The new text is scheme, `://`, authority and path; and where it is
/// itself no longer than that, parsing it gives the old components with the new path.
#[verifier::external_body]
pub(crate) fn with_path(text: &str, path: &str) -> (r: Result<String, axum::http::Error>)
    requires
        uri_parts(text@) matches Some(uri) && uri.scheme is Some,
        is_path(path@),
        byte_len(path@) <= MAX_LEN,
    ensures
        r matches Ok(t) ==> is_redirection(uri_parts(text@)->0, path@, t@),
        r is Ok,
{
    let mut parts = text.parse::<axum::http::Uri>()?.into_parts();
    parts.path_and_query = Some(path.parse::<axum::http::uri::PathAndQuery>()?);
    Ok(axum::http::Uri::from_parts(parts)?.to_string())
}

} // verus!

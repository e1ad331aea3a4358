//! URL resolution through the `url` crate.
use vstd::prelude::*;
use crate::text::{chars_of, push_all, starts_with, starts_with_chars, string_of};

verus! {

/// The text that `url::Url::parse(base)` followed by `Url::join(relative)`
/// serialises to, or `None` when either step fails.
pub uninterp spec fn spec_url_join(base: Seq<char>, relative: Seq<char>) -> Option<Seq<char>>;

/// Scheme, host and path of `s` as `url::Url::parse` reads them, or `None`
/// when `s` does not parse as an absolute URL.
pub uninterp spec fn spec_url_parts(s: Seq<char>) -> Option<(Seq<char>, Option<Seq<char>>, Seq<char>)>;

/// Calls `url::Url::parse(base)`, `Url::join(relative)` and `to_string`.
/// Claims only that the result is the named value, and that a base that does not
/// parse gives no result (the source joins onto the parsed base only).
#[verifier::external_body]
pub(crate) fn url_join(base: &str, relative: &str) -> (r: Option<String>)
    ensures
        match r {
            Some(s) => spec_url_join(base@, relative@) == Some(s@),
            None => spec_url_join(base@, relative@) is None,
        },
        spec_url_parts(base@) is None ==> r is None,
{
    url::Url::parse(base).and_then(|b| b.join(relative)).map(|u| u.to_string()).ok()
}

/// Calls `url::Url::parse(s)` and reads `scheme()`, `host_str()` and `path()`.
/// Claims only that the result is the named value.
#[verifier::external_body]
pub(crate) fn url_parts(s: &str) -> (r: Option<(String, Option<String>, String)>)
    ensures
        match r {
            Some((scheme, host, path)) => spec_url_parts(s@) == Some(
                (scheme@, match host { Some(h) => Some(h@), None => None }, path@),
            ),
            None => spec_url_parts(s@) is None,
        },
{
    url::Url::parse(s).ok().map(
        |u| (u.scheme().to_string(), u.host_str().map(|h| h.to_string()), u.path().to_string()),
    )
}

/// `scheme://host` of a URL, with an empty host where it has none, or `None`
/// when the URL does not parse.
pub open spec fn spec_origin(s: Seq<char>) -> Option<Seq<char>> {
    match spec_url_parts(s) {
        Some((scheme, host, _path)) => Some(
            scheme + seq!['\u{3a}', '/', '/'] + match host {
                Some(h) => h,
                None => Seq::empty(),
            },
        ),
        None => None,
    }
}

/// `scheme://host` of `s` (the `Origin` header sent along with a referer).
pub fn origin_of(s: &str) -> (r: Option<String>)
    ensures
        match r {
            Some(o) => spec_origin(s@) == Some(o@),
            None => spec_origin(s@) is None,
        },
{
    match url_parts(s) {
        Some((scheme, host, _path)) => {
            let mut v = chars_of(scheme.as_str());
            v.push(':');
            v.push('/');
            v.push('/');
            match host {
                Some(h) => {
                    let hv = chars_of(h.as_str());
                    push_all(&mut v, &hv);
                },
                None => {},
            }
            proof {
                assert(seq!['\u{3a}', '/', '/'] =~= seq![':', '/', '/']);
            }
            Some(string_of(&v))
        },
        None => None,
    }
}

/// `http://` as characters.
pub open spec fn http_prefix() -> Seq<char> {
    seq!['h', 't', 't', 'p', ':', '/', '/']
}

/// `https://` as characters.
pub open spec fn https_prefix() -> Seq<char> {
    seq!['h', 't', 't', 'p', 's', ':', '/', '/']
}

/// `s` is already absolute: it begins with `http://` or `https://`.
pub open spec fn is_absolute_http(s: Seq<char>) -> bool {
    starts_with(s, http_prefix()) || starts_with(s, https_prefix())
}

/// Does `v` begin with `http://` or `https://`?
pub fn is_absolute_http_chars(v: &[char]) -> (r: bool)
    ensures
        r == is_absolute_http(v@),
{
    let a = ['h', 't', 't', 'p', ':', '/', '/'];
    let b = ['h', 't', 't', 'p', 's', ':', '/', '/'];
    proof {
        assert(a@ =~= http_prefix());
        assert(b@ =~= https_prefix());
    }
    starts_with_chars(v, &a) || starts_with_chars(v, &b)
}

} // verus!

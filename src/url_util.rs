//! Resolving links found in pages against the page they were found on.
use vstd::prelude::*;
use crate::error::{ErrorKind, HttpError};
use crate::text::{chars_of, push_range, push_str, rfind_char, starts_with, string_from};

verus! {

/// What `url::Url::parse` makes of a text: its scheme and its host when it
/// parses, and on failure whether the text was a relative URL without a base.
pub uninterp spec fn url_parse(s: Seq<char>) -> Result<(Seq<char>, Option<Seq<char>>), bool>;

/// Relies on `url::Url::parse`, `Url::scheme` and `Url::host`: the scheme and
/// the host (as displayed) of an absolute URL; on failure, whether the error
/// is `ParseError::RelativeUrlWithoutBase`.
#[verifier::external_body]
fn parse_url(s: &str) -> (r: Result<(String, Option<String>), bool>)
    ensures
        match r {
            Ok((scheme, host)) => url_parse(s@) == Ok::<(Seq<char>, Option<Seq<char>>), bool>(
                (
                    scheme@,
                    match host {
                        Some(h) => Some(h@),
                        None => None,
                    },
                ),
            ),
            Err(relative) => url_parse(s@) == Err::<(Seq<char>, Option<Seq<char>>), bool>(
                relative,
            ),
        },
{
    match url::Url::parse(s) {
        Ok(u) => Ok((u.scheme().to_string(), u.host().map(|h| h.to_string()))),
        Err(e) => Err(e == url::ParseError::RelativeUrlWithoutBase),
    }
}

pub open spec fn scheme_sep() -> Seq<char> {
    seq![':', '/', '/']
}

/// A relative `url` joined to the page `page` it was found on, whose scheme
/// and host are `scheme` and `host`: `//x` takes the scheme, `/x` the scheme
/// and host, and any other path the page's directory.
pub open spec fn joined(
    url: Seq<char>,
    page: Seq<char>,
    scheme: Seq<char>,
    host: Option<Seq<char>>,
) -> Option<Seq<char>> {
    if starts_with(url, seq!['/', '/']) {
        Some(scheme + scheme_sep() + url.subrange(2, url.len() as int))
    } else if starts_with(url, seq!['/']) {
        match host {
            Some(name) => Some(
                scheme + scheme_sep() + name + seq!['/'] + url.subrange(1, url.len() as int),
            ),
            None => None,
        }
    } else {
        Some(directory_of(page) + seq!['/'] + url)
    }
}

/// `url` resolved against the page `host` it was found on, or `None` where
/// either does not parse.
pub open spec fn normalized(url: Seq<char>, host: Seq<char>) -> Option<Seq<char>> {
    match url_parse(url) {
        Ok(_) => Some(url),
        Err(true) => match url_parse(host) {
            Ok((scheme, h)) => joined(url, host, scheme, h),
            Err(_) => None,
        },
        Err(false) => None,
    }
}

/// `host` up to (not including) its last `/`, or all of it when it has none.
pub open spec fn directory_of(host: Seq<char>) -> Seq<char> {
    if host.contains('/') {
        host.subrange(0, last_slash(host))
    } else {
        host
    }
}

pub open spec fn last_slash(s: Seq<char>) -> int {
    choose|i: int| 0 <= i < s.len() && s[i] == '/' && forall|j: int| i < j < s.len() ==> s[j] != '/'
}

/// Resolves `url` against the page `host` it was found on: an absolute URL is
/// kept, `//x` takes the page's scheme, `/x` its scheme and host, and any other
/// relative URL its directory.
pub fn normalize_url(url: &str, host: &str) -> (r: Result<String, HttpError>)
    ensures
        match r {
            Ok(s) => normalized(url@, host@) == Some(s@),
            Err(e) => normalized(url@, host@) is None && e.kind == ErrorKind::Parse,
        },
{
    match parse_url(url) {
        Ok(_) => Ok(url.to_string()),
        Err(false) => Err(HttpError::new(ErrorKind::Parse, "Couldn't parse the URL")),
        Err(true) => {
            let (scheme, h) = match parse_url(host) {
                Ok(p) => p,
                Err(_) => {
                    return Err(HttpError::new(ErrorKind::Parse, "Couldn't parse the page URL"));
                },
            };
            match join_relative(url, host, scheme.as_str(), match &h {
                Some(name) => Some(name.as_str()),
                None => None,
            }) {
                Some(joined) => Ok(joined),
                None => Err(HttpError::new(ErrorKind::Parse, "The page URL has no host")),
            }
        },
    }
}

/// Joins a relative `url` to the page `page` it was found on, whose scheme
/// and host are `scheme` and `host`.
pub fn join_relative(url: &str, page: &str, scheme: &str, host: Option<&str>) -> (r: Option<String>)
    ensures
        match r {
            Some(s) => joined(url@, page@, scheme@, match host {
                Some(h) => Some(h@),
                None => None,
            }) == Some(s@),
            None => joined(url@, page@, scheme@, match host {
                Some(h) => Some(h@),
                None => None,
            }) is None,
        },
{
    let u = chars_of(url);
    let mut out: Vec<char> = chars_of(scheme);
    if u.len() >= 2 && u[0] == '/' && u[1] == '/' {
        assert(u@.subrange(0, 2) =~= seq!['/', '/']);
        push_str(&mut out, "://");
        proof { reveal_strlit("://"); }
        assert("://"@ =~= scheme_sep());
        push_range(&mut out, &u, 2, u.len());
        Some(string_from(out.as_slice()))
    } else if u.len() >= 1 && u[0] == '/' {
        assert(u@.subrange(0, 1) =~= seq!['/']);
        assert(!starts_with(u@, seq!['/', '/'])) by {
            if starts_with(u@, seq!['/', '/']) {
                assert(u@.subrange(0, 2)[1] == '/');
            }
        }
        match host {
            None => None,
            Some(name) => {
                push_str(&mut out, "://");
                proof { reveal_strlit("://"); }
                assert("://"@ =~= scheme_sep());
                push_str(&mut out, name);
                out.push('/');
                push_range(&mut out, &u, 1, u.len());
                Some(string_from(out.as_slice()))
            },
        }
    } else {
        assert(!starts_with(u@, seq!['/', '/'])) by {
            if starts_with(u@, seq!['/', '/']) {
                assert(u@.subrange(0, 2)[0] == '/');
            }
        }
        assert(!starts_with(u@, seq!['/'])) by {
            if starts_with(u@, seq!['/']) {
                assert(u@.subrange(0, 1)[0] == '/');
            }
        }
        let hs = chars_of(page);
        let mut res: Vec<char> = Vec::new();
        match rfind_char(&hs, '/') {
            Some(i) => {
                push_range(&mut res, &hs, 0, i);
                assert(hs@.contains('/'));
                assert(last_slash(hs@) == i) by {
                    // Both positions hold the last slash, so neither lies before the other.
                    assert(0 <= i < hs@.len() && hs@[i as int] == '/');
                }
            },
            None => {
                push_range(&mut res, &hs, 0, hs.len());
                assert(hs@.subrange(0, hs@.len() as int) =~= hs@);
            },
        }
        res.push('/');
        push_range(&mut res, &u, 0, u.len());
        assert(u@.subrange(0, u@.len() as int) =~= u@);
        Some(string_from(res.as_slice()))
    }
}

/// `scheme://host` of a URL.
pub open spec fn host_of(url: Seq<char>) -> Option<Seq<char>> {
    match url_parse(url) {
        Ok((scheme, Some(h))) => Some(scheme + scheme_sep() + h),
        _ => None,
    }
}

/// The `scheme://host` part of a URL, used as the Referer of follow-up requests.
pub fn find_host(url: &str) -> (r: Result<String, HttpError>)
    ensures
        match r {
            Ok(s) => host_of(url@) == Some(s@),
            Err(e) => host_of(url@) is None && e.kind == ErrorKind::Parse,
        },
{
    match parse_url(url) {
        Ok((scheme, Some(h))) => {
            let mut out: Vec<char> = chars_of(scheme.as_str());
            push_str(&mut out, "://");
            proof { reveal_strlit("://"); }
            assert("://"@ =~= scheme_sep());
            push_str(&mut out, h.as_str());
            Ok(string_from(out.as_slice()))
        },
        Ok((_, None)) => Err(HttpError::new(ErrorKind::Parse, "Didn't find a host name")),
        Err(_) => Err(HttpError::new(ErrorKind::Parse, "Couldn't parse the URL")),
    }
}

} // verus!

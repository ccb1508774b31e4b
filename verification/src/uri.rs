//! The target of a request as a URI: scheme, host, path and query parameters.

use vstd::prelude::*;
use crate::percent::{decode_chars, percent_decoded};
use crate::search::{parse_query, query_text, SearchParamView, SearchParams};
use crate::text::{chars_of, find, find_chars, occurs_at, one_char, slice_chars, string_of};

verus! {

/// A URI. The path is percent-decoded where the target held a query string.
#[derive(Debug)]
pub struct Uri {
    pub scheme: String,
    pub host: String,
    pub path: String,
    pub search: SearchParams,
}

/// The mathematical value of a `Uri`.
pub struct UriView {
    pub scheme: Seq<char>,
    pub host: Seq<char>,
    pub path: Seq<char>,
    pub search: Seq<SearchParamView>,
}

impl View for Uri {
    type V = UriView;

    open spec fn view(&self) -> UriView {
        UriView {
            scheme: self.scheme@,
            host: self.host@,
            path: self.path@,
            search: self.search@,
        }
    }
}

/// Why the target of a request gives no URI.
#[derive(Debug, Clone, Copy, PartialEq, Eq, Structural)]
pub enum TargetError {
    /// The path before the query string does not percent-decode.
    InvalidPath,
    /// The query string of an absolute target does not read.
    InvalidQuery,
}

/// The parts of a target that holds a `?`: the path before it, percent-decoded, and what
/// stands from the `?` on; `None` where the path does not decode.
pub open spec fn path_and_query(target: Seq<char>, mark: int) -> Option<(Seq<char>, Seq<char>)> {
    match percent_decoded(target.subrange(0, mark)) {
        Some(path) => Some((path, target.subrange(mark, target.len() as int))),
        None => None,
    }
}

/// The parameters of a query string, and none where it does not read.
pub open spec fn lenient_query(raw: Seq<char>) -> Seq<SearchParamView> {
    match parse_query(raw) {
        Some(p) => p,
        None => Seq::empty(),
    }
}

/// What follows the scheme of an absolute target: the host up to the first `/`, and the
/// path from that `/` on, or `/` where there is none.
pub open spec fn host_and_path(rest: Seq<char>) -> (Seq<char>, Seq<char>) {
    match find(rest, seq!['/']) {
        Some(i) => (rest.subrange(0, i), rest.subrange(i, rest.len() as int)),
        None => (rest, seq!['/']),
    }
}

impl UriView {
    /// The URI as a text: scheme, `://`, host, path and query string.
    pub open spec fn text(self) -> Seq<char> {
        self.scheme + "://"@ + self.host + self.path + query_text(self.search)
    }

    /// Whether a target is in absolute form: it starts with `http://` or `https://`.
    pub open spec fn is_absolute(target: Seq<char>) -> bool {
        occurs_at(target, "http://"@, 0) || occurs_at(target, "https://"@, 0)
    }

    /// The URI of a target in origin form, with the host that the `Host` header gave. The
    /// scheme is `http`. A target without `?` is the path as it stands. In one with a `?`
    /// the path before it is percent-decoded, and what stands from the `?` on gives the
    /// parameters, none where it does not read. There is no URI where the path does not
    /// decode.
    pub open spec fn origin_form(host: Seq<char>, target: Seq<char>) -> Option<UriView> {
        match find(target, seq!['?']) {
            Some(mark) => match path_and_query(target, mark) {
                Some((path, query)) => Some(
                    UriView { scheme: "http"@, host, path, search: lenient_query(query) },
                ),
                None => None,
            },
            None => Some(UriView { scheme: "http"@, host, path: target, search: Seq::empty() }),
        }
    }

    /// The URI of what follows `://` in an absolute target, under the given scheme. Path
    /// and parameters are read as in origin form, but a query string that does not read is
    /// an error.
    pub open spec fn after_scheme(scheme: Seq<char>, rest: Seq<char>) -> Result<
        UriView,
        TargetError,
    > {
        let (host, path) = host_and_path(rest);
        match find(path, seq!['?']) {
            Some(mark) => match path_and_query(path, mark) {
                Some((decoded, query)) => match parse_query(query) {
                    Some(search) => Ok(UriView { scheme, host, path: decoded, search }),
                    None => Err(TargetError::InvalidQuery),
                },
                None => Err(TargetError::InvalidPath),
            },
            None => Ok(UriView { scheme, host, path, search: Seq::empty() }),
        }
    }

    /// The URI of a target in absolute form, without regard to any `Host` header.
    pub open spec fn absolute_form(target: Seq<char>) -> Result<UriView, TargetError> {
        if occurs_at(target, "http://"@, 0) {
            UriView::after_scheme("http"@, target.skip("http://"@.len() as int))
        } else {
            UriView::after_scheme("https"@, target.skip("https://"@.len() as int))
        }
    }

    /// The URI of the target of a request: that of the absolute form where the target is
    /// absolute, and otherwise that of the origin form with the given host.
    pub open spec fn of_target(host: Seq<char>, target: Seq<char>) -> Result<UriView, TargetError> {
        if UriView::is_absolute(target) {
            UriView::absolute_form(target)
        } else {
            match UriView::origin_form(host, target) {
                Some(uri) => Ok(uri),
                None => Err(TargetError::InvalidPath),
            }
        }
    }
}

/// Whether `v` starts with the text `prefix`; with it, the length of the prefix.
fn starts_with(v: &Vec<char>, prefix: &str) -> (r: Option<usize>)
    ensures
        match r {
            Some(n) => occurs_at(v@, prefix@, 0) && n == prefix@.len() && n <= v.len(),
            None => !occurs_at(v@, prefix@, 0),
        },
{
    let p = chars_of(prefix);
    if p.len() > v.len() {
        return None;
    }
    let head = slice_chars(v, 0, p.len());
    if crate::text::same_chars(&head, &p) {
        Some(p.len())
    } else {
        None
    }
}

impl Uri {
    /// The URI of a target in origin form, with the host that the `Host` header gave, where
    /// the path of the target decodes.
    pub fn try_absolute(host: String, path: String) -> (r: Option<Uri>)
        ensures
            match UriView::origin_form(host@, path@) {
                Some(uri) => r is Some && r->Some_0@ == uri,
                None => r is None,
            },
    {
        let target = chars_of(path.as_str());
        match find_chars(&target, &one_char('?'), 0) {
            Some(mark) => {
                let before = slice_chars(&target, 0, mark);
                match decode_chars(&before) {
                    Some(_) => Some(Uri::absolute(host, path)),
                    None => None,
                }
            },
            None => Some(Uri::absolute(host, path)),
        }
    }

    /// The URI of a target in origin form, with the host that the `Host` header gave. The
    /// path of the target has to decode.
    pub fn absolute(host: String, path: String) -> (r: Uri)
        requires
            UriView::origin_form(host@, path@) is Some,
        ensures
            Some(r@) == UriView::origin_form(host@, path@),
    {
        let target = chars_of(path.as_str());
        match find_chars(&target, &one_char('?'), 0) {
            Some(mark) => {
                let before = slice_chars(&target, 0, mark);
                let query = slice_chars(&target, mark, target.len());
                let decoded = match decode_chars(&before) {
                    Some(decoded) => decoded,
                    None => before,
                };
                let search = match SearchParams::parse_chars(&query) {
                    Some(search) => search,
                    None => SearchParams::empty(),
                };
                Uri {
                    scheme: String::from_str("http"),
                    host,
                    path: string_of(&decoded),
                    search,
                }
            },
            None => Uri {
                scheme: String::from_str("http"),
                host,
                path,
                search: SearchParams::empty(),
            },
        }
    }

    /// The URI of what follows `://` in an absolute target.
    fn after_scheme(scheme: &str, rest: &Vec<char>) -> (r: Result<Uri, TargetError>)
        ensures
            match UriView::after_scheme(scheme@, rest@) {
                Ok(uri) => r is Ok && r->Ok_0@ == uri,
                Err(e) => r == Err::<Uri, TargetError>(e),
            },
    {
        let (host, path) = match find_chars(rest, &one_char('/'), 0) {
            Some(i) => (slice_chars(rest, 0, i), slice_chars(rest, i, rest.len())),
            None => (slice_chars(rest, 0, rest.len()), one_char('/')),
        };
        assert(rest@.subrange(0, rest@.len() as int) == rest@);
        assert((host@, path@) == host_and_path(rest@));
        match find_chars(&path, &one_char('?'), 0) {
            Some(mark) => {
                let before = slice_chars(&path, 0, mark);
                let query = slice_chars(&path, mark, path.len());
                let decoded = match decode_chars(&before) {
                    Some(decoded) => decoded,
                    None => {
                        return Err(TargetError::InvalidPath);
                    },
                };
                match SearchParams::parse_chars(&query) {
                    Some(search) => Ok(
                        Uri {
                            scheme: String::from_str(scheme),
                            host: string_of(&host),
                            path: string_of(&decoded),
                            search,
                        },
                    ),
                    None => Err(TargetError::InvalidQuery),
                }
            },
            None => Ok(
                Uri {
                    scheme: String::from_str(scheme),
                    host: string_of(&host),
                    path: string_of(&path),
                    search: SearchParams::empty(),
                },
            ),
        }
    }

    /// The URI of the target of a request, with the host that the `Host` header gave.
    pub fn of_target(host: String, target: String) -> (r: Result<Uri, TargetError>)
        ensures
            match UriView::of_target(host@, target@) {
                Ok(uri) => r is Ok && r->Ok_0@ == uri,
                Err(e) => r == Err::<Uri, TargetError>(e),
            },
    {
        let v = chars_of(target.as_str());
        match starts_with(&v, "http://") {
            Some(n) => {
                let rest = slice_chars(&v, n, v.len());
                Uri::after_scheme("http", &rest)
            },
            None => match starts_with(&v, "https://") {
                Some(n) => {
                    let rest = slice_chars(&v, n, v.len());
                    Uri::after_scheme("https", &rest)
                },
                None => match Uri::try_absolute(host, target) {
                    Some(uri) => Ok(uri),
                    None => Err(TargetError::InvalidPath),
                },
            },
        }
    }

    /// Appends the URI as a text to `out`.
    pub fn write_to(&self, out: &mut String)
        ensures
            final(out)@ == old(out)@ + self@.text(),
    {
        out.append(self.scheme.as_str());
        out.append("://");
        out.append(self.host.as_str());
        out.append(self.path.as_str());
        let ghost head = self@.scheme + "://"@ + self@.host + self@.path;
        assert(out@ == old(out)@ + head);
        self.search.write_to(out);
        assert(old(out)@ + head + query_text(self@.search) == old(out)@ + (head + query_text(
            self@.search,
        )));
    }

    /// The URI as a text.
    pub fn to_string(&self) -> (r: String)
        ensures
            r@ == self@.text(),
    {
        let mut out = String::new();
        self.write_to(&mut out);
        assert(Seq::<char>::empty() + self@.text() == self@.text());
        out
    }
}

} // verus!

//! Requests: reading one out of the bytes that a connection gave, and looking headers and
//! cookies up in it.

use vstd::prelude::*;
use crate::common::{Method, MethodView, Version, VersionView};
use crate::cookie::{cookie_views, RequestCookie, RequestCookieView};
use crate::header::{header_views, Header, HeaderError, HeaderView};
use crate::response::Response;
use crate::text::{
    byte_chars, chars_of, chars_of_bytes, find, find_chars, find_from, from_utf8_lossy,
    lowercase, one_char, same_text, slice_chars, split, split_chars, string_of, texts,
    to_lowercase, uppercase, utf8_lossy,
};
use crate::uri::{TargetError, Uri, UriView};

verus! {

/// The number of bytes that are read from a connection for one request.
pub const READ_LIMIT: usize = 2048;

/// A request as it was read, with the mark that tells whether it was answered.
#[derive(Debug)]
pub struct Request {
    pub method: Method,
    pub version: Version,
    pub uri: Uri,
    pub headers: Vec<Header>,
    pub body: String,
    pub raw: String,
    pub responded: bool,
}

/// The mathematical value of a `Request`.
pub struct RequestView {
    pub method: MethodView,
    pub version: VersionView,
    pub uri: UriView,
    pub headers: Seq<HeaderView>,
    pub body: Seq<char>,
    pub raw: Seq<char>,
    pub responded: bool,
}

impl View for Request {
    type V = RequestView;

    open spec fn view(&self) -> RequestView {
        RequestView {
            method: self.method@,
            version: self.version@,
            uri: self.uri@,
            headers: header_views(self.headers@),
            body: self.body@,
            raw: self.raw@,
            responded: self.responded,
        }
    }
}

/// Why the bytes of a connection give no request.
#[derive(Debug, Clone, Copy, PartialEq, Eq, Structural)]
pub enum RequestError {
    /// The request line lacks one of its two spaces, its carriage return, or the byte
    /// behind the carriage return.
    MalformedRequestLine,
    /// A line of the header block holds no `: `.
    MalformedHeaderLine,
    /// The value of a header does not read.
    InvalidHeader(HeaderError),
    /// The target gives no URI.
    InvalidTarget(TargetError),
}

impl RequestError {
    /// The error in words.
    pub open spec fn message(self) -> Seq<char> {
        match self {
            RequestError::MalformedRequestLine => "Malformed request line"@,
            RequestError::MalformedHeaderLine => "Malformed header line"@,
            RequestError::InvalidHeader(e) => e.message(),
            RequestError::InvalidTarget(TargetError::InvalidPath) => "Invalid request path"@,
            RequestError::InvalidTarget(TargetError::InvalidQuery) => "Invalid query string"@,
        }
    }

    /// The error in words.
    pub fn describe(&self) -> (r: &'static str)
        ensures
            r@ == self.message(),
    {
        match self {
            RequestError::MalformedRequestLine => "Malformed request line",
            RequestError::MalformedHeaderLine => "Malformed header line",
            RequestError::InvalidHeader(e) => e.describe(),
            RequestError::InvalidTarget(TargetError::InvalidPath) => "Invalid request path",
            RequestError::InvalidTarget(TargetError::InvalidQuery) => "Invalid query string",
        }
    }
}

/// Why a request is not answered.
#[derive(Debug, Clone, Copy, PartialEq, Eq, Structural)]
pub enum RespondError {
    /// The request was answered before.
    AlreadyResponded,
}

impl RespondError {
    /// The error in words.
    pub fn describe(&self) -> (r: &'static str)
        ensures
            r@ == "Request already responded"@,
    {
        "Request already responded"
    }
}

/// The three tokens of a request line, and the position at which the headers begin.
pub struct RequestLine {
    pub method: Seq<char>,
    pub target: Seq<char>,
    pub version: Seq<char>,
    pub end: int,
}

/// Reads the request line. The method runs up to the first space, the target up to the
/// next space, the version up to the next carriage return; each byte of them stands for
/// the character of its code. One more byte follows the carriage return, and the headers
/// begin behind it. There is no request line where a space, the carriage return or that byte
/// is missing.
pub open spec fn request_line(bytes: Seq<u8>) -> Option<RequestLine> {
    let line = byte_chars(bytes);
    match find_from(line, seq![' '], 0) {
        Some(a) => match find_from(line, seq![' '], a + 1) {
            Some(b) => match find_from(line, seq!['\r'], b + 1) {
                Some(c) => if c + 2 <= bytes.len() {
                    Some(
                        RequestLine {
                            method: line.subrange(0, a),
                            target: line.subrange(a + 1, b),
                            version: line.subrange(b + 1, c),
                            end: c + 2,
                        },
                    )
                } else {
                    None
                },
                None => None,
            },
            None => None,
        },
        None => None,
    }
}

/// The header block and the body of what follows the request line: what stands before the
/// first empty line and what stands behind it. Without an empty line everything is header
/// block, and the body is empty.
pub open spec fn head_and_body(rest: Seq<char>) -> (Seq<char>, Seq<char>) {
    match find(rest, "\r\n\r\n"@) {
        Some(i) => (
            rest.subrange(0, i),
            rest.subrange(i + "\r\n\r\n"@.len(), rest.len() as int),
        ),
        None => (rest, Seq::empty()),
    }
}

/// Reads one line of the header block: the name before the first `: `, the value behind
/// it. A line without `: ` is an error, and so is a value that does not read.
pub open spec fn header_line(line: Seq<char>) -> Result<HeaderView, RequestError> {
    match find(line, ": "@) {
        Some(i) => match HeaderView::parse(
            line.subrange(0, i),
            line.subrange(i + ": "@.len(), line.len() as int),
        ) {
            Ok(h) => Ok(h),
            Err(e) => Err(RequestError::InvalidHeader(e)),
        },
        None => Err(RequestError::MalformedHeaderLine),
    }
}

/// Reads the lines of the header block in order. The first line that does not read
/// decides the error.
pub open spec fn header_lines(lines: Seq<Seq<char>>) -> Result<Seq<HeaderView>, RequestError>
    decreases lines.len(),
{
    if lines.len() == 0 {
        Ok(Seq::empty())
    } else {
        match header_lines(lines.drop_last()) {
            Err(e) => Err(e),
            Ok(before) => match header_line(lines.last()) {
                Ok(h) => Ok(before.push(h)),
                Err(e) => Err(e),
            },
        }
    }
}

/// The host that the headers name: the value of the last `Host` header, and the empty text
/// where there is none.
pub open spec fn host_of(headers: Seq<HeaderView>) -> Seq<char>
    decreases headers.len(),
{
    if headers.len() == 0 {
        Seq::empty()
    } else {
        match headers.last() {
            HeaderView::Host(host) => host,
            _ => host_of(headers.drop_last()),
        }
    }
}

/// The lines of the header block of bytes whose headers begin at `end`: what follows is
/// read as text, invalid UTF-8 replaced; the header block is cut off it and cut at each
/// line end.
pub open spec fn block_lines(bytes: Seq<u8>, end: int) -> Seq<Seq<char>> {
    split(head_and_body(utf8_lossy(bytes.subrange(end, bytes.len() as int))).0, "\r\n"@)
}

/// The request of a request line and of the text that follows it. The text is cut into the
/// header block and the body, and the lines of the header block are cut at each line end.
/// The URI comes from the target, and for a target in origin form from the `Host` header
/// too. Errors come in this order: the header lines from first to last, then the target.
pub open spec fn request_of_text(
    method: Seq<char>,
    target: Seq<char>,
    version: Seq<char>,
    rest: Seq<char>,
    raw: Seq<char>,
) -> Result<RequestView, RequestError> {
    let (block, body) = head_and_body(rest);
    match header_lines(split(block, "\r\n"@)) {
        Err(e) => Err(e),
        Ok(headers) => match UriView::of_target(host_of(headers), target) {
            Err(e) => Err(RequestError::InvalidTarget(e)),
            Ok(uri) => Ok(
                RequestView {
                    method: MethodView::classify(uppercase(method), method),
                    version: VersionView::classify(version),
                    uri,
                    headers,
                    body,
                    raw,
                    responded: false,
                },
            ),
        },
    }
}

/// Reads a request out of the bytes of one read. The request line comes first, and without
/// one there is no request. What follows it is read as text, invalid UTF-8 replaced, and
/// so are the bytes as a whole, which the request keeps.
pub open spec fn parse_request(bytes: Seq<u8>) -> Result<RequestView, RequestError> {
    match request_line(bytes) {
        None => Err(RequestError::MalformedRequestLine),
        Some(line) => request_of_text(
            line.method,
            line.target,
            line.version,
            utf8_lossy(bytes.subrange(line.end, bytes.len() as int)),
            utf8_lossy(bytes),
        ),
    }
}

/// The position of the first header whose name has the lowercase form `lower`.
pub open spec fn header_index(headers: Seq<HeaderView>, lower: Seq<char>) -> Option<int>
    decreases headers.len(),
{
    if headers.len() == 0 {
        None
    } else {
        match header_index(headers.drop_last(), lower) {
            Some(i) => Some(i),
            None => if lowercase(headers.last().name()) == lower {
                Some(headers.len() - 1)
            } else {
                None
            },
        }
    }
}

/// The position of the first cookie whose name has the lowercase form `lower`.
pub open spec fn cookie_index(cookies: Seq<RequestCookieView>, lower: Seq<char>) -> Option<int>
    decreases cookies.len(),
{
    if cookies.len() == 0 {
        None
    } else {
        match cookie_index(cookies.drop_last(), lower) {
            Some(i) => Some(i),
            None => if lowercase(cookies.last().name) == lower {
                Some(cookies.len() - 1)
            } else {
                None
            },
        }
    }
}

/// The cookie of a name among the headers: the first header whose name is `Cookie`,
/// whatever the case of letters, has to be a cookie header, and the cookie is the first
/// of its cookies with the name, whatever the case of letters.
pub open spec fn cookie_of(headers: Seq<HeaderView>, lower: Seq<char>) -> Option<
    RequestCookieView,
> {
    match header_index(headers, lowercase("Cookie"@)) {
        Some(i) => match headers[i] {
            HeaderView::Cookie(cookies) => match cookie_index(cookies, lower) {
                Some(k) => Some(cookies[k]),
                None => None,
            },
            _ => None,
        },
        None => None,
    }
}

/// Once a beginning of the lines fails, the whole fails with the same error.
pub proof fn lemma_header_lines_fails(lines: Seq<Seq<char>>, k: int)
    requires
        0 <= k <= lines.len(),
        header_lines(lines.take(k)) is Err,
    ensures
        header_lines(lines) == header_lines(lines.take(k)),
    decreases lines.len(),
{
    if k == lines.len() {
        assert(lines.take(k) == lines);
    } else {
        assert(lines.drop_last().take(k) == lines.take(k));
        lemma_header_lines_fails(lines.drop_last(), k);
    }
}

/// Lines of which one holds no `: ` do not read.
pub proof fn lemma_header_lines_need_separators(lines: Seq<Seq<char>>, k: int)
    requires
        0 <= k < lines.len(),
        find(lines[k], ": "@) is None,
    ensures
        header_lines(lines) is Err,
{
    let upto = lines.take(k + 1);
    assert(upto.last() == lines[k]);
    assert(header_lines(upto) is Err);
    lemma_header_lines_fails(lines, k + 1);
}

/// Bytes whose header block has a line without `: ` give no request, but an error. (Bytes
/// without a request line give an error too.)
pub proof fn lemma_line_without_separator_fails(bytes: Seq<u8>, k: int)
    requires
        request_line(bytes) is Some ==> {
            let lines = block_lines(bytes, request_line(bytes)->Some_0.end);
            0 <= k < lines.len() && find(lines[k], ": "@) is None
        },
    ensures
        parse_request(bytes) is Err,
{
    if request_line(bytes) is Some {
        lemma_header_lines_need_separators(
            block_lines(bytes, request_line(bytes)->Some_0.end),
            k,
        );
    }
}

/// A header of the name at the end of a beginning that holds no other is the first.
proof fn lemma_header_found(headers: Seq<HeaderView>, lower: Seq<char>, k: int)
    requires
        0 < k <= headers.len(),
        header_index(headers.take(k - 1), lower) is None,
        lowercase(headers[k - 1].name()) == lower,
    ensures
        header_index(headers, lower) == Some(k - 1),
    decreases headers.len(),
{
    if k == headers.len() {
        assert(headers.take(k - 1) == headers.drop_last());
    } else {
        assert(headers.drop_last().take(k - 1) == headers.take(k - 1));
        lemma_header_found(headers.drop_last(), lower, k);
    }
}

/// A cookie of the name at the end of a beginning that holds no other is the first.
proof fn lemma_cookie_found(cookies: Seq<RequestCookieView>, lower: Seq<char>, k: int)
    requires
        0 < k <= cookies.len(),
        cookie_index(cookies.take(k - 1), lower) is None,
        lowercase(cookies[k - 1].name) == lower,
    ensures
        cookie_index(cookies, lower) == Some(k - 1),
    decreases cookies.len(),
{
    if k == cookies.len() {
        assert(cookies.take(k - 1) == cookies.drop_last());
    } else {
        assert(cookies.drop_last().take(k - 1) == cookies.take(k - 1));
        lemma_cookie_found(cookies.drop_last(), lower, k);
    }
}

/// Reads one line of the header block.
fn read_header_line(line: &Vec<char>) -> (r: Result<Header, RequestError>)
    ensures
        match header_line(line@) {
            Ok(h) => r is Ok && r->Ok_0@ == h,
            Err(e) => r == Err::<Header, RequestError>(e),
        },
{
    let separator = chars_of(": ");
    match find_chars(line, &separator, 0) {
        Some(i) => {
            let name = slice_chars(line, 0, i);
            let value = slice_chars(line, i + separator.len(), line.len());
            match Header::parse(string_of(&name), string_of(&value)) {
                Ok(h) => Ok(h),
                Err(e) => Err(RequestError::InvalidHeader(e)),
            }
        },
        None => Err(RequestError::MalformedHeaderLine),
    }
}

/// The three tokens of the request line as texts, and where the headers begin.
struct Line {
    method: Vec<char>,
    target: Vec<char>,
    version: Vec<char>,
    end: usize,
}

fn read_request_line(bytes: &Vec<u8>) -> (r: Option<Line>)
    ensures
        match request_line(bytes@) {
            Some(l) => r is Some && r->Some_0.method@ == l.method && r->Some_0.target@
                == l.target && r->Some_0.version@ == l.version && r->Some_0.end == l.end
                && l.end <= bytes.len(),
            None => r is None,
        },
{
    let line = chars_of_bytes(bytes, 0, bytes.len());
    assert(bytes@.subrange(0, bytes.len() as int) == bytes@);
    let space = one_char(' ');
    let a = match find_chars(&line, &space, 0) {
        Some(a) => a,
        None => {
            return None;
        },
    };
    let b = match find_chars(&line, &space, a + 1) {
        Some(b) => b,
        None => {
            return None;
        },
    };
    let c = match find_chars(&line, &one_char('\r'), b + 1) {
        Some(c) => c,
        None => {
            return None;
        },
    };
    if c + 1 >= bytes.len() {
        return None;
    }
    Some(
        Line {
            method: slice_chars(&line, 0, a),
            target: slice_chars(&line, a + 1, b),
            version: slice_chars(&line, b + 1, c),
            end: c + 2,
        },
    )
}

impl Request {
    /// Reads a request out of the bytes of one read.
    pub fn parse(bytes: &Vec<u8>) -> (r: Result<Request, RequestError>)
        ensures
            match parse_request(bytes@) {
                Ok(request) => r is Ok && r->Ok_0@ == request,
                Err(e) => r == Err::<Request, RequestError>(e),
            },
    {
        let line = match read_request_line(bytes) {
            Some(line) => line,
            None => {
                return Err(RequestError::MalformedRequestLine);
            },
        };
        let rest = from_utf8_lossy(
            vstd::slice::slice_subrange(bytes.as_slice(), line.end, bytes.len()),
        );
        let raw = from_utf8_lossy(bytes.as_slice());
        Request::from_text(
            string_of(&line.method),
            string_of(&line.target),
            string_of(&line.version),
            rest.as_str(),
            raw,
        )
    }

    /// The request of the three tokens of a request line and of the text that follows the
    /// line; `raw` is the text of the whole, which the request keeps.
    pub fn from_text(method: String, target: String, version: String, rest: &str, raw: String) -> (r:
        Result<Request, RequestError>)
        ensures
            match request_of_text(method@, target@, version@, rest@, raw@) {
                Ok(request) => r is Ok && r->Ok_0@ == request,
                Err(e) => r == Err::<Request, RequestError>(e),
            },
    {
        let text = chars_of(rest);
        let mark = chars_of("\r\n\r\n");
        let (block, body) = match find_chars(&text, &mark, 0) {
            Some(i) => (slice_chars(&text, 0, i), slice_chars(&text, i + mark.len(), text.len())),
            None => (slice_chars(&text, 0, text.len()), Vec::new()),
        };
        assert(rest@.subrange(0, rest@.len() as int) == rest@);
        assert((block@, body@) == head_and_body(rest@));
        let lines = split_chars(&block, &chars_of("\r\n"));
        let mut headers: Vec<Header> = Vec::new();
        let mut host = String::new();
        let mut i: usize = 0;
        assert(texts(lines@).take(0) == Seq::<Seq<char>>::empty());
        assert(header_views(headers@) == Seq::<HeaderView>::empty());
        while i < lines.len()
            invariant
                i <= lines.len(),
                (block@, body@) == head_and_body(rest@),
                texts(lines@) == split(block@, "\r\n"@),
                header_lines(texts(lines@).take(i as int)) == Ok::<Seq<HeaderView>, RequestError>(
                    header_views(headers@),
                ),
                host@ == host_of(header_views(headers@)),
            decreases lines.len() - i,
        {
            let ghost upto = texts(lines@).take(i + 1);
            proof {
                assert(upto.drop_last() == texts(lines@).take(i as int));
                assert(upto.last() == lines@[i as int]@);
            }
            match read_header_line(&lines[i]) {
                Ok(header) => {
                    match &header {
                        Header::Host(value) => {
                            host = value.clone();
                        },
                        _ => {},
                    }
                    proof {
                        let after = header_views(headers@.push(header));
                        assert(after == header_views(headers@).push(header@));
                        assert(after.drop_last() == header_views(headers@));
                    }
                    headers.push(header);
                },
                Err(e) => {
                    proof {
                        assert(header_lines(upto) == Err::<Seq<HeaderView>, RequestError>(e));
                        lemma_header_lines_fails(texts(lines@), i + 1);
                    }
                    return Err(e);
                },
            }
            i += 1;
        }
        assert(texts(lines@).take(lines.len() as int) == texts(lines@));
        let uri = match Uri::of_target(host, target) {
            Ok(uri) => uri,
            Err(e) => {
                return Err(RequestError::InvalidTarget(e));
            },
        };
        Ok(
            Request {
                method: Method::from_token(method),
                version: Version::from_token(version),
                uri,
                headers,
                body: string_of(&body),
                raw,
                responded: false,
            },
        )
    }

    /// Answers the request: gives the bytes to send for the response and marks the request
    /// as answered. A request that was answered before gives an error and no bytes, and
    /// stays as it is.
    pub fn respond(&mut self, response: Response) -> (r: Result<Vec<u8>, RespondError>)
        ensures
            old(self).responded ==> r == Err::<Vec<u8>, RespondError>(
                RespondError::AlreadyResponded,
            ) && *final(self) == *old(self),
            !old(self).responded ==> r is Ok && r->Ok_0@ == response@.serialized(old(self)@)
                && final(self)@ == (RequestView { responded: true, ..old(self)@ }),
    {
        if self.responded {
            return Err(RespondError::AlreadyResponded);
        }
        let bytes = response.to_vector(self);
        self.responded = true;
        Ok(bytes)
    }

    /// Takes the mark of an answer back: after it the request can be answered again. This
    /// is for an answer whose bytes could not be written.
    pub fn write_failed(&mut self)
        ensures
            final(self)@ == (RequestView { responded: false, ..old(self)@ }),
    {
        self.responded = false;
    }

    /// The first header of the given name, whatever the case of letters.
    pub fn get_header(&self, name: &str) -> (r: Option<&Header>)
        ensures
            match header_index(self@.headers, lowercase(name@)) {
                Some(i) => r is Some && r->Some_0@ == self@.headers[i],
                None => r is None,
            },
    {
        let lower = to_lowercase(name);
        let ghost views = header_views(self.headers@);
        let mut i: usize = 0;
        assert(views.take(0) == Seq::<HeaderView>::empty());
        while i < self.headers.len()
            invariant
                i <= self.headers.len(),
                views == header_views(self.headers@),
                lower@ == lowercase(name@),
                header_index(views.take(i as int), lower@) is None,
            decreases self.headers.len() - i,
        {
            let header = &self.headers[i];
            let candidate = to_lowercase(header.name().as_str());
            proof {
                assert(views.take(i + 1).drop_last() == views.take(i as int));
                assert(views.take(i + 1).last() == header@);
            }
            if same_text(candidate.as_str(), lower.as_str()) {
                proof {
                    lemma_header_found(views, lower@, i + 1);
                }
                return Some(header);
            }
            i += 1;
        }
        assert(views.take(self.headers.len() as int) == views);
        None
    }

    /// The cookie of the given name, whatever the case of letters, from the cookie header of
    /// the request.
    pub fn get_cookie(&self, name: &str) -> (r: Option<&RequestCookie>)
        ensures
            match cookie_of(self@.headers, lowercase(name@)) {
                Some(c) => r is Some && r->Some_0@ == c,
                None => r is None,
            },
    {
        let cookies = match self.get_header("Cookie") {
            Some(Header::Cookie(cookies)) => cookies,
            _ => {
                return None;
            },
        };
        let lower = to_lowercase(name);
        let ghost views = cookie_views(cookies@);
        let ghost found = header_index(self@.headers, lowercase("Cookie"@));
        let mut i: usize = 0;
        assert(views.take(0) == Seq::<RequestCookieView>::empty());
        while i < cookies.len()
            invariant
                i <= cookies.len(),
                found == header_index(self@.headers, lowercase("Cookie"@)),
                found is Some,
                self@.headers[found->Some_0] == HeaderView::Cookie(views),
                views == cookie_views(cookies@),
                lower@ == lowercase(name@),
                cookie_index(views.take(i as int), lower@) is None,
            decreases cookies.len() - i,
        {
            let cookie = &cookies[i];
            let candidate = to_lowercase(cookie.0.as_str());
            proof {
                assert(views.take(i + 1).drop_last() == views.take(i as int));
                assert(views.take(i + 1).last() == cookie@);
            }
            if same_text(candidate.as_str(), lower.as_str()) {
                proof {
                    lemma_cookie_found(views, lower@, i + 1);
                }
                return Some(cookie);
            }
            i += 1;
        }
        assert(views.take(cookies.len() as int) == views);
        None
    }
}

} // verus!

//! Headers: one variant for each header that the codec understands, with the rule by which
//! its value is read and written, and one for every other header.

use vstd::prelude::*;
use crate::accept::{list_text, parse_list, AcceptEncodingView, AcceptEncodings};
use crate::cache::Cache;
use crate::common::{Connection, ConnectionView, Dnt};
use crate::cookie::{
    cookie_views, format_cookies, parse_cookies, ParseError, RequestCookie, RequestCookieView,
    ResponseCookie, ResponseCookieView,
};
use crate::mime::{Mime, MimeView};
use crate::number::{decimal, parse_unsigned, read_unsigned, write_decimal};
use crate::response::BodyEncoding;
use crate::text::{chars_of, copy_of, join, lowercase, same_text, to_lowercase};

verus! {

/// A header of a request or of a response, with its value decoded.
#[derive(Debug)]
pub enum Header {
    Connection(Connection),
    ContentLength(u64),
    ContentType(Mime),
    Host(String),
    UserAgent(String),
    Accept(String),
    AcceptEncoding(AcceptEncodings),
    AcceptLanguage(String),
    AcceptCharset(String),
    AcceptDatetime(String),
    AcceptRanges(String),
    CacheControl(Vec<Cache>),
    Cookie(Vec<RequestCookie>),
    Date(String),
    Pragma(Cache),
    Trailer(String),
    TransferEncoding(String),
    Upgrade(String),
    ProxyConnection(Connection),
    Server(String),
    Origin(String),
    Dnt(Dnt),
    SetCookie(ResponseCookie),
    Location(String),
    ContentEncoding(Vec<BodyEncoding>),
    Unknown(String, String),
}

/// The mathematical value of a `Header`.
pub enum HeaderView {
    Connection(ConnectionView),
    ContentLength(u64),
    ContentType(MimeView),
    Host(Seq<char>),
    UserAgent(Seq<char>),
    Accept(Seq<char>),
    AcceptEncoding(Seq<AcceptEncodingView>),
    AcceptLanguage(Seq<char>),
    AcceptCharset(Seq<char>),
    AcceptDatetime(Seq<char>),
    AcceptRanges(Seq<char>),
    CacheControl(Seq<Cache>),
    Cookie(Seq<RequestCookieView>),
    Date(Seq<char>),
    Pragma(Cache),
    Trailer(Seq<char>),
    TransferEncoding(Seq<char>),
    Upgrade(Seq<char>),
    ProxyConnection(ConnectionView),
    Server(Seq<char>),
    Origin(Seq<char>),
    Dnt(Dnt),
    SetCookie(ResponseCookieView),
    Location(Seq<char>),
    ContentEncoding(Seq<BodyEncoding>),
    Unknown(Seq<char>, Seq<char>),
}

/// Why the value of a header does not read.
#[derive(Debug, Clone, Copy, PartialEq, Eq, Structural)]
pub enum HeaderError {
    /// The value of `Content-Length` is no unsigned number of 64 bits.
    InvalidContentLength,
    /// The value of `Content-Type` is no media type.
    InvalidContentType,
    /// An encoding of `Accept-Encoding` is not known.
    InvalidAcceptEncoding,
    /// The value of `Cookie` does not read, for the reason given.
    InvalidCookie(ParseError),
    /// The value of `Pragma` is no cache directive.
    InvalidPragma,
    /// The value of `DNT` is none of `0`, `1` and `null`.
    InvalidDnt,
}

impl HeaderError {
    /// The error in words.
    pub open spec fn message(self) -> Seq<char> {
        match self {
            HeaderError::InvalidContentLength => "Invalid content length"@,
            HeaderError::InvalidContentType => "Invalid content type"@,
            HeaderError::InvalidAcceptEncoding => "Invalid accept encoding"@,
            HeaderError::InvalidCookie(_) => "Invalid cookie"@,
            HeaderError::InvalidPragma => "Invalid pragma"@,
            HeaderError::InvalidDnt => "Invalid DNT value"@,
        }
    }

    /// The error in words.
    pub fn describe(&self) -> (r: &'static str)
        ensures
            r@ == self.message(),
    {
        match self {
            HeaderError::InvalidContentLength => "Invalid content length",
            HeaderError::InvalidContentType => "Invalid content type",
            HeaderError::InvalidAcceptEncoding => "Invalid accept encoding",
            HeaderError::InvalidCookie(_) => "Invalid cookie",
            HeaderError::InvalidPragma => "Invalid pragma",
            HeaderError::InvalidDnt => "Invalid DNT value",
        }
    }
}

impl View for Header {
    type V = HeaderView;

    open spec fn view(&self) -> HeaderView {
        match *self {
            Header::Connection(value) => HeaderView::Connection(value@),
            Header::ContentLength(value) => HeaderView::ContentLength(value),
            Header::ContentType(value) => HeaderView::ContentType(value@),
            Header::Host(value) => HeaderView::Host(value@),
            Header::UserAgent(value) => HeaderView::UserAgent(value@),
            Header::Accept(value) => HeaderView::Accept(value@),
            Header::AcceptEncoding(value) => HeaderView::AcceptEncoding(value@),
            Header::AcceptLanguage(value) => HeaderView::AcceptLanguage(value@),
            Header::AcceptCharset(value) => HeaderView::AcceptCharset(value@),
            Header::AcceptDatetime(value) => HeaderView::AcceptDatetime(value@),
            Header::AcceptRanges(value) => HeaderView::AcceptRanges(value@),
            Header::CacheControl(value) => HeaderView::CacheControl(value@),
            Header::Cookie(value) => HeaderView::Cookie(cookie_views(value@)),
            Header::Date(value) => HeaderView::Date(value@),
            Header::Pragma(value) => HeaderView::Pragma(value),
            Header::Trailer(value) => HeaderView::Trailer(value@),
            Header::TransferEncoding(value) => HeaderView::TransferEncoding(value@),
            Header::Upgrade(value) => HeaderView::Upgrade(value@),
            Header::ProxyConnection(value) => HeaderView::ProxyConnection(value@),
            Header::Server(value) => HeaderView::Server(value@),
            Header::Origin(value) => HeaderView::Origin(value@),
            Header::Dnt(value) => HeaderView::Dnt(value),
            Header::SetCookie(value) => HeaderView::SetCookie(value@),
            Header::Location(value) => HeaderView::Location(value@),
            Header::ContentEncoding(value) => HeaderView::ContentEncoding(value@),
            Header::Unknown(n, v) => HeaderView::Unknown(n@, v@),
        }
    }
}

impl Clone for Header {
    fn clone(&self) -> (r: Self)
        ensures
            r@ == self@,
    {
        match self {
            Header::Connection(value) => Header::Connection(value.clone()),
            Header::ContentLength(value) => Header::ContentLength(*value),
            Header::ContentType(value) => Header::ContentType(value.clone()),
            Header::Host(value) => Header::Host(value.clone()),
            Header::UserAgent(value) => Header::UserAgent(value.clone()),
            Header::Accept(value) => Header::Accept(value.clone()),
            Header::AcceptEncoding(value) => Header::AcceptEncoding(value.clone()),
            Header::AcceptLanguage(value) => Header::AcceptLanguage(value.clone()),
            Header::AcceptCharset(value) => Header::AcceptCharset(value.clone()),
            Header::AcceptDatetime(value) => Header::AcceptDatetime(value.clone()),
            Header::AcceptRanges(value) => Header::AcceptRanges(value.clone()),
            Header::CacheControl(value) => Header::CacheControl(copy_of(value)),
            Header::Cookie(value) => Header::Cookie(RequestCookie::clone_list(value)),
            Header::Date(value) => Header::Date(value.clone()),
            Header::Pragma(value) => Header::Pragma(*value),
            Header::Trailer(value) => Header::Trailer(value.clone()),
            Header::TransferEncoding(value) => Header::TransferEncoding(value.clone()),
            Header::Upgrade(value) => Header::Upgrade(value.clone()),
            Header::ProxyConnection(value) => Header::ProxyConnection(value.clone()),
            Header::Server(value) => Header::Server(value.clone()),
            Header::Origin(value) => Header::Origin(value.clone()),
            Header::Dnt(value) => Header::Dnt(*value),
            Header::SetCookie(value) => Header::SetCookie(value.clone()),
            Header::Location(value) => Header::Location(value.clone()),
            Header::ContentEncoding(value) => Header::ContentEncoding(copy_of(value)),
            Header::Unknown(n, v) => Header::Unknown(n.clone(), v.clone()),
        }
    }
}

/// The values of the headers of a list.
pub open spec fn header_views(headers: Seq<Header>) -> Seq<HeaderView> {
    headers.map_values(|h: Header| h@)
}

/// The tokens of a list of compressions.
pub open spec fn encoding_texts(encodings: Seq<BodyEncoding>) -> Seq<Seq<char>> {
    encodings.map_values(|e: BodyEncoding| e.text())
}

/// The value of a `Content-Encoding` header: the tokens with `, ` between them.
pub open spec fn encodings_text(encodings: Seq<BodyEncoding>) -> Seq<char> {
    join(encoding_texts(encodings), ", "@)
}

impl HeaderView {
    /// The canonical name of the header; for an unknown header the name that it holds.
    pub open spec fn name(self) -> Seq<char> {
        match self {
            HeaderView::Connection(_) => "Connection"@,
            HeaderView::ContentLength(_) => "Content-Length"@,
            HeaderView::ContentType(_) => "Content-Type"@,
            HeaderView::Host(_) => "Host"@,
            HeaderView::UserAgent(_) => "User-Agent"@,
            HeaderView::Accept(_) => "Accept"@,
            HeaderView::AcceptEncoding(_) => "Accept-Encoding"@,
            HeaderView::AcceptLanguage(_) => "Accept-Language"@,
            HeaderView::AcceptCharset(_) => "Accept-Charset"@,
            HeaderView::AcceptDatetime(_) => "Accept-Datetime"@,
            HeaderView::AcceptRanges(_) => "Accept-Ranges"@,
            HeaderView::CacheControl(_) => "Cache-Control"@,
            HeaderView::Cookie(_) => "Cookie"@,
            HeaderView::Date(_) => "Date"@,
            HeaderView::Pragma(_) => "Pragma"@,
            HeaderView::Trailer(_) => "Trailer"@,
            HeaderView::TransferEncoding(_) => "Transfer-Encoding"@,
            HeaderView::Upgrade(_) => "Upgrade"@,
            HeaderView::ProxyConnection(_) => "Proxy-Connection"@,
            HeaderView::Server(_) => "Server"@,
            HeaderView::Origin(_) => "Origin"@,
            HeaderView::Dnt(_) => "DNT"@,
            HeaderView::SetCookie(_) => "Set-Cookie"@,
            HeaderView::Location(_) => "Location"@,
            HeaderView::ContentEncoding(_) => "Content-Encoding"@,
            HeaderView::Unknown(n, _) => n,
        }
    }

    /// The value of the header as the wire carries it.
    pub open spec fn value_text(self) -> Seq<char> {
        match self {
            HeaderView::Connection(value) => value.text(),
            HeaderView::ContentLength(value) => decimal(value as nat),
            HeaderView::ContentType(value) => value.text(),
            HeaderView::Host(value) => value,
            HeaderView::UserAgent(value) => value,
            HeaderView::Accept(value) => value,
            HeaderView::AcceptEncoding(value) => list_text(value),
            HeaderView::AcceptLanguage(value) => value,
            HeaderView::AcceptCharset(value) => value,
            HeaderView::AcceptDatetime(value) => value,
            HeaderView::AcceptRanges(value) => value,
            HeaderView::CacheControl(value) => Cache::format_spec(value),
            HeaderView::Cookie(value) => format_cookies(value),
            HeaderView::Date(value) => value,
            HeaderView::Pragma(value) => value.text(),
            HeaderView::Trailer(value) => value,
            HeaderView::TransferEncoding(value) => value,
            HeaderView::Upgrade(value) => value,
            HeaderView::ProxyConnection(value) => value.text(),
            HeaderView::Server(value) => value,
            HeaderView::Origin(value) => value,
            HeaderView::Dnt(value) => value.text(),
            HeaderView::SetCookie(value) => value.text(),
            HeaderView::Location(value) => value,
            HeaderView::ContentEncoding(value) => encodings_text(value),
            HeaderView::Unknown(_, v) => v,
        }
    }

    /// The line of the header on the wire: name, `: `, value, and the line end.
    pub open spec fn line(self) -> Seq<char> {
        self.name() + ": "@ + self.value_text() + "\r\n"@
    }

    /// The header of a name and a value, given the lowercase form of the name. The
    /// lowercase form picks the variant and with it the rule by which the value is read; a
    /// name that picks none gives an unknown header, which holds name and value as they
    /// came.
    pub open spec fn classify(lower: Seq<char>, name: Seq<char>, value: Seq<char>) -> Result<
        HeaderView,
        HeaderError,
    > {
        if lower == "connection"@ {
            Ok(HeaderView::Connection(ConnectionView::classify(lowercase(value), value)))
        } else if lower == "content-length"@ {
            match parse_unsigned(value, 0xffff_ffff_ffff_ffff) {
                Some(n) => Ok(HeaderView::ContentLength(n as u64)),
                None => Err(HeaderError::InvalidContentLength),
            }
        } else if lower == "content-type"@ {
            match MimeView::parse(value) {
                Some(m) => Ok(HeaderView::ContentType(m)),
                None => Err(HeaderError::InvalidContentType),
            }
        } else if lower == "accept-encoding"@ {
            match parse_list(value) {
                Some(l) => Ok(HeaderView::AcceptEncoding(l)),
                None => Err(HeaderError::InvalidAcceptEncoding),
            }
        } else if lower == "cache-control"@ {
            Ok(HeaderView::CacheControl(Cache::parse_spec(value)))
        } else if lower == "cookie"@ {
            match parse_cookies(value) {
                Ok(l) => Ok(HeaderView::Cookie(l)),
                Err(e) => Err(HeaderError::InvalidCookie(e)),
            }
        } else if lower == "pragma"@ {
            match Cache::parse_once_spec(value) {
                Some(c) => Ok(HeaderView::Pragma(c)),
                None => Err(HeaderError::InvalidPragma),
            }
        } else if lower == "proxy-connection"@ {
            Ok(HeaderView::ProxyConnection(ConnectionView::classify(lowercase(value), value)))
        } else if lower == "dnt"@ {
            match Dnt::parse_spec(lowercase(value)) {
                Some(d) => Ok(HeaderView::Dnt(d)),
                None => Err(HeaderError::InvalidDnt),
            }
        } else if lower == "host"@ {
            Ok(HeaderView::Host(value))
        } else if lower == "user-agent"@ {
            Ok(HeaderView::UserAgent(value))
        } else if lower == "accept"@ {
            Ok(HeaderView::Accept(value))
        } else if lower == "accept-language"@ {
            Ok(HeaderView::AcceptLanguage(value))
        } else if lower == "accept-charset"@ {
            Ok(HeaderView::AcceptCharset(value))
        } else if lower == "accept-datetime"@ {
            Ok(HeaderView::AcceptDatetime(value))
        } else if lower == "accept-ranges"@ {
            Ok(HeaderView::AcceptRanges(value))
        } else if lower == "date"@ {
            Ok(HeaderView::Date(value))
        } else if lower == "trailer"@ {
            Ok(HeaderView::Trailer(value))
        } else if lower == "transfer-encoding"@ {
            Ok(HeaderView::TransferEncoding(value))
        } else if lower == "upgrade"@ {
            Ok(HeaderView::Upgrade(value))
        } else if lower == "server"@ {
            Ok(HeaderView::Server(value))
        } else if lower == "origin"@ {
            Ok(HeaderView::Origin(value))
        } else {
            Ok(HeaderView::Unknown(name, value))
        }
    }

    /// The header of a name and a value as a request carries them.
    pub open spec fn parse(name: Seq<char>, value: Seq<char>) -> Result<HeaderView, HeaderError> {
        HeaderView::classify(lowercase(name), name, value)
    }
}

fn write_encodings(out: &mut String, encodings: &Vec<BodyEncoding>)
    ensures
        final(out)@ == old(out)@ + encodings_text(encodings@),
{
    let ghost parts = encoding_texts(encodings@);
    let mut i: usize = 0;
    assert(parts.take(0) == Seq::<Seq<char>>::empty());
    assert(old(out)@ + Seq::<char>::empty() == old(out)@);
    while i < encodings.len()
        invariant
            i <= encodings.len(),
            parts == encoding_texts(encodings@),
            out@ == old(out)@ + join(parts.take(i as int), ", "@),
        decreases encodings.len() - i,
    {
        let ghost mid = out@;
        if i > 0 {
            out.append(", ");
        }
        out.append(encodings[i].token());
        proof {
            let part = parts[i as int];
            assert(part == encodings@[i as int].text());
            assert(parts.take(i + 1) == parts.take(i as int).push(part));
            crate::text::lemma_join_push(parts.take(i as int), ", "@, part);
            if i > 0 {
                assert(out@ == mid + ", "@ + part);
                assert(old(out)@ + join(parts.take(i as int), ", "@) + ", "@ + part == old(out)@
                    + (join(parts.take(i as int), ", "@) + ", "@ + part));
            } else {
                assert(out@ == mid + part);
            }
        }
        i += 1;
    }
    assert(parts.take(encodings.len() as int) == parts);
}

impl Header {
    /// The canonical name of the header, whatever the case in which it was read.
    pub fn name(&self) -> (r: String)
        ensures
            r@ == self@.name(),
    {
        let fixed: &str = match self {
            Header::Connection(_) => "Connection",
            Header::ContentLength(_) => "Content-Length",
            Header::ContentType(_) => "Content-Type",
            Header::Host(_) => "Host",
            Header::UserAgent(_) => "User-Agent",
            Header::Accept(_) => "Accept",
            Header::AcceptEncoding(_) => "Accept-Encoding",
            Header::AcceptLanguage(_) => "Accept-Language",
            Header::AcceptCharset(_) => "Accept-Charset",
            Header::AcceptDatetime(_) => "Accept-Datetime",
            Header::AcceptRanges(_) => "Accept-Ranges",
            Header::CacheControl(_) => "Cache-Control",
            Header::Cookie(_) => "Cookie",
            Header::Date(_) => "Date",
            Header::Pragma(_) => "Pragma",
            Header::Trailer(_) => "Trailer",
            Header::TransferEncoding(_) => "Transfer-Encoding",
            Header::Upgrade(_) => "Upgrade",
            Header::ProxyConnection(_) => "Proxy-Connection",
            Header::Server(_) => "Server",
            Header::Origin(_) => "Origin",
            Header::Dnt(_) => "DNT",
            Header::SetCookie(_) => "Set-Cookie",
            Header::Location(_) => "Location",
            Header::ContentEncoding(_) => "Content-Encoding",
            Header::Unknown(n, _) => {
                return n.clone();
            },
        };
        String::from_str(fixed)
    }

    /// Appends the value of the header, as the wire carries it, to `out`.
    pub fn write_value(&self, out: &mut String)
        ensures
            final(out)@ == old(out)@ + self@.value_text(),
    {
        match self {
            Header::Connection(value) => {
                value.write_to(out);
            },
            Header::ContentLength(value) => {
                write_decimal(out, *value);
            },
            Header::ContentType(value) => {
                value.write_to(out);
            },
            Header::Host(value) => {
                out.append(value.as_str());
            },
            Header::UserAgent(value) => {
                out.append(value.as_str());
            },
            Header::Accept(value) => {
                out.append(value.as_str());
            },
            Header::AcceptEncoding(value) => {
                value.write_to(out);
            },
            Header::AcceptLanguage(value) => {
                out.append(value.as_str());
            },
            Header::AcceptCharset(value) => {
                out.append(value.as_str());
            },
            Header::AcceptDatetime(value) => {
                out.append(value.as_str());
            },
            Header::AcceptRanges(value) => {
                out.append(value.as_str());
            },
            Header::CacheControl(value) => {
                Cache::write_list(out, value);
            },
            Header::Cookie(value) => {
                RequestCookie::write_list(out, value);
            },
            Header::Date(value) => {
                out.append(value.as_str());
            },
            Header::Pragma(value) => {
                value.write_to(out);
            },
            Header::Trailer(value) => {
                out.append(value.as_str());
            },
            Header::TransferEncoding(value) => {
                out.append(value.as_str());
            },
            Header::Upgrade(value) => {
                out.append(value.as_str());
            },
            Header::ProxyConnection(value) => {
                value.write_to(out);
            },
            Header::Server(value) => {
                out.append(value.as_str());
            },
            Header::Origin(value) => {
                out.append(value.as_str());
            },
            Header::Dnt(value) => {
                out.append(value.token());
            },
            Header::SetCookie(value) => {
                value.write_to(out);
            },
            Header::Location(value) => {
                out.append(value.as_str());
            },
            Header::ContentEncoding(value) => {
                write_encodings(out, value);
            },
            Header::Unknown(_, v) => {
                out.append(v.as_str());
            },
        }
    }

    /// Appends the line of the header to `out`.
    pub fn write_line(&self, out: &mut String)
        ensures
            final(out)@ == old(out)@ + self@.line(),
    {
        let name = self.name();
        out.append(name.as_str());
        out.append(": ");
        self.write_value(out);
        out.append("\r\n");
        assert(old(out)@ + self@.name() + ": "@ + self@.value_text() + "\r\n"@ == old(out)@ + (
        self@.name() + ": "@ + self@.value_text() + "\r\n"@));
    }

    /// The line of the header on the wire, such as `Content-Length: 12` with its line end.
    pub fn to_string(&self) -> (r: String)
        ensures
            r@ == self@.line(),
    {
        let mut out = String::new();
        self.write_line(&mut out);
        assert(Seq::<char>::empty() + self@.line() == self@.line());
        out
    }

    /// The header of a name and a value, given the lowercase form of the name.
    pub fn classify(lower: &str, name: String, value: String) -> (r: Result<Header, HeaderError>)
        ensures
            match HeaderView::classify(lower@, name@, value@) {
                Ok(h) => r is Ok && r->Ok_0@ == h,
                Err(e) => r == Err::<Header, HeaderError>(e),
            },
    {
        if same_text(lower, "connection") {
            Ok(Header::Connection(Connection::from_value(value)))
        } else if same_text(lower, "content-length") {
            match read_unsigned(&chars_of(value.as_str()), 0xffff_ffff_ffff_ffff) {
                Some(n) => Ok(Header::ContentLength(n)),
                None => Err(HeaderError::InvalidContentLength),
            }
        } else if same_text(lower, "content-type") {
            match Mime::parse_chars(&chars_of(value.as_str())) {
                Some(m) => Ok(Header::ContentType(m)),
                None => Err(HeaderError::InvalidContentType),
            }
        } else if same_text(lower, "accept-encoding") {
            match AcceptEncodings::parse_chars(&chars_of(value.as_str())) {
                Some(l) => Ok(Header::AcceptEncoding(l)),
                None => Err(HeaderError::InvalidAcceptEncoding),
            }
        } else if same_text(lower, "cache-control") {
            Ok(Header::CacheControl(Cache::parse(&value)))
        } else if same_text(lower, "cookie") {
            match RequestCookie::parse(value) {
                Ok(l) => Ok(Header::Cookie(l)),
                Err(e) => Err(HeaderError::InvalidCookie(e)),
            }
        } else if same_text(lower, "pragma") {
            match Cache::parse_once(&value) {
                Some(c) => Ok(Header::Pragma(c)),
                None => Err(HeaderError::InvalidPragma),
            }
        } else if same_text(lower, "proxy-connection") {
            Ok(Header::ProxyConnection(Connection::from_value(value)))
        } else if same_text(lower, "dnt") {
            match Dnt::parse(value.as_str()) {
                Some(d) => Ok(Header::Dnt(d)),
                None => Err(HeaderError::InvalidDnt),
            }
        } else if same_text(lower, "host") {
            Ok(Header::Host(value))
        } else if same_text(lower, "user-agent") {
            Ok(Header::UserAgent(value))
        } else if same_text(lower, "accept") {
            Ok(Header::Accept(value))
        } else if same_text(lower, "accept-language") {
            Ok(Header::AcceptLanguage(value))
        } else if same_text(lower, "accept-charset") {
            Ok(Header::AcceptCharset(value))
        } else if same_text(lower, "accept-datetime") {
            Ok(Header::AcceptDatetime(value))
        } else if same_text(lower, "accept-ranges") {
            Ok(Header::AcceptRanges(value))
        } else if same_text(lower, "date") {
            Ok(Header::Date(value))
        } else if same_text(lower, "trailer") {
            Ok(Header::Trailer(value))
        } else if same_text(lower, "transfer-encoding") {
            Ok(Header::TransferEncoding(value))
        } else if same_text(lower, "upgrade") {
            Ok(Header::Upgrade(value))
        } else if same_text(lower, "server") {
            Ok(Header::Server(value))
        } else if same_text(lower, "origin") {
            Ok(Header::Origin(value))
        } else {
            Ok(Header::Unknown(name, value))
        }
    }

    /// The header of a name and a value as a request carries them. The name is matched
    /// whatever the case of its letters; a name that is not known gives an unknown header
    /// and never an error.
    pub fn parse(name: String, value: String) -> (r: Result<Header, HeaderError>)
        ensures
            match HeaderView::parse(name@, value@) {
                Ok(h) => r is Ok && r->Ok_0@ == h,
                Err(e) => r == Err::<Header, HeaderError>(e),
            },
    {
        let lower = to_lowercase(name.as_str());
        Header::classify(lower.as_str(), name, value)
    }
}

} // verus!

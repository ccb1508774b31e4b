//! The small vocabularies of a message: method, version, connection handling, the
//! tracking preference and the status of a response.

use vstd::prelude::*;
use crate::number::{decimal, write_decimal};
use crate::text::{lowercase, push_char, same_text, to_lowercase, to_uppercase, uppercase};

verus! {

/// The method of a request.
#[derive(Debug)]
pub enum Method {
    Get,
    Post,
    Put,
    Delete,
    Head,
    Patch,
    Options,
    Connect,
    Trace,
    Unknown(String),
}

/// The mathematical value of a `Method`.
pub enum MethodView {
    Get,
    Post,
    Put,
    Delete,
    Head,
    Patch,
    Options,
    Connect,
    Trace,
    Unknown(Seq<char>),
}

impl View for Method {
    type V = MethodView;

    open spec fn view(&self) -> MethodView {
        match *self {
            Method::Get => MethodView::Get,
            Method::Post => MethodView::Post,
            Method::Put => MethodView::Put,
            Method::Delete => MethodView::Delete,
            Method::Head => MethodView::Head,
            Method::Patch => MethodView::Patch,
            Method::Options => MethodView::Options,
            Method::Connect => MethodView::Connect,
            Method::Trace => MethodView::Trace,
            Method::Unknown(raw) => MethodView::Unknown(raw@),
        }
    }
}

impl MethodView {
    /// The token of the method; for an unknown method the token as it was read.
    pub open spec fn text(self) -> Seq<char> {
        match self {
            MethodView::Get => "GET"@,
            MethodView::Post => "POST"@,
            MethodView::Put => "PUT"@,
            MethodView::Delete => "DELETE"@,
            MethodView::Head => "HEAD"@,
            MethodView::Patch => "PATCH"@,
            MethodView::Options => "OPTIONS"@,
            MethodView::Connect => "CONNECT"@,
            MethodView::Trace => "TRACE"@,
            MethodView::Unknown(raw) => raw,
        }
    }

    /// The method of a token, given the uppercase form of the token: one of the nine known
    /// methods where the uppercase form is its name, otherwise unknown, with the token kept
    /// as it was read.
    pub open spec fn classify(upper: Seq<char>, raw: Seq<char>) -> MethodView {
        if upper == "GET"@ {
            MethodView::Get
        } else if upper == "POST"@ {
            MethodView::Post
        } else if upper == "PUT"@ {
            MethodView::Put
        } else if upper == "DELETE"@ {
            MethodView::Delete
        } else if upper == "HEAD"@ {
            MethodView::Head
        } else if upper == "PATCH"@ {
            MethodView::Patch
        } else if upper == "OPTIONS"@ {
            MethodView::Options
        } else if upper == "CONNECT"@ {
            MethodView::Connect
        } else if upper == "TRACE"@ {
            MethodView::Trace
        } else {
            MethodView::Unknown(raw)
        }
    }
}

impl Method {
    /// The method of a token whose uppercase form is `upper`.
    pub fn classify(upper: &str, raw: String) -> (r: Method)
        ensures
            r@ == MethodView::classify(upper@, raw@),
    {
        if same_text(upper, "GET") {
            Method::Get
        } else if same_text(upper, "POST") {
            Method::Post
        } else if same_text(upper, "PUT") {
            Method::Put
        } else if same_text(upper, "DELETE") {
            Method::Delete
        } else if same_text(upper, "HEAD") {
            Method::Head
        } else if same_text(upper, "PATCH") {
            Method::Patch
        } else if same_text(upper, "OPTIONS") {
            Method::Options
        } else if same_text(upper, "CONNECT") {
            Method::Connect
        } else if same_text(upper, "TRACE") {
            Method::Trace
        } else {
            Method::Unknown(raw)
        }
    }

    /// The method that a token of the request line names, whatever the case of its letters.
    pub fn from_token(raw: String) -> (r: Method)
        ensures
            r@ == MethodView::classify(uppercase(raw@), raw@),
    {
        let upper = to_uppercase(raw.as_str());
        Method::classify(upper.as_str(), raw)
    }

    /// Whether the method is `HEAD`.
    pub fn is_head(&self) -> (r: bool)
        ensures
            r == (self@ == MethodView::Head),
    {
        match self {
            Method::Head => true,
            _ => false,
        }
    }

    /// The token of the method.
    pub fn to_string(&self) -> (r: String)
        ensures
            r@ == self@.text(),
    {
        match self {
            Method::Get => String::from_str("GET"),
            Method::Post => String::from_str("POST"),
            Method::Put => String::from_str("PUT"),
            Method::Delete => String::from_str("DELETE"),
            Method::Head => String::from_str("HEAD"),
            Method::Patch => String::from_str("PATCH"),
            Method::Options => String::from_str("OPTIONS"),
            Method::Connect => String::from_str("CONNECT"),
            Method::Trace => String::from_str("TRACE"),
            Method::Unknown(raw) => raw.clone(),
        }
    }
}

/// The protocol version of a message.
#[derive(Debug)]
pub enum Version {
    Http10,
    Http11,
    Http20,
    Unknown(String),
}

/// The mathematical value of a `Version`.
pub enum VersionView {
    Http10,
    Http11,
    Http20,
    Unknown(Seq<char>),
}

impl View for Version {
    type V = VersionView;

    open spec fn view(&self) -> VersionView {
        match *self {
            Version::Http10 => VersionView::Http10,
            Version::Http11 => VersionView::Http11,
            Version::Http20 => VersionView::Http20,
            Version::Unknown(raw) => VersionView::Unknown(raw@),
        }
    }
}

impl VersionView {
    /// The token of the version; for an unknown version the token as it was read.
    pub open spec fn text(self) -> Seq<char> {
        match self {
            VersionView::Http10 => "HTTP/1.0"@,
            VersionView::Http11 => "HTTP/1.1"@,
            VersionView::Http20 => "HTTP/2.0"@,
            VersionView::Unknown(raw) => raw,
        }
    }

    /// The version that a token names: one of the three known versions where the token is
    /// exactly its name, otherwise unknown.
    pub open spec fn classify(raw: Seq<char>) -> VersionView {
        if raw == "HTTP/1.0"@ {
            VersionView::Http10
        } else if raw == "HTTP/1.1"@ {
            VersionView::Http11
        } else if raw == "HTTP/2.0"@ {
            VersionView::Http20
        } else {
            VersionView::Unknown(raw)
        }
    }
}

impl Version {
    /// The version that a token of the request line names.
    pub fn from_token(raw: String) -> (r: Version)
        ensures
            r@ == VersionView::classify(raw@),
    {
        if same_text(raw.as_str(), "HTTP/1.0") {
            Version::Http10
        } else if same_text(raw.as_str(), "HTTP/1.1") {
            Version::Http11
        } else if same_text(raw.as_str(), "HTTP/2.0") {
            Version::Http20
        } else {
            Version::Unknown(raw)
        }
    }

    /// The token of the version.
    pub fn to_string(&self) -> (r: String)
        ensures
            r@ == self@.text(),
    {
        match self {
            Version::Http10 => String::from_str("HTTP/1.0"),
            Version::Http11 => String::from_str("HTTP/1.1"),
            Version::Http20 => String::from_str("HTTP/2.0"),
            Version::Unknown(raw) => raw.clone(),
        }
    }
}

/// What a `Connection` or `Proxy-Connection` header asks for.
#[derive(Debug)]
pub enum Connection {
    KeepAlive,
    Close,
    Upgrade,
    Unknown(String),
}

/// The mathematical value of a `Connection`.
pub enum ConnectionView {
    KeepAlive,
    Close,
    Upgrade,
    Unknown(Seq<char>),
}

impl View for Connection {
    type V = ConnectionView;

    open spec fn view(&self) -> ConnectionView {
        match *self {
            Connection::KeepAlive => ConnectionView::KeepAlive,
            Connection::Close => ConnectionView::Close,
            Connection::Upgrade => ConnectionView::Upgrade,
            Connection::Unknown(raw) => ConnectionView::Unknown(raw@),
        }
    }
}

impl Clone for Connection {
    fn clone(&self) -> (r: Self)
        ensures
            r@ == self@,
    {
        match self {
            Connection::KeepAlive => Connection::KeepAlive,
            Connection::Close => Connection::Close,
            Connection::Upgrade => Connection::Upgrade,
            Connection::Unknown(raw) => Connection::Unknown(raw.clone()),
        }
    }
}

impl ConnectionView {
    /// The wire text; for an unknown value the text as it was read.
    pub open spec fn text(self) -> Seq<char> {
        match self {
            ConnectionView::KeepAlive => "keep-alive"@,
            ConnectionView::Close => "close"@,
            ConnectionView::Upgrade => "upgrade"@,
            ConnectionView::Unknown(raw) => raw,
        }
    }

    /// The value of a header text, given the lowercase form of the text.
    pub open spec fn classify(lower: Seq<char>, raw: Seq<char>) -> ConnectionView {
        if lower == "keep-alive"@ {
            ConnectionView::KeepAlive
        } else if lower == "close"@ {
            ConnectionView::Close
        } else if lower == "upgrade"@ {
            ConnectionView::Upgrade
        } else {
            ConnectionView::Unknown(raw)
        }
    }
}

impl Connection {
    /// The value of a header text whose lowercase form is `lower`.
    pub fn classify(lower: &str, raw: String) -> (r: Connection)
        ensures
            r@ == ConnectionView::classify(lower@, raw@),
    {
        if same_text(lower, "keep-alive") {
            Connection::KeepAlive
        } else if same_text(lower, "close") {
            Connection::Close
        } else if same_text(lower, "upgrade") {
            Connection::Upgrade
        } else {
            Connection::Unknown(raw)
        }
    }

    /// The value of a header text, whatever the case of its letters.
    pub fn from_value(raw: String) -> (r: Connection)
        ensures
            r@ == ConnectionView::classify(lowercase(raw@), raw@),
    {
        let lower = to_lowercase(raw.as_str());
        Connection::classify(lower.as_str(), raw)
    }

    /// Appends the wire text to `out`.
    pub fn write_to(&self, out: &mut String)
        ensures
            final(out)@ == old(out)@ + self@.text(),
    {
        match self {
            Connection::KeepAlive => out.append("keep-alive"),
            Connection::Close => out.append("close"),
            Connection::Upgrade => out.append("upgrade"),
            Connection::Unknown(raw) => out.append(raw.as_str()),
        }
    }

    /// The wire text.
    pub fn to_string(&self) -> (r: String)
        ensures
            r@ == self@.text(),
    {
        match self {
            Connection::KeepAlive => String::from_str("keep-alive"),
            Connection::Close => String::from_str("close"),
            Connection::Upgrade => String::from_str("upgrade"),
            Connection::Unknown(raw) => raw.clone(),
        }
    }
}

/// The tracking preference that a `DNT` header states.
#[derive(Debug, Clone, Copy, PartialEq, Eq, Structural)]
pub enum Dnt {
    PrefersAllowTrack,
    PrefersNoTrack,
    NotSpecified,
}

impl Dnt {
    /// The preference that a header value states, given the lowercase form of the value:
    /// `0` allows tracking, `1` refuses it, `null` states nothing; no other value reads.
    pub open spec fn parse_spec(lower: Seq<char>) -> Option<Dnt> {
        if lower == "0"@ {
            Some(Dnt::PrefersAllowTrack)
        } else if lower == "1"@ {
            Some(Dnt::PrefersNoTrack)
        } else if lower == "null"@ {
            Some(Dnt::NotSpecified)
        } else {
            None
        }
    }

    /// The text of the preference, which is the value that a `DNT` header carries for it:
    /// `0` where tracking is allowed, `1` where it is refused, `null` where nothing is
    /// stated.
    pub open spec fn text(self) -> Seq<char> {
        match self {
            Dnt::PrefersAllowTrack => "0"@,
            Dnt::PrefersNoTrack => "1"@,
            Dnt::NotSpecified => "null"@,
        }
    }

    /// The preference that a header value states, given its lowercase form.
    pub fn classify(lower: &str) -> (r: Option<Dnt>)
        ensures
            r == Dnt::parse_spec(lower@),
    {
        if same_text(lower, "0") {
            Some(Dnt::PrefersAllowTrack)
        } else if same_text(lower, "1") {
            Some(Dnt::PrefersNoTrack)
        } else if same_text(lower, "null") {
            Some(Dnt::NotSpecified)
        } else {
            None
        }
    }

    /// The preference that a header value states, whatever the case of its letters.
    pub fn parse(value: &str) -> (r: Option<Dnt>)
        ensures
            r == Dnt::parse_spec(lowercase(value@)),
    {
        let lower = to_lowercase(value);
        Dnt::classify(lower.as_str())
    }

    /// The text of the preference, as a static text.
    pub fn token(&self) -> (r: &'static str)
        ensures
            r@ == self.text(),
    {
        match self {
            Dnt::PrefersAllowTrack => "0",
            Dnt::PrefersNoTrack => "1",
            Dnt::NotSpecified => "null",
        }
    }

    /// The text of the preference.
    pub fn to_string(&self) -> (r: String)
        ensures
            r@ == self.text(),
    {
        String::from_str(self.token())
    }
}

/// The status of a response: one of the standard statuses, a code without a known reason,
/// or a code with a reason of the caller's own.
#[derive(Debug)]
pub enum Status {
    SwitchingProtocols,
    Okay,
    Created,
    Accepted,
    NoContent,
    ResetContent,
    PartialContent,
    MultipleChoices,
    MovedPermanently,
    MovedTemporarily,
    NotModified,
    BadRequest,
    Unauthorized,
    Forbidden,
    NotFound,
    MethodNotAllowed,
    NotAcceptable,
    ProxyAuthenticationRequired,
    RequestTimeout,
    Conflict,
    Gone,
    LengthRequired,
    PreconditionFailed,
    RequestEntityTooLarge,
    RequestUriTooLong,
    UnsupportedMediaType,
    RequestedRangeNotSatisfiable,
    ExpectationFailed,
    InternalServerError,
    NotImplemented,
    BadGateway,
    ServiceUnavailable,
    GatewayTimeout,
    HttpVersionNotSupported,
    Unknown(u16),
    Custom(u16, String),
}

/// The mathematical value of a `Status`.
pub enum StatusView {
    SwitchingProtocols,
    Okay,
    Created,
    Accepted,
    NoContent,
    ResetContent,
    PartialContent,
    MultipleChoices,
    MovedPermanently,
    MovedTemporarily,
    NotModified,
    BadRequest,
    Unauthorized,
    Forbidden,
    NotFound,
    MethodNotAllowed,
    NotAcceptable,
    ProxyAuthenticationRequired,
    RequestTimeout,
    Conflict,
    Gone,
    LengthRequired,
    PreconditionFailed,
    RequestEntityTooLarge,
    RequestUriTooLong,
    UnsupportedMediaType,
    RequestedRangeNotSatisfiable,
    ExpectationFailed,
    InternalServerError,
    NotImplemented,
    BadGateway,
    ServiceUnavailable,
    GatewayTimeout,
    HttpVersionNotSupported,
    Unknown(u16),
    Custom(u16, Seq<char>),
}

impl View for Status {
    type V = StatusView;

    open spec fn view(&self) -> StatusView {
        match *self {
            Status::SwitchingProtocols => StatusView::SwitchingProtocols,
            Status::Okay => StatusView::Okay,
            Status::Created => StatusView::Created,
            Status::Accepted => StatusView::Accepted,
            Status::NoContent => StatusView::NoContent,
            Status::ResetContent => StatusView::ResetContent,
            Status::PartialContent => StatusView::PartialContent,
            Status::MultipleChoices => StatusView::MultipleChoices,
            Status::MovedPermanently => StatusView::MovedPermanently,
            Status::MovedTemporarily => StatusView::MovedTemporarily,
            Status::NotModified => StatusView::NotModified,
            Status::BadRequest => StatusView::BadRequest,
            Status::Unauthorized => StatusView::Unauthorized,
            Status::Forbidden => StatusView::Forbidden,
            Status::NotFound => StatusView::NotFound,
            Status::MethodNotAllowed => StatusView::MethodNotAllowed,
            Status::NotAcceptable => StatusView::NotAcceptable,
            Status::ProxyAuthenticationRequired => StatusView::ProxyAuthenticationRequired,
            Status::RequestTimeout => StatusView::RequestTimeout,
            Status::Conflict => StatusView::Conflict,
            Status::Gone => StatusView::Gone,
            Status::LengthRequired => StatusView::LengthRequired,
            Status::PreconditionFailed => StatusView::PreconditionFailed,
            Status::RequestEntityTooLarge => StatusView::RequestEntityTooLarge,
            Status::RequestUriTooLong => StatusView::RequestUriTooLong,
            Status::UnsupportedMediaType => StatusView::UnsupportedMediaType,
            Status::RequestedRangeNotSatisfiable => StatusView::RequestedRangeNotSatisfiable,
            Status::ExpectationFailed => StatusView::ExpectationFailed,
            Status::InternalServerError => StatusView::InternalServerError,
            Status::NotImplemented => StatusView::NotImplemented,
            Status::BadGateway => StatusView::BadGateway,
            Status::ServiceUnavailable => StatusView::ServiceUnavailable,
            Status::GatewayTimeout => StatusView::GatewayTimeout,
            Status::HttpVersionNotSupported => StatusView::HttpVersionNotSupported,
            Status::Unknown(code) => StatusView::Unknown(code),
            Status::Custom(code, reason) => StatusView::Custom(code, reason@),
        }
    }
}

impl Clone for Status {
    fn clone(&self) -> (r: Self)
        ensures
            r@ == self@,
    {
        match self {
            Status::Unknown(code) => Status::Unknown(*code),
            Status::Custom(code, reason) => Status::Custom(*code, reason.clone()),
            _ => Status::from_code(self.code()),
        }
    }
}

impl StatusView {
    /// The numeric code of the status.
    pub open spec fn code(self) -> u16 {
        match self {
            StatusView::SwitchingProtocols => 101,
            StatusView::Okay => 200,
            StatusView::Created => 201,
            StatusView::Accepted => 202,
            StatusView::NoContent => 204,
            StatusView::ResetContent => 205,
            StatusView::PartialContent => 206,
            StatusView::MultipleChoices => 300,
            StatusView::MovedPermanently => 301,
            StatusView::MovedTemporarily => 302,
            StatusView::NotModified => 304,
            StatusView::BadRequest => 400,
            StatusView::Unauthorized => 401,
            StatusView::Forbidden => 403,
            StatusView::NotFound => 404,
            StatusView::MethodNotAllowed => 405,
            StatusView::NotAcceptable => 406,
            StatusView::ProxyAuthenticationRequired => 407,
            StatusView::RequestTimeout => 408,
            StatusView::Conflict => 409,
            StatusView::Gone => 410,
            StatusView::LengthRequired => 411,
            StatusView::PreconditionFailed => 412,
            StatusView::RequestEntityTooLarge => 413,
            StatusView::RequestUriTooLong => 414,
            StatusView::UnsupportedMediaType => 415,
            StatusView::RequestedRangeNotSatisfiable => 416,
            StatusView::ExpectationFailed => 417,
            StatusView::InternalServerError => 500,
            StatusView::NotImplemented => 501,
            StatusView::BadGateway => 502,
            StatusView::ServiceUnavailable => 503,
            StatusView::GatewayTimeout => 504,
            StatusView::HttpVersionNotSupported => 505,
            StatusView::Unknown(code) => code,
            StatusView::Custom(code, _) => code,
        }
    }

    /// The reason phrase of the status; `Unknown` for a code without a known reason.
    pub open spec fn reason(self) -> Seq<char> {
        match self {
            StatusView::SwitchingProtocols => "Switching Protocols"@,
            StatusView::Okay => "OK"@,
            StatusView::Created => "Created"@,
            StatusView::Accepted => "Accepted"@,
            StatusView::NoContent => "No Content"@,
            StatusView::ResetContent => "Reset Content"@,
            StatusView::PartialContent => "Partial Content"@,
            StatusView::MultipleChoices => "Multiple Choices"@,
            StatusView::MovedPermanently => "Moved Permanently"@,
            StatusView::MovedTemporarily => "Moved Temporarily"@,
            StatusView::NotModified => "Not Modified"@,
            StatusView::BadRequest => "Bad Request"@,
            StatusView::Unauthorized => "Unauthorized"@,
            StatusView::Forbidden => "Forbidden"@,
            StatusView::NotFound => "Not Found"@,
            StatusView::MethodNotAllowed => "Method Not Allowed"@,
            StatusView::NotAcceptable => "Not Acceptable"@,
            StatusView::ProxyAuthenticationRequired => "Proxy Authentication Required"@,
            StatusView::RequestTimeout => "Request Timeout"@,
            StatusView::Conflict => "Conflict"@,
            StatusView::Gone => "Gone"@,
            StatusView::LengthRequired => "Length Required"@,
            StatusView::PreconditionFailed => "Precondition Failed"@,
            StatusView::RequestEntityTooLarge => "Request Entity Too Large"@,
            StatusView::RequestUriTooLong => "Request-URI Too Long"@,
            StatusView::UnsupportedMediaType => "Unsupported Media Type"@,
            StatusView::RequestedRangeNotSatisfiable => "Requested Range Not Satisfiable"@,
            StatusView::ExpectationFailed => "Expectation Failed"@,
            StatusView::InternalServerError => "Internal Server Error"@,
            StatusView::NotImplemented => "Not Implemented"@,
            StatusView::BadGateway => "Bad Gateway"@,
            StatusView::ServiceUnavailable => "Service Unavailable"@,
            StatusView::GatewayTimeout => "Gateway Timeout"@,
            StatusView::HttpVersionNotSupported => "HTTP Version Not Supported"@,
            StatusView::Unknown(_) => "Unknown"@,
            StatusView::Custom(_, reason) => reason,
        }
    }

    /// Whether the status is one of the standard ones.
    pub open spec fn is_standard(self) -> bool {
        !(self is Unknown) && !(self is Custom)
    }

    /// The status of a code: the standard status of that code where there is one,
    /// otherwise the code without a known reason.
    pub open spec fn from_code(code: u16) -> StatusView {
        if code == 101 {
            StatusView::SwitchingProtocols
        } else if code == 200 {
            StatusView::Okay
        } else if code == 201 {
            StatusView::Created
        } else if code == 202 {
            StatusView::Accepted
        } else if code == 204 {
            StatusView::NoContent
        } else if code == 205 {
            StatusView::ResetContent
        } else if code == 206 {
            StatusView::PartialContent
        } else if code == 300 {
            StatusView::MultipleChoices
        } else if code == 301 {
            StatusView::MovedPermanently
        } else if code == 302 {
            StatusView::MovedTemporarily
        } else if code == 304 {
            StatusView::NotModified
        } else if code == 400 {
            StatusView::BadRequest
        } else if code == 401 {
            StatusView::Unauthorized
        } else if code == 403 {
            StatusView::Forbidden
        } else if code == 404 {
            StatusView::NotFound
        } else if code == 405 {
            StatusView::MethodNotAllowed
        } else if code == 406 {
            StatusView::NotAcceptable
        } else if code == 407 {
            StatusView::ProxyAuthenticationRequired
        } else if code == 408 {
            StatusView::RequestTimeout
        } else if code == 409 {
            StatusView::Conflict
        } else if code == 410 {
            StatusView::Gone
        } else if code == 411 {
            StatusView::LengthRequired
        } else if code == 412 {
            StatusView::PreconditionFailed
        } else if code == 413 {
            StatusView::RequestEntityTooLarge
        } else if code == 414 {
            StatusView::RequestUriTooLong
        } else if code == 415 {
            StatusView::UnsupportedMediaType
        } else if code == 416 {
            StatusView::RequestedRangeNotSatisfiable
        } else if code == 417 {
            StatusView::ExpectationFailed
        } else if code == 500 {
            StatusView::InternalServerError
        } else if code == 501 {
            StatusView::NotImplemented
        } else if code == 502 {
            StatusView::BadGateway
        } else if code == 503 {
            StatusView::ServiceUnavailable
        } else if code == 504 {
            StatusView::GatewayTimeout
        } else if code == 505 {
            StatusView::HttpVersionNotSupported
        } else {
            StatusView::Unknown(code)
        }
    }

    /// The status as the status line carries it: the code in decimal, a space, and the
    /// reason phrase.
    pub open spec fn text(self) -> Seq<char> {
        decimal(self.code() as nat) + seq![' '] + self.reason()
    }
}

impl Status {
    /// The status of a code.
    pub fn from_code(code: u16) -> (r: Status)
        ensures
            r@ == StatusView::from_code(code),
    {
        if code == 101 {
            Status::SwitchingProtocols
        } else if code == 200 {
            Status::Okay
        } else if code == 201 {
            Status::Created
        } else if code == 202 {
            Status::Accepted
        } else if code == 204 {
            Status::NoContent
        } else if code == 205 {
            Status::ResetContent
        } else if code == 206 {
            Status::PartialContent
        } else if code == 300 {
            Status::MultipleChoices
        } else if code == 301 {
            Status::MovedPermanently
        } else if code == 302 {
            Status::MovedTemporarily
        } else if code == 304 {
            Status::NotModified
        } else if code == 400 {
            Status::BadRequest
        } else if code == 401 {
            Status::Unauthorized
        } else if code == 403 {
            Status::Forbidden
        } else if code == 404 {
            Status::NotFound
        } else if code == 405 {
            Status::MethodNotAllowed
        } else if code == 406 {
            Status::NotAcceptable
        } else if code == 407 {
            Status::ProxyAuthenticationRequired
        } else if code == 408 {
            Status::RequestTimeout
        } else if code == 409 {
            Status::Conflict
        } else if code == 410 {
            Status::Gone
        } else if code == 411 {
            Status::LengthRequired
        } else if code == 412 {
            Status::PreconditionFailed
        } else if code == 413 {
            Status::RequestEntityTooLarge
        } else if code == 414 {
            Status::RequestUriTooLong
        } else if code == 415 {
            Status::UnsupportedMediaType
        } else if code == 416 {
            Status::RequestedRangeNotSatisfiable
        } else if code == 417 {
            Status::ExpectationFailed
        } else if code == 500 {
            Status::InternalServerError
        } else if code == 501 {
            Status::NotImplemented
        } else if code == 502 {
            Status::BadGateway
        } else if code == 503 {
            Status::ServiceUnavailable
        } else if code == 504 {
            Status::GatewayTimeout
        } else if code == 505 {
            Status::HttpVersionNotSupported
        } else {
            Status::Unknown(code)
        }
    }

    /// The numeric code of the status.
    pub fn code(&self) -> (r: u16)
        ensures
            r == self@.code(),
    {
        match self {
            Status::SwitchingProtocols => 101,
            Status::Okay => 200,
            Status::Created => 201,
            Status::Accepted => 202,
            Status::NoContent => 204,
            Status::ResetContent => 205,
            Status::PartialContent => 206,
            Status::MultipleChoices => 300,
            Status::MovedPermanently => 301,
            Status::MovedTemporarily => 302,
            Status::NotModified => 304,
            Status::BadRequest => 400,
            Status::Unauthorized => 401,
            Status::Forbidden => 403,
            Status::NotFound => 404,
            Status::MethodNotAllowed => 405,
            Status::NotAcceptable => 406,
            Status::ProxyAuthenticationRequired => 407,
            Status::RequestTimeout => 408,
            Status::Conflict => 409,
            Status::Gone => 410,
            Status::LengthRequired => 411,
            Status::PreconditionFailed => 412,
            Status::RequestEntityTooLarge => 413,
            Status::RequestUriTooLong => 414,
            Status::UnsupportedMediaType => 415,
            Status::RequestedRangeNotSatisfiable => 416,
            Status::ExpectationFailed => 417,
            Status::InternalServerError => 500,
            Status::NotImplemented => 501,
            Status::BadGateway => 502,
            Status::ServiceUnavailable => 503,
            Status::GatewayTimeout => 504,
            Status::HttpVersionNotSupported => 505,
            Status::Unknown(code) => *code,
            Status::Custom(code, _) => *code,
        }
    }

    /// Appends the status, as the status line carries it, to `out`.
    pub fn write_to(&self, out: &mut String)
        ensures
            final(out)@ == old(out)@ + self@.text(),
    {
        write_decimal(out, self.code() as u64);
        push_char(out, ' ');
        match self {
            Status::SwitchingProtocols => {
                out.append("Switching Protocols");
            },
            Status::Okay => {
                out.append("OK");
            },
            Status::Created => {
                out.append("Created");
            },
            Status::Accepted => {
                out.append("Accepted");
            },
            Status::NoContent => {
                out.append("No Content");
            },
            Status::ResetContent => {
                out.append("Reset Content");
            },
            Status::PartialContent => {
                out.append("Partial Content");
            },
            Status::MultipleChoices => {
                out.append("Multiple Choices");
            },
            Status::MovedPermanently => {
                out.append("Moved Permanently");
            },
            Status::MovedTemporarily => {
                out.append("Moved Temporarily");
            },
            Status::NotModified => {
                out.append("Not Modified");
            },
            Status::BadRequest => {
                out.append("Bad Request");
            },
            Status::Unauthorized => {
                out.append("Unauthorized");
            },
            Status::Forbidden => {
                out.append("Forbidden");
            },
            Status::NotFound => {
                out.append("Not Found");
            },
            Status::MethodNotAllowed => {
                out.append("Method Not Allowed");
            },
            Status::NotAcceptable => {
                out.append("Not Acceptable");
            },
            Status::ProxyAuthenticationRequired => {
                out.append("Proxy Authentication Required");
            },
            Status::RequestTimeout => {
                out.append("Request Timeout");
            },
            Status::Conflict => {
                out.append("Conflict");
            },
            Status::Gone => {
                out.append("Gone");
            },
            Status::LengthRequired => {
                out.append("Length Required");
            },
            Status::PreconditionFailed => {
                out.append("Precondition Failed");
            },
            Status::RequestEntityTooLarge => {
                out.append("Request Entity Too Large");
            },
            Status::RequestUriTooLong => {
                out.append("Request-URI Too Long");
            },
            Status::UnsupportedMediaType => {
                out.append("Unsupported Media Type");
            },
            Status::RequestedRangeNotSatisfiable => {
                out.append("Requested Range Not Satisfiable");
            },
            Status::ExpectationFailed => {
                out.append("Expectation Failed");
            },
            Status::InternalServerError => {
                out.append("Internal Server Error");
            },
            Status::NotImplemented => {
                out.append("Not Implemented");
            },
            Status::BadGateway => {
                out.append("Bad Gateway");
            },
            Status::ServiceUnavailable => {
                out.append("Service Unavailable");
            },
            Status::GatewayTimeout => {
                out.append("Gateway Timeout");
            },
            Status::HttpVersionNotSupported => {
                out.append("HTTP Version Not Supported");
            },
            Status::Unknown(_) => {
                out.append("Unknown");
            },
            Status::Custom(_, reason) => {
                out.append(reason.as_str());
            },
        }
        assert(out@ == old(out)@ + (decimal(self@.code() as nat) + seq![' '] + self@.reason()));
    }

    /// The status as the status line carries it, such as `200 OK`.
    pub fn to_string(&self) -> (r: String)
        ensures
            r@ == self@.text(),
    {
        let mut out = String::new();
        self.write_to(&mut out);
        assert(Seq::<char>::empty() + self@.text() == self@.text());
        out
    }
}

/// The status of a code has that code.
pub proof fn lemma_code_of_from_code(code: u16)
    ensures
        StatusView::from_code(code).code() == code,
        !(StatusView::from_code(code) is Custom),
{
}

/// A standard status is the status of its code.
pub proof fn lemma_from_code_of_code(status: StatusView)
    requires
        status.is_standard(),
    ensures
        StatusView::from_code(status.code()) == status,
{
}

} // verus!

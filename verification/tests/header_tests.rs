use http_codec::accept::{AcceptEncoding, AcceptEncodings, Encoding};
use http_codec::cache::Cache;
use http_codec::common::{Connection, Dnt};
use http_codec::cookie::{ParseError, RequestCookie, ResponseCookie};
use http_codec::header::{Header, HeaderError};
use http_codec::mime::Mime;
use http_codec::response::BodyEncoding;

fn parse(name: &str, value: &str) -> Result<Header, HeaderError> {
    Header::parse(name.to_string(), value.to_string())
}

#[test]
fn text_headers_keep_their_value_and_get_the_canonical_name() {
    let table = [
        ("host", "Host"),
        ("USER-AGENT", "User-Agent"),
        ("accept", "Accept"),
        ("Accept-Language", "Accept-Language"),
        ("accept-charset", "Accept-Charset"),
        ("accept-datetime", "Accept-Datetime"),
        ("accept-ranges", "Accept-Ranges"),
        ("date", "Date"),
        ("trailer", "Trailer"),
        ("transfer-encoding", "Transfer-Encoding"),
        ("upgrade", "Upgrade"),
        ("server", "Server"),
        ("origin", "Origin"),
    ];
    for (given, canonical) in table {
        let header = parse(given, "some value: here").unwrap();
        assert_eq!(header.name(), canonical);
        assert_eq!(header.to_string(), format!("{}: some value: here\r\n", canonical));
    }
    assert!(matches!(parse("hOsT", "x"), Ok(Header::Host(v)) if v == "x"));
}

#[test]
fn unknown_header_passes_through_as_it_came() {
    let header = parse("X-Custom-Thing", " v ").unwrap();
    assert!(matches!(&header, Header::Unknown(n, v) if n == "X-Custom-Thing" && v == " v "));
    assert_eq!(header.name(), "X-Custom-Thing");
    assert_eq!(header.to_string(), "X-Custom-Thing:  v \r\n");
    assert!(matches!(parse("Location", "/x"), Ok(Header::Unknown(_, _))));
    assert!(matches!(parse("Set-Cookie", "a=b"), Ok(Header::Unknown(_, _))));
    assert!(matches!(parse("Content-Encoding", "gzip"), Ok(Header::Unknown(_, _))));
    assert!(matches!(parse("", ""), Ok(Header::Unknown(_, _))));
}

#[test]
fn content_length_is_an_unsigned_number() {
    assert!(matches!(parse("Content-Length", "0"), Ok(Header::ContentLength(0))));
    assert!(matches!(parse("content-length", "1234"), Ok(Header::ContentLength(1234))));
    assert!(matches!(
        parse("Content-Length", "18446744073709551615"),
        Ok(Header::ContentLength(u64::MAX))
    ));
    for bad in ["", "abc", "-1", "12 ", " 12", "1.5", "18446744073709551616", "+"] {
        assert_eq!(parse("Content-Length", bad).unwrap_err(), HeaderError::InvalidContentLength);
    }
    assert_eq!(Header::ContentLength(42).to_string(), "Content-Length: 42\r\n");
}

#[test]
fn content_type_is_a_media_type() {
    let header = parse("Content-Type", "text/html;charset=utf-8").unwrap();
    assert_eq!(header.to_string(), "Content-Type: text/html;charset=utf-8\r\n");
    assert_eq!(parse("Content-Type", "nonsense").unwrap_err(), HeaderError::InvalidContentType);
    assert_eq!(Header::ContentType(Mime::image("png")).name(), "Content-Type");
}

#[test]
fn accept_encoding_is_strict() {
    let header = parse("Accept-Encoding", "gzip, deflate;q=1, *").unwrap();
    assert_eq!(header.to_string(), "Accept-Encoding: gzip, deflate;q=1, *\r\n");
    assert_eq!(
        parse("Accept-Encoding", "gzip, compress").unwrap_err(),
        HeaderError::InvalidAcceptEncoding
    );
}

#[test]
fn cache_control_drops_what_it_does_not_know() {
    let header = parse("Cache-Control", "no-cache, whatever, max-age=10").unwrap();
    assert!(matches!(&header, Header::CacheControl(l) if *l == vec![Cache::NoCache, Cache::MaxAge(10)]));
    assert_eq!(header.to_string(), "Cache-Control: no-cache, max-age=10\r\n");
    assert!(matches!(parse("Cache-Control", "???"), Ok(Header::CacheControl(l)) if l.is_empty()));
}

#[test]
fn pragma_is_one_directive() {
    assert!(matches!(parse("Pragma", "no-cache"), Ok(Header::Pragma(Cache::NoCache))));
    assert_eq!(parse("Pragma", "no-cache, no-store").unwrap_err(), HeaderError::InvalidPragma);
    assert_eq!(parse("Pragma", "").unwrap_err(), HeaderError::InvalidPragma);
    assert_eq!(Header::Pragma(Cache::MaxAge(3)).to_string(), "Pragma: max-age=3\r\n");
}

#[test]
fn cookie_header_reads_pairs_and_reports_the_reason() {
    let header = parse("Cookie", "a=b; c=d%21").unwrap();
    assert!(matches!(&header, Header::Cookie(l) if l.len() == 2 && l[1].value() == "d!"));
    assert_eq!(header.to_string(), "Cookie: a=b; c=d%21\r\n");
    assert_eq!(
        parse("Cookie", "a").unwrap_err(),
        HeaderError::InvalidCookie(ParseError::InvalidCookiePair)
    );
    assert_eq!(
        parse("Cookie", "=b").unwrap_err(),
        HeaderError::InvalidCookie(ParseError::InvalidCookieName)
    );
    assert_eq!(
        parse("cookie", "a=%FF").unwrap_err(),
        HeaderError::InvalidCookie(ParseError::InvalidCookieValue)
    );
}

#[test]
fn connection_headers() {
    assert!(matches!(parse("Connection", "Keep-Alive"), Ok(Header::Connection(Connection::KeepAlive))));
    assert!(matches!(
        parse("Proxy-Connection", "close"),
        Ok(Header::ProxyConnection(Connection::Close))
    ));
    assert_eq!(Header::Connection(Connection::Upgrade).to_string(), "Connection: upgrade\r\n");
    assert_eq!(
        Header::ProxyConnection(Connection::Unknown("x".to_string())).to_string(),
        "Proxy-Connection: x\r\n"
    );
}

#[test]
fn dnt_header() {
    assert!(matches!(parse("DNT", "0"), Ok(Header::Dnt(Dnt::PrefersAllowTrack))));
    assert!(matches!(parse("dnt", "1"), Ok(Header::Dnt(Dnt::PrefersNoTrack))));
    assert!(matches!(parse("Dnt", "NULL"), Ok(Header::Dnt(Dnt::NotSpecified))));
    assert_eq!(parse("DNT", "yes").unwrap_err(), HeaderError::InvalidDnt);
    assert_eq!(Header::Dnt(Dnt::PrefersAllowTrack).to_string(), "DNT: 0\r\n");
    assert_eq!(Header::Dnt(Dnt::PrefersNoTrack).to_string(), "DNT: 1\r\n");
    assert_eq!(Header::Dnt(Dnt::NotSpecified).to_string(), "DNT: null\r\n");
    assert_eq!(Header::Dnt(Dnt::NotSpecified).name(), "DNT");
}

#[test]
fn response_only_headers_write() {
    assert_eq!(Header::Location("/next".to_string()).to_string(), "Location: /next\r\n");
    assert_eq!(
        Header::ContentEncoding(vec![BodyEncoding::Gzip, BodyEncoding::Brotli]).to_string(),
        "Content-Encoding: gzip, br\r\n"
    );
    assert_eq!(Header::ContentEncoding(Vec::new()).to_string(), "Content-Encoding: \r\n");
    let cookie = ResponseCookie {
        name: "a".to_string(),
        value: "b".to_string(),
        max_age: None,
        expires: None,
        path: Some("/".to_string()),
        domain: None,
        secure: true,
        http_only: false,
    };
    assert_eq!(Header::SetCookie(cookie).to_string(), "Set-Cookie: a=b;Path=/;Secure\r\n");
    assert_eq!(
        Header::AcceptEncoding(AcceptEncodings::new(vec![AcceptEncoding::new(Encoding::Br, None)]))
            .to_string(),
        "Accept-Encoding: br\r\n"
    );
    assert_eq!(
        Header::Cookie(vec![RequestCookie("k".to_string(), "a b".to_string())]).to_string(),
        "Cookie: k=a%20b\r\n"
    );
}

#[test]
fn classify_goes_by_the_lowercase_form_that_it_is_given() {
    let header = Header::classify("host", "Whatever".to_string(), "example.org".to_string()).unwrap();
    assert!(matches!(header, Header::Host(v) if v == "example.org"));
    let other = Header::classify("Host", "Host".to_string(), "example.org".to_string()).unwrap();
    assert!(matches!(other, Header::Unknown(n, _) if n == "Host"));
}

#[test]
fn errors_describe_themselves() {
    assert_eq!(HeaderError::InvalidContentLength.describe(), "Invalid content length");
    assert_eq!(HeaderError::InvalidContentType.describe(), "Invalid content type");
    assert_eq!(HeaderError::InvalidAcceptEncoding.describe(), "Invalid accept encoding");
    assert_eq!(HeaderError::InvalidCookie(ParseError::InvalidCookieName).describe(), "Invalid cookie");
    assert_eq!(HeaderError::InvalidPragma.describe(), "Invalid pragma");
    assert_eq!(HeaderError::InvalidDnt.describe(), "Invalid DNT value");
}

#[test]
fn copies_write_the_same_line() {
    let headers = vec![
        Header::Connection(Connection::Unknown("x".to_string())),
        Header::ContentLength(7),
        Header::ContentType(Mime::parse(&"text/html;a=b".to_string()).unwrap()),
        Header::Host("h".to_string()),
        Header::AcceptEncoding(AcceptEncodings::parse("gzip, br;q=1").unwrap()),
        Header::CacheControl(vec![Cache::NoCache, Cache::MaxAge(1)]),
        Header::Cookie(vec![RequestCookie("a".to_string(), "b c".to_string())]),
        Header::Pragma(Cache::NoStore),
        Header::Dnt(Dnt::PrefersNoTrack),
        Header::ContentEncoding(vec![BodyEncoding::Deflate]),
        Header::Unknown("X-A".to_string(), "1".to_string()),
        Header::SetCookie(ResponseCookie {
            name: "n".to_string(),
            value: "v".to_string(),
            max_age: Some(1),
            expires: Some("e".to_string()),
            path: None,
            domain: Some("d".to_string()),
            secure: false,
            http_only: true,
        }),
    ];
    for header in &headers {
        let copy = header.clone();
        assert_eq!(copy.to_string(), header.to_string());
        assert_eq!(copy.name(), header.name());
    }
}

#[test]
fn names_are_matched_by_their_unicode_lowercase_form() {
    let header = parse("Coo\u{212a}ie", "a=b").unwrap();
    assert!(matches!(&header, Header::Cookie(l) if l.len() == 1));
    assert_eq!(header.name(), "Cookie");
    let other = parse("H\u{d6}ST", "x").unwrap();
    assert!(matches!(other, Header::Unknown(n, _) if n == "H\u{d6}ST"));
}

use http_codec::cookie::{ParseError, RequestCookie, ResponseCookie};

fn pairs(cookies: &Vec<RequestCookie>) -> Vec<(String, String)> {
    cookies.iter().map(|c| (c.name().clone(), c.value().clone())).collect()
}

#[test]
fn pairs_are_read_and_values_decoded() {
    let cookies = RequestCookie::parse("a=b; session=x%20y%3B".to_string()).unwrap();
    assert_eq!(
        pairs(&cookies),
        vec![("a".to_string(), "b".to_string()), ("session".to_string(), "x y;".to_string())]
    );
}

#[test]
fn names_are_not_decoded() {
    let cookies = RequestCookie::parse("a%20b=c".to_string()).unwrap();
    assert_eq!(cookies[0].name(), "a%20b");
    assert_eq!(cookies[0].value(), "c");
}

#[test]
fn piece_without_exactly_one_equals_sign_is_an_invalid_pair() {
    assert_eq!(RequestCookie::parse("a".to_string()).unwrap_err(), ParseError::InvalidCookiePair);
    assert_eq!(RequestCookie::parse("a=b=c".to_string()).unwrap_err(), ParseError::InvalidCookiePair);
    assert_eq!(RequestCookie::parse("".to_string()).unwrap_err(), ParseError::InvalidCookiePair);
    assert_eq!(RequestCookie::parse("a=b; ".to_string()).unwrap_err(), ParseError::InvalidCookiePair);
    assert_eq!(RequestCookie::parse("a=b;c=d".to_string()).unwrap_err(), ParseError::InvalidCookiePair);
}

#[test]
fn empty_name_is_an_invalid_name() {
    assert_eq!(RequestCookie::parse("=b".to_string()).unwrap_err(), ParseError::InvalidCookieName);
    assert_eq!(RequestCookie::parse("a=b; =c".to_string()).unwrap_err(), ParseError::InvalidCookieName);
}

#[test]
fn value_that_does_not_decode_is_an_invalid_value() {
    assert_eq!(RequestCookie::parse("a=%FF".to_string()).unwrap_err(), ParseError::InvalidCookieValue);
}

#[test]
fn first_failing_piece_decides_the_error() {
    assert_eq!(
        RequestCookie::parse("a=b; =c; d".to_string()).unwrap_err(),
        ParseError::InvalidCookieName
    );
    assert_eq!(
        RequestCookie::parse("a=%FF; b".to_string()).unwrap_err(),
        ParseError::InvalidCookieValue
    );
}

#[test]
fn empty_value_is_read() {
    let cookies = RequestCookie::parse("a=".to_string()).unwrap();
    assert_eq!(pairs(&cookies), vec![("a".to_string(), "".to_string())]);
}

#[test]
fn format_writes_encoded_values_between_separators() {
    let cookies = vec![
        RequestCookie("a".to_string(), "b c".to_string()),
        RequestCookie("k".to_string(), "v=1; w".to_string()),
    ];
    assert_eq!(RequestCookie::format(&cookies), "a=b%20c; k=v%3D1%3B%20w");
    assert_eq!(RequestCookie::format(&Vec::new()), "");
}

#[test]
fn format_then_parse_recovers_the_pairs() {
    let cookies = vec![
        RequestCookie("id".to_string(), "42".to_string()),
        RequestCookie("na;me".to_string(), "sp ace; semi=colon %25 \u{e9}\u{20ac}".to_string()),
        RequestCookie("empty".to_string(), "".to_string()),
        RequestCookie(" lead".to_string(), "+plus+".to_string()),
    ];
    let again = RequestCookie::parse(RequestCookie::format(&cookies)).unwrap();
    assert_eq!(pairs(&again), pairs(&cookies));
}

#[test]
fn response_cookie_writes_present_attributes_in_order() {
    let cookie = ResponseCookie {
        name: "id".to_string(),
        value: "7".to_string(),
        max_age: Some(3600),
        expires: Some("Wed, 21 Oct 2015 07:28:00 GMT".to_string()),
        path: Some("/".to_string()),
        domain: Some("example.com".to_string()),
        secure: true,
        http_only: true,
    };
    assert_eq!(
        cookie.to_string(),
        "id=7;Max-Age=3600;Expires=Wed, 21 Oct 2015 07:28:00 GMT;Path=/;Domain=example.com;Secure;HttpOnly"
    );
}

#[test]
fn response_cookie_without_attributes_is_the_pair() {
    let cookie = ResponseCookie {
        name: "id".to_string(),
        value: "7".to_string(),
        max_age: None,
        expires: None,
        path: None,
        domain: None,
        secure: false,
        http_only: false,
    };
    assert_eq!(cookie.to_string(), "id=7");
}

#[test]
fn response_cookie_with_some_attributes() {
    let cookie = ResponseCookie {
        name: "a".to_string(),
        value: "".to_string(),
        max_age: Some(0),
        expires: None,
        path: Some("/x".to_string()),
        domain: None,
        secure: false,
        http_only: true,
    };
    assert_eq!(cookie.to_string(), "a=;Max-Age=0;Path=/x;HttpOnly");
    let big = ResponseCookie { max_age: Some(u64::MAX), path: None, http_only: false, ..cookie };
    assert_eq!(big.to_string(), "a=;Max-Age=18446744073709551615");
}

#[test]
fn copies_of_cookies() {
    let cookie = RequestCookie("a".to_string(), "b".to_string());
    let copy = cookie.clone();
    assert_eq!(copy.name(), "a");
    assert_eq!(copy.value(), "b");
    let list = vec![cookie, RequestCookie("c".to_string(), "d".to_string())];
    assert_eq!(pairs(&RequestCookie::clone_list(&list)), pairs(&list));
    let response = ResponseCookie {
        name: "n".to_string(),
        value: "v".to_string(),
        max_age: Some(5),
        expires: None,
        path: Some("/".to_string()),
        domain: None,
        secure: true,
        http_only: false,
    };
    assert_eq!(response.clone().to_string(), response.to_string());
}

use http_codec::search::SearchParams;
use http_codec::uri::{TargetError, Uri};

#[test]
fn origin_form_without_query_keeps_the_path() {
    let uri = Uri::absolute("example.org".to_string(), "/a%20b/c".to_string());
    assert_eq!(uri.scheme, "http");
    assert_eq!(uri.host, "example.org");
    assert_eq!(uri.path, "/a%20b/c");
    assert_eq!(uri.search.len(), 0);
    assert_eq!(uri.to_string(), "http://example.org/a%20b/c");
}

#[test]
fn origin_form_with_query_decodes_the_path() {
    let uri = Uri::absolute("h".to_string(), "/a%20b?x=1&x=2&y=%21".to_string());
    assert_eq!(uri.path, "/a b");
    assert_eq!(uri.search.get("x"), Some(&vec!["1".to_string(), "2".to_string()]));
    assert_eq!(uri.search.get("y"), Some(&vec!["!".to_string()]));
    assert_eq!(uri.to_string(), "http://h/a b?x=1&x=2&y=%21");
}

#[test]
fn try_absolute_reports_a_path_that_does_not_decode() {
    assert!(Uri::try_absolute("h".to_string(), "/%FF?x=1".to_string()).is_none());
    let fine = Uri::try_absolute("h".to_string(), "/%FF".to_string()).unwrap();
    assert_eq!(fine.path, "/%FF");
    let decoded = Uri::try_absolute("h".to_string(), "/%41?".to_string()).unwrap();
    assert_eq!(decoded.path, "/A");
    assert_eq!(decoded.search.len(), 0);
}

#[test]
fn target_in_absolute_form() {
    let uri = Uri::of_target("ignored".to_string(), "http://example.org:8080/p/q%2F?k=v".to_string()).unwrap();
    assert_eq!(uri.scheme, "http");
    assert_eq!(uri.host, "example.org:8080");
    assert_eq!(uri.path, "/p/q/");
    assert_eq!(uri.search.get("k"), Some(&vec!["v".to_string()]));
    let secure = Uri::of_target("ignored".to_string(), "https://h//double".to_string()).unwrap();
    assert_eq!(secure.scheme, "https");
    assert_eq!(secure.host, "h");
    assert_eq!(secure.path, "//double");
    let empty = Uri::of_target("ignored".to_string(), "http://".to_string()).unwrap();
    assert_eq!(empty.host, "");
    assert_eq!(empty.path, "/");
}

#[test]
fn target_errors() {
    assert_eq!(
        Uri::of_target("h".to_string(), "http://h/p?x".to_string()).unwrap_err(),
        TargetError::InvalidQuery
    );
    assert_eq!(
        Uri::of_target("h".to_string(), "http://h/%FF?x=1".to_string()).unwrap_err(),
        TargetError::InvalidPath
    );
    assert_eq!(
        Uri::of_target("h".to_string(), "/%FF?x=1".to_string()).unwrap_err(),
        TargetError::InvalidPath
    );
}

#[test]
fn target_in_origin_form_takes_the_host_given() {
    let uri = Uri::of_target("example.org".to_string(), "/index.html".to_string()).unwrap();
    assert_eq!(uri.to_string(), "http://example.org/index.html");
    let upper = Uri::of_target("h".to_string(), "HTTP://other/x".to_string()).unwrap();
    assert_eq!(upper.host, "h");
    assert_eq!(upper.path, "HTTP://other/x");
}

#[test]
fn uri_text_holds_the_query_string() {
    let uri = Uri {
        scheme: "https".to_string(),
        host: "h".to_string(),
        path: "/p".to_string(),
        search: SearchParams::parse("a=b c".to_string()).unwrap(),
    };
    assert_eq!(uri.to_string(), "https://h/p?a=b%20c");
}

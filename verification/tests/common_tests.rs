use http_codec::common::{Connection, Dnt, Method, Status, Version};

#[test]
fn methods_are_named_whatever_the_case() {
    assert!(matches!(Method::from_token("GET".to_string()), Method::Get));
    assert!(matches!(Method::from_token("get".to_string()), Method::Get));
    assert!(matches!(Method::from_token("Post".to_string()), Method::Post));
    assert!(matches!(Method::from_token("PUT".to_string()), Method::Put));
    assert!(matches!(Method::from_token("delete".to_string()), Method::Delete));
    assert!(matches!(Method::from_token("HEAD".to_string()), Method::Head));
    assert!(matches!(Method::from_token("patch".to_string()), Method::Patch));
    assert!(matches!(Method::from_token("OPTIONS".to_string()), Method::Options));
    assert!(matches!(Method::from_token("CONNECT".to_string()), Method::Connect));
    assert!(matches!(Method::from_token("trace".to_string()), Method::Trace));
}

#[test]
fn unknown_method_keeps_its_token() {
    let method = Method::from_token("Brew".to_string());
    assert!(matches!(&method, Method::Unknown(raw) if raw == "Brew"));
    assert_eq!(method.to_string(), "Brew");
    assert!(!method.is_head());
    assert!(Method::Head.is_head());
}

#[test]
fn classify_goes_by_the_uppercase_form_that_it_is_given() {
    assert!(matches!(Method::classify("GET", "anything".to_string()), Method::Get));
    assert!(matches!(Method::classify("get", "get".to_string()), Method::Unknown(raw) if raw == "get"));
}

#[test]
fn method_texts() {
    assert_eq!(Method::Get.to_string(), "GET");
    assert_eq!(Method::Post.to_string(), "POST");
    assert_eq!(Method::Put.to_string(), "PUT");
    assert_eq!(Method::Delete.to_string(), "DELETE");
    assert_eq!(Method::Head.to_string(), "HEAD");
    assert_eq!(Method::Patch.to_string(), "PATCH");
    assert_eq!(Method::Options.to_string(), "OPTIONS");
    assert_eq!(Method::Connect.to_string(), "CONNECT");
    assert_eq!(Method::Trace.to_string(), "TRACE");
}

#[test]
fn versions_are_named_exactly() {
    assert!(matches!(Version::from_token("HTTP/1.0".to_string()), Version::Http10));
    assert!(matches!(Version::from_token("HTTP/1.1".to_string()), Version::Http11));
    assert!(matches!(Version::from_token("HTTP/2.0".to_string()), Version::Http20));
    assert!(matches!(Version::from_token("http/1.1".to_string()), Version::Unknown(raw) if raw == "http/1.1"));
    assert!(matches!(Version::from_token("".to_string()), Version::Unknown(raw) if raw.is_empty()));
    assert_eq!(Version::Http10.to_string(), "HTTP/1.0");
    assert_eq!(Version::Http11.to_string(), "HTTP/1.1");
    assert_eq!(Version::Http20.to_string(), "HTTP/2.0");
    assert_eq!(Version::Unknown("HTTP/3".to_string()).to_string(), "HTTP/3");
}

#[test]
fn connection_values_are_named_whatever_the_case() {
    assert!(matches!(Connection::from_value("Keep-Alive".to_string()), Connection::KeepAlive));
    assert!(matches!(Connection::from_value("CLOSE".to_string()), Connection::Close));
    assert!(matches!(Connection::from_value("upgrade".to_string()), Connection::Upgrade));
    assert!(matches!(
        Connection::from_value("Keep-Alive, Upgrade".to_string()),
        Connection::Unknown(raw) if raw == "Keep-Alive, Upgrade"
    ));
    assert_eq!(Connection::KeepAlive.to_string(), "keep-alive");
    assert_eq!(Connection::Close.to_string(), "close");
    assert_eq!(Connection::Upgrade.to_string(), "upgrade");
    assert_eq!(Connection::Unknown("x".to_string()).to_string(), "x");
}

#[test]
fn tracking_preference_reads_three_values() {
    assert_eq!(Dnt::parse("0"), Some(Dnt::PrefersAllowTrack));
    assert_eq!(Dnt::parse("1"), Some(Dnt::PrefersNoTrack));
    assert_eq!(Dnt::parse("null"), Some(Dnt::NotSpecified));
    assert_eq!(Dnt::parse("NULL"), Some(Dnt::NotSpecified));
    assert_eq!(Dnt::parse("2"), None);
    assert_eq!(Dnt::parse(""), None);
    assert_eq!(Dnt::parse(" 1"), None);
}

#[test]
fn tracking_preference_texts() {
    assert_eq!(Dnt::PrefersAllowTrack.token(), "0");
    assert_eq!(Dnt::PrefersNoTrack.token(), "1");
    assert_eq!(Dnt::NotSpecified.token(), "null");
    assert_eq!(Dnt::PrefersAllowTrack.to_string(), "0");
    assert_eq!(Dnt::PrefersNoTrack.to_string(), "1");
    assert_eq!(Dnt::NotSpecified.to_string(), "null");
    for preference in [Dnt::PrefersAllowTrack, Dnt::PrefersNoTrack, Dnt::NotSpecified] {
        assert_eq!(Dnt::parse(&preference.to_string()), Some(preference));
    }
}

#[test]
fn status_texts_are_code_and_reason() {
    assert_eq!(Status::Okay.to_string(), "200 OK");
    assert_eq!(Status::SwitchingProtocols.to_string(), "101 Switching Protocols");
    assert_eq!(Status::NoContent.to_string(), "204 No Content");
    assert_eq!(Status::MovedTemporarily.to_string(), "302 Moved Temporarily");
    assert_eq!(Status::NotFound.to_string(), "404 Not Found");
    assert_eq!(Status::RequestUriTooLong.to_string(), "414 Request-URI Too Long");
    assert_eq!(Status::ExpectationFailed.to_string(), "417 Expectation Failed");
    assert_eq!(Status::HttpVersionNotSupported.to_string(), "505 HTTP Version Not Supported");
    assert_eq!(Status::Unknown(299).to_string(), "299 Unknown");
    assert_eq!(Status::Unknown(0).to_string(), "0 Unknown");
    assert_eq!(Status::Custom(418, "I'm a teapot".to_string()).to_string(), "418 I'm a teapot");
}

#[test]
fn status_of_a_code() {
    assert!(matches!(Status::from_code(200), Status::Okay));
    assert!(matches!(Status::from_code(101), Status::SwitchingProtocols));
    assert!(matches!(Status::from_code(204), Status::NoContent));
    assert!(matches!(Status::from_code(416), Status::RequestedRangeNotSatisfiable));
    assert!(matches!(Status::from_code(417), Status::ExpectationFailed));
    assert!(matches!(Status::from_code(505), Status::HttpVersionNotSupported));
    assert!(matches!(Status::from_code(418), Status::Unknown(418)));
    assert!(matches!(Status::from_code(203), Status::Unknown(203)));
    assert!(matches!(Status::from_code(0), Status::Unknown(0)));
}

#[test]
fn status_of_every_code_has_that_code() {
    let mut standard = 0;
    for code in 0..=u16::MAX {
        let status = Status::from_code(code);
        assert_eq!(status.code(), code);
        assert!(!matches!(status, Status::Custom(_, _)));
        if !matches!(status, Status::Unknown(_)) {
            standard += 1;
            assert!(status.to_string().starts_with(&format!("{} ", code)));
        }
    }
    assert_eq!(standard, 34);
    assert_eq!(Status::Custom(204, "x".to_string()).code(), 204);
}

#[test]
fn copies_of_statuses_and_connections() {
    for status in [Status::Okay, Status::NotFound, Status::Unknown(777), Status::Custom(201, "Made".to_string())] {
        assert_eq!(status.clone().to_string(), status.to_string());
    }
    assert!(matches!(Status::ExpectationFailed.clone(), Status::ExpectationFailed));
    assert!(matches!(Connection::KeepAlive.clone(), Connection::KeepAlive));
    assert!(matches!(Connection::Unknown("x".to_string()).clone(), Connection::Unknown(raw) if raw == "x"));
}

#[test]
fn ascii_tokens_change_case_letter_by_letter() {
    assert!(matches!(Method::from_token("oPtIoNs".to_string()), Method::Options));
    assert!(matches!(Connection::from_value("KEEP-alive".to_string()), Connection::KeepAlive));
    assert!(matches!(Method::from_token("G-E-T".to_string()), Method::Unknown(_)));
    assert!(matches!(Method::from_token("g\u{e9}t".to_string()), Method::Unknown(_)));
}

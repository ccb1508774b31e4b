use http_codec::common::Status;
use http_codec::cookie::ResponseCookie;
use http_codec::header::Header;
use http_codec::mime::Mime;
use http_codec::request::Request;
use http_codec::response::{BodyEncoding, CompressionLevel, Response, ResponseBody};
use std::io::Read;

fn request(text: &str) -> Request {
    Request::parse(&text.as_bytes().to_vec()).unwrap()
}

fn plain_get() -> Request {
    request("GET / HTTP/1.1\r\nHost: h\r\n\r\n")
}

fn accepting(value: &str) -> Request {
    request(&format!("GET / HTTP/1.1\r\nHost: h\r\nAccept-Encoding: {}\r\n\r\n", value))
}

fn split_head(bytes: &[u8]) -> (String, Vec<u8>) {
    let at = bytes.windows(4).position(|w| w == b"\r\n\r\n").unwrap();
    (String::from_utf8(bytes[..at + 4].to_vec()).unwrap(), bytes[at + 4..].to_vec())
}

#[test]
fn empty_response_is_a_status_line_and_an_empty_line() {
    assert_eq!(Response::empty().to_vector(&plain_get()), b"HTTP/1.1 200 OK\r\n\r\n".to_vec());
    let old = request("GET / HTTP/1.0\r\nHost: h\r\n\r\n");
    assert_eq!(Response::empty().to_vector(&old), b"HTTP/1.0 200 OK\r\n\r\n".to_vec());
}

#[test]
fn headers_are_sent_in_the_order_of_their_names() {
    let response = Response::new(
        Status::NotFound,
        vec![
            Header::Server("s".to_string()),
            Header::Unknown("x-lower".to_string(), "1".to_string()),
            Header::ContentType(Mime::text("plain")),
            Header::Unknown("X-Upper".to_string(), "2".to_string()),
            Header::Date("today".to_string()),
            Header::Unknown("Allow".to_string(), "GET".to_string()),
        ],
        ResponseBody::Text("gone".to_string()),
        (None, None),
    );
    let expected = "HTTP/1.1 404 Not Found\r\n\
        Allow: GET\r\n\
        Content-Length: 4\r\n\
        Content-Type: text/plain\r\n\
        Date: today\r\n\
        Server: s\r\n\
        X-Upper: 2\r\n\
        x-lower: 1\r\n\
        \r\n\
        gone";
    assert_eq!(String::from_utf8(response.to_vector(&plain_get())).unwrap(), expected);
}

#[test]
fn headers_of_one_name_keep_their_order() {
    let cookie = |name: &str| ResponseCookie {
        name: name.to_string(),
        value: "1".to_string(),
        max_age: None,
        expires: None,
        path: None,
        domain: None,
        secure: false,
        http_only: false,
    };
    let mut response = Response::empty();
    response.add_cookie(cookie("b")).add_header(Header::Server("s".to_string())).add_cookie(cookie("a"));
    let expected = "HTTP/1.1 200 OK\r\nServer: s\r\nSet-Cookie: b=1\r\nSet-Cookie: a=1\r\n\r\n";
    assert_eq!(String::from_utf8(response.to_vector(&plain_get())).unwrap(), expected);
}

#[test]
fn name_that_begins_another_comes_first() {
    let response = Response::new(
        Status::Okay,
        vec![
            Header::AcceptRanges("bytes".to_string()),
            Header::Accept("*/*".to_string()),
            Header::AcceptCharset("utf-8".to_string()),
        ],
        ResponseBody::Empty,
        (None, None),
    );
    let expected = "HTTP/1.1 200 OK\r\nAccept: */*\r\nAccept-Charset: utf-8\r\nAccept-Ranges: bytes\r\n\r\n";
    assert_eq!(String::from_utf8(response.to_vector(&plain_get())).unwrap(), expected);
}

#[test]
fn content_length_is_computed_unless_it_is_given() {
    let mut text = Response::empty();
    text.set_body(ResponseBody::Text("h\u{e9}llo".to_string()));
    let bytes = text.to_vector(&plain_get());
    let mut expected = b"HTTP/1.1 200 OK\r\nContent-Length: 6\r\n\r\nh".to_vec();
    expected.push(0xe9);
    expected.extend_from_slice(b"llo");
    assert_eq!(bytes, expected);

    let mut binary = Response::empty();
    binary.set_body(ResponseBody::Binary(vec![0, 255, 10]));
    let mut expected = b"HTTP/1.1 200 OK\r\nContent-Length: 3\r\n\r\n".to_vec();
    expected.extend_from_slice(&[0, 255, 10]);
    assert_eq!(binary.to_vector(&plain_get()), expected);

    let mut given = Response::empty();
    given.add_header(Header::ContentLength(99)).set_body(ResponseBody::Text("abc".to_string()));
    assert_eq!(given.to_vector(&plain_get()), b"HTTP/1.1 200 OK\r\nContent-Length: 99\r\n\r\nabc".to_vec());
}

#[test]
fn characters_above_one_byte_are_cut_to_their_low_byte() {
    let mut response = Response::empty();
    response.set_body(ResponseBody::Text("\u{20ac}".to_string()));
    let mut expected = b"HTTP/1.1 200 OK\r\nContent-Length: 3\r\n\r\n".to_vec();
    expected.push(0xac);
    assert_eq!(response.to_vector(&plain_get()), expected);
}

#[test]
fn head_request_gets_no_body() {
    let head = request("HEAD / HTTP/1.1\r\nHost: h\r\nAccept-Encoding: gzip\r\n\r\n");
    for status in [Status::Okay, Status::NotFound, Status::Unknown(299), Status::Custom(500, "x".to_string())] {
        let mut response = Response::empty();
        response
            .set_status(status)
            .set_body(ResponseBody::Text("never sent".to_string()))
            .set_body_encoding(Some(BodyEncoding::Gzip), None);
        let bytes = response.to_vector(&head);
        let (head_text, body) = split_head(&bytes);
        assert!(body.is_empty());
        assert!(head_text.contains("Content-Length: 10\r\n"));
        assert!(head_text.contains("Content-Encoding: gzip\r\n"));
        assert!(bytes.ends_with(b"\r\n\r\n"));
    }
}

#[test]
fn status_204_gets_no_body_in_any_variant() {
    for status in [Status::NoContent, Status::Unknown(204), Status::Custom(204, "Empty".to_string())] {
        let mut response = Response::empty();
        response.set_status(status).set_body(ResponseBody::Text("not empty".to_string()));
        let bytes = response.to_vector(&plain_get());
        let (head_text, body) = split_head(&bytes);
        assert!(body.is_empty());
        assert!(head_text.starts_with("HTTP/1.1 204 "));
        assert!(head_text.ends_with("Content-Length: 9\r\n\r\n"));
    }
    let mut other = Response::empty();
    other.set_status(Status::Unknown(205)).set_body(ResponseBody::Text("x".to_string()));
    assert!(other.to_vector(&plain_get()).ends_with(b"\r\n\r\nx"));
}

#[test]
fn gzip_body_is_a_gzip_stream_of_the_body() {
    let text = "compress me ".repeat(50);
    let mut response = Response::empty();
    response
        .set_body(ResponseBody::Text(text.clone()))
        .set_body_encoding(Some(BodyEncoding::Gzip), Some(CompressionLevel::best()));
    let bytes = response.to_vector(&accepting("gzip"));
    let (head, body) = split_head(&bytes);
    assert_eq!(head, "HTTP/1.1 200 OK\r\nContent-Encoding: gzip\r\nContent-Length: 600\r\n\r\n");
    assert_ne!(body, text.as_bytes());
    assert!(body.len() < text.len());
    let mut decoded = String::new();
    flate2::read::GzDecoder::new(&body[..]).read_to_string(&mut decoded).unwrap();
    assert_eq!(decoded, text);
}

#[test]
fn deflate_body_is_a_deflate_stream_of_the_body() {
    let data: Vec<u8> = (0..2000u32).map(|i| (i % 7) as u8).collect();
    let mut response = Response::empty();
    response
        .set_body(ResponseBody::Binary(data.clone()))
        .set_body_encoding(Some(BodyEncoding::Deflate), None);
    let bytes = response.to_vector(&accepting("deflate, gzip"));
    let (head, body) = split_head(&bytes);
    assert!(head.contains("Content-Encoding: deflate\r\n"));
    assert_ne!(body, data);
    let mut decoded = Vec::new();
    flate2::read::DeflateDecoder::new(&body[..]).read_to_end(&mut decoded).unwrap();
    assert_eq!(decoded, data);
}

#[test]
fn brotli_body_is_a_brotli_stream_of_the_body() {
    let text = "brotli brotli brotli ".repeat(40);
    let mut response = Response::empty();
    response
        .set_body(ResponseBody::Text(text.clone()))
        .set_body_encoding(Some(BodyEncoding::Brotli), Some(CompressionLevel::new(5)));
    let bytes = response.to_vector(&accepting("*"));
    let (head, body) = split_head(&bytes);
    assert!(head.contains("Content-Encoding: br\r\n"));
    assert_ne!(body, text.as_bytes());
    let mut decoded = String::new();
    brotli::Decompressor::new(&body[..], 4096).read_to_string(&mut decoded).unwrap();
    assert_eq!(decoded, text);
}

#[test]
fn empty_body_is_compressed_too() {
    let mut response = Response::empty();
    response.set_body_encoding(Some(BodyEncoding::Gzip), None);
    let bytes = response.to_vector(&accepting("gzip"));
    let (head, body) = split_head(&bytes);
    assert_eq!(head, "HTTP/1.1 200 OK\r\nContent-Encoding: gzip\r\n\r\n");
    let mut decoded = Vec::new();
    flate2::read::GzDecoder::new(&body[..]).read_to_end(&mut decoded).unwrap();
    assert!(decoded.is_empty());
    assert!(!body.is_empty());
}

#[test]
fn compression_that_the_client_does_not_take_is_not_applied() {
    let mut response = Response::empty();
    response
        .set_body(ResponseBody::Text("plain".to_string()))
        .set_body_encoding(Some(BodyEncoding::Brotli), None);
    let expected = b"HTTP/1.1 200 OK\r\nContent-Length: 5\r\n\r\nplain".to_vec();
    assert_eq!(response.to_vector(&accepting("gzip")), expected);
    assert_eq!(response.to_vector(&plain_get()), expected);
    let unknown = request("GET / HTTP/1.1\r\nHost: h\r\nX-Accept-Encoding: br\r\n\r\n");
    assert_eq!(response.to_vector(&unknown), expected);
}

#[test]
fn level_above_the_codec_leaves_the_body_as_it_is_and_keeps_the_header() {
    let mut response = Response::empty();
    response
        .set_body(ResponseBody::Text("abc".to_string()))
        .set_body_encoding(Some(BodyEncoding::Gzip), Some(CompressionLevel::new(11)));
    assert_eq!(
        response.to_vector(&accepting("gzip")),
        b"HTTP/1.1 200 OK\r\nContent-Encoding: gzip\r\nContent-Length: 3\r\n\r\nabc".to_vec()
    );
    response.set_body_encoding(Some(BodyEncoding::Gzip), Some(CompressionLevel::new(10)));
    assert!(!response.to_vector(&accepting("gzip")).ends_with(b"\r\n\r\nabc"));
}

#[test]
fn assemble_takes_the_stream_that_it_is_given() {
    let mut response = Response::empty();
    response
        .set_body(ResponseBody::Text("abc".to_string()))
        .set_body_encoding(Some(BodyEncoding::Deflate), None);
    let client = accepting("deflate");
    assert_eq!(
        response.assemble(&client, Some(vec![1, 2, 3, 4])),
        b"HTTP/1.1 200 OK\r\nContent-Encoding: deflate\r\nContent-Length: 3\r\n\r\n\x01\x02\x03\x04".to_vec()
    );
    assert_eq!(
        response.assemble(&client, None),
        b"HTTP/1.1 200 OK\r\nContent-Encoding: deflate\r\nContent-Length: 3\r\n\r\nabc".to_vec()
    );
    assert_eq!(
        response.assemble(&plain_get(), Some(vec![1, 2, 3, 4])),
        b"HTTP/1.1 200 OK\r\nContent-Length: 3\r\n\r\nabc".to_vec()
    );
}

#[test]
fn redirect_names_the_target() {
    let response = Response::redirect("/next".to_string(), None);
    assert_eq!(
        String::from_utf8(response.to_vector(&plain_get())).unwrap(),
        "HTTP/1.1 302 Moved Temporarily\r\nContent-Length: 20\r\nContent-Type: text/plain\r\nLocation: /next\r\n\r\nRedirecting to /next"
    );
    let permanent = Response::redirect("/p".to_string(), Some(Status::MovedPermanently));
    assert!(matches!(permanent.status, Status::MovedPermanently));
    assert!(matches!(&permanent.body, ResponseBody::Text(t) if t == "Redirecting to /p"));
    assert_eq!(permanent.headers.len(), 2);
}

#[test]
fn builders_set_what_they_name() {
    let mut response = Response::empty();
    assert!(matches!(response.status, Status::Okay));
    assert!(response.headers.is_empty());
    assert!(matches!(response.body, ResponseBody::Empty));
    assert!(matches!(response.encoding, (None, None)));
    response
        .set_status(Status::Created)
        .set_content_type(Mime::application("json"))
        .set_body(ResponseBody::Binary(vec![1]))
        .set_body_encoding(Some(BodyEncoding::Deflate), Some(CompressionLevel::fast()));
    assert!(matches!(response.status, Status::Created));
    assert!(matches!(&response.headers[0], Header::ContentType(Mime::Application(s, None)) if s == "json"));
    assert!(matches!(&response.body, ResponseBody::Binary(b) if *b == vec![1]));
    assert!(matches!(response.encoding, (Some(BodyEncoding::Deflate), Some(l)) if l.level() == 1));
}

#[test]
fn compression_levels() {
    assert_eq!(CompressionLevel::none().level(), 0);
    assert_eq!(CompressionLevel::fast().level(), 1);
    assert_eq!(CompressionLevel::best().level(), 9);
    assert_eq!(CompressionLevel::new(4).level(), 4);
    assert_eq!(BodyEncoding::Gzip.to_string(), "gzip");
    assert_eq!(BodyEncoding::Deflate.to_string(), "deflate");
    assert_eq!(BodyEncoding::Brotli.to_string(), "br");
}

#[test]
fn brotli_takes_every_level() {
    let text = "level ".repeat(30);
    for level in [0u32, 1, 11, 12, 1000, u32::MAX] {
        let mut response = Response::empty();
        response
            .set_body(ResponseBody::Text(text.clone()))
            .set_body_encoding(Some(BodyEncoding::Brotli), Some(CompressionLevel::new(level)));
        let bytes = response.to_vector(&accepting("br"));
        let (_, body) = split_head(&bytes);
        let mut decoded = String::new();
        brotli::Decompressor::new(&body[..], 4096).read_to_string(&mut decoded).unwrap();
        assert_eq!(decoded, text);
    }
}

#[test]
fn gzip_and_deflate_take_the_levels_up_to_ten() {
    let data: Vec<u8> = b"abcabcabcabcabcabc".to_vec();
    for level in 0..=10u32 {
        for encoding in [BodyEncoding::Gzip, BodyEncoding::Deflate] {
            let mut response = Response::empty();
            response
                .set_body(ResponseBody::Binary(data.clone()))
                .set_body_encoding(Some(encoding), Some(CompressionLevel::new(level)));
            let bytes = response.to_vector(&accepting("gzip, deflate"));
            let (_, body) = split_head(&bytes);
            let mut decoded = Vec::new();
            match encoding {
                BodyEncoding::Gzip => {
                    flate2::read::GzDecoder::new(&body[..]).read_to_end(&mut decoded).unwrap();
                }
                _ => {
                    flate2::read::DeflateDecoder::new(&body[..]).read_to_end(&mut decoded).unwrap();
                }
            }
            assert_eq!(decoded, data);
        }
    }
}

#[test]
fn large_body_is_compressed_whole() {
    let data: Vec<u8> = (0..300_000u32).map(|i| (i.wrapping_mul(2654435761) >> 24) as u8).collect();
    for encoding in [BodyEncoding::Gzip, BodyEncoding::Deflate, BodyEncoding::Brotli] {
        let mut response = Response::empty();
        response.set_body(ResponseBody::Binary(data.clone())).set_body_encoding(Some(encoding), None);
        let bytes = response.to_vector(&accepting("*"));
        let (_, body) = split_head(&bytes);
        let mut decoded = Vec::new();
        match encoding {
            BodyEncoding::Gzip => {
                flate2::read::GzDecoder::new(&body[..]).read_to_end(&mut decoded).unwrap();
            }
            BodyEncoding::Deflate => {
                flate2::read::DeflateDecoder::new(&body[..]).read_to_end(&mut decoded).unwrap();
            }
            BodyEncoding::Brotli => {
                brotli::Decompressor::new(&body[..], 4096).read_to_end(&mut decoded).unwrap();
            }
        }
        assert_eq!(decoded, data);
    }
}

#[test]
fn compression_gives_the_same_stream_each_time() {
    let mut response = Response::empty();
    response.set_body(ResponseBody::Text("again and again".to_string()));
    for encoding in [BodyEncoding::Gzip, BodyEncoding::Deflate, BodyEncoding::Brotli] {
        response.set_body_encoding(Some(encoding), Some(CompressionLevel::best()));
        let first = response.to_vector(&accepting("*"));
        let second = response.to_vector(&accepting("*"));
        assert_eq!(first, second);
    }
}

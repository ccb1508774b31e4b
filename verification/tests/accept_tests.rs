use http_codec::accept::{AcceptEncoding, AcceptEncodings, Encoding};
use http_codec::response::BodyEncoding;

#[test]
fn gzip_and_weighted_brotli_accept_brotli() {
    let list = AcceptEncodings::parse("gzip, br;q=1").unwrap();
    assert!(list.accept(&BodyEncoding::Brotli));
    assert!(list.accept(&BodyEncoding::Gzip));
    assert!(!list.accept(&BodyEncoding::Deflate));
}

#[test]
fn gzip_alone_does_not_accept_brotli() {
    let list = AcceptEncodings::parse("gzip").unwrap();
    assert!(!list.accept(&BodyEncoding::Brotli));
}

#[test]
fn wildcard_accepts_every_compression() {
    let list = AcceptEncodings::parse("*").unwrap();
    for encoding in [BodyEncoding::Gzip, BodyEncoding::Deflate, BodyEncoding::Brotli] {
        assert!(list.accept(&encoding));
    }
}

#[test]
fn unknown_encoding_fails_the_list() {
    assert!(AcceptEncodings::parse("gzip, zstd").is_err());
    assert!(AcceptEncoding::parse("identity").is_err());
    assert!(Encoding::parse("GZIP").is_err());
    assert!(Encoding::parse("").is_err());
}

#[test]
fn encoding_tokens_read_and_write() {
    assert_eq!(Encoding::parse("gzip"), Ok(Encoding::Gzip));
    assert_eq!(Encoding::parse("deflate"), Ok(Encoding::Deflate));
    assert_eq!(Encoding::parse("br"), Ok(Encoding::Br));
    assert_eq!(Encoding::parse("*"), Ok(Encoding::All));
    assert_eq!(Encoding::Gzip.to_string(), "gzip");
    assert_eq!(Encoding::Deflate.to_string(), "deflate");
    assert_eq!(Encoding::Br.to_string(), "br");
    assert_eq!(Encoding::All.to_string(), "*");
}

#[test]
fn encoding_of_a_compression() {
    assert_eq!(Encoding::from(BodyEncoding::Gzip), Encoding::Gzip);
    assert_eq!(Encoding::from(BodyEncoding::Deflate), Encoding::Deflate);
    assert_eq!(Encoding::from(BodyEncoding::Brotli), Encoding::Br);
}

#[test]
fn weight_is_read_where_it_is_a_small_integer() {
    let entry = AcceptEncoding::parse("br;q=1").unwrap();
    assert_eq!(entry.encoding(), Encoding::Br);
    assert_eq!(entry.quality(), Some(1));
    assert_eq!(AcceptEncoding::parse("gzip;q=-5").unwrap().quality(), Some(-5));
    assert_eq!(AcceptEncoding::parse("gzip;q=+7").unwrap().quality(), Some(7));
    assert_eq!(AcceptEncoding::parse("gzip;q=127").unwrap().quality(), Some(127));
    assert_eq!(AcceptEncoding::parse("gzip;q=-128").unwrap().quality(), Some(-128));
}

#[test]
fn weight_that_does_not_read_is_left_out() {
    assert_eq!(AcceptEncoding::parse("gzip;q=0.8").unwrap().quality(), None);
    assert_eq!(AcceptEncoding::parse("gzip;q=128").unwrap().quality(), None);
    assert_eq!(AcceptEncoding::parse("gzip;q=-129").unwrap().quality(), None);
    assert_eq!(AcceptEncoding::parse("gzip;q").unwrap().quality(), None);
    assert_eq!(AcceptEncoding::parse("gzip;q=").unwrap().quality(), None);
    assert_eq!(AcceptEncoding::parse("gzip").unwrap().quality(), None);
}

#[test]
fn weight_plays_no_part_in_acceptance() {
    let list = AcceptEncodings::parse("gzip;q=0").unwrap();
    assert!(list.accept(&BodyEncoding::Gzip));
}

#[test]
fn pieces_are_trimmed_of_whitespace_and_empty_ones_passed_over() {
    let list = AcceptEncodings::parse(" \tgzip ,, deflate\u{a0},").unwrap();
    assert_eq!(list.to_string(), "gzip, deflate");
    assert!(AcceptEncodings::parse("").unwrap().to_string().is_empty());
}

#[test]
fn list_writes_entries_with_comma_and_space() {
    let list = AcceptEncodings::new(vec![
        AcceptEncoding::new(Encoding::Gzip, None),
        AcceptEncoding::new(Encoding::Br, Some(1)),
        AcceptEncoding::new(Encoding::All, Some(-3)),
    ]);
    assert_eq!(list.to_string(), "gzip, br;q=1, *;q=-3");
    assert_eq!(AcceptEncoding::new(Encoding::Deflate, Some(-128)).to_string(), "deflate;q=-128");
}

#[test]
fn entry_accepts_its_own_compression_only() {
    let gzip = AcceptEncoding::new(Encoding::Gzip, None);
    assert!(gzip.accept(&BodyEncoding::Gzip));
    assert!(!gzip.accept(&BodyEncoding::Deflate));
    assert!(!gzip.accept(&BodyEncoding::Brotli));
    let br = AcceptEncoding::new(Encoding::Br, None);
    assert!(br.accept(&BodyEncoding::Brotli));
    assert!(!br.accept(&BodyEncoding::Gzip));
}

#[test]
fn default_list_is_empty_and_accepts_nothing() {
    let list = AcceptEncodings::default();
    assert_eq!(list.to_string(), "");
    assert!(!list.accept(&BodyEncoding::Gzip));
}

#[test]
fn texts_parse_through_the_standard_trait() {
    assert_eq!("br".parse::<Encoding>(), Ok(Encoding::Br));
    assert!("brotli".parse::<Encoding>().is_err());
    assert_eq!("gzip;q=3".parse::<AcceptEncoding>().unwrap().quality(), Some(3));
    let list: AcceptEncodings = "deflate, *;q=0".parse().unwrap();
    assert_eq!(list.to_string(), "deflate, *;q=0");
    assert_eq!(list.clone().to_string(), "deflate, *;q=0");
    assert!("deflate, x".parse::<AcceptEncodings>().is_err());
}

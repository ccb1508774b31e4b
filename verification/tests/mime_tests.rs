use http_codec::mime::Mime;

#[test]
fn known_types_read_into_their_variants() {
    assert!(matches!(Mime::parse(&"text/html".to_string()), Ok(Mime::Text(s, None)) if s == "html"));
    assert!(matches!(
        Mime::parse(&"application/json".to_string()),
        Ok(Mime::Application(s, None)) if s == "json"
    ));
    assert!(matches!(Mime::parse(&"audio/ogg".to_string()), Ok(Mime::Audio(s, None)) if s == "ogg"));
    assert!(matches!(Mime::parse(&"image/png".to_string()), Ok(Mime::Image(s, None)) if s == "png"));
    assert!(matches!(
        Mime::parse(&"message/rfc822".to_string()),
        Ok(Mime::Message(s, None)) if s == "rfc822"
    ));
    assert!(matches!(Mime::parse(&"model/obj".to_string()), Ok(Mime::Model(s, None)) if s == "obj"));
    assert!(matches!(Mime::parse(&"video/mp4".to_string()), Ok(Mime::Video(s, None)) if s == "mp4"));
}

#[test]
fn other_types_are_custom_and_case_counts() {
    assert!(matches!(
        Mime::parse(&"font/woff2".to_string()),
        Ok(Mime::Custom(t, s, None)) if t == "font" && s == "woff2"
    ));
    assert!(matches!(
        Mime::parse(&"Text/html".to_string()),
        Ok(Mime::Custom(t, s, None)) if t == "Text" && s == "html"
    ));
}

#[test]
fn one_parameter_is_read() {
    let mime = Mime::parse(&"text/html;charset=utf-8".to_string()).unwrap();
    assert!(matches!(
        &mime,
        Mime::Text(s, Some((k, v))) if s == "html" && k == "charset" && v == "utf-8"
    ));
    assert_eq!(mime.to_string(), "text/html;charset=utf-8");
}

#[test]
fn second_parameter_is_not_read() {
    let mime = Mime::parse(&"text/html;a=1;b=2".to_string()).unwrap();
    assert_eq!(mime.to_string(), "text/html;a=1");
}

#[test]
fn missing_slash_is_an_error() {
    assert_eq!(Mime::parse(&"texthtml".to_string()).unwrap_err(), "Invalid MIME type");
    assert_eq!(Mime::parse(&"".to_string()).unwrap_err(), "Invalid MIME type");
}

#[test]
fn parameter_without_equals_sign_is_an_error() {
    assert_eq!(Mime::parse(&"text/html;charset".to_string()).unwrap_err(), "Invalid MIME type");
}

#[test]
fn builders_give_the_variant_without_parameter() {
    assert_eq!(Mime::text("plain").to_string(), "text/plain");
    assert_eq!(Mime::application("json").to_string(), "application/json");
    assert_eq!(Mime::audio("mp3").to_string(), "audio/mp3");
    assert_eq!(Mime::image("png").to_string(), "image/png");
    assert_eq!(Mime::message("http").to_string(), "message/http");
    assert_eq!(Mime::model("stl").to_string(), "model/stl");
    assert_eq!(Mime::video("webm").to_string(), "video/webm");
    assert_eq!(Mime::custom("font", "ttf").to_string(), "font/ttf");
    assert!(matches!(Mime::custom("text", "x"), Mime::Custom(_, _, None)));
}

#[test]
fn new_picks_the_variant_by_the_type() {
    assert!(matches!(
        Mime::new("image".to_string(), "gif".to_string(), None),
        Mime::Image(s, None) if s == "gif"
    ));
    let with = Mime::new(
        "chemical".to_string(),
        "x-pdb".to_string(),
        Some(("a".to_string(), "b".to_string())),
    );
    assert_eq!(with.to_string(), "chemical/x-pdb;a=b");
}

#[test]
fn extensions_of_the_table() {
    assert_eq!(Mime::from_extension(&"txt".to_string(), None).unwrap().to_string(), "text/plain");
    assert_eq!(Mime::from_extension(&"html".to_string(), None).unwrap().to_string(), "text/html");
    assert_eq!(
        Mime::from_extension(&"js".to_string(), None).unwrap().to_string(),
        "application/javascript"
    );
    assert_eq!(Mime::from_extension(&"mp3".to_string(), None).unwrap().to_string(), "audio/mp3");
    assert_eq!(Mime::from_extension(&"mp4".to_string(), None).unwrap().to_string(), "video/mp3");
}

#[test]
fn leading_dots_of_an_extension_are_set_aside() {
    assert_eq!(Mime::from_extension(&".txt".to_string(), None).unwrap().to_string(), "text/plain");
    assert_eq!(Mime::from_extension(&"...js".to_string(), None).unwrap().to_string(), "application/javascript");
}

#[test]
fn unknown_extension_gives_the_default() {
    assert!(Mime::from_extension(&"exe".to_string(), None).is_none());
    let fallback = Mime::from_extension(&"TXT".to_string(), Some(Mime::application("octet-stream")));
    assert_eq!(fallback.unwrap().to_string(), "application/octet-stream");
    assert!(Mime::from_extension(&"t.xt".to_string(), None).is_none());
}

#[test]
fn copies_of_media_types() {
    for text in ["text/plain", "font/woff;a=b", "video/mp4;codec=x"] {
        let mime = Mime::parse(&text.to_string()).unwrap();
        assert_eq!(mime.clone().to_string(), text);
    }
}

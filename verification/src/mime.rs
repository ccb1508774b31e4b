//! Media types: `type/subtype`, with at most one `key=value` parameter.

use vstd::prelude::*;
use crate::text::{chars_of, one_char, split, split_chars, string_of, texts};

verus! {

/// A media type. The seven registered top-level types have a variant each, which holds the
/// subtype and the parameter; any other type is `Custom` and holds its own name first.
#[derive(Debug)]
pub enum Mime {
    Custom(String, String, Option<(String, String)>),
    Text(String, Option<(String, String)>),
    Application(String, Option<(String, String)>),
    Audio(String, Option<(String, String)>),
    Image(String, Option<(String, String)>),
    Message(String, Option<(String, String)>),
    Model(String, Option<(String, String)>),
    Video(String, Option<(String, String)>),
}

/// The mathematical value of a `Mime`.
pub enum MimeView {
    Custom(Seq<char>, Seq<char>, Option<(Seq<char>, Seq<char>)>),
    Text(Seq<char>, Option<(Seq<char>, Seq<char>)>),
    Application(Seq<char>, Option<(Seq<char>, Seq<char>)>),
    Audio(Seq<char>, Option<(Seq<char>, Seq<char>)>),
    Image(Seq<char>, Option<(Seq<char>, Seq<char>)>),
    Message(Seq<char>, Option<(Seq<char>, Seq<char>)>),
    Model(Seq<char>, Option<(Seq<char>, Seq<char>)>),
    Video(Seq<char>, Option<(Seq<char>, Seq<char>)>),
}

/// The value of an optional parameter.
pub open spec fn parameter_view(p: Option<(String, String)>) -> Option<(Seq<char>, Seq<char>)> {
    match p {
        Some((k, v)) => Some((k@, v@)),
        None => None,
    }
}

/// The value of an optional media type.
pub open spec fn optional_mime_view(m: Option<Mime>) -> Option<MimeView> {
    match m {
        Some(m) => Some(m@),
        None => None,
    }
}

impl View for Mime {
    type V = MimeView;

    open spec fn view(&self) -> MimeView {
        match *self {
            Mime::Custom(t, s, p) => MimeView::Custom(t@, s@, parameter_view(p)),
            Mime::Text(s, p) => MimeView::Text(s@, parameter_view(p)),
            Mime::Application(s, p) => MimeView::Application(s@, parameter_view(p)),
            Mime::Audio(s, p) => MimeView::Audio(s@, parameter_view(p)),
            Mime::Image(s, p) => MimeView::Image(s@, parameter_view(p)),
            Mime::Message(s, p) => MimeView::Message(s@, parameter_view(p)),
            Mime::Model(s, p) => MimeView::Model(s@, parameter_view(p)),
            Mime::Video(s, p) => MimeView::Video(s@, parameter_view(p)),
        }
    }
}

impl MimeView {
    /// The media type with the given type name: one of the seven registered variants where
    /// the name is exactly theirs, `Custom` otherwise.
    pub open spec fn new(
        type_: Seq<char>,
        subtype: Seq<char>,
        parameter: Option<(Seq<char>, Seq<char>)>,
    ) -> MimeView {
        if type_ == "text"@ {
            MimeView::Text(subtype, parameter)
        } else if type_ == "application"@ {
            MimeView::Application(subtype, parameter)
        } else if type_ == "audio"@ {
            MimeView::Audio(subtype, parameter)
        } else if type_ == "image"@ {
            MimeView::Image(subtype, parameter)
        } else if type_ == "message"@ {
            MimeView::Message(subtype, parameter)
        } else if type_ == "model"@ {
            MimeView::Model(subtype, parameter)
        } else if type_ == "video"@ {
            MimeView::Video(subtype, parameter)
        } else {
            MimeView::Custom(type_, subtype, parameter)
        }
    }

    /// The name of the top-level type.
    pub open spec fn family(self) -> Seq<char> {
        match self {
            MimeView::Custom(t, _, _) => t,
            MimeView::Text(_, _) => "text"@,
            MimeView::Application(_, _) => "application"@,
            MimeView::Audio(_, _) => "audio"@,
            MimeView::Image(_, _) => "image"@,
            MimeView::Message(_, _) => "message"@,
            MimeView::Model(_, _) => "model"@,
            MimeView::Video(_, _) => "video"@,
        }
    }

    /// The subtype.
    pub open spec fn subtype(self) -> Seq<char> {
        match self {
            MimeView::Custom(_, s, _) => s,
            MimeView::Text(s, _) => s,
            MimeView::Application(s, _) => s,
            MimeView::Audio(s, _) => s,
            MimeView::Image(s, _) => s,
            MimeView::Message(s, _) => s,
            MimeView::Model(s, _) => s,
            MimeView::Video(s, _) => s,
        }
    }

    /// The parameter, if there is one.
    pub open spec fn parameter(self) -> Option<(Seq<char>, Seq<char>)> {
        match self {
            MimeView::Custom(_, _, p) => p,
            MimeView::Text(_, p) => p,
            MimeView::Application(_, p) => p,
            MimeView::Audio(_, p) => p,
            MimeView::Image(_, p) => p,
            MimeView::Message(_, p) => p,
            MimeView::Model(_, p) => p,
            MimeView::Video(_, p) => p,
        }
    }

    /// The wire text: `type/subtype`, then `;key=value` where there is a parameter.
    pub open spec fn text(self) -> Seq<char> {
        let head = self.family() + seq!['/'] + self.subtype();
        match self.parameter() {
            Some((k, v)) => head + seq![';'] + k + seq!['='] + v,
            None => head,
        }
    }

    /// Reads a media type. The text is cut at `/`: the first piece is the type, the second
    /// holds the subtype and, after a `;`, one parameter, which is cut at `=` into key and
    /// value. There is no media type where the `/` is missing, or the `=` of a parameter.
    pub open spec fn parse(raw: Seq<char>) -> Option<MimeView> {
        let segments = split(raw, seq!['/']);
        if segments.len() < 2 {
            None
        } else {
            let parts = split(segments[1], seq![';']);
            if parts.len() < 2 {
                Some(MimeView::new(segments[0], parts[0], None))
            } else {
                let pair = split(parts[1], seq!['=']);
                if pair.len() < 2 {
                    None
                } else {
                    Some(MimeView::new(segments[0], parts[0], Some((pair[0], pair[1]))))
                }
            }
        }
    }

    /// The media type text that the table of file extensions holds for an extension.
    pub open spec fn extension_entry(extension: Seq<char>) -> Option<Seq<char>> {
        if extension == "txt"@ {
            Some("text/plain"@)
        } else if extension == "html"@ {
            Some("text/html"@)
        } else if extension == "js"@ {
            Some("application/javascript"@)
        } else if extension == "mp3"@ {
            Some("audio/mp3"@)
        } else if extension == "mp4"@ {
            Some("video/mp3"@)
        } else {
            None
        }
    }

    /// The media type of a file extension, leading dots set aside: what the table holds for
    /// it, read as a media type, and `default` where the table holds nothing that reads.
    pub open spec fn from_extension(extension: Seq<char>, default: Option<MimeView>) -> Option<
        MimeView,
    > {
        match MimeView::extension_entry(without_leading_dots(extension)) {
            Some(raw) => match MimeView::parse(raw) {
                Some(m) => Some(m),
                None => default,
            },
            None => default,
        }
    }
}

fn clone_parameter(parameter: &Option<(String, String)>) -> (r: Option<(String, String)>)
    ensures
        parameter_view(r) == parameter_view(*parameter),
{
    match parameter {
        Some((key, value)) => Some((key.clone(), value.clone())),
        None => None,
    }
}

impl Clone for Mime {
    fn clone(&self) -> (r: Self)
        ensures
            r@ == self@,
    {
        match self {
            Mime::Custom(t, s, p) => Mime::Custom(t.clone(), s.clone(), clone_parameter(p)),
            Mime::Text(s, p) => Mime::Text(s.clone(), clone_parameter(p)),
            Mime::Application(s, p) => Mime::Application(s.clone(), clone_parameter(p)),
            Mime::Audio(s, p) => Mime::Audio(s.clone(), clone_parameter(p)),
            Mime::Image(s, p) => Mime::Image(s.clone(), clone_parameter(p)),
            Mime::Message(s, p) => Mime::Message(s.clone(), clone_parameter(p)),
            Mime::Model(s, p) => Mime::Model(s.clone(), clone_parameter(p)),
            Mime::Video(s, p) => Mime::Video(s.clone(), clone_parameter(p)),
        }
    }
}

/// `s` without the dots at its start.
pub open spec fn without_leading_dots(s: Seq<char>) -> Seq<char>
    decreases s.len(),
{
    if s.len() > 0 && s[0] == '.' {
        without_leading_dots(s.skip(1))
    } else {
        s
    }
}

/// The text of the error that `Mime::parse` reports.
pub open spec fn invalid_mime_message() -> Seq<char> {
    "Invalid MIME type"@
}

fn parameter_of(k: &Vec<char>, v: &Vec<char>) -> (r: Option<(String, String)>)
    ensures
        parameter_view(r) == Some((k@, v@)),
{
    Some((string_of(k), string_of(v)))
}

impl Mime {
    /// Builds the media type with the given type name, subtype and parameter.
    pub fn new(type_: String, subtype: String, parameters: Option<(String, String)>) -> (r: Mime)
        ensures
            r@ == MimeView::new(type_@, subtype@, parameter_view(parameters)),
    {
        let t = chars_of(type_.as_str());
        if crate::text::is_text(&t, "text") {
            Mime::Text(subtype, parameters)
        } else if crate::text::is_text(&t, "application") {
            Mime::Application(subtype, parameters)
        } else if crate::text::is_text(&t, "audio") {
            Mime::Audio(subtype, parameters)
        } else if crate::text::is_text(&t, "image") {
            Mime::Image(subtype, parameters)
        } else if crate::text::is_text(&t, "message") {
            Mime::Message(subtype, parameters)
        } else if crate::text::is_text(&t, "model") {
            Mime::Model(subtype, parameters)
        } else if crate::text::is_text(&t, "video") {
            Mime::Video(subtype, parameters)
        } else {
            Mime::Custom(type_, subtype, parameters)
        }
    }

    /// Looks a file extension up in the table of known extensions.
    pub fn from_extension(extension: &String, default: Option<Mime>) -> (r: Option<Mime>)
        ensures
            optional_mime_view(r) == MimeView::from_extension(
                extension@,
                optional_mime_view(default),
            ),
    {
        let v = chars_of(extension.as_str());
        let mut start: usize = 0;
        assert(v@.skip(0) == v@);
        while start < v.len() && v[start] == '.'
            invariant
                start <= v.len(),
                without_leading_dots(v@) == without_leading_dots(v@.skip(start as int)),
            decreases v.len() - start,
        {
            assert(v@.skip(start as int).skip(1) == v@.skip(start + 1));
            start += 1;
        }
        let s = crate::text::slice_chars(&v, start, v.len());
        assert(s@ == without_leading_dots(v@));
        let found: Option<&str> = if crate::text::is_text(&s, "txt") {
            Some("text/plain")
        } else if crate::text::is_text(&s, "html") {
            Some("text/html")
        } else if crate::text::is_text(&s, "js") {
            Some("application/javascript")
        } else if crate::text::is_text(&s, "mp3") {
            Some("audio/mp3")
        } else if crate::text::is_text(&s, "mp4") {
            Some("video/mp3")
        } else {
            None
        };
        match found {
            Some(raw) => {
                let raw_chars = chars_of(raw);
                match Mime::parse_chars(&raw_chars) {
                    Some(mime) => Some(mime),
                    None => default,
                }
            },
            None => default,
        }
    }

    /// Reads a media type out of its characters.
    pub fn parse_chars(raw: &Vec<char>) -> (r: Option<Mime>)
        ensures
            optional_mime_view(r) == MimeView::parse(raw@),
    {
        let segments = split_chars(raw, &one_char('/'));
        if segments.len() < 2 {
            return None;
        }
        proof {
            assert(texts(segments@)[0] == segments@[0]@);
            assert(texts(segments@)[1] == segments@[1]@);
        }
        let parts = split_chars(&segments[1], &one_char(';'));
        proof {
            assert(texts(parts@)[0] == parts@[0]@);
        }
        let type_ = string_of(&segments[0]);
        let subtype = string_of(&parts[0]);
        if parts.len() < 2 {
            return Some(Mime::new(type_, subtype, None));
        }
        proof {
            assert(texts(parts@)[1] == parts@[1]@);
        }
        let pair = split_chars(&parts[1], &one_char('='));
        if pair.len() < 2 {
            return None;
        }
        proof {
            assert(texts(pair@)[0] == pair@[0]@);
            assert(texts(pair@)[1] == pair@[1]@);
        }
        Some(Mime::new(type_, subtype, parameter_of(&pair[0], &pair[1])))
    }

    /// Reads a media type of the form `type/subtype` or `type/subtype;key=value`.
    pub fn parse(raw: &String) -> (r: Result<Mime, String>)
        ensures
            match MimeView::parse(raw@) {
                Some(m) => r is Ok && r->Ok_0@ == m,
                None => r is Err && r->Err_0@ == invalid_mime_message(),
            },
    {
        let v = chars_of(raw.as_str());
        match Mime::parse_chars(&v) {
            Some(mime) => Ok(mime),
            None => Err(String::from_str("Invalid MIME type")),
        }
    }

    /// A media type of a type that has no variant of its own, without parameter.
    pub fn custom(type_: &str, subtype: &str) -> (r: Mime)
        ensures
            r@ == MimeView::Custom(type_@, subtype@, None),
    {
        Mime::Custom(String::from_str(type_), String::from_str(subtype), None)
    }

    /// The media type `text/subtype`.
    pub fn text(subtype: &str) -> (r: Mime)
        ensures
            r@ == MimeView::Text(subtype@, None),
    {
        Mime::Text(String::from_str(subtype), None)
    }

    /// The media type `application/subtype`.
    pub fn application(subtype: &str) -> (r: Mime)
        ensures
            r@ == MimeView::Application(subtype@, None),
    {
        Mime::Application(String::from_str(subtype), None)
    }

    /// The media type `audio/subtype`.
    pub fn audio(subtype: &str) -> (r: Mime)
        ensures
            r@ == MimeView::Audio(subtype@, None),
    {
        Mime::Audio(String::from_str(subtype), None)
    }

    /// The media type `image/subtype`.
    pub fn image(subtype: &str) -> (r: Mime)
        ensures
            r@ == MimeView::Image(subtype@, None),
    {
        Mime::Image(String::from_str(subtype), None)
    }

    /// The media type `message/subtype`.
    pub fn message(subtype: &str) -> (r: Mime)
        ensures
            r@ == MimeView::Message(subtype@, None),
    {
        Mime::Message(String::from_str(subtype), None)
    }

    /// The media type `model/subtype`.
    pub fn model(subtype: &str) -> (r: Mime)
        ensures
            r@ == MimeView::Model(subtype@, None),
    {
        Mime::Model(String::from_str(subtype), None)
    }

    /// The media type `video/subtype`.
    pub fn video(subtype: &str) -> (r: Mime)
        ensures
            r@ == MimeView::Video(subtype@, None),
    {
        Mime::Video(String::from_str(subtype), None)
    }

    /// Appends the wire text of the media type to `out`.
    pub fn write_to(&self, out: &mut String)
        ensures
            final(out)@ == old(out)@ + self@.text(),
    {
        let (subtype, parameter) = match self {
            Mime::Custom(type_, subtype, parameter) => {
                out.append(type_.as_str());
                (subtype, parameter)
            },
            Mime::Text(subtype, parameter) => {
                out.append("text");
                (subtype, parameter)
            },
            Mime::Application(subtype, parameter) => {
                out.append("application");
                (subtype, parameter)
            },
            Mime::Audio(subtype, parameter) => {
                out.append("audio");
                (subtype, parameter)
            },
            Mime::Image(subtype, parameter) => {
                out.append("image");
                (subtype, parameter)
            },
            Mime::Message(subtype, parameter) => {
                out.append("message");
                (subtype, parameter)
            },
            Mime::Model(subtype, parameter) => {
                out.append("model");
                (subtype, parameter)
            },
            Mime::Video(subtype, parameter) => {
                out.append("video");
                (subtype, parameter)
            },
        };
        assert(out@ == old(out)@ + self@.family());
        assert(subtype@ == self@.subtype());
        assert(parameter_view(*parameter) == self@.parameter());
        crate::text::push_char(out, '/');
        out.append(subtype.as_str());
        let ghost head = self@.family() + seq!['/'] + self@.subtype();
        assert(out@ == old(out)@ + head);
        match parameter {
            Some((key, value)) => {
                crate::text::push_char(out, ';');
                out.append(key.as_str());
                crate::text::push_char(out, '=');
                out.append(value.as_str());
                assert(out@ == old(out)@ + (head + seq![';'] + key@ + seq!['='] + value@));
            },
            None => {},
        }
    }

    /// The wire text of the media type.
    pub fn to_string(&self) -> (r: String)
        ensures
            r@ == self@.text(),
    {
        let mut out = String::new();
        self.write_to(&mut out);
        assert(Seq::<char>::empty() + self@.text() == self@.text());
        out
    }
}

} // verus!

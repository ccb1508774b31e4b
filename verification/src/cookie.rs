//! Cookies: the pairs that a `Cookie` request header carries, and the attributes of a
//! `Set-Cookie` response header.

use vstd::prelude::*;
use crate::number::{decimal, write_decimal};
use crate::percent::{
    append_encoded, decode_chars, percent_decoded, percent_encodable, percent_encoded,
};
use crate::text::{
    chars_of, free_of, free_of_char, join, occurs_at, one_char, push_char, split, split_chars,
    string_of, texts, two_chars,
};

verus! {

/// A cookie of a request: its name and its value, the value percent-decoded.
#[derive(Debug)]
pub struct RequestCookie(pub String, pub String);

/// Why a `Cookie` header does not read.
#[derive(Debug, Clone, Copy, PartialEq, Eq, Structural)]
pub enum ParseError {
    /// A piece of the header is not made of exactly two parts around one `=`.
    InvalidCookiePair,
    /// The name of a cookie is empty.
    InvalidCookieName,
    /// The value of a cookie does not decode.
    InvalidCookieValue,
}

/// The mathematical value of a `RequestCookie`.
pub struct RequestCookieView {
    pub name: Seq<char>,
    pub value: Seq<char>,
}

impl View for RequestCookie {
    type V = RequestCookieView;

    open spec fn view(&self) -> RequestCookieView {
        RequestCookieView { name: self.0@, value: self.1@ }
    }
}

impl Clone for RequestCookie {
    fn clone(&self) -> (r: Self)
        ensures
            r@ == self@,
    {
        RequestCookie(self.0.clone(), self.1.clone())
    }
}

/// The values of the cookies of a list.
pub open spec fn cookie_views(cookies: Seq<RequestCookie>) -> Seq<RequestCookieView> {
    cookies.map_values(|c: RequestCookie| c@)
}

/// The separator between the cookies of a header: a semicolon and a space.
pub open spec fn cookie_separator() -> Seq<char> {
    seq![';', ' ']
}

impl RequestCookieView {
    /// The wire text of a cookie: its name, `=`, and its value percent-encoded.
    pub open spec fn text(self) -> Seq<char> {
        self.name + seq!['='] + percent_encoded(self.value)
    }

    /// Reads one piece of a header. It has to be made of exactly two parts around one `=`:
    /// a name that is not empty, and a value that decodes.
    pub open spec fn parse(piece: Seq<char>) -> Result<RequestCookieView, ParseError> {
        let pair = split(piece, seq!['=']);
        if pair.len() != 2 {
            Err(ParseError::InvalidCookiePair)
        } else if pair[0].len() == 0 {
            Err(ParseError::InvalidCookieName)
        } else {
            match percent_decoded(pair[1]) {
                Some(value) => Ok(RequestCookieView { name: pair[0], value }),
                None => Err(ParseError::InvalidCookieValue),
            }
        }
    }

    /// Whether the name can be told from what stands around it in a header: it is not empty
    /// and holds neither `=` nor the separator of cookies.
    pub open spec fn nameable(self) -> bool {
        &&& self.name.len() > 0
        &&& free_of_char(self.name, '=')
        &&& free_of(self.name, cookie_separator())
    }

    /// Whether the cookie comes back from its wire text: its name can be told from what
    /// stands around it, and its value is percent-encodable.
    pub open spec fn writable(self) -> bool {
        self.nameable() && percent_encodable(self.value)
    }
}

/// The wire texts of the cookies of a list.
pub open spec fn cookie_texts(cookies: Seq<RequestCookieView>) -> Seq<Seq<char>> {
    cookies.map_values(|c: RequestCookieView| c.text())
}

/// The value of a `Cookie` header that carries the given cookies: their wire texts with
/// `; ` between them.
pub open spec fn format_cookies(cookies: Seq<RequestCookieView>) -> Seq<char> {
    join(cookie_texts(cookies), cookie_separator())
}

/// Reads the pieces of a header in order. The first piece that does not read decides the
/// error; no cookie is given where one piece fails.
pub open spec fn parse_pieces(pieces: Seq<Seq<char>>) -> Result<Seq<RequestCookieView>, ParseError>
    decreases pieces.len(),
{
    if pieces.len() == 0 {
        Ok(Seq::empty())
    } else {
        match parse_pieces(pieces.drop_last()) {
            Err(e) => Err(e),
            Ok(before) => match RequestCookieView::parse(pieces.last()) {
                Ok(c) => Ok(before.push(c)),
                Err(e) => Err(e),
            },
        }
    }
}

/// Reads the value of a `Cookie` header: the text is cut at each `; `, and the pieces are
/// read in order.
pub open spec fn parse_cookies(raw: Seq<char>) -> Result<Seq<RequestCookieView>, ParseError> {
    parse_pieces(split(raw, cookie_separator()))
}

/// Once a beginning of the pieces fails, the whole fails with the same error.
pub proof fn lemma_parse_pieces_fails(pieces: Seq<Seq<char>>, k: int)
    requires
        0 <= k <= pieces.len(),
        parse_pieces(pieces.take(k)) is Err,
    ensures
        parse_pieces(pieces) == parse_pieces(pieces.take(k)),
    decreases pieces.len(),
{
    if k == pieces.len() {
        assert(pieces.take(k) == pieces);
    } else {
        assert(pieces.drop_last().take(k) == pieces.take(k));
        lemma_parse_pieces_fails(pieces.drop_last(), k);
    }
}

/// The wire text of a writable cookie holds no separator of cookies.
pub proof fn lemma_text_free_of_separator(c: RequestCookieView)
    requires
        c.writable(),
    ensures
        free_of(c.text(), cookie_separator()),
{
    let t = c.text();
    let sep = cookie_separator();
    let e = percent_encoded(c.value);
    crate::percent::lemma_encoded_is_plain(c.value);
    assert forall|j: int| !occurs_at(t, sep, j) by {
        if occurs_at(t, sep, j) {
            assert(t.subrange(j, j + 2)[0] == ';');
            assert(t.subrange(j, j + 2)[1] == ' ');
            if j + 2 <= c.name.len() {
                assert(c.name.subrange(j, j + 2) == t.subrange(j, j + 2));
                assert(occurs_at(c.name, sep, j));
            } else if j + 1 == c.name.len() {
                assert(t[j + 1] == '=');
            } else if j == c.name.len() {
                assert(t[j] == '=');
            } else {
                assert(t[j] == e[j - c.name.len() - 1]);
            }
        }
    }
}

/// A writable cookie reads back from its wire text.
pub proof fn lemma_text_parses(c: RequestCookieView)
    requires
        c.writable(),
    ensures
        RequestCookieView::parse(c.text()) == Ok::<RequestCookieView, ParseError>(c),
{
    let e = percent_encoded(c.value);
    let eq = seq!['='];
    crate::percent::lemma_encoded_is_plain(c.value);
    crate::text::lemma_free_of_char(c.name, '=');
    assert(free_of_char(e, '='));
    crate::text::lemma_free_of_char(e, '=');
    crate::text::lemma_split_whole(e, eq);
    assert forall|j: int| 0 <= j < c.name.len() implies !occurs_at(c.name + eq + e, eq, j) by {
        if occurs_at(c.name + eq + e, eq, j) {
            assert((c.name + eq + e).subrange(j, j + 1)[0] == '=');
        }
    }
    crate::text::lemma_split_first(c.name, eq, e);
    assert(split(c.text(), eq) == seq![c.name, e]);
}

/// A list of cookies, written as the value of a `Cookie` header and read again, comes back
/// as it was. This holds of every list that is not empty and whose cookies are writable:
/// their names are not empty and hold neither `=` nor `; `, and their values are
/// percent-encodable.
pub proof fn lemma_format_then_parse(cookies: Seq<RequestCookieView>)
    requires
        cookies.len() > 0,
        forall|i: int| 0 <= i < cookies.len() ==> (#[trigger] cookies[i]).writable(),
    ensures
        parse_cookies(format_cookies(cookies)) == Ok::<Seq<RequestCookieView>, ParseError>(
            cookies,
        ),
{
    let parts = cookie_texts(cookies);
    assert forall|i: int| 0 <= i < parts.len() implies free_of(
        #[trigger] parts[i],
        cookie_separator(),
    ) by {
        lemma_text_free_of_separator(cookies[i]);
    }
    crate::text::lemma_split_join(parts, cookie_separator());
    lemma_texts_parse(cookies);
}

/// The wire texts of writable cookies read back as the cookies.
pub proof fn lemma_texts_parse(cookies: Seq<RequestCookieView>)
    requires
        forall|i: int| 0 <= i < cookies.len() ==> (#[trigger] cookies[i]).writable(),
    ensures
        parse_pieces(cookie_texts(cookies)) == Ok::<Seq<RequestCookieView>, ParseError>(cookies),
    decreases cookies.len(),
{
    if cookies.len() == 0 {
        assert(cookies == Seq::<RequestCookieView>::empty());
    } else {
        let before = cookies.drop_last();
        assert forall|i: int| 0 <= i < before.len() implies (#[trigger] before[i]).writable() by {
            assert(before[i] == cookies[i]);
        }
        lemma_texts_parse(before);
        assert(cookie_texts(cookies).drop_last() == cookie_texts(before));
        assert(cookie_texts(cookies).last() == cookies.last().text());
        lemma_text_parses(cookies.last());
        assert(before.push(cookies.last()) == cookies);
    }
}

impl RequestCookie {
    /// A copy of a list of cookies.
    pub fn clone_list(cookies: &Vec<RequestCookie>) -> (r: Vec<RequestCookie>)
        ensures
            cookie_views(r@) == cookie_views(cookies@),
    {
        let mut out: Vec<RequestCookie> = Vec::new();
        let mut i: usize = 0;
        while i < cookies.len()
            invariant
                i <= cookies.len(),
                cookie_views(out@) == cookie_views(cookies@).take(i as int),
            decreases cookies.len() - i,
        {
            let cookie = cookies[i].clone();
            proof {
                let all = cookie_views(cookies@);
                assert(all.take(i + 1) == all.take(i as int).push(all[i as int]));
                assert(cookie_views(out@.push(cookie)) == cookie_views(out@).push(cookie@));
            }
            out.push(cookie);
            i += 1;
        }
        assert(cookie_views(cookies@).take(cookies.len() as int) == cookie_views(cookies@));
        out
    }

    /// Reads one piece of a header out of its characters.
    pub fn parse_piece(piece: &Vec<char>) -> (r: Result<RequestCookie, ParseError>)
        ensures
            match RequestCookieView::parse(piece@) {
                Ok(c) => r is Ok && r->Ok_0@ == c,
                Err(e) => r == Err::<RequestCookie, ParseError>(e),
            },
    {
        let pair = split_chars(piece, &one_char('='));
        if pair.len() != 2 {
            return Err(ParseError::InvalidCookiePair);
        }
        proof {
            assert(texts(pair@)[0] == pair@[0]@);
            assert(texts(pair@)[1] == pair@[1]@);
        }
        if pair[0].len() == 0 {
            return Err(ParseError::InvalidCookieName);
        }
        match decode_chars(&pair[1]) {
            Some(value) => Ok(RequestCookie(string_of(&pair[0]), string_of(&value))),
            None => Err(ParseError::InvalidCookieValue),
        }
    }

    /// Reads the value of a `Cookie` header out of its characters.
    pub fn parse_chars(raw: &Vec<char>) -> (r: Result<Vec<RequestCookie>, ParseError>)
        ensures
            match parse_cookies(raw@) {
                Ok(l) => r is Ok && cookie_views(r->Ok_0@) == l,
                Err(e) => r == Err::<Vec<RequestCookie>, ParseError>(e),
            },
    {
        let pieces = split_chars(raw, &two_chars(';', ' '));
        let mut out: Vec<RequestCookie> = Vec::new();
        let mut i: usize = 0;
        assert(texts(pieces@).take(0) == Seq::<Seq<char>>::empty());
        assert(cookie_views(out@) == Seq::<RequestCookieView>::empty());
        while i < pieces.len()
            invariant
                i <= pieces.len(),
                texts(pieces@) == split(raw@, cookie_separator()),
                parse_pieces(texts(pieces@).take(i as int)) == Ok::<
                    Seq<RequestCookieView>,
                    ParseError,
                >(cookie_views(out@)),
            decreases pieces.len() - i,
        {
            let ghost upto = texts(pieces@).take(i + 1);
            proof {
                assert(upto.drop_last() == texts(pieces@).take(i as int));
                assert(upto.last() == pieces@[i as int]@);
            }
            match RequestCookie::parse_piece(&pieces[i]) {
                Ok(c) => {
                    proof {
                        assert(cookie_views(out@.push(c)) == cookie_views(out@).push(c@));
                    }
                    out.push(c);
                },
                Err(e) => {
                    proof {
                        assert(parse_pieces(upto) == Err::<Seq<RequestCookieView>, ParseError>(e));
                        lemma_parse_pieces_fails(texts(pieces@), i + 1);
                    }
                    return Err(e);
                },
            }
            i += 1;
        }
        assert(texts(pieces@).take(pieces.len() as int) == texts(pieces@));
        Ok(out)
    }

    /// Reads the value of a `Cookie` header: pairs `name=value` with `; ` between them.
    /// Either every pair reads, or the first one that does not decides the error.
    pub fn parse(raw: String) -> (r: Result<Vec<RequestCookie>, ParseError>)
        ensures
            match parse_cookies(raw@) {
                Ok(l) => r is Ok && cookie_views(r->Ok_0@) == l,
                Err(e) => r == Err::<Vec<RequestCookie>, ParseError>(e),
            },
    {
        RequestCookie::parse_chars(&chars_of(raw.as_str()))
    }

    /// Appends the value of a `Cookie` header that carries `cookies` to `out`. Every value
    /// that is written is percent-encodable.
    pub fn write_list(out: &mut String, cookies: &Vec<RequestCookie>)
        ensures
            final(out)@ == old(out)@ + format_cookies(cookie_views(cookies@)),
            forall|i: int|
                0 <= i < cookies.len() ==> percent_encodable(
                    (#[trigger] cookie_views(cookies@)[i]).value,
                ),
    {
        let ghost parts = cookie_texts(cookie_views(cookies@));
        let mut i: usize = 0;
        assert(parts.take(0) == Seq::<Seq<char>>::empty());
        assert(old(out)@ + Seq::<char>::empty() == old(out)@);
        while i < cookies.len()
            invariant
                i <= cookies.len(),
                parts == cookie_texts(cookie_views(cookies@)),
                out@ == old(out)@ + join(parts.take(i as int), cookie_separator()),
                forall|k: int|
                    0 <= k < i ==> percent_encodable((#[trigger] cookie_views(cookies@)[k]).value),
            decreases cookies.len() - i,
        {
            let ghost before = out@;
            if i > 0 {
                out.append("; ");
                proof {
                    reveal_strlit("; ");
                    assert("; "@ == cookie_separator());
                }
            }
            out.append(cookies[i].0.as_str());
            push_char(out, '=');
            append_encoded(out, cookies[i].1.as_str());
            proof {
                let part = parts[i as int];
                assert(part == cookies@[i as int]@.text());
                assert(parts.take(i + 1) == parts.take(i as int).push(part));
                crate::text::lemma_join_push(parts.take(i as int), cookie_separator(), part);
                if i > 0 {
                    assert(out@ == before + cookie_separator() + part);
                    assert(old(out)@ + join(parts.take(i as int), cookie_separator())
                        + cookie_separator() + part == old(out)@ + (join(
                        parts.take(i as int),
                        cookie_separator(),
                    ) + cookie_separator() + part));
                } else {
                    assert(out@ == before + part);
                }
            }
            i += 1;
        }
        assert(parts.take(cookies.len() as int) == parts);
    }

    /// The value of a `Cookie` header that carries `cookies`. It reads back as the cookies,
    /// where there is a cookie and the name of every cookie is not empty and holds neither
    /// `=` nor `; `.
    pub fn format(cookies: &Vec<RequestCookie>) -> (r: String)
        ensures
            r@ == format_cookies(cookie_views(cookies@)),
            cookies.len() > 0 && (forall|i: int|
                0 <= i < cookies.len() ==> (#[trigger] cookie_views(cookies@)[i]).nameable())
                ==> parse_cookies(r@) == Ok::<Seq<RequestCookieView>, ParseError>(
                cookie_views(cookies@),
            ),
    {
        let mut out = String::new();
        RequestCookie::write_list(&mut out, cookies);
        proof {
            let views = cookie_views(cookies@);
            assert(Seq::<char>::empty() + format_cookies(views) == format_cookies(views));
            if cookies.len() > 0 && (forall|i: int|
                0 <= i < cookies.len() ==> (#[trigger] views[i]).nameable()) {
                assert forall|i: int| 0 <= i < views.len() implies (#[trigger] views[i]).writable() by {
                    assert(views[i].nameable());
                    assert(percent_encodable(views[i].value));
                }
                lemma_format_then_parse(views);
            }
        }
        out
    }

    /// The name of the cookie.
    pub fn name(&self) -> (r: &String)
        ensures
            r@ == self@.name,
    {
        &self.0
    }

    /// The value of the cookie.
    pub fn value(&self) -> (r: &String)
        ensures
            r@ == self@.value,
    {
        &self.1
    }
}

/// A cookie of a response, with the attributes that a `Set-Cookie` header can carry.
#[derive(Debug)]
pub struct ResponseCookie {
    pub name: String,
    pub value: String,
    pub max_age: Option<u64>,
    pub expires: Option<String>,
    pub path: Option<String>,
    pub domain: Option<String>,
    pub secure: bool,
    pub http_only: bool,
}

/// The mathematical value of a `ResponseCookie`.
pub struct ResponseCookieView {
    pub name: Seq<char>,
    pub value: Seq<char>,
    pub max_age: Option<u64>,
    pub expires: Option<Seq<char>>,
    pub path: Option<Seq<char>>,
    pub domain: Option<Seq<char>>,
    pub secure: bool,
    pub http_only: bool,
}

/// The value of an optional text.
pub open spec fn optional_text(s: Option<String>) -> Option<Seq<char>> {
    match s {
        Some(s) => Some(s@),
        None => None,
    }
}

impl View for ResponseCookie {
    type V = ResponseCookieView;

    open spec fn view(&self) -> ResponseCookieView {
        ResponseCookieView {
            name: self.name@,
            value: self.value@,
            max_age: self.max_age,
            expires: optional_text(self.expires),
            path: optional_text(self.path),
            domain: optional_text(self.domain),
            secure: self.secure,
            http_only: self.http_only,
        }
    }
}

fn clone_text(text: &Option<String>) -> (r: Option<String>)
    ensures
        optional_text(r) == optional_text(*text),
{
    match text {
        Some(t) => Some(t.clone()),
        None => None,
    }
}

impl Clone for ResponseCookie {
    fn clone(&self) -> (r: Self)
        ensures
            r@ == self@,
    {
        ResponseCookie {
            name: self.name.clone(),
            value: self.value.clone(),
            max_age: self.max_age,
            expires: clone_text(&self.expires),
            path: clone_text(&self.path),
            domain: clone_text(&self.domain),
            secure: self.secure,
            http_only: self.http_only,
        }
    }
}

/// The text of an attribute that carries a text: a semicolon, the label with its `=`, and
/// the text; nothing where the attribute is absent.
pub open spec fn text_attribute(label: Seq<char>, value: Option<Seq<char>>) -> Seq<char> {
    match value {
        Some(v) => seq![';'] + label + v,
        None => Seq::empty(),
    }
}

/// The text of a flag: a semicolon and the label where the flag is set, nothing otherwise.
pub open spec fn flag_attribute(label: Seq<char>, set: bool) -> Seq<char> {
    if set {
        seq![';'] + label
    } else {
        Seq::empty()
    }
}

impl ResponseCookieView {
    /// The text of the `Max-Age` attribute.
    pub open spec fn max_age_text(self) -> Seq<char> {
        match self.max_age {
            Some(n) => text_attribute("Max-Age="@, Some(decimal(n as nat))),
            None => Seq::empty(),
        }
    }

    /// The value of a `Set-Cookie` header: `name=value`, then the attributes that are
    /// present, in the order `Max-Age`, `Expires`, `Path`, `Domain`, `Secure`, `HttpOnly`,
    /// each behind a semicolon.
    pub open spec fn text(self) -> Seq<char> {
        self.name + seq!['='] + self.value + self.max_age_text() + text_attribute(
            "Expires="@,
            self.expires,
        ) + text_attribute("Path="@, self.path) + text_attribute("Domain="@, self.domain)
            + flag_attribute("Secure"@, self.secure) + flag_attribute("HttpOnly"@, self.http_only)
    }
}

fn write_text_attribute(out: &mut String, label: &str, value: &Option<String>)
    ensures
        final(out)@ == old(out)@ + text_attribute(label@, optional_text(*value)),
{
    match value {
        Some(v) => {
            push_char(out, ';');
            out.append(label);
            out.append(v.as_str());
            assert(out@ == old(out)@ + (seq![';'] + label@ + v@));
        },
        None => {
            assert(old(out)@ + Seq::<char>::empty() == old(out)@);
        },
    }
}

fn write_flag(out: &mut String, label: &str, set: bool)
    ensures
        final(out)@ == old(out)@ + flag_attribute(label@, set),
{
    if set {
        push_char(out, ';');
        out.append(label);
        assert(out@ == old(out)@ + (seq![';'] + label@));
    } else {
        assert(old(out)@ + Seq::<char>::empty() == old(out)@);
    }
}

impl ResponseCookie {
    /// Appends the value of the `Set-Cookie` header to `out`.
    pub fn write_to(&self, out: &mut String)
        ensures
            final(out)@ == old(out)@ + self@.text(),
    {
        out.append(self.name.as_str());
        push_char(out, '=');
        out.append(self.value.as_str());
        let ghost s0 = out@;
        assert(s0 == old(out)@ + (self@.name + seq!['='] + self@.value));
        match self.max_age {
            Some(n) => {
                push_char(out, ';');
                out.append("Max-Age=");
                write_decimal(out, n);
                assert(out@ == s0 + (seq![';'] + "Max-Age="@ + decimal(n as nat)));
            },
            None => {
                assert(s0 + Seq::<char>::empty() == s0);
            },
        }
        let ghost a = self@.name + seq!['='] + self@.value;
        let ghost b = a + self@.max_age_text();
        assert(out@ == old(out)@ + b) by {
            assert(old(out)@ + a + self@.max_age_text() == old(out)@ + (a + self@.max_age_text()));
        }
        write_text_attribute(out, "Expires=", &self.expires);
        let ghost c = b + text_attribute("Expires="@, self@.expires);
        assert(out@ == old(out)@ + c) by {
            assert(old(out)@ + b + text_attribute("Expires="@, self@.expires) == old(out)@ + c);
        }
        write_text_attribute(out, "Path=", &self.path);
        let ghost d = c + text_attribute("Path="@, self@.path);
        assert(out@ == old(out)@ + d) by {
            assert(old(out)@ + c + text_attribute("Path="@, self@.path) == old(out)@ + d);
        }
        write_text_attribute(out, "Domain=", &self.domain);
        let ghost e = d + text_attribute("Domain="@, self@.domain);
        assert(out@ == old(out)@ + e) by {
            assert(old(out)@ + d + text_attribute("Domain="@, self@.domain) == old(out)@ + e);
        }
        write_flag(out, "Secure", self.secure);
        let ghost f = e + flag_attribute("Secure"@, self@.secure);
        assert(out@ == old(out)@ + f) by {
            assert(old(out)@ + e + flag_attribute("Secure"@, self@.secure) == old(out)@ + f);
        }
        write_flag(out, "HttpOnly", self.http_only);
        let ghost g = f + flag_attribute("HttpOnly"@, self@.http_only);
        assert(out@ == old(out)@ + g) by {
            assert(old(out)@ + f + flag_attribute("HttpOnly"@, self@.http_only) == old(out)@ + g);
        }
    }

    /// The value of the `Set-Cookie` header.
    pub fn to_string(&self) -> (r: String)
        ensures
            r@ == self@.text(),
    {
        let mut out = String::new();
        self.write_to(&mut out);
        assert(Seq::<char>::empty() + self@.text() == self@.text());
        out
    }
}

} // verus!

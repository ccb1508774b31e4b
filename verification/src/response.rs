//! Responses and their serialisation.

use vstd::prelude::*;
use crate::accept::accepts;
use crate::common::{MethodView, Status, StatusView};
use crate::compress::{bytes_view, compress, compressed, level_view};
use crate::cookie::ResponseCookie;
use crate::header::{header_views, Header, HeaderView};
use crate::mime::{Mime, MimeView};
use crate::request::{header_index, Request, RequestView};
use crate::text::{
    chars_le, chars_of, ends_with, low_bytes, lowercase, push_char, push_str, text_le,
};

verus! {

/// The body of a response.
#[derive(Debug)]
pub enum ResponseBody {
    Text(String),
    Binary(Vec<u8>),
    Empty,
}

/// The mathematical value of a `ResponseBody`.
pub enum BodyView {
    Text(Seq<char>),
    Binary(Seq<u8>),
    Empty,
}

impl View for ResponseBody {
    type V = BodyView;

    open spec fn view(&self) -> BodyView {
        match *self {
            ResponseBody::Text(t) => BodyView::Text(t@),
            ResponseBody::Binary(b) => BodyView::Binary(b@),
            ResponseBody::Empty => BodyView::Empty,
        }
    }
}

impl BodyView {
    /// The length that a `Content-Length` header states for the body: the number of bytes
    /// of a text in UTF-8, the number of bytes of binary data, none for an empty body. For
    /// a text with characters beyond ASCII this is more than the number of bytes that are
    /// sent for it.
    pub open spec fn length(self) -> Option<u64> {
        match self {
            BodyView::Text(t) => Some((vstd::utf8::encode_utf8(t).len() as usize) as u64),
            BodyView::Binary(b) => Some(b.len() as u64),
            BodyView::Empty => None,
        }
    }

    /// The bytes of the body on the wire: one byte for each character of a text, the bytes
    /// of binary data as they are, none for an empty body.
    pub open spec fn bytes(self) -> Seq<u8> {
        match self {
            BodyView::Text(t) => low_bytes(t),
            BodyView::Binary(b) => b,
            BodyView::Empty => Seq::empty(),
        }
    }
}

/// A compression that a response body can be sent in.
#[derive(Debug, Clone, Copy, PartialEq, Eq, Structural)]
pub enum BodyEncoding {
    Gzip,
    Deflate,
    Brotli,
}

impl BodyEncoding {
    /// The token that names the compression in a header.
    pub open spec fn text(self) -> Seq<char> {
        match self {
            BodyEncoding::Gzip => "gzip"@,
            BodyEncoding::Deflate => "deflate"@,
            BodyEncoding::Brotli => "br"@,
        }
    }

    /// The token as a static text.
    pub fn token(&self) -> (r: &'static str)
        ensures
            r@ == self.text(),
    {
        match self {
            BodyEncoding::Gzip => "gzip",
            BodyEncoding::Deflate => "deflate",
            BodyEncoding::Brotli => "br",
        }
    }

    /// The token that names the compression in a header.
    pub fn to_string(&self) -> (r: String)
        ensures
            r@ == self.text(),
    {
        String::from_str(self.token())
    }
}

/// How hard a compressor is to work, on the compressor's own scale.
#[derive(Debug, Clone, Copy)]
pub struct CompressionLevel(u32);

impl View for CompressionLevel {
    type V = u32;

    closed spec fn view(&self) -> u32 {
        self.0
    }
}

impl CompressionLevel {
    /// The level with the given number.
    pub fn new(level: u32) -> (r: Self)
        ensures
            r@ == level,
    {
        CompressionLevel(level)
    }

    /// No compression: level 0.
    pub fn none() -> (r: CompressionLevel)
        ensures
            r@ == 0,
    {
        CompressionLevel(0)
    }

    /// The fastest compression: level 1.
    pub fn fast() -> (r: CompressionLevel)
        ensures
            r@ == 1,
    {
        CompressionLevel(1)
    }

    /// The best compression: level 9.
    pub fn best() -> (r: CompressionLevel)
        ensures
            r@ == 9,
    {
        CompressionLevel(9)
    }

    /// The number of the level.
    pub fn level(&self) -> (r: u32)
        ensures
            r == self@,
    {
        self.0
    }
}

/// A response: status, headers, body, and the compression that the body is to be sent in
/// where the client takes it.
#[derive(Debug)]
pub struct Response {
    pub status: Status,
    pub headers: Vec<Header>,
    pub body: ResponseBody,
    pub encoding: (Option<BodyEncoding>, Option<CompressionLevel>),
}

/// The mathematical value of a `Response`.
pub struct ResponseView {
    pub status: StatusView,
    pub headers: Seq<HeaderView>,
    pub body: BodyView,
    pub encoding: Option<BodyEncoding>,
    pub level: Option<u32>,
}

impl View for Response {
    type V = ResponseView;

    open spec fn view(&self) -> ResponseView {
        ResponseView {
            status: self.status@,
            headers: header_views(self.headers@),
            body: self.body@,
            encoding: self.encoding.0,
            level: level_view(self.encoding.1),
        }
    }
}

/// Whether one of the headers is a `Content-Length` header.
pub open spec fn has_content_length(headers: Seq<HeaderView>) -> bool {
    exists|i: int| 0 <= i < headers.len() && #[trigger] headers[i] is ContentLength
}

/// Whether the headers of a request say that the client takes a compression: the first
/// header whose name is `Accept-Encoding`, whatever the case of letters, is a list of
/// encodings that accepts it.
pub open spec fn request_accepts(headers: Seq<HeaderView>, encoding: BodyEncoding) -> bool {
    match header_index(headers, lowercase("accept-encoding"@)) {
        Some(i) => match headers[i] {
            HeaderView::AcceptEncoding(list) => accepts(list, encoding),
            _ => false,
        },
        None => false,
    }
}

/// The headers with `header` put in by its name: behind every header whose name comes
/// before its name or is its name, before every other. The headers are taken to be in the
/// order of their names.
pub open spec fn insert_by_name(headers: Seq<HeaderView>, header: HeaderView) -> Seq<HeaderView>
    decreases headers.len(),
{
    if headers.len() == 0 {
        seq![header]
    } else if text_le(headers.last().name(), header.name()) {
        headers.push(header)
    } else {
        insert_by_name(headers.drop_last(), header).push(headers.last())
    }
}

/// The headers in the order of their names; headers of one name keep their order.
pub open spec fn sort_by_name(headers: Seq<HeaderView>) -> Seq<HeaderView>
    decreases headers.len(),
{
    if headers.len() == 0 {
        Seq::empty()
    } else {
        insert_by_name(sort_by_name(headers.drop_last()), headers.last())
    }
}

/// Whether the headers stand in the order of their names.
pub open spec fn in_name_order(headers: Seq<HeaderView>) -> bool {
    forall|i: int, j: int|
        0 <= i < j < headers.len() ==> text_le(
            (#[trigger] headers[i]).name(),
            (#[trigger] headers[j]).name(),
        )
}

/// Putting a header in by its name keeps the order of names, and adds that header and
/// nothing else.
pub proof fn lemma_insert_by_name(headers: Seq<HeaderView>, header: HeaderView)
    requires
        in_name_order(headers),
    ensures
        in_name_order(insert_by_name(headers, header)),
        insert_by_name(headers, header).to_multiset() == headers.to_multiset().insert(header),
        insert_by_name(headers, header).len() == headers.len() + 1,
    decreases headers.len(),
{
    let after = insert_by_name(headers, header);
    if headers.len() == 0 {
        vstd::seq_lib::to_multiset_build(headers, header);
        assert(headers.push(header) == seq![header]);
    } else if text_le(headers.last().name(), header.name()) {
        vstd::seq_lib::to_multiset_build(headers, header);
        assert forall|i: int, j: int| 0 <= i < j < after.len() implies text_le(
            (#[trigger] after[i]).name(),
            (#[trigger] after[j]).name(),
        ) by {
            if j == headers.len() {
                if i < headers.len() - 1 {
                    assert(text_le(headers[i].name(), headers[headers.len() - 1].name()));
                    crate::text::lemma_text_le_transitive(
                        headers[i].name(),
                        headers.last().name(),
                        header.name(),
                    );
                }
            } else {
                assert(text_le(headers[i].name(), headers[j].name()));
            }
        }
    } else {
        let init = headers.drop_last();
        let last = headers.last();
        assert(in_name_order(init)) by {
            assert forall|i: int, j: int| 0 <= i < j < init.len() implies text_le(
                (#[trigger] init[i]).name(),
                (#[trigger] init[j]).name(),
            ) by {
                assert(text_le(headers[i].name(), headers[j].name()));
            }
        }
        lemma_insert_by_name(init, header);
        let inner = insert_by_name(init, header);
        vstd::seq_lib::to_multiset_build(inner, last);
        vstd::seq_lib::to_multiset_build(init, last);
        assert(init.push(last) == headers);
        assert(init.to_multiset().insert(header).insert(last) =~= init.to_multiset().insert(
            last,
        ).insert(header));
        crate::text::lemma_text_le_total(last.name(), header.name());
        assert forall|i: int| 0 <= i < inner.len() implies text_le(
            (#[trigger] inner[i]).name(),
            last.name(),
        ) by {
            vstd::seq_lib::to_multiset_build(init, header);
            inner.to_multiset_ensures();
            init.to_multiset_ensures();
            assert(inner.contains(inner[i]));
            assert(inner.to_multiset().count(inner[i]) > 0);
            if inner[i] == header {
            } else {
                assert(init.to_multiset().count(inner[i]) > 0);
                assert(init.contains(inner[i]));
                let k = choose|k: int| 0 <= k < init.len() && init[k] == inner[i];
                assert(headers[k] == init[k]);
                assert(text_le(headers[k].name(), headers[headers.len() - 1].name()));
            }
        }
        assert forall|i: int, j: int| 0 <= i < j < after.len() implies text_le(
            (#[trigger] after[i]).name(),
            (#[trigger] after[j]).name(),
        ) by {
            if j == inner.len() {
                assert(after[i] == inner[i]);
            } else {
                assert(after[i] == inner[i]);
                assert(after[j] == inner[j]);
            }
        }
    }
}

/// What `sort_by_name` gives stands in the order of names and holds the headers that
/// went in, each as often as it went in.
pub proof fn lemma_sort_by_name(headers: Seq<HeaderView>)
    ensures
        in_name_order(sort_by_name(headers)),
        sort_by_name(headers).to_multiset() == headers.to_multiset(),
        sort_by_name(headers).len() == headers.len(),
    decreases headers.len(),
{
    if headers.len() > 0 {
        lemma_sort_by_name(headers.drop_last());
        lemma_insert_by_name(sort_by_name(headers.drop_last()), headers.last());
        vstd::seq_lib::to_multiset_build(headers.drop_last(), headers.last());
        assert(headers.drop_last().push(headers.last()) == headers);
    } else {
        assert(headers == Seq::<HeaderView>::empty());
    }
}

/// The headers of the name `name` among the headers, in their order.
pub open spec fn with_name(headers: Seq<HeaderView>, name: Seq<char>) -> Seq<HeaderView>
    decreases headers.len(),
{
    if headers.len() == 0 {
        Seq::empty()
    } else if headers.last().name() == name {
        with_name(headers.drop_last(), name).push(headers.last())
    } else {
        with_name(headers.drop_last(), name)
    }
}

/// A header that is put in by its name comes behind the headers of its name, and leaves
/// the headers of every other name as they were.
pub proof fn lemma_insert_keeps_order(headers: Seq<HeaderView>, header: HeaderView, name: Seq<char>)
    ensures
        with_name(insert_by_name(headers, header), name) == if header.name() == name {
            with_name(headers, name).push(header)
        } else {
            with_name(headers, name)
        },
    decreases headers.len(),
{
    if headers.len() == 0 {
        let one = seq![header];
        assert(one.drop_last() == Seq::<HeaderView>::empty());
        assert(with_name(one.drop_last(), name) == Seq::<HeaderView>::empty());
        assert(with_name(headers, name) == Seq::<HeaderView>::empty());
        assert(one.last() == header);
    } else if text_le(headers.last().name(), header.name()) {
        assert(headers.push(header).drop_last() == headers);
        assert(headers.push(header).last() == header);
    } else {
        let init = headers.drop_last();
        let last = headers.last();
        let inner = insert_by_name(init, header);
        lemma_insert_keeps_order(init, header, name);
        assert(inner.push(last).drop_last() == inner);
        assert(inner.push(last).last() == last);
        assert(last.name() != header.name()) by {
            crate::text::lemma_text_le_reflexive(header.name());
        }
    }
}

/// The headers of one name keep their order when the headers are put in the order of
/// their names.
pub proof fn lemma_sort_keeps_order(headers: Seq<HeaderView>, name: Seq<char>)
    ensures
        with_name(sort_by_name(headers), name) == with_name(headers, name),
    decreases headers.len(),
{
    if headers.len() > 0 {
        lemma_sort_keeps_order(headers.drop_last(), name);
        lemma_insert_keeps_order(sort_by_name(headers.drop_last()), headers.last(), name);
    }
}

/// The lines of the headers, one behind the other.
pub open spec fn lines_text(headers: Seq<HeaderView>) -> Seq<char>
    decreases headers.len(),
{
    if headers.len() == 0 {
        Seq::empty()
    } else {
        lines_text(headers.drop_last()) + headers.last().line()
    }
}

impl ResponseView {
    /// The headers of the response, with a `Content-Length` header behind them that states
    /// the length of the body, where the response has none and the body has a length.
    pub open spec fn with_length(self) -> Seq<HeaderView> {
        if has_content_length(self.headers) {
            self.headers
        } else {
            match self.body.length() {
                Some(n) => self.headers.push(HeaderView::ContentLength(n)),
                None => self.headers,
            }
        }
    }

    /// The compression that the body is sent in: the one that the response asks for, where
    /// the request accepts it.
    pub open spec fn negotiated(self, request: RequestView) -> Option<BodyEncoding> {
        match self.encoding {
            Some(e) => if request_accepts(request.headers, e) {
                Some(e)
            } else {
                None
            },
            None => None,
        }
    }

    /// The headers that are sent, before they are put in order: those of `with_length`,
    /// and a `Content-Encoding` header behind them where a compression was negotiated.
    pub open spec fn outgoing(self, request: RequestView) -> Seq<HeaderView> {
        match self.negotiated(request) {
            Some(e) => self.with_length().push(HeaderView::ContentEncoding(seq![e])),
            None => self.with_length(),
        }
    }

    /// What is sent before the body: the status line, made of the version of the request,
    /// a space and the status; the lines of the headers in the order of their names; and
    /// an empty line.
    pub open spec fn head(self, request: RequestView) -> Seq<char> {
        request.version.text() + seq![' '] + self.status.text() + "\r\n"@ + lines_text(
            sort_by_name(self.outgoing(request)),
        ) + "\r\n"@
    }

    /// Whether no body is sent: the request is a `HEAD` request, or the code of the status
    /// is 204.
    pub open spec fn omits_body(self, request: RequestView) -> bool {
        request.method == MethodView::Head || self.status.code() == 204
    }

    /// What is sent behind the head, given what the compressor made of the body: nothing
    /// where the body is omitted; the compressed body where a compression was negotiated
    /// and the compressor gave one; the body as it is otherwise.
    pub open spec fn payload(self, request: RequestView, compressed: Option<Seq<u8>>) -> Seq<u8> {
        if self.omits_body(request) {
            Seq::empty()
        } else {
            match (self.negotiated(request), compressed) {
                (Some(_), Some(stream)) => stream,
                _ => self.body.bytes(),
            }
        }
    }

    /// The bytes that answer a request, given what the compressor made of the body.
    pub open spec fn wire(self, request: RequestView, compressed: Option<Seq<u8>>) -> Seq<u8> {
        low_bytes(self.head(request)) + self.payload(request, compressed)
    }

    /// What the compressor makes of the body, where it is asked: a compression was
    /// negotiated and the body is not omitted.
    pub open spec fn compression(self, request: RequestView) -> Option<Seq<u8>> {
        match self.negotiated(request) {
            Some(e) => if self.omits_body(request) {
                None
            } else {
                compressed(e, self.level, self.body.bytes())
            },
            None => None,
        }
    }

    /// The bytes that answer a request.
    pub open spec fn serialized(self, request: RequestView) -> Seq<u8> {
        self.wire(request, self.compression(request))
    }
}

/// The line of a header ends with a line end.
pub proof fn lemma_line_ends(header: HeaderView)
    ensures
        ends_with(header.line(), "\r\n"@),
{
    crate::text::lemma_ends_with_appended(
        header.name() + ": "@ + header.value_text(),
        "\r\n"@,
    );
}

/// The lines of headers, where there are any, end with a line end.
pub proof fn lemma_lines_end(headers: Seq<HeaderView>)
    requires
        headers.len() > 0,
    ensures
        ends_with(lines_text(headers), "\r\n"@),
{
    let before = lines_text(headers.drop_last());
    let line = headers.last().line();
    let end = "\r\n"@;
    lemma_line_ends(headers.last());
    assert((before + line).subrange((before + line).len() - end.len(), (before + line).len() as int)
        == line.subrange(line.len() - end.len(), line.len() as int));
}

/// The head ends with an empty line: two line ends, one behind the other.
pub proof fn lemma_head_ends_with_empty_line(response: ResponseView, request: RequestView)
    ensures
        ends_with(response.head(request), "\r\n\r\n"@),
{
    reveal_strlit("\r\n");
    reveal_strlit("\r\n\r\n");
    let end = "\r\n"@;
    let start = request.version.text() + seq![' '] + response.status.text();
    let headers = sort_by_name(response.outgoing(request));
    let lines = lines_text(headers);
    let before = start + end + lines;
    assert(ends_with(before, end)) by {
        if headers.len() == 0 {
            assert(lines == Seq::<char>::empty());
            assert(before == start + end);
            crate::text::lemma_ends_with_appended(start, end);
        } else {
            lemma_lines_end(headers);
            assert(before.subrange(before.len() - 2, before.len() as int) == lines.subrange(
                lines.len() - 2,
                lines.len() as int,
            ));
        }
    }
    let head = before + end;
    assert(head == response.head(request));
    let tail = head.subrange(head.len() - 4, head.len() as int);
    assert(tail == "\r\n\r\n"@) by {
        assert(tail.len() == 4);
        assert(tail[0] == before.subrange(before.len() - 2, before.len() as int)[0]);
        assert(tail[1] == before.subrange(before.len() - 2, before.len() as int)[1]);
        assert(tail[2] == end[0]);
        assert(tail[3] == end[1]);
    }
}

/// A header line that is ready to be sent, with the name that it is ordered by.
struct Entry {
    name: Vec<char>,
    line: String,
}

/// Whether the entries are those of the headers, one for one.
spec fn entries_of(entries: Seq<Entry>, headers: Seq<HeaderView>) -> bool {
    &&& entries.len() == headers.len()
    &&& forall|k: int|
        0 <= k < entries.len() ==> (#[trigger] entries[k]).name@ == headers[k].name()
            && entries[k].line@ == headers[k].line()
}

/// Putting a header in by its name puts it at the position behind the last header whose
/// name does not come behind its name.
proof fn lemma_insert_at(headers: Seq<HeaderView>, header: HeaderView, pos: int)
    requires
        0 <= pos <= headers.len(),
        pos > 0 ==> text_le(headers[pos - 1].name(), header.name()),
        forall|k: int| pos <= k < headers.len() ==> !text_le(headers[k].name(), header.name()),
    ensures
        insert_by_name(headers, header) == headers.insert(pos, header),
    decreases headers.len(),
{
    if headers.len() == 0 {
        assert(headers.insert(0, header) == seq![header]);
    } else if pos == headers.len() {
        assert(headers.insert(pos, header) == headers.push(header));
    } else {
        assert(!text_le(headers[headers.len() - 1].name(), header.name()));
        lemma_insert_at(headers.drop_last(), header, pos);
        assert(headers.drop_last().insert(pos, header).push(headers.last()) == headers.insert(
            pos,
            header,
        ));
    }
}

/// Puts the entry of a header in by its name.
fn insert_entry(entries: &mut Vec<Entry>, header: &Header, Ghost(sorted): Ghost<Seq<HeaderView>>)
    requires
        entries_of(old(entries)@, sorted),
    ensures
        entries_of(final(entries)@, insert_by_name(sorted, header@)),
{
    let name = chars_of(header.name().as_str());
    let line = header.to_string();
    let mut pos: usize = entries.len();
    while pos > 0 && !chars_le(&entries[pos - 1].name, &name)
        invariant
            pos <= entries.len(),
            entries@ == old(entries)@,
            entries_of(entries@, sorted),
            name@ == header@.name(),
            forall|k: int| pos <= k < sorted.len() ==> !text_le(sorted[k].name(), header@.name()),
        decreases pos,
    {
        pos -= 1;
    }
    proof {
        lemma_insert_at(sorted, header@, pos as int);
    }
    entries.insert(pos, Entry { name, line });
    proof {
        let after = sorted.insert(pos as int, header@);
        assert forall|k: int| 0 <= k < entries@.len() implies (#[trigger] entries@[k]).name@
            == after[k].name() && entries@[k].line@ == after[k].line() by {
            if k < pos {
                assert(entries@[k] == old(entries)@[k]);
            } else if k > pos {
                assert(entries@[k] == old(entries)@[k - 1]);
            }
        }
    }
}

impl Response {
    /// The response of the given parts.
    pub fn new(
        status: Status,
        headers: Vec<Header>,
        body: ResponseBody,
        encoding: (Option<BodyEncoding>, Option<CompressionLevel>),
    ) -> (r: Response)
        ensures
            r@ == (ResponseView {
                status: status@,
                headers: header_views(headers@),
                body: body@,
                encoding: encoding.0,
                level: level_view(encoding.1),
            }),
    {
        Response { status, headers, body, encoding }
    }

    /// The response `200 OK` without headers, body or compression.
    pub fn empty() -> (r: Response)
        ensures
            r@ == (ResponseView {
                status: StatusView::Okay,
                headers: Seq::empty(),
                body: BodyView::Empty,
                encoding: None,
                level: None,
            }),
    {
        let r = Response {
            status: Status::Okay,
            headers: Vec::new(),
            body: ResponseBody::Empty,
            encoding: (None, None),
        };
        assert(header_views(r.headers@) == Seq::<HeaderView>::empty());
        r
    }

    /// A response that sends the client to `target`: the status given, or `302 Moved
    /// Temporarily` where none is given; a text body that names the target; a `Location`
    /// header and a `Content-Type` header for plain text.
    pub fn redirect(target: String, status: Option<Status>) -> (r: Response)
        ensures
            r@ == (ResponseView {
                status: match status {
                    Some(s) => s@,
                    None => StatusView::MovedTemporarily,
                },
                headers: seq![
                    HeaderView::Location(target@),
                    HeaderView::ContentType(MimeView::Text("plain"@, None)),
                ],
                body: BodyView::Text("Redirecting to "@ + target@),
                encoding: None,
                level: None,
            }),
    {
        let mut response = Response::empty();
        let text = String::from_str("Redirecting to ").concat(target.as_str());
        response.set_status(
            match status {
                Some(s) => s,
                None => Status::MovedTemporarily,
            },
        );
        response.set_body(ResponseBody::Text(text));
        response.add_header(Header::Location(target));
        response.add_header(Header::ContentType(Mime::text("plain")));
        assert(response@.headers == seq![
            HeaderView::Location(target@),
            HeaderView::ContentType(MimeView::Text("plain"@, None)),
        ]);
        response
    }

    /// Adds a `Set-Cookie` header for the cookie behind the headers.
    pub fn add_cookie(&mut self, cookie: ResponseCookie) -> (r: &mut Self)
        ensures
            r@ == (ResponseView {
                headers: old(self)@.headers.push(HeaderView::SetCookie(cookie@)),
                ..old(self)@
            }),
            *final(self) == *final(r),
    {
        self.headers.push(Header::SetCookie(cookie));
        assert(header_views(self.headers@) == header_views(old(self).headers@).push(
            HeaderView::SetCookie(cookie@),
        ));
        self
    }

    /// Adds a header behind the headers.
    pub fn add_header(&mut self, header: Header) -> (r: &mut Self)
        ensures
            r@ == (ResponseView { headers: old(self)@.headers.push(header@), ..old(self)@ }),
            *final(self) == *final(r),
    {
        self.headers.push(header);
        assert(header_views(self.headers@) == header_views(old(self).headers@).push(header@));
        self
    }

    /// Sets the body.
    pub fn set_body(&mut self, body: ResponseBody) -> (r: &mut Self)
        ensures
            r@ == (ResponseView { body: body@, ..old(self)@ }),
            *final(self) == *final(r),
    {
        self.body = body;
        self
    }

    /// Sets the status.
    pub fn set_status(&mut self, status: Status) -> (r: &mut Self)
        ensures
            r@ == (ResponseView { status: status@, ..old(self)@ }),
            *final(self) == *final(r),
    {
        self.status = status;
        self
    }

    /// Adds a `Content-Type` header for the media type behind the headers.
    pub fn set_content_type(&mut self, content_type: Mime) -> (r: &mut Self)
        ensures
            r@ == (ResponseView {
                headers: old(self)@.headers.push(HeaderView::ContentType(content_type@)),
                ..old(self)@
            }),
            *final(self) == *final(r),
    {
        self.headers.push(Header::ContentType(content_type));
        assert(header_views(self.headers@) == header_views(old(self).headers@).push(
            HeaderView::ContentType(content_type@),
        ));
        self
    }

    /// Sets the compression that the body is to be sent in, and its level. The body is
    /// compressed only for a client that says it takes the compression.
    pub fn set_body_encoding(
        &mut self,
        encoding: Option<BodyEncoding>,
        level: Option<CompressionLevel>,
    ) -> (r: &mut Self)
        ensures
            r@ == (ResponseView { encoding, level: level_view(level), ..old(self)@ }),
            *final(self) == *final(r),
    {
        self.encoding = (encoding, level);
        self
    }

    /// Whether the response holds a `Content-Length` header.
    fn holds_content_length(&self) -> (r: bool)
        ensures
            r == has_content_length(self@.headers),
    {
        let mut i: usize = 0;
        while i < self.headers.len()
            invariant
                i <= self.headers.len(),
                forall|k: int| 0 <= k < i ==> !(#[trigger] self@.headers[k] is ContentLength),
            decreases self.headers.len() - i,
        {
            match &self.headers[i] {
                Header::ContentLength(_) => {
                    assert(self@.headers[i as int] is ContentLength);
                    return true;
                },
                _ => {},
            }
            i += 1;
        }
        false
    }

    /// Whether the request accepts the compression.
    fn client_accepts(request: &Request, encoding: BodyEncoding) -> (r: bool)
        ensures
            r == request_accepts(request@.headers, encoding),
    {
        match request.get_header("accept-encoding") {
            Some(Header::AcceptEncoding(list)) => list.accept(&encoding),
            _ => false,
        }
    }

    /// The compression that the body is sent in.
    fn negotiate(&self, request: &Request) -> (r: Option<BodyEncoding>)
        ensures
            r == self@.negotiated(request@),
    {
        match self.encoding.0 {
            Some(e) => if Response::client_accepts(request, e) {
                Some(e)
            } else {
                None
            },
            None => None,
        }
    }

    /// Whether no body is sent.
    fn skips_body(&self, request: &Request) -> (r: bool)
        ensures
            r == self@.omits_body(request@),
    {
        request.method.is_head() || self.status.code() == 204
    }

    /// The bytes of the body on the wire.
    fn body_data(&self) -> (r: Vec<u8>)
        ensures
            r@ == self@.body.bytes(),
    {
        let mut data: Vec<u8> = Vec::new();
        match &self.body {
            ResponseBody::Text(text) => {
                push_str(&mut data, text.as_str());
                assert(Seq::<u8>::empty() + low_bytes(text@) == low_bytes(text@));
            },
            ResponseBody::Binary(bytes) => {
                let mut i: usize = 0;
                while i < bytes.len()
                    invariant
                        i <= bytes.len(),
                        data@ == bytes@.take(i as int),
                    decreases bytes.len() - i,
                {
                    data.push(bytes[i]);
                    i += 1;
                    assert(bytes@.take(i as int) == bytes@.take(i - 1).push(bytes@[i - 1]));
                }
                assert(bytes@.take(bytes.len() as int) == bytes@);
            },
            ResponseBody::Empty => {},
        }
        data
    }

    /// What is sent before the body.
    fn head_text(&self, request: &Request, negotiated: Option<BodyEncoding>) -> (r: String)
        requires
            negotiated == self@.negotiated(request@),
        ensures
            r@ == self@.head(request@),
    {
        let ghost incoming = self@.headers;
        let mut entries: Vec<Entry> = Vec::new();
        let ghost mut sorted: Seq<HeaderView> = Seq::empty();
        let mut i: usize = 0;
        assert(incoming.take(0) == Seq::<HeaderView>::empty());
        while i < self.headers.len()
            invariant
                i <= self.headers.len(),
                incoming == header_views(self.headers@),
                sorted == sort_by_name(incoming.take(i as int)),
                entries_of(entries@, sorted),
            decreases self.headers.len() - i,
        {
            proof {
                assert(incoming.take(i + 1).drop_last() == incoming.take(i as int));
                assert(incoming.take(i + 1).last() == self.headers@[i as int]@);
            }
            insert_entry(&mut entries, &self.headers[i], Ghost(sorted));
            proof {
                sorted = insert_by_name(sorted, self.headers@[i as int]@);
            }
            i += 1;
        }
        assert(incoming.take(self.headers.len() as int) == incoming);
        let ghost mut pending = incoming;
        if !self.holds_content_length() {
            let length: Option<u64> = match &self.body {
                ResponseBody::Text(text) => Some(text.as_str().len() as u64),
                ResponseBody::Binary(bytes) => Some(bytes.len() as u64),
                ResponseBody::Empty => None,
            };
            assert(length == self@.body.length());
            match length {
                Some(n) => {
                    let header = Header::ContentLength(n);
                    insert_entry(&mut entries, &header, Ghost(sorted));
                    proof {
                        sorted = insert_by_name(sorted, header@);
                        pending = pending.push(header@);
                        assert(pending.drop_last() == incoming);
                    }
                },
                None => {},
            }
        }
        assert(pending == self@.with_length());
        assert(sorted == sort_by_name(pending));
        match negotiated {
            Some(e) => {
                let mut list: Vec<BodyEncoding> = Vec::new();
                list.push(e);
                assert(list@ == seq![e]);
                let header = Header::ContentEncoding(list);
                insert_entry(&mut entries, &header, Ghost(sorted));
                proof {
                    sorted = insert_by_name(sorted, header@);
                    assert(pending.push(header@).drop_last() == pending);
                    pending = pending.push(header@);
                }
            },
            None => {},
        }
        assert(pending == self@.outgoing(request@));
        assert(sorted == sort_by_name(pending));
        let mut out = request.version.to_string();
        push_char(&mut out, ' ');
        self.status.write_to(&mut out);
        out.append("\r\n");
        let ghost start = request@.version.text() + seq![' '] + self@.status.text() + "\r\n"@;
        assert(out@ == start);
        let mut k: usize = 0;
        assert(sorted.take(0) == Seq::<HeaderView>::empty());
        assert(start + Seq::<char>::empty() == start);
        while k < entries.len()
            invariant
                k <= entries.len(),
                entries_of(entries@, sorted),
                out@ == start + lines_text(sorted.take(k as int)),
            decreases entries.len() - k,
        {
            out.append(entries[k].line.as_str());
            proof {
                assert(sorted.take(k + 1).drop_last() == sorted.take(k as int));
                assert(sorted.take(k + 1).last() == sorted[k as int]);
                assert(start + lines_text(sorted.take(k as int)) + sorted[k as int].line() == start
                    + (lines_text(sorted.take(k as int)) + sorted[k as int].line()));
            }
            k += 1;
        }
        assert(sorted.take(entries.len() as int) == sorted);
        out.append("\r\n");
        out
    }

    /// The bytes that answer a request, given what the compressor made of the body. What
    /// the compressor made is put to use only where a compression was negotiated and the
    /// body is not omitted.
    pub fn assemble(&self, request: &Request, compressed: Option<Vec<u8>>) -> (r: Vec<u8>)
        ensures
            r@ == self@.wire(request@, bytes_view(compressed)),
    {
        let negotiated = self.negotiate(request);
        let head = self.head_text(request, negotiated);
        let mut out: Vec<u8> = Vec::new();
        push_str(&mut out, head.as_str());
        assert(out@ == low_bytes(self@.head(request@))) by {
            assert(Seq::<u8>::empty() + low_bytes(head@) == low_bytes(head@));
        }
        if self.skips_body(request) {
            assert(out@ + Seq::<u8>::empty() == out@);
            return out;
        }
        let mut data = match (negotiated, compressed) {
            (Some(_), Some(stream)) => stream,
            _ => self.body_data(),
        };
        out.append(&mut data);
        out
    }

    /// The bytes that answer a request: the head, and behind it the body, compressed where
    /// the response asks for a compression that the request accepts. A failure of the
    /// compressor leaves the body as it is, and the `Content-Encoding` header in place. No
    /// body is sent in answer to a `HEAD` request, nor with a status of code 204.
    pub fn to_vector(&self, request: &Request) -> (r: Vec<u8>)
        ensures
            r@ == self@.serialized(request@),
            request@.method == MethodView::Head ==> r@ == low_bytes(self@.head(request@)),
            self@.status.code() == 204 ==> r@ == low_bytes(self@.head(request@)),
    {
        let stream = match self.negotiate(request) {
            Some(e) => if self.skips_body(request) {
                None
            } else {
                compress(e, self.encoding.1, &self.body_data())
            },
            None => None,
        };
        let out = self.assemble(request, stream);
        proof {
            if self@.omits_body(request@) {
                assert(low_bytes(self@.head(request@)) + Seq::<u8>::empty() == low_bytes(
                    self@.head(request@),
                ));
            }
        }
        out
    }
}

} // verus!

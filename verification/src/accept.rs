//! The `Accept-Encoding` header: a list of encodings that a client takes, each with an
//! optional weight, and the question whether a given compression is among them.

use vstd::prelude::*;
use crate::number::{parse_i8, read_i8, signed_decimal, write_i8};
use crate::response::BodyEncoding;
use crate::text::{
    chars_of, is_text, join, one_char, split, split_chars, texts, trim, trim_chars,
};

verus! {

/// An encoding as a client names it; `All` is the wildcard `*`.
#[derive(Debug, Copy, Clone, PartialEq, Eq, Structural)]
pub enum Encoding {
    Gzip,
    Deflate,
    Br,
    All,
}

impl Encoding {
    /// The token of the encoding.
    pub open spec fn text(self) -> Seq<char> {
        match self {
            Encoding::Gzip => "gzip"@,
            Encoding::Deflate => "deflate"@,
            Encoding::Br => "br"@,
            Encoding::All => "*"@,
        }
    }

    /// The encoding that a token names: `gzip`, `deflate`, `br` or `*`, exactly so written.
    pub open spec fn parse_spec(s: Seq<char>) -> Option<Encoding> {
        if s == "gzip"@ {
            Some(Encoding::Gzip)
        } else if s == "deflate"@ {
            Some(Encoding::Deflate)
        } else if s == "br"@ {
            Some(Encoding::Br)
        } else if s == "*"@ {
            Some(Encoding::All)
        } else {
            None
        }
    }

    /// The encoding under which a client names a compression.
    pub open spec fn of(encoding: BodyEncoding) -> Encoding {
        match encoding {
            BodyEncoding::Gzip => Encoding::Gzip,
            BodyEncoding::Deflate => Encoding::Deflate,
            BodyEncoding::Brotli => Encoding::Br,
        }
    }

    /// Whether a client that names this encoding takes the compression `encoding`: the
    /// wildcard takes every one, any other encoding its own.
    pub open spec fn takes(self, encoding: BodyEncoding) -> bool {
        self == Encoding::All || self == Encoding::of(encoding)
    }

    /// Reads an encoding out of the characters of its token.
    pub fn parse_chars(v: &Vec<char>) -> (r: Option<Encoding>)
        ensures
            r == Encoding::parse_spec(v@),
    {
        if is_text(v, "gzip") {
            Some(Encoding::Gzip)
        } else if is_text(v, "deflate") {
            Some(Encoding::Deflate)
        } else if is_text(v, "br") {
            Some(Encoding::Br)
        } else if is_text(v, "*") {
            Some(Encoding::All)
        } else {
            None
        }
    }

    /// Reads an encoding out of its token.
    pub fn parse(s: &str) -> (r: Result<Encoding, ()>)
        ensures
            match Encoding::parse_spec(s@) {
                Some(e) => r == Ok::<Encoding, ()>(e),
                None => r is Err,
            },
    {
        match Encoding::parse_chars(&chars_of(s)) {
            Some(e) => Ok(e),
            None => Err(()),
        }
    }

    /// The token as a static text.
    pub fn token(&self) -> (r: &'static str)
        ensures
            r@ == self.text(),
    {
        match self {
            Encoding::Gzip => "gzip",
            Encoding::Deflate => "deflate",
            Encoding::Br => "br",
            Encoding::All => "*",
        }
    }

    /// The token of the encoding.
    pub fn to_string(&self) -> (r: String)
        ensures
            r@ == self.text(),
    {
        String::from_str(self.token())
    }
}

impl std::str::FromStr for Encoding {
    type Err = ();

    fn from_str(s: &str) -> (r: Result<Self, ()>)
        ensures
            match Encoding::parse_spec(s@) {
                Some(e) => r == Ok::<Encoding, ()>(e),
                None => r is Err,
            },
    {
        Encoding::parse(s)
    }
}

impl std::str::FromStr for AcceptEncoding {
    type Err = ();

    fn from_str(s: &str) -> (r: Result<Self, ()>)
        ensures
            match AcceptEncodingView::parse(s@) {
                Some(e) => r is Ok && r->Ok_0@ == e,
                None => r is Err,
            },
    {
        AcceptEncoding::parse(s)
    }
}

impl std::str::FromStr for AcceptEncodings {
    type Err = ();

    fn from_str(s: &str) -> (r: Result<Self, ()>)
        ensures
            match parse_list(s@) {
                Some(l) => r is Ok && r->Ok_0@ == l,
                None => r is Err,
            },
    {
        AcceptEncodings::parse(s)
    }
}

impl From<BodyEncoding> for Encoding {
    fn from(encoding: BodyEncoding) -> (r: Encoding) {
        match encoding {
            BodyEncoding::Gzip => Encoding::Gzip,
            BodyEncoding::Deflate => Encoding::Deflate,
            BodyEncoding::Brotli => Encoding::Br,
        }
    }
}

impl vstd::std_specs::convert::FromSpecImpl<BodyEncoding> for Encoding {
    open spec fn obeys_from_spec() -> bool {
        true
    }

    open spec fn from_spec(encoding: BodyEncoding) -> Encoding {
        Encoding::of(encoding)
    }
}

/// One entry of an `Accept-Encoding` header: an encoding and its weight, if it has one.
#[derive(Debug, Copy, Clone)]
pub struct AcceptEncoding {
    encoding: Encoding,
    q: Option<i8>,
}

/// The mathematical value of an `AcceptEncoding`.
pub struct AcceptEncodingView {
    pub encoding: Encoding,
    pub quality: Option<i8>,
}

impl AcceptEncodingView {
    /// The wire text of the entry: the token, then `;q=` and the weight where there is one.
    pub open spec fn text(self) -> Seq<char> {
        match self.quality {
            Some(q) => self.encoding.text() + ";q="@ + signed_decimal(q as int),
            None => self.encoding.text(),
        }
    }

    /// The weight that the second piece of an entry gives: the number after its first `=`,
    /// where there is one that reads as a signed number of eight bits.
    pub open spec fn parse_quality(pieces: Seq<Seq<char>>) -> Option<i8> {
        if pieces.len() < 2 {
            None
        } else {
            let pair = split(pieces[1], seq!['=']);
            if pair.len() < 2 {
                None
            } else {
                match parse_i8(pair[1]) {
                    Some(n) => Some(n as i8),
                    None => None,
                }
            }
        }
    }

    /// Reads one entry, `token` or `token;q=weight`. The text is cut at `;`; the first
    /// piece, trimmed of whitespace, has to name an encoding. A weight that does not read
    /// is left out.
    pub open spec fn parse(s: Seq<char>) -> Option<AcceptEncodingView> {
        let pieces = split(s, seq![';']);
        match Encoding::parse_spec(trim(pieces[0], true)) {
            Some(encoding) => Some(
                AcceptEncodingView {
                    encoding,
                    quality: AcceptEncodingView::parse_quality(pieces),
                },
            ),
            None => None,
        }
    }
}

impl View for AcceptEncoding {
    type V = AcceptEncodingView;

    closed spec fn view(&self) -> AcceptEncodingView {
        AcceptEncodingView { encoding: self.encoding, quality: self.q }
    }
}

impl AcceptEncoding {
    /// The entry for `encoding` with weight `q`.
    pub fn new(encoding: Encoding, q: Option<i8>) -> (r: Self)
        ensures
            r@ == (AcceptEncodingView { encoding, quality: q }),
    {
        AcceptEncoding { encoding, q }
    }

    /// The encoding of the entry.
    pub fn encoding(&self) -> (r: Encoding)
        ensures
            r == self@.encoding,
    {
        self.encoding
    }

    /// The weight of the entry.
    pub fn quality(&self) -> (r: Option<i8>)
        ensures
            r == self@.quality,
    {
        self.q
    }

    /// Whether the entry takes the compression `encoding`.
    pub fn accept(&self, encoding: &BodyEncoding) -> (r: bool)
        ensures
            r == self@.encoding.takes(*encoding),
    {
        match (self.encoding, encoding) {
            (Encoding::All, _) => true,
            (Encoding::Gzip, BodyEncoding::Gzip) => true,
            (Encoding::Deflate, BodyEncoding::Deflate) => true,
            (Encoding::Br, BodyEncoding::Brotli) => true,
            _ => false,
        }
    }

    /// Reads one entry out of its characters.
    pub fn parse_chars(v: &Vec<char>) -> (r: Option<AcceptEncoding>)
        ensures
            match AcceptEncodingView::parse(v@) {
                Some(e) => r is Some && r->Some_0@ == e,
                None => r is None,
            },
    {
        let pieces = split_chars(v, &one_char(';'));
        proof {
            assert(texts(pieces@)[0] == pieces@[0]@);
        }
        let token = trim_chars(&pieces[0], true);
        let encoding = match Encoding::parse_chars(&token) {
            Some(e) => e,
            None => {
                return None;
            },
        };
        let mut q: Option<i8> = None;
        if pieces.len() >= 2 {
            proof {
                assert(texts(pieces@)[1] == pieces@[1]@);
            }
            let pair = split_chars(&pieces[1], &one_char('='));
            if pair.len() >= 2 {
                proof {
                    assert(texts(pair@)[1] == pair@[1]@);
                }
                q = read_i8(&pair[1]);
            }
        }
        Some(AcceptEncoding::new(encoding, q))
    }

    /// Reads one entry, `token` or `token;q=weight`.
    pub fn parse(s: &str) -> (r: Result<AcceptEncoding, ()>)
        ensures
            match AcceptEncodingView::parse(s@) {
                Some(e) => r is Ok && r->Ok_0@ == e,
                None => r is Err,
            },
    {
        match AcceptEncoding::parse_chars(&chars_of(s)) {
            Some(e) => Ok(e),
            None => Err(()),
        }
    }

    /// Appends the wire text of the entry to `out`.
    pub fn write_to(&self, out: &mut String)
        ensures
            final(out)@ == old(out)@ + self@.text(),
    {
        out.append(self.encoding.token());
        match self.q {
            Some(q) => {
                out.append(";q=");
                write_i8(out, q);
                assert(out@ == old(out)@ + (self.encoding.text() + ";q="@ + signed_decimal(
                    q as int,
                )));
            },
            None => {},
        }
    }

    /// The wire text of the entry.
    pub fn to_string(&self) -> (r: String)
        ensures
            r@ == self@.text(),
    {
        let mut out = String::new();
        self.write_to(&mut out);
        assert(Seq::<char>::empty() + self@.text() == self@.text());
        out
    }
}

/// The entries of an `Accept-Encoding` header, in the order of the header.
#[derive(Debug)]
pub struct AcceptEncodings(Vec<AcceptEncoding>);

/// The values of the entries of a list.
pub open spec fn entry_views(entries: Seq<AcceptEncoding>) -> Seq<AcceptEncodingView> {
    entries.map_values(|e: AcceptEncoding| e@)
}

/// The wire texts of the entries of a list.
pub open spec fn entry_texts(entries: Seq<AcceptEncodingView>) -> Seq<Seq<char>> {
    entries.map_values(|e: AcceptEncodingView| e.text())
}

/// Whether some entry of the list takes the compression `encoding`. The weights play no
/// part in it.
pub open spec fn accepts(entries: Seq<AcceptEncodingView>, encoding: BodyEncoding) -> bool {
    exists|i: int| 0 <= i < entries.len() && (#[trigger] entries[i]).encoding.takes(encoding)
}

/// The wire text of a list: the texts of its entries with `, ` between them.
pub open spec fn list_text(entries: Seq<AcceptEncodingView>) -> Seq<char> {
    join(entry_texts(entries), ", "@)
}

/// Reads the pieces of a header in order. A piece that is empty once trimmed of
/// whitespace is passed over; any other has to read as an entry, or the list has no value.
pub open spec fn parse_pieces(pieces: Seq<Seq<char>>) -> Option<Seq<AcceptEncodingView>>
    decreases pieces.len(),
{
    if pieces.len() == 0 {
        Some(Seq::empty())
    } else {
        match parse_pieces(pieces.drop_last()) {
            None => None,
            Some(before) => {
                let piece = trim(pieces.last(), true);
                if piece.len() == 0 {
                    Some(before)
                } else {
                    match AcceptEncodingView::parse(piece) {
                        Some(e) => Some(before.push(e)),
                        None => None,
                    }
                }
            },
        }
    }
}

/// Reads an `Accept-Encoding` header: the text is cut at each comma, and the pieces are
/// read in order.
pub open spec fn parse_list(s: Seq<char>) -> Option<Seq<AcceptEncodingView>> {
    parse_pieces(split(s, seq![',']))
}

impl View for AcceptEncodings {
    type V = Seq<AcceptEncodingView>;

    closed spec fn view(&self) -> Seq<AcceptEncodingView> {
        entry_views(self.0@)
    }
}

impl AcceptEncodings {
    /// The list of the given entries.
    pub fn new(encodings: Vec<AcceptEncoding>) -> (r: Self)
        ensures
            r@ == entry_views(encodings@),
    {
        AcceptEncodings(encodings)
    }

    /// Whether the client takes the compression `encoding`: whether some entry names it, or
    /// is the wildcard.
    pub fn accept(&self, encoding: &BodyEncoding) -> (r: bool)
        ensures
            r == accepts(self@, *encoding),
    {
        let mut i: usize = 0;
        while i < self.0.len()
            invariant
                i <= self.0.len(),
                forall|j: int| 0 <= j < i ==> !(#[trigger] self@[j]).encoding.takes(*encoding),
            decreases self.0.len() - i,
        {
            if self.0[i].accept(encoding) {
                assert(self@[i as int].encoding.takes(*encoding));
                return true;
            }
            i += 1;
        }
        false
    }

    /// Reads a header out of its characters.
    pub fn parse_chars(v: &Vec<char>) -> (r: Option<AcceptEncodings>)
        ensures
            match parse_list(v@) {
                Some(l) => r is Some && r->Some_0@ == l,
                None => r is None,
            },
    {
        let pieces = split_chars(v, &one_char(','));
        let mut encodings: Vec<AcceptEncoding> = Vec::new();
        let mut i: usize = 0;
        assert(texts(pieces@).take(0) == Seq::<Seq<char>>::empty());
        while i < pieces.len()
            invariant
                i <= pieces.len(),
                texts(pieces@) == split(v@, seq![',']),
                parse_pieces(texts(pieces@).take(i as int)) == Some(entry_views(encodings@)),
            decreases pieces.len() - i,
        {
            let piece = trim_chars(&pieces[i], true);
            let ghost upto = texts(pieces@).take(i + 1);
            proof {
                assert(upto.drop_last() == texts(pieces@).take(i as int));
                assert(upto.last() == pieces@[i as int]@);
            }
            if piece.len() > 0 {
                match AcceptEncoding::parse_chars(&piece) {
                    Some(e) => {
                        proof {
                            assert(entry_views(encodings@.push(e)) == entry_views(
                                encodings@,
                            ).push(e@));
                        }
                        encodings.push(e);
                    },
                    None => {
                        proof {
                            assert(parse_pieces(upto) is None);
                            lemma_parse_pieces_fails(texts(pieces@), i + 1);
                        }
                        return None;
                    },
                }
            }
            i += 1;
        }
        assert(texts(pieces@).take(pieces.len() as int) == texts(pieces@));
        Some(AcceptEncodings(encodings))
    }

    /// Reads an `Accept-Encoding` header such as `gzip, br;q=1`.
    pub fn parse(s: &str) -> (r: Result<AcceptEncodings, ()>)
        ensures
            match parse_list(s@) {
                Some(l) => r is Ok && r->Ok_0@ == l,
                None => r is Err,
            },
    {
        match AcceptEncodings::parse_chars(&chars_of(s)) {
            Some(l) => Ok(l),
            None => Err(()),
        }
    }

    /// Appends the wire text of the list to `out`.
    pub fn write_to(&self, out: &mut String)
        ensures
            final(out)@ == old(out)@ + list_text(self@),
    {
        let ghost parts = entry_texts(self@);
        let mut i: usize = 0;
        assert(parts.take(0) == Seq::<Seq<char>>::empty());
        assert(old(out)@ + Seq::<char>::empty() == old(out)@);
        while i < self.0.len()
            invariant
                i <= self.0.len(),
                parts == entry_texts(self@),
                parts.len() == self.0.len(),
                out@ == old(out)@ + join(parts.take(i as int), ", "@),
            decreases self.0.len() - i,
        {
            if i > 0 {
                out.append(", ");
            }
            self.0[i].write_to(out);
            proof {
                assert(parts.take(i + 1) == parts.take(i as int).push(parts[i as int]));
                crate::text::lemma_join_push(parts.take(i as int), ", "@, parts[i as int]);
                assert(parts[i as int] == self.0@[i as int]@.text());
                if i > 0 {
                    assert(old(out)@ + join(parts.take(i as int), ", "@) + ", "@ + parts[i as int]
                        == old(out)@ + (join(parts.take(i as int), ", "@) + ", "@
                        + parts[i as int]));
                }
            }
            i += 1;
        }
        assert(parts.take(self.0.len() as int) == parts);
    }

    /// The wire text of the list.
    pub fn to_string(&self) -> (r: String)
        ensures
            r@ == list_text(self@),
    {
        let mut out = String::new();
        self.write_to(&mut out);
        assert(Seq::<char>::empty() + list_text(self@) == list_text(self@));
        out
    }
}

impl Clone for AcceptEncodings {
    fn clone(&self) -> (r: Self)
        ensures
            r@ == self@,
    {
        AcceptEncodings(crate::text::copy_of(&self.0))
    }
}

impl Default for AcceptEncodings {
    fn default() -> (r: Self)
        ensures
            r@ == Seq::<AcceptEncodingView>::empty(),
    {
        AcceptEncodings(Vec::new())
    }
}

/// Once a beginning of the pieces has no value, the whole has none.
pub proof fn lemma_parse_pieces_fails(pieces: Seq<Seq<char>>, k: int)
    requires
        0 <= k <= pieces.len(),
        parse_pieces(pieces.take(k)) is None,
    ensures
        parse_pieces(pieces) is None,
    decreases pieces.len(),
{
    if k == pieces.len() {
        assert(pieces.take(k) == pieces);
    } else {
        assert(pieces.drop_last().take(k) == pieces.take(k));
        lemma_parse_pieces_fails(pieces.drop_last(), k);
    }
}

} // verus!

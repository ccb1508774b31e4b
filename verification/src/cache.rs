//! Cache directives, as `Cache-Control` and `Pragma` carry them.

use vstd::prelude::*;
use crate::number::{decimal, parse_unsigned, read_unsigned, write_decimal};
use crate::text::{
    chars_of, find, find_chars, is_text, join, one_char, slice_chars, split, split_chars, texts,
    trim, trim_chars,
};

verus! {

/// A cache directive: a bare token, or a token with a number of seconds.
#[derive(Debug, Clone, Copy, PartialEq, Eq, Structural)]
pub enum Cache {
    MaxAge(u32),
    NoCache,
    MustRevalidate,
    ProxyRevalidate,
    NoStore,
    Private,
    Public,
    MustUnderstand,
    NoTransform,
    Immutable,
    StaleWhileRevalidate(u32),
    StaleIfError(u32),
    MaxStale(u32),
    MinFresh(u32),
    OnlyIfCached,
}

impl Cache {
    /// The token of the directive, with its `=` where the directive carries a number.
    pub open spec fn label(self) -> Seq<char> {
        match self {
            Cache::MaxAge(_) => "max-age="@,
            Cache::NoCache => "no-cache"@,
            Cache::MustRevalidate => "must-revalidate"@,
            Cache::ProxyRevalidate => "proxy-revalidate"@,
            Cache::NoStore => "no-store"@,
            Cache::Private => "private"@,
            Cache::Public => "public"@,
            Cache::MustUnderstand => "must-understand"@,
            Cache::NoTransform => "no-transform"@,
            Cache::Immutable => "immutable"@,
            Cache::StaleWhileRevalidate(_) => "stale-while-revalidate="@,
            Cache::StaleIfError(_) => "stale-if-error="@,
            Cache::MaxStale(_) => "max-stale="@,
            Cache::MinFresh(_) => "min-fresh="@,
            Cache::OnlyIfCached => "only-if-cached"@,
        }
    }

    /// The number of seconds that the directive carries, if it carries one.
    pub open spec fn seconds(self) -> Option<u32> {
        match self {
            Cache::MaxAge(n) => Some(n),
            Cache::StaleWhileRevalidate(n) => Some(n),
            Cache::StaleIfError(n) => Some(n),
            Cache::MaxStale(n) => Some(n),
            Cache::MinFresh(n) => Some(n),
            _ => None,
        }
    }

    /// The wire text of the directive: its token, and the number in decimal where it
    /// carries one.
    pub open spec fn text(self) -> Seq<char> {
        match self.seconds() {
            Some(n) => self.label() + decimal(n as nat),
            None => self.label(),
        }
    }

    /// The directive that a bare token names.
    pub open spec fn bare(token: Seq<char>) -> Option<Cache> {
        if token == "no-cache"@ {
            Some(Cache::NoCache)
        } else if token == "must-revalidate"@ {
            Some(Cache::MustRevalidate)
        } else if token == "proxy-revalidate"@ {
            Some(Cache::ProxyRevalidate)
        } else if token == "no-store"@ {
            Some(Cache::NoStore)
        } else if token == "private"@ {
            Some(Cache::Private)
        } else if token == "public"@ {
            Some(Cache::Public)
        } else if token == "must-understand"@ {
            Some(Cache::MustUnderstand)
        } else if token == "no-transform"@ {
            Some(Cache::NoTransform)
        } else if token == "immutable"@ {
            Some(Cache::Immutable)
        } else if token == "only-if-cached"@ {
            Some(Cache::OnlyIfCached)
        } else {
            None
        }
    }

    /// The directive that a key names together with a number of seconds.
    pub open spec fn keyed(key: Seq<char>, seconds: u32) -> Option<Cache> {
        if key == "max-age"@ {
            Some(Cache::MaxAge(seconds))
        } else if key == "stale-while-revalidate"@ {
            Some(Cache::StaleWhileRevalidate(seconds))
        } else if key == "stale-if-error"@ {
            Some(Cache::StaleIfError(seconds))
        } else if key == "max-stale"@ {
            Some(Cache::MaxStale(seconds))
        } else if key == "min-fresh"@ {
            Some(Cache::MinFresh(seconds))
        } else {
            None
        }
    }

    /// Reads one directive. A text with an `=` is a key before the first `=` and a number
    /// behind it, which has to fit 32 bits; a text without one is a bare token. A text that
    /// is neither is no directive.
    pub open spec fn parse_once_spec(raw: Seq<char>) -> Option<Cache> {
        match find(raw, seq!['=']) {
            Some(i) => match parse_unsigned(raw.subrange(i + 1, raw.len() as int), 0xffff_ffff) {
                Some(n) => Cache::keyed(raw.subrange(0, i), n as u32),
                None => None,
            },
            None => Cache::bare(raw),
        }
    }

    /// The directives among the pieces of a header, in order; a piece is trimmed of spaces
    /// before it is read, and one that is no directive is passed over.
    pub open spec fn directives(pieces: Seq<Seq<char>>) -> Seq<Cache>
        decreases pieces.len(),
    {
        if pieces.len() == 0 {
            Seq::empty()
        } else {
            let before = Cache::directives(pieces.drop_last());
            match Cache::parse_once_spec(trim(pieces.last(), false)) {
                Some(c) => before.push(c),
                None => before,
            }
        }
    }

    /// Reads a list of directives: the text is cut at each comma.
    pub open spec fn parse_spec(raw: Seq<char>) -> Seq<Cache> {
        Cache::directives(split(raw, seq![',']))
    }

    /// The wire texts of the directives of a list.
    pub open spec fn texts_of(list: Seq<Cache>) -> Seq<Seq<char>> {
        list.map_values(|c: Cache| c.text())
    }

    /// The wire text of a list of directives: their texts with `, ` between them.
    pub open spec fn format_spec(list: Seq<Cache>) -> Seq<char> {
        join(Cache::texts_of(list), ", "@)
    }

    /// Reads one directive out of its characters.
    pub fn parse_chars(raw: &Vec<char>) -> (r: Option<Cache>)
        ensures
            r == Cache::parse_once_spec(raw@),
    {
        match find_chars(raw, &one_char('='), 0) {
            Some(i) => {
                let key = slice_chars(raw, 0, i);
                let value = slice_chars(raw, i + 1, raw.len());
                let seconds: u32 = match read_unsigned(&value, 0xffff_ffff) {
                    Some(n) => n as u32,
                    None => {
                        return None;
                    },
                };
                if is_text(&key, "max-age") {
                    Some(Cache::MaxAge(seconds))
                } else if is_text(&key, "stale-while-revalidate") {
                    Some(Cache::StaleWhileRevalidate(seconds))
                } else if is_text(&key, "stale-if-error") {
                    Some(Cache::StaleIfError(seconds))
                } else if is_text(&key, "max-stale") {
                    Some(Cache::MaxStale(seconds))
                } else if is_text(&key, "min-fresh") {
                    Some(Cache::MinFresh(seconds))
                } else {
                    None
                }
            },
            None => {
                if is_text(raw, "no-cache") {
                    Some(Cache::NoCache)
                } else if is_text(raw, "must-revalidate") {
                    Some(Cache::MustRevalidate)
                } else if is_text(raw, "proxy-revalidate") {
                    Some(Cache::ProxyRevalidate)
                } else if is_text(raw, "no-store") {
                    Some(Cache::NoStore)
                } else if is_text(raw, "private") {
                    Some(Cache::Private)
                } else if is_text(raw, "public") {
                    Some(Cache::Public)
                } else if is_text(raw, "must-understand") {
                    Some(Cache::MustUnderstand)
                } else if is_text(raw, "no-transform") {
                    Some(Cache::NoTransform)
                } else if is_text(raw, "immutable") {
                    Some(Cache::Immutable)
                } else if is_text(raw, "only-if-cached") {
                    Some(Cache::OnlyIfCached)
                } else {
                    None
                }
            },
        }
    }

    /// Reads one directive, such as `no-store` or `max-age=3600`.
    pub fn parse_once(raw_cache: &String) -> (r: Option<Cache>)
        ensures
            r == Cache::parse_once_spec(raw_cache@),
    {
        Cache::parse_chars(&chars_of(raw_cache.as_str()))
    }

    /// Reads a comma-separated list of directives; what is no directive is left out.
    pub fn parse(raw_cache: &String) -> (r: Vec<Cache>)
        ensures
            r@ == Cache::parse_spec(raw_cache@),
    {
        let raw = chars_of(raw_cache.as_str());
        let pieces = split_chars(&raw, &one_char(','));
        let mut out: Vec<Cache> = Vec::new();
        let mut i: usize = 0;
        assert(texts(pieces@).take(0) == Seq::<Seq<char>>::empty());
        while i < pieces.len()
            invariant
                i <= pieces.len(),
                out@ == Cache::directives(texts(pieces@).take(i as int)),
            decreases pieces.len() - i,
        {
            let ghost upto = texts(pieces@).take(i + 1);
            proof {
                assert(upto.drop_last() == texts(pieces@).take(i as int));
                assert(upto.last() == pieces@[i as int]@);
            }
            let piece = trim_chars(&pieces[i], false);
            match Cache::parse_chars(&piece) {
                Some(c) => {
                    out.push(c);
                },
                None => {},
            }
            i += 1;
        }
        assert(texts(pieces@).take(pieces.len() as int) == texts(pieces@));
        out
    }

    /// Appends the wire text of the directive to `out`.
    pub fn write_to(&self, out: &mut String)
        ensures
            final(out)@ == old(out)@ + self.text(),
    {
        let seconds: Option<u32> = match self {
            Cache::MaxAge(n) => {
                out.append("max-age=");
                Some(*n)
            },
            Cache::NoCache => {
                out.append("no-cache");
                None
            },
            Cache::MustRevalidate => {
                out.append("must-revalidate");
                None
            },
            Cache::ProxyRevalidate => {
                out.append("proxy-revalidate");
                None
            },
            Cache::NoStore => {
                out.append("no-store");
                None
            },
            Cache::Private => {
                out.append("private");
                None
            },
            Cache::Public => {
                out.append("public");
                None
            },
            Cache::MustUnderstand => {
                out.append("must-understand");
                None
            },
            Cache::NoTransform => {
                out.append("no-transform");
                None
            },
            Cache::Immutable => {
                out.append("immutable");
                None
            },
            Cache::StaleWhileRevalidate(n) => {
                out.append("stale-while-revalidate=");
                Some(*n)
            },
            Cache::StaleIfError(n) => {
                out.append("stale-if-error=");
                Some(*n)
            },
            Cache::MaxStale(n) => {
                out.append("max-stale=");
                Some(*n)
            },
            Cache::MinFresh(n) => {
                out.append("min-fresh=");
                Some(*n)
            },
            Cache::OnlyIfCached => {
                out.append("only-if-cached");
                None
            },
        };
        assert(seconds == self.seconds());
        assert(out@ == old(out)@ + self.label());
        match seconds {
            Some(n) => {
                write_decimal(out, n as u64);
                assert(out@ == old(out)@ + (self.label() + decimal(n as nat)));
            },
            None => {},
        }
    }

    /// The wire text of the directive.
    pub fn to_string(&self) -> (r: String)
        ensures
            r@ == self.text(),
    {
        let mut out = String::new();
        self.write_to(&mut out);
        assert(Seq::<char>::empty() + self.text() == self.text());
        out
    }

    /// Appends the wire text of a list of directives to `out`.
    pub fn write_list(out: &mut String, vec: &Vec<Cache>)
        ensures
            final(out)@ == old(out)@ + Cache::format_spec(vec@),
    {
        let ghost parts = Cache::texts_of(vec@);
        let mut i: usize = 0;
        assert(parts.take(0) == Seq::<Seq<char>>::empty());
        assert(old(out)@ + Seq::<char>::empty() == old(out)@);
        while i < vec.len()
            invariant
                i <= vec.len(),
                parts == Cache::texts_of(vec@),
                out@ == old(out)@ + join(parts.take(i as int), ", "@),
            decreases vec.len() - i,
        {
            let ghost mid = out@;
            if i > 0 {
                out.append(", ");
            }
            vec[i].write_to(out);
            proof {
                let part = parts[i as int];
                assert(part == vec@[i as int].text());
                assert(parts.take(i + 1) == parts.take(i as int).push(part));
                crate::text::lemma_join_push(parts.take(i as int), ", "@, part);
                if i > 0 {
                    assert(out@ == mid + ", "@ + part);
                    assert(old(out)@ + join(parts.take(i as int), ", "@) + ", "@ + part == old(
                        out,
                    )@ + (join(parts.take(i as int), ", "@) + ", "@ + part));
                } else {
                    assert(out@ == mid + part);
                }
            }
            i += 1;
        }
        assert(parts.take(vec.len() as int) == parts);
    }

    /// The wire text of a list of directives.
    pub fn format(vec: &Vec<Cache>) -> (r: String)
        ensures
            r@ == Cache::format_spec(vec@),
    {
        let mut out = String::new();
        Cache::write_list(&mut out, vec);
        assert(Seq::<char>::empty() + Cache::format_spec(vec@) == Cache::format_spec(vec@));
        out
    }
}

} // verus!

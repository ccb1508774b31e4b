//! Character sequences: searching, splitting, joining, trimming and ordering.
//!
//! Every parser and formatter of this crate is stated over `Seq<char>`, the view of a
//! `String`. The executable helpers work on `Vec<char>` and are proved against the spec
//! functions of this module.

use vstd::prelude::*;

verus! {

/// The lowercase form that `str::to_lowercase` gives to a text.
pub uninterp spec fn unicode_lowercase(s: Seq<char>) -> Seq<char>;

/// The uppercase form that `str::to_uppercase` gives to a text.
pub uninterp spec fn unicode_uppercase(s: Seq<char>) -> Seq<char>;

/// The text that `String::from_utf8_lossy` reads out of a byte sequence.
pub uninterp spec fn lossy_decoding(bytes: Seq<u8>) -> Seq<char>;

/// Whether every character of a text is an ASCII character.
pub open spec fn is_ascii_text(s: Seq<char>) -> bool {
    forall|i: int| 0 <= i < s.len() ==> (#[trigger] s[i] as u32) < 128
}

/// Whether every byte is the code of an ASCII character.
pub open spec fn is_ascii_bytes(bytes: Seq<u8>) -> bool {
    forall|i: int| 0 <= i < bytes.len() ==> #[trigger] bytes[i] < 128
}

/// The small letter of a capital letter of ASCII; any other character as it is.
pub open spec fn ascii_lower(c: char) -> char {
    if 0x41 <= c as u32 <= 0x5a {
        ((c as u8 + 32) as u8) as char
    } else {
        c
    }
}

/// The capital letter of a small letter of ASCII; any other character as it is.
pub open spec fn ascii_upper(c: char) -> char {
    if 0x61 <= c as u32 <= 0x7a {
        ((c as u8 - 32) as u8) as char
    } else {
        c
    }
}

/// A text with each capital letter of ASCII made small.
pub open spec fn ascii_lowercase(s: Seq<char>) -> Seq<char> {
    Seq::new(s.len(), |i: int| ascii_lower(s[i]))
}

/// A text with each small letter of ASCII made capital.
pub open spec fn ascii_uppercase(s: Seq<char>) -> Seq<char> {
    Seq::new(s.len(), |i: int| ascii_upper(s[i]))
}

/// The lowercase form of a text: for a text of ASCII the text with its capital letters
/// made small, for any other what `str::to_lowercase` gives.
pub open spec fn lowercase(s: Seq<char>) -> Seq<char> {
    if is_ascii_text(s) {
        ascii_lowercase(s)
    } else {
        unicode_lowercase(s)
    }
}

/// The uppercase form of a text: for a text of ASCII the text with its small letters made
/// capital, for any other what `str::to_uppercase` gives.
pub open spec fn uppercase(s: Seq<char>) -> Seq<char> {
    if is_ascii_text(s) {
        ascii_uppercase(s)
    } else {
        unicode_uppercase(s)
    }
}

/// The text of a byte sequence, invalid UTF-8 replaced: for bytes of ASCII the characters
/// of their codes, for any other what `String::from_utf8_lossy` gives.
pub open spec fn utf8_lossy(bytes: Seq<u8>) -> Seq<char> {
    if is_ascii_bytes(bytes) {
        byte_chars(bytes)
    } else {
        lossy_decoding(bytes)
    }
}

/// Appends one character through `String::push`: the text grows by exactly that character.
#[verifier::external_body]
pub(crate) fn push_char(s: &mut String, c: char)
    ensures
        final(s)@ == old(s)@.push(c),
{
    s.push(c)
}

/// Calls `str::to_lowercase`; the result is the text named `unicode_lowercase`. In a text
/// of ASCII it makes the capital letters small and leaves the rest.
#[verifier::external_body]
pub(crate) fn to_lowercase(s: &str) -> (r: String)
    ensures
        r@ == unicode_lowercase(s@),
        is_ascii_text(s@) ==> r@ == ascii_lowercase(s@),
{
    s.to_lowercase()
}

/// Calls `str::to_uppercase`; the result is the text named `unicode_uppercase`. In a text
/// of ASCII it makes the small letters capital and leaves the rest.
#[verifier::external_body]
pub(crate) fn to_uppercase(s: &str) -> (r: String)
    ensures
        r@ == unicode_uppercase(s@),
        is_ascii_text(s@) ==> r@ == ascii_uppercase(s@),
{
    s.to_uppercase()
}

/// Calls `String::from_utf8_lossy`; the result is the text named `lossy_decoding`. Bytes
/// of ASCII are valid UTF-8, and each gives the character of its code.
#[verifier::external_body]
pub(crate) fn from_utf8_lossy(bytes: &[u8]) -> (r: String)
    ensures
        r@ == lossy_decoding(bytes@),
        is_ascii_bytes(bytes@) ==> r@ == byte_chars(bytes@),
{
    String::from_utf8_lossy(bytes).into_owned()
}

/// The characters of a text, one by one.
pub fn chars_of(s: &str) -> (v: Vec<char>)
    ensures
        v@ == s@,
{
    let mut v: Vec<char> = Vec::new();
    for c in it: s.chars()
        invariant
            it.seq() == s@,
            v@ == s@.take(it.index()),
    {
        v.push(c);
        assert(s@.take(it.index() + 1) == s@.take(it.index()).push(s@[it.index()]));
    }
    assert(s@.take(s@.len() as int) == s@);
    v
}

/// Appends the characters of `v` to `s`.
pub fn append_chars(s: &mut String, v: &Vec<char>)
    ensures
        final(s)@ == old(s)@ + v@,
{
    let mut i: usize = 0;
    while i < v.len()
        invariant
            i <= v.len(),
            s@ == old(s)@ + v@.take(i as int),
        decreases v.len() - i,
    {
        push_char(s, v[i]);
        i += 1;
        assert(v@.take(i as int) == v@.take(i - 1).push(v@[i - 1]));
    }
    assert(v@.take(v.len() as int) == v@);
}

/// The `String` made of the characters of `v`.
pub fn string_of(v: &Vec<char>) -> (s: String)
    ensures
        s@ == v@,
{
    let mut s = String::new();
    append_chars(&mut s, v);
    s
}

/// Whether `v` spells the text `lit`.
pub fn is_text(v: &Vec<char>, lit: &str) -> (r: bool)
    ensures
        r == (v@ == lit@),
{
    let w = chars_of(lit);
    same_chars(v, &w)
}

/// Whether two character vectors hold the same text.
pub fn same_chars(a: &Vec<char>, b: &Vec<char>) -> (r: bool)
    ensures
        r == (a@ == b@),
{
    if a.len() != b.len() {
        return false;
    }
    let mut i: usize = 0;
    while i < a.len()
        invariant
            i <= a.len(),
            a.len() == b.len(),
            a@.take(i as int) == b@.take(i as int),
        decreases a.len() - i,
    {
        if a[i] != b[i] {
            return false;
        }
        i += 1;
        assert(a@.take(i as int) == a@.take(i - 1).push(a@[i - 1]));
        assert(b@.take(i as int) == b@.take(i - 1).push(b@[i - 1]));
    }
    assert(a@.take(a.len() as int) == a@);
    assert(b@.take(b.len() as int) == b@);
    true
}

/// Whether two texts are the same.
pub fn same_text(a: &str, b: &str) -> (r: bool)
    ensures
        r == (a@ == b@),
{
    same_chars(&chars_of(a), &chars_of(b))
}

/// The characters of `v` from `from` up to, not including, `to`.
pub fn slice_chars(v: &Vec<char>, from: usize, to: usize) -> (r: Vec<char>)
    requires
        from <= to <= v.len(),
    ensures
        r@ == v@.subrange(from as int, to as int),
{
    let mut r: Vec<char> = Vec::new();
    let mut i: usize = from;
    while i < to
        invariant
            from <= i <= to <= v.len(),
            r@ == v@.subrange(from as int, i as int),
        decreases to - i,
    {
        r.push(v[i]);
        i += 1;
        assert(v@.subrange(from as int, i as int) == v@.subrange(from as int, i - 1).push(
            v@[i - 1],
        ));
    }
    r
}

/// Whether `pat` stands in `s` at position `i`.
pub open spec fn occurs_at(s: Seq<char>, pat: Seq<char>, i: int) -> bool {
    0 <= i && i + pat.len() <= s.len() && s.subrange(i, i + pat.len()) == pat
}

/// The position of the first occurrence of `pat` in `s` at or after `from`.
pub open spec fn find_from(s: Seq<char>, pat: Seq<char>, from: int) -> Option<int>
    decreases s.len() + 1 - from,
{
    if from < 0 || from + pat.len() > s.len() {
        None
    } else if occurs_at(s, pat, from) {
        Some(from)
    } else {
        find_from(s, pat, from + 1)
    }
}

/// The position of the first occurrence of `pat` in `s`.
pub open spec fn find(s: Seq<char>, pat: Seq<char>) -> Option<int> {
    find_from(s, pat, 0)
}

/// The pieces of `s` from position `from` on, cut at each occurrence of `pat`, left to
/// right, occurrences not overlapping. An empty `pat` cuts nowhere.
pub open spec fn split_from(s: Seq<char>, pat: Seq<char>, from: int) -> Seq<Seq<char>>
    decreases s.len() - from,
{
    match find_from(s, pat, from) {
        Some(i) if pat.len() > 0 && from <= i && i + pat.len() <= s.len() => seq![
            s.subrange(from, i),
        ] + split_from(s, pat, i + pat.len()),
        _ => if 0 <= from <= s.len() {
            seq![s.subrange(from, s.len() as int)]
        } else {
            seq![Seq::empty()]
        },
    }
}

/// The pieces of `s`, cut at each occurrence of `pat`. There is always at least one piece.
pub open spec fn split(s: Seq<char>, pat: Seq<char>) -> Seq<Seq<char>> {
    split_from(s, pat, 0)
}

/// The texts of `parts` in order, with `sep` between neighbours.
pub open spec fn join(parts: Seq<Seq<char>>, sep: Seq<char>) -> Seq<char>
    decreases parts.len(),
{
    if parts.len() == 0 {
        Seq::empty()
    } else if parts.len() == 1 {
        parts[0]
    } else {
        join(parts.drop_last(), sep) + sep + parts.last()
    }
}

/// Joining one more part appends the separator and the part, but for the first part.
pub proof fn lemma_join_push(parts: Seq<Seq<char>>, sep: Seq<char>, part: Seq<char>)
    ensures
        join(parts.push(part), sep) == if parts.len() == 0 {
            part
        } else {
            join(parts, sep) + sep + part
        },
{
    assert(parts.push(part).drop_last() == parts);
}

/// What `find_from` finds is an occurrence, and the first one from `from` on.
pub proof fn lemma_find_from(s: Seq<char>, pat: Seq<char>, from: int)
    requires
        0 <= from,
    ensures
        match find_from(s, pat, from) {
            Some(i) => from <= i && occurs_at(s, pat, i) && forall|j: int|
                from <= j < i ==> !occurs_at(s, pat, j),
            None => forall|j: int| from <= j ==> !occurs_at(s, pat, j),
        },
    decreases s.len() + 1 - from,
{
    if from + pat.len() > s.len() {
    } else if occurs_at(s, pat, from) {
    } else {
        lemma_find_from(s, pat, from + 1);
    }
}

/// An occurrence with none before it is the one that `find_from` finds.
pub proof fn lemma_find_from_is(s: Seq<char>, pat: Seq<char>, from: int, i: int)
    requires
        0 <= from <= i,
        occurs_at(s, pat, i),
        forall|j: int| from <= j < i ==> !occurs_at(s, pat, j),
    ensures
        find_from(s, pat, from) == Some(i),
    decreases i - from,
{
    if from < i {
        lemma_find_from_is(s, pat, from + 1, i);
    }
}

/// The position of the first occurrence of `pat` in `v` at or after `from`.
pub fn find_chars(v: &Vec<char>, pat: &Vec<char>, from: usize) -> (r: Option<usize>)
    ensures
        match r {
            Some(i) => find_from(v@, pat@, from as int) == Some(i as int) && from <= i && i
                + pat.len() <= v.len(),
            None => find_from(v@, pat@, from as int) is None,
        },
{
    if pat.len() > v.len() || from > v.len() - pat.len() {
        return None;
    }
    let last: usize = v.len() - pat.len();
    let mut i: usize = from;
    loop
        invariant
            from <= i <= last,
            last == v.len() - pat.len(),
            find_from(v@, pat@, from as int) == find_from(v@, pat@, i as int),
        decreases last - i,
    {
        let mut k: usize = 0;
        let mut same = true;
        while k < pat.len()
            invariant
                k <= pat.len(),
                i + pat.len() <= v.len(),
                same ==> v@.subrange(i as int, i + k) == pat@.take(k as int),
                !same ==> !occurs_at(v@, pat@, i as int),
            decreases pat.len() - k,
        {
            if v[i + k] != pat[k] {
                same = false;
                assert(v@.subrange(i as int, i + pat.len())[k as int] != pat@[k as int]);
            }
            k += 1;
            assert(same ==> v@.subrange(i as int, i + k) == v@.subrange(i as int, i + k - 1).push(
                v@[i + k - 1],
            ));
            assert(pat@.take(k as int) == pat@.take(k - 1).push(pat@[k - 1]));
        }
        assert(pat@.take(pat.len() as int) == pat@);
        if same {
            return Some(i);
        }
        if i == last {
            assert(find_from(v@, pat@, i + 1) is None);
            return None;
        }
        i += 1;
    }
}

/// The views of the vectors in `parts`.
pub open spec fn texts(parts: Seq<Vec<char>>) -> Seq<Seq<char>> {
    parts.map_values(|p: Vec<char>| p@)
}

/// Cuts `v` at each occurrence of `pat`.
pub fn split_chars(v: &Vec<char>, pat: &Vec<char>) -> (r: Vec<Vec<char>>)
    ensures
        texts(r@) == split(v@, pat@),
        r.len() >= 1,
{
    let mut out: Vec<Vec<char>> = Vec::new();
    let mut pos: usize = 0;
    loop
        invariant
            pos <= v.len(),
            split(v@, pat@) == texts(out@) + split_from(v@, pat@, pos as int),
        decreases v.len() - pos,
    {
        let found = find_chars(v, pat, pos);
        match found {
            Some(i) if pat.len() > 0 => {
                let piece = slice_chars(v, pos, i);
                proof {
                    assert(texts(out@.push(piece)) == texts(out@).push(piece@));
                    assert(texts(out@) + (seq![piece@] + split_from(
                        v@,
                        pat@,
                        i + pat.len(),
                    )) == texts(out@).push(piece@) + split_from(v@, pat@, i + pat.len()));
                }
                out.push(piece);
                pos = i + pat.len();
            },
            _ => {
                let piece = slice_chars(v, pos, v.len());
                proof {
                    assert(texts(out@.push(piece)) == texts(out@).push(piece@));
                    assert(texts(out@) + seq![piece@] == texts(out@).push(piece@));
                }
                out.push(piece);
                return out;
            },
        }
    }
}

/// Whether a character is whitespace: one of the characters to which Unicode gives the
/// property `White_Space`. These are the controls from tab to carriage return, the space,
/// the next-line control, the no-break space, the Ogham space mark, the spaces from en
/// quad to hair space, the line and the paragraph separator, the narrow no-break space,
/// the medium mathematical space and the ideographic space.
pub open spec fn is_whitespace(c: char) -> bool {
    let n = c as u32;
    ||| 0x09 <= n <= 0x0d
    ||| n == 0x20
    ||| n == 0x85
    ||| n == 0xa0
    ||| n == 0x1680
    ||| 0x2000 <= n <= 0x200a
    ||| n == 0x2028
    ||| n == 0x2029
    ||| n == 0x202f
    ||| n == 0x205f
    ||| n == 0x3000
}

/// Whether a character is whitespace.
pub fn char_is_whitespace(c: char) -> (r: bool)
    ensures
        r == is_whitespace(c),
{
    let n: u32 = c as u32;
    (0x09 <= n && n <= 0x0d) || n == 0x20 || n == 0x85 || n == 0xa0 || n == 0x1680 || (0x2000 <= n
        && n <= 0x200a) || n == 0x2028 || n == 0x2029 || n == 0x202f || n == 0x205f || n
        == 0x3000
}

/// Whether trimming sets a character aside: every whitespace character when
/// `any_whitespace` holds, the space alone otherwise.
pub open spec fn is_blank(c: char, any_whitespace: bool) -> bool {
    if any_whitespace {
        is_whitespace(c)
    } else {
        c == ' '
    }
}

/// `s` without the blank characters at its start.
pub open spec fn trim_start(s: Seq<char>, any_whitespace: bool) -> Seq<char>
    decreases s.len(),
{
    if s.len() > 0 && is_blank(s[0], any_whitespace) {
        trim_start(s.skip(1), any_whitespace)
    } else {
        s
    }
}

/// `s` without the blank characters at its end.
pub open spec fn trim_end(s: Seq<char>, any_whitespace: bool) -> Seq<char>
    decreases s.len(),
{
    if s.len() > 0 && is_blank(s.last(), any_whitespace) {
        trim_end(s.drop_last(), any_whitespace)
    } else {
        s
    }
}

/// `s` without the blank characters at either end.
pub open spec fn trim(s: Seq<char>, any_whitespace: bool) -> Seq<char> {
    trim_end(trim_start(s, any_whitespace), any_whitespace)
}

/// `s` with a space in place of each plus sign.
pub open spec fn plus_to_space(s: Seq<char>) -> Seq<char> {
    Seq::new(
        s.len(),
        |i: int|
            if s[i] == '+' {
                ' '
            } else {
                s[i]
            },
    )
}

/// Whether trimming sets `c` aside.
pub fn blank(c: char, any_whitespace: bool) -> (r: bool)
    ensures
        r == is_blank(c, any_whitespace),
{
    if any_whitespace {
        char_is_whitespace(c)
    } else {
        c == ' '
    }
}

/// `v` without the blank characters at either end.
pub fn trim_chars(v: &Vec<char>, any_whitespace: bool) -> (r: Vec<char>)
    ensures
        r@ == trim(v@, any_whitespace),
{
    let mut start: usize = 0;
    assert(v@.skip(0) == v@);
    while start < v.len() && blank(v[start], any_whitespace)
        invariant
            start <= v.len(),
            trim_start(v@, any_whitespace) == trim_start(v@.skip(start as int), any_whitespace),
        decreases v.len() - start,
    {
        assert(v@.skip(start as int).skip(1) == v@.skip(start + 1));
        start += 1;
    }
    let ghost rest = v@.skip(start as int);
    assert(trim_start(v@, any_whitespace) == rest);
    let mut end: usize = v.len();
    assert(v@.subrange(start as int, end as int) == rest);
    while end > start && blank(v[end - 1], any_whitespace)
        invariant
            start <= end <= v.len(),
            trim_end(rest, any_whitespace) == trim_end(
                v@.subrange(start as int, end as int),
                any_whitespace,
            ),
        decreases end - start,
    {
        assert(v@.subrange(start as int, end as int).drop_last() == v@.subrange(
            start as int,
            end - 1,
        ));
        end -= 1;
    }
    slice_chars(v, start, end)
}

/// `v` with a space in place of each plus sign.
pub fn replace_plus(v: &Vec<char>) -> (r: Vec<char>)
    ensures
        r@ == plus_to_space(v@),
{
    let mut r: Vec<char> = Vec::new();
    let mut i: usize = 0;
    while i < v.len()
        invariant
            i <= v.len(),
            r@ == plus_to_space(v@).take(i as int),
        decreases v.len() - i,
    {
        let c = v[i];
        r.push(
            if c == '+' {
                ' '
            } else {
                c
            },
        );
        i += 1;
        assert(plus_to_space(v@).take(i as int) == plus_to_space(v@).take(i - 1).push(
            plus_to_space(v@)[i - 1],
        ));
    }
    assert(plus_to_space(v@).take(v.len() as int) == plus_to_space(v@));
    r
}

/// The byte that stands for a character on the wire: the low eight bits of its code.
pub open spec fn low_byte(c: char) -> u8 {
    ((c as u32) % 256) as u8
}

/// The wire bytes of a text, one byte for each character.
pub open spec fn low_bytes(s: Seq<char>) -> Seq<u8> {
    Seq::new(s.len(), |i: int| low_byte(s[i]))
}

/// The character that a byte of the request line stands for: the one with that code.
pub open spec fn byte_char(b: u8) -> char {
    b as char
}

/// The characters of a run of bytes, one character for each byte.
pub open spec fn byte_chars(bytes: Seq<u8>) -> Seq<char> {
    Seq::new(bytes.len(), |i: int| byte_char(bytes[i]))
}

/// The wire byte of a character.
pub fn to_low_byte(c: char) -> (b: u8)
    ensures
        b == low_byte(c),
{
    let n: u32 = c as u32;
    (n % 256) as u8
}

/// Appends the wire bytes of a text to `out`.
pub fn push_str(out: &mut Vec<u8>, data: &str)
    ensures
        final(out)@ == old(out)@ + low_bytes(data@),
{
    for c in it: data.chars()
        invariant
            it.seq() == data@,
            out@ == old(out)@ + low_bytes(data@).take(it.index()),
    {
        out.push(to_low_byte(c));
        assert(low_bytes(data@).take(it.index() + 1) == low_bytes(data@).take(it.index()).push(
            low_bytes(data@)[it.index()],
        ));
    }
    assert(low_bytes(data@).take(data@.len() as int) == low_bytes(data@));
}

/// The characters of the bytes of `bytes` from `from` up to, not including, `to`.
pub fn chars_of_bytes(bytes: &Vec<u8>, from: usize, to: usize) -> (r: Vec<char>)
    requires
        from <= to <= bytes.len(),
    ensures
        r@ == byte_chars(bytes@.subrange(from as int, to as int)),
{
    let ghost target = byte_chars(bytes@.subrange(from as int, to as int));
    let mut r: Vec<char> = Vec::new();
    let mut i: usize = from;
    while i < to
        invariant
            from <= i <= to <= bytes.len(),
            target == byte_chars(bytes@.subrange(from as int, to as int)),
            r@ == target.take(i - from),
        decreases to - i,
    {
        r.push(bytes[i] as char);
        i += 1;
        assert(target.take(i - from) == target.take(i - from - 1).push(target[i - from - 1]));
    }
    assert(target.take(to - from) == target);
    r
}

/// A copy of a vector of values that copy.
pub fn copy_of<T: Copy>(v: &Vec<T>) -> (r: Vec<T>)
    ensures
        r@ == v@,
{
    let mut r: Vec<T> = Vec::new();
    let mut i: usize = 0;
    while i < v.len()
        invariant
            i <= v.len(),
            r@ == v@.take(i as int),
        decreases v.len() - i,
    {
        r.push(v[i]);
        i += 1;
        assert(v@.take(i as int) == v@.take(i - 1).push(v@[i - 1]));
    }
    assert(v@.take(v.len() as int) == v@);
    r
}

/// The vector of one character.
pub fn one_char(c: char) -> (r: Vec<char>)
    ensures
        r@ == seq![c],
{
    let mut r: Vec<char> = Vec::new();
    r.push(c);
    r
}

/// The vector of two characters.
pub fn two_chars(a: char, b: char) -> (r: Vec<char>)
    ensures
        r@ == seq![a, b],
{
    let mut r: Vec<char> = Vec::new();
    r.push(a);
    r.push(b);
    r
}

/// Whether `s` ends with `tail`.
pub open spec fn ends_with(s: Seq<char>, tail: Seq<char>) -> bool {
    s.len() >= tail.len() && s.subrange(s.len() - tail.len(), s.len() as int) == tail
}

/// What is put behind a text is what the whole ends with.
pub proof fn lemma_ends_with_appended(s: Seq<char>, tail: Seq<char>)
    ensures
        ends_with(s + tail, tail),
{
    assert((s + tail).subrange((s + tail).len() - tail.len(), (s + tail).len() as int) == tail);
}

/// Whether `pat` occurs nowhere in `s`.
pub open spec fn free_of(s: Seq<char>, pat: Seq<char>) -> bool {
    forall|j: int| !occurs_at(s, pat, j)
}

/// Whether the character `c` stands nowhere in `s`.
pub open spec fn free_of_char(s: Seq<char>, c: char) -> bool {
    forall|j: int| 0 <= j < s.len() ==> s[j] != c
}

/// A text without the character `c` holds no occurrence of the one-character pattern `c`.
pub proof fn lemma_free_of_char(s: Seq<char>, c: char)
    requires
        free_of_char(s, c),
    ensures
        free_of(s, seq![c]),
{
    assert forall|j: int| !occurs_at(s, seq![c], j) by {
        if occurs_at(s, seq![c], j) {
            assert(s.subrange(j, j + 1)[0] == c);
        }
    }
}

/// Behind a text `a`, searching goes as it does in what follows `a`.
pub proof fn lemma_find_from_shift(a: Seq<char>, b: Seq<char>, pat: Seq<char>, k: int)
    requires
        0 <= k,
    ensures
        find_from(a + b, pat, a.len() + k) == match find_from(b, pat, k) {
            Some(i) => Some(a.len() + i),
            None => None,
        },
    decreases b.len() + 1 - k,
{
    let s = a + b;
    if k + pat.len() > b.len() {
    } else {
        assert(s.subrange(a.len() + k, a.len() + k + pat.len()) == b.subrange(k, k + pat.len()));
        if occurs_at(b, pat, k) {
        } else {
            lemma_find_from_shift(a, b, pat, k + 1);
        }
    }
}

/// Behind a text `a`, splitting goes as it does in what follows `a`.
pub proof fn lemma_split_from_shift(a: Seq<char>, b: Seq<char>, pat: Seq<char>, k: int)
    requires
        0 <= k <= b.len(),
    ensures
        split_from(a + b, pat, a.len() + k) == split_from(b, pat, k),
    decreases b.len() - k,
{
    let s = a + b;
    lemma_find_from_shift(a, b, pat, k);
    lemma_find_from(b, pat, k);
    match find_from(b, pat, k) {
        Some(i) => {
            if pat.len() > 0 {
                assert(s.subrange(a.len() + k, a.len() + i) == b.subrange(k, i));
                lemma_split_from_shift(a, b, pat, i + pat.len());
            } else {
                assert(s.subrange(a.len() + k, s.len() as int) == b.subrange(k, b.len() as int));
            }
        },
        None => {
            assert(s.subrange(a.len() + k, s.len() as int) == b.subrange(k, b.len() as int));
        },
    }
}

/// A text in which the pattern does not occur is its own single piece.
pub proof fn lemma_split_whole(s: Seq<char>, pat: Seq<char>)
    requires
        free_of(s, pat),
    ensures
        split(s, pat) == seq![s],
{
    lemma_find_from(s, pat, 0);
    assert(s.subrange(0, s.len() as int) == s);
}

/// Where the pattern first occurs right behind `head`, the first piece is `head` and the
/// others are the pieces of what follows the pattern.
pub proof fn lemma_split_first(head: Seq<char>, pat: Seq<char>, rest: Seq<char>)
    requires
        pat.len() > 0,
        forall|j: int| 0 <= j < head.len() ==> !occurs_at(head + pat + rest, pat, j),
    ensures
        split(head + pat + rest, pat) == seq![head] + split(rest, pat),
{
    let s = head + pat + rest;
    assert(s.subrange(head.len() as int, (head.len() + pat.len()) as int) == pat);
    lemma_find_from_is(s, pat, 0, head.len() as int);
    assert(s.subrange(0, head.len() as int) == head);
    lemma_split_from_shift(head + pat, rest, pat, 0);
}

/// Joining from the front: the first part, the separator, and the others joined.
pub proof fn lemma_join_front(parts: Seq<Seq<char>>, sep: Seq<char>)
    requires
        parts.len() >= 2,
    ensures
        join(parts, sep) == parts[0] + sep + join(parts.skip(1), sep),
    decreases parts.len(),
{
    let init = parts.drop_last();
    let tail = parts.skip(1);
    if parts.len() == 2 {
        assert(join(init, sep) == parts[0]);
        assert(join(tail, sep) == parts[1]);
        assert(join(parts, sep) == join(init, sep) + sep + parts.last());
    } else {
        lemma_join_front(init, sep);
        assert(init.skip(1) == tail.drop_last());
        assert(tail.last() == parts.last());
        assert(init[0] == parts[0]);
        assert(join(tail, sep) == join(tail.drop_last(), sep) + sep + tail.last());
        assert(join(parts, sep) == join(init, sep) + sep + parts.last());
        assert(parts[0] + sep + join(tail.drop_last(), sep) + sep + parts.last() == parts[0] + sep
            + (join(tail.drop_last(), sep) + sep + parts.last()));
    }
}

/// Whether occurrences of `sep` can be told apart from texts around them: `sep` is one
/// character, or two different ones.
pub open spec fn plain_separator(sep: Seq<char>) -> bool {
    sep.len() == 1 || (sep.len() == 2 && sep[0] != sep[1])
}

/// Splitting what was joined gives the parts back, where the separator occurs in none of
/// them.
pub proof fn lemma_split_join(parts: Seq<Seq<char>>, sep: Seq<char>)
    requires
        parts.len() > 0,
        plain_separator(sep),
        forall|i: int| 0 <= i < parts.len() ==> free_of(#[trigger] parts[i], sep),
    ensures
        split(join(parts, sep), sep) == parts,
    decreases parts.len(),
{
    if parts.len() == 1 {
        lemma_split_whole(parts[0], sep);
        assert(seq![parts[0]] == parts);
    } else {
        let head = parts[0];
        let rest = join(parts.skip(1), sep);
        let s = head + sep + rest;
        lemma_join_front(parts, sep);
        assert forall|j: int| 0 <= j < head.len() implies !occurs_at(s, sep, j) by {
            if occurs_at(s, sep, j) {
                if j + sep.len() <= head.len() {
                    assert(s.subrange(j, j + sep.len()) == head.subrange(j, j + sep.len()));
                    assert(occurs_at(head, sep, j));
                } else {
                    assert(s.subrange(j, j + 2)[1] == sep[1]);
                    assert(s[j + 1] == sep[0]);
                }
            }
        }
        lemma_split_first(head, sep, rest);
        assert forall|i: int| 0 <= i < parts.skip(1).len() implies free_of(
            #[trigger] parts.skip(1)[i],
            sep,
        ) by {
            assert(parts.skip(1)[i] == parts[i + 1]);
        }
        lemma_split_join(parts.skip(1), sep);
        assert(seq![head] + parts.skip(1) == parts);
    }
}

/// Whether the text `a` comes before the text `b`, or is `b`, in the order of texts:
/// character by character, by the codes of the characters, a beginning before what it
/// begins. This is the order of `String`.
pub open spec fn text_le(a: Seq<char>, b: Seq<char>) -> bool
    decreases a.len(),
{
    if a.len() == 0 {
        true
    } else if b.len() == 0 {
        false
    } else if a[0] != b[0] {
        (a[0] as u32) < (b[0] as u32)
    } else {
        text_le(a.skip(1), b.skip(1))
    }
}

/// Whether `a` comes before `b`, or is `b`, in the order of texts.
pub fn chars_le(a: &Vec<char>, b: &Vec<char>) -> (r: bool)
    ensures
        r == text_le(a@, b@),
{
    let mut i: usize = 0;
    assert(a@.skip(0) == a@);
    assert(b@.skip(0) == b@);
    loop
        invariant
            i <= a.len(),
            i <= b.len(),
            text_le(a@, b@) == text_le(a@.skip(i as int), b@.skip(i as int)),
        decreases a.len() - i,
    {
        if i == a.len() {
            return true;
        }
        if i == b.len() {
            return false;
        }
        let x: u32 = a[i] as u32;
        let y: u32 = b[i] as u32;
        assert(a@.skip(i as int)[0] == a@[i as int]);
        assert(b@.skip(i as int)[0] == b@[i as int]);
        if x != y {
            return x < y;
        }
        proof {
            lemma_same_code(a@[i as int], b@[i as int]);
        }
        assert(a@.skip(i as int).skip(1) == a@.skip(i + 1));
        assert(b@.skip(i as int).skip(1) == b@.skip(i + 1));
        i += 1;
    }
}

/// Two characters of one code are the same character.
pub proof fn lemma_same_code(a: char, b: char)
    requires
        a as u32 == b as u32,
    ensures
        a == b,
{
    vstd::utf8::char_u32_cast(a, a as u32);
    vstd::utf8::char_u32_cast(b, b as u32);
}

/// A text is not behind itself in the order of texts.
pub proof fn lemma_text_le_reflexive(a: Seq<char>)
    ensures
        text_le(a, a),
    decreases a.len(),
{
    if a.len() > 0 {
        lemma_text_le_reflexive(a.skip(1));
    }
}

/// Of two texts, one comes before the other or is the other.
pub proof fn lemma_text_le_total(a: Seq<char>, b: Seq<char>)
    ensures
        text_le(a, b) || text_le(b, a),
    decreases a.len(),
{
    if a.len() > 0 && b.len() > 0 {
        if a[0] == b[0] {
            lemma_text_le_total(a.skip(1), b.skip(1));
        } else if a[0] as u32 == b[0] as u32 {
            lemma_same_code(a[0], b[0]);
        }
    }
}

/// The order of texts is transitive.
pub proof fn lemma_text_le_transitive(a: Seq<char>, b: Seq<char>, c: Seq<char>)
    requires
        text_le(a, b),
        text_le(b, c),
    ensures
        text_le(a, c),
    decreases a.len(),
{
    if a.len() > 0 && b.len() > 0 && c.len() > 0 {
        if a[0] == b[0] && b[0] == c[0] {
            lemma_text_le_transitive(a.skip(1), b.skip(1), c.skip(1));
        }
    }
}

} // verus!

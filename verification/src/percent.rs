//! Percent-encoding, as the `urlencoding` crate performs it.

use vstd::prelude::*;

verus! {

/// The text that `urlencoding::decode` reads out of a text; `None` where it reports that
/// the decoded bytes are no UTF-8.
pub uninterp spec fn unescaped(s: Seq<char>) -> Option<Seq<char>>;

#[verifier::external_type_specification]
#[verifier::external_body]
pub struct ExFromUtf8Error(std::string::FromUtf8Error);

/// Whether a byte stands for itself in an encoded text: the code of a letter or digit of
/// ASCII, or of one of `-`, `_`, `.`, `~`.
pub open spec fn is_unreserved(b: u8) -> bool {
    ||| 0x30 <= b <= 0x39
    ||| 0x41 <= b <= 0x5a
    ||| 0x61 <= b <= 0x7a
    ||| b == 0x2d
    ||| b == 0x5f
    ||| b == 0x2e
    ||| b == 0x7e
}

/// The hexadecimal digit of a number below sixteen, with capital letters.
pub open spec fn hex_digit(n: int) -> char {
    if n < 10 {
        ((0x30 + n) as u8) as char
    } else {
        ((0x41 + n - 10) as u8) as char
    }
}

/// What stands for a byte in an encoded text: the character of its code where the byte is
/// unreserved, otherwise a percent sign and the two hexadecimal digits of the byte.
pub open spec fn encoded_byte(b: u8) -> Seq<char> {
    if is_unreserved(b) {
        seq![b as char]
    } else {
        seq!['%', hex_digit(b as int / 16), hex_digit(b as int % 16)]
    }
}

/// What stands for a run of bytes in an encoded text.
pub open spec fn encoded_bytes(bytes: Seq<u8>) -> Seq<char>
    decreases bytes.len(),
{
    if bytes.len() == 0 {
        Seq::empty()
    } else {
        encoded_bytes(bytes.drop_last()) + encoded_byte(bytes.last())
    }
}

/// The encoded form of a text: what stands for the bytes of the text in UTF-8.
pub open spec fn percent_encoded(s: Seq<char>) -> Seq<char> {
    encoded_bytes(vstd::utf8::encode_utf8(s))
}

/// Whether a percent sign stands in `s`.
pub open spec fn has_percent(s: Seq<char>) -> bool {
    exists|i: int| 0 <= i < s.len() && #[trigger] s[i] == '%'
}

/// The decoded form of a text: the text itself where it holds no percent sign, otherwise
/// what `urlencoding::decode` reads out of it, which is nothing where the decoded bytes
/// are no UTF-8.
pub open spec fn percent_decoded(s: Seq<char>) -> Option<Seq<char>> {
    if has_percent(s) {
        unescaped(s)
    } else {
        Some(s)
    }
}

/// Whether a character may stand in an encoded text: a letter or digit of ASCII, one of
/// `-`, `_`, `.`, `~`, or the percent sign.
pub open spec fn is_encoded_char(c: char) -> bool {
    let n = c as u32;
    ||| 0x30 <= n <= 0x39
    ||| 0x41 <= n <= 0x5a
    ||| 0x61 <= n <= 0x7a
    ||| n == 0x2d
    ||| n == 0x5f
    ||| n == 0x2e
    ||| n == 0x7e
    ||| n == 0x25
}

/// Whether every character of `s` may stand in an encoded text.
pub open spec fn is_encoded_text(s: Seq<char>) -> bool {
    forall|i: int| 0 <= i < s.len() ==> is_encoded_char(#[trigger] s[i])
}

/// Whether encoding `s` and decoding the result gives `s` back. `encode` promises this of
/// every text that it is given.
pub open spec fn percent_encodable(s: Seq<char>) -> bool {
    percent_decoded(percent_encoded(s)) == Some(s)
}

/// What stands for bytes in an encoded text is made of the characters of encoded texts.
pub proof fn lemma_encoded_bytes_are_plain(bytes: Seq<u8>)
    ensures
        is_encoded_text(encoded_bytes(bytes)),
    decreases bytes.len(),
{
    if bytes.len() > 0 {
        lemma_encoded_bytes_are_plain(bytes.drop_last());
        let before = encoded_bytes(bytes.drop_last());
        let last = encoded_byte(bytes.last());
        assert forall|i: int| 0 <= i < last.len() implies is_encoded_char(#[trigger] last[i]) by {}
        assert forall|i: int| 0 <= i < (before + last).len() implies is_encoded_char(
            #[trigger] (before + last)[i],
        ) by {
            if i < before.len() {
                assert((before + last)[i] == before[i]);
            } else {
                assert((before + last)[i] == last[i - before.len()]);
            }
        }
    }
}

/// The encoded form of a text is made of the characters of encoded texts.
pub proof fn lemma_encoded_is_plain(s: Seq<char>)
    ensures
        is_encoded_text(percent_encoded(s)),
{
    lemma_encoded_bytes_are_plain(vstd::utf8::encode_utf8(s));
}

/// Calls `urlencoding::encode`, which escapes every byte of the text in UTF-8 but ASCII
/// letters, digits and `-`, `_`, `.`, `~` as a percent sign and two capital hexadecimal
/// digits. `urlencoding::decode` gives back from the result the text that went in.
#[verifier::external_body]
pub(crate) fn encode(s: &str) -> (r: String)
    ensures
        r@ == percent_encoded(s@),
        percent_decoded(r@) == Some(s@),
{
    urlencoding::encode(s).into_owned()
}

/// Calls `urlencoding::decode`; the result is the text named `unescaped`, and an error
/// where there is none. A text without a percent sign is handed back as it is.
#[verifier::external_body]
pub(crate) fn decode(s: &str) -> (r: Result<String, std::string::FromUtf8Error>)
    ensures
        match unescaped(s@) {
            Some(t) => r is Ok && r->Ok_0@ == t,
            None => r is Err,
        },
        !has_percent(s@) ==> r is Ok && r->Ok_0@ == s@,
{
    urlencoding::decode(s).map(|c| c.into_owned())
}

/// The decoded form of `v`, where there is one.
pub fn decode_chars(v: &Vec<char>) -> (r: Option<Vec<char>>)
    ensures
        match r {
            Some(t) => percent_decoded(v@) == Some(t@),
            None => percent_decoded(v@) is None,
        },
{
    let s = crate::text::string_of(v);
    match decode(s.as_str()) {
        Ok(t) => Some(crate::text::chars_of(t.as_str())),
        Err(_) => None,
    }
}

/// Appends the encoded form of `s` to `out`.
pub fn append_encoded(out: &mut String, s: &str)
    ensures
        final(out)@ == old(out)@ + percent_encoded(s@),
        percent_encodable(s@),
{
    let e = encode(s);
    out.append(e.as_str());
}

} // verus!

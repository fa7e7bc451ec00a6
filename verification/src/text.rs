//! Text operations that the reduction of a header relies on: percent-coding
//! of extended values, case folding, and splitting on spaces.
use percent_encoding::{percent_decode, utf8_percent_encode, DEFAULT_ENCODE_SET};
use std::str::Utf8Error;
use vstd::prelude::*;
use vstd::std_specs::iter::IteratorSpec;
use vstd::string::*;
use vstd::utf8::*;

verus! {

/// The bytes that are written as `%XX` in an extended value: controls,
/// everything above `~`, and the characters ``space " # < > ` ? { }``.
pub open spec fn in_encode_set(byte: u8) -> bool {
    byte < 0x20 || byte > 0x7E || byte == 0x20 || byte == 0x22 || byte == 0x23 || byte == 0x3C
        || byte == 0x3E || byte == 0x60 || byte == 0x3F || byte == 0x7B || byte == 0x7D
}

/// The upper-case hexadecimal digit of a number below sixteen.
pub open spec fn upper_hex(n: int) -> char {
    if n < 10 {
        ((48 + n) as u8) as char
    } else {
        ((55 + n) as u8) as char
    }
}

/// One byte in percent-encoded form.
pub open spec fn encoded_byte(byte: u8) -> Seq<char> {
    if in_encode_set(byte) {
        seq!['%', upper_hex(byte as int / 16), upper_hex(byte as int % 16)]
    } else {
        seq![byte as char]
    }
}

/// The percent-encoded form of a byte string.
pub open spec fn encoded_bytes(bytes: Seq<u8>) -> Seq<char>
    decreases bytes.len(),
{
    if bytes.len() == 0 {
        Seq::empty()
    } else {
        encoded_byte(bytes[0]) + encoded_bytes(bytes.drop_first())
    }
}

/// The percent-encoded form of the UTF-8 encoding of a text.
pub open spec fn percent_encoded(text: Seq<char>) -> Seq<char> {
    encoded_bytes(encode_utf8(text))
}

/// The value of a hexadecimal digit given as a byte, in either case.
pub open spec fn hex_value(byte: u8) -> Option<int> {
    if 0x30 <= byte <= 0x39 {
        Some(byte - 0x30)
    } else if 0x41 <= byte <= 0x46 {
        Some(byte - 0x41 + 10)
    } else if 0x61 <= byte <= 0x66 {
        Some(byte - 0x61 + 10)
    } else {
        None
    }
}

/// A byte string with every `%` that two hexadecimal digits follow replaced,
/// together with the digits, by the byte they denote. Any other `%` stays.
pub open spec fn decoded_bytes(bytes: Seq<u8>) -> Seq<u8>
    decreases bytes.len(),
{
    if bytes.len() == 0 {
        Seq::empty()
    } else if bytes[0] == 0x25 && bytes.len() >= 3 && hex_value(bytes[1]) is Some && hex_value(
        bytes[2],
    ) is Some {
        seq![(hex_value(bytes[1])->0 * 16 + hex_value(bytes[2])->0) as u8] + decoded_bytes(
            bytes.skip(3),
        )
    } else {
        seq![bytes[0]] + decoded_bytes(bytes.drop_first())
    }
}

/// The text that the percent-decoded bytes of `text` encode in UTF-8, if they
/// are well-formed UTF-8.
pub open spec fn percent_decoded(text: Seq<char>) -> Option<Seq<char>> {
    let bytes = decoded_bytes(encode_utf8(text));
    if valid_utf8(bytes) {
        Some(decode_utf8(bytes))
    } else {
        None
    }
}

/// Whether a text is free of `%`.
pub open spec fn no_percent(text: Seq<char>) -> bool {
    forall|i: int| 0 <= i < text.len() ==> text[i] != '%'
}

/// The bytes of a text of ASCII characters.
pub open spec fn ascii_bytes(chars: Seq<char>) -> Seq<u8> {
    Seq::new(chars.len(), |i: int| chars[i] as u8)
}

/// Percent-encoded text is ASCII.
pub proof fn lemma_encoded_is_ascii(bytes: Seq<u8>)
    ensures
        is_ascii_chars(encoded_bytes(bytes)),
    decreases bytes.len(),
{
    if bytes.len() > 0 {
        lemma_encoded_is_ascii(bytes.drop_first());
        let head = encoded_byte(bytes[0]);
        assert(is_ascii_chars(head));
        is_ascii_chars_concat(encoded_bytes(bytes), head, encoded_bytes(bytes.drop_first()));
    }
}

/// Decoding the percent-encoded form of bytes gives the bytes back, if no
/// `%` is among them.
pub proof fn lemma_decoded_encoded_bytes(bytes: Seq<u8>)
    requires
        forall|i: int| 0 <= i < bytes.len() ==> bytes[i] != 0x25,
    ensures
        decoded_bytes(ascii_bytes(encoded_bytes(bytes))) == bytes,
    decreases bytes.len(),
{
    let coded = ascii_bytes(encoded_bytes(bytes));
    if bytes.len() == 0 {
        assert(coded =~= Seq::empty());
    } else {
        let byte = bytes[0];
        let rest = bytes.drop_first();
        lemma_decoded_encoded_bytes(rest);
        let tail = ascii_bytes(encoded_bytes(rest));
        if in_encode_set(byte) {
            assert(coded.len() >= 3);
            assert(coded[0] == 0x25);
            assert(hex_value(coded[1]) == Some(byte as int / 16));
            assert(hex_value(coded[2]) == Some(byte as int % 16));
            assert(coded.skip(3) =~= tail);
            assert(seq![byte] + rest =~= bytes);
        } else {
            assert(coded[0] == byte);
            assert(coded.drop_first() =~= tail);
            assert(seq![byte] + rest =~= bytes);
        }
    }
}

/// The UTF-8 encoding of a text without `%` holds no byte `%`.
pub proof fn lemma_no_percent_byte(text: Seq<char>)
    requires
        no_percent(text),
    ensures
        forall|i: int| 0 <= i < encode_utf8(text).len() ==> encode_utf8(text)[i] != 0x25,
    decreases text.len(),
{
    if text.len() > 0 {
        lemma_no_percent_byte(text.drop_first());
        let first = text[0];
        let c = first as u32;
        char_is_scalar(first);
        char_u32_cast(first, c);
        assert(first != '%');
        assert(c != 0x25);
        assert(c <= 0x7F ==> (c & 0x7F) as u8 != 0x25) by (bit_vector)
            requires
                c != 0x25,
        ;
        assert((0xC0u8 | ((c >> 6) & 0x1F) as u8) != 0x25) by (bit_vector);
        assert((0xE0u8 | ((c >> 12) & 0x0F) as u8) != 0x25) by (bit_vector);
        assert((0xF0u8 | ((c >> 18) & 0x7) as u8) != 0x25) by (bit_vector);
        assert((0x80u8 | (c & 0x3F) as u8) != 0x25) by (bit_vector);
        assert((0x80u8 | ((c >> 6) & 0x3F) as u8) != 0x25) by (bit_vector);
        assert((0x80u8 | ((c >> 12) & 0x3F) as u8) != 0x25) by (bit_vector);
        let head = encode_scalar(c);
        assert(forall|i: int| 0 <= i < head.len() ==> head[i] != 0x25);
        let tail = encode_utf8(text.drop_first());
        assert forall|i: int| 0 <= i < encode_utf8(text).len() implies encode_utf8(text)[i]
            != 0x25 by {
            if i >= head.len() {
                assert(encode_utf8(text)[i] == tail[i - head.len()]);
            }
        }
    }
}

/// Percent-decoding the percent-encoded form of a text gives the text back,
/// unless the text holds a `%`: that one is not encoded, and what follows it
/// may then read as an encoded byte.
pub proof fn lemma_percent_round_trip(text: Seq<char>)
    requires
        no_percent(text),
    ensures
        percent_decoded(percent_encoded(text)) == Some(text),
{
    let bytes = encode_utf8(text);
    let coded = encoded_bytes(bytes);
    lemma_no_percent_byte(text);
    lemma_encoded_is_ascii(bytes);
    is_ascii_chars_encode_utf8(coded);
    assert(encode_utf8(coded) =~= ascii_bytes(coded));
    lemma_decoded_encoded_bytes(bytes);
    encode_utf8_valid_utf8(text);
    encode_utf8_decode_utf8(text);
}

/// The lower-case equivalent of a text, as `str::to_lowercase` of the standard
/// library computes it.
pub uninterp spec fn lowercased(text: Seq<char>) -> Seq<char>;

/// Calls `percent_encoding::utf8_percent_encode` with `DEFAULT_ENCODE_SET`
/// and collects what it displays. Trusted: every byte of the UTF-8 encoding
/// that is in the set comes out as `%` and two upper-case hexadecimal digits,
/// every other byte as itself.
#[verifier::external_body]
pub(crate) fn percent_encode(text: &str) -> (encoded: String)
    ensures
        encoded@ == percent_encoded(text@),
{
    utf8_percent_encode(text, DEFAULT_ENCODE_SET).to_string()
}

/// `std::str::Utf8Error`, the reason why bytes are no UTF-8. Nothing is read
/// from it.
#[verifier::external_type_specification]
#[verifier::external_body]
pub struct ExUtf8Error(Utf8Error);

/// Calls `percent_encoding::percent_decode` on the bytes of the text and then
/// `decode_utf8`. Trusted: the bytes are decoded as [`decoded_bytes`] says,
/// and the call fails exactly when they are not well-formed UTF-8.
#[verifier::external_body]
pub(crate) fn percent_decode_utf8(text: &str) -> (decoded: Result<String, Utf8Error>)
    ensures
        match decoded {
            Ok(d) => percent_decoded(text@) == Some(d@),
            Err(_) => percent_decoded(text@) is None,
        },
{
    percent_decode(text.as_bytes()).decode_utf8().map(|d| d.into_owned())
}

/// Calls `str::to_lowercase`. Trusted: the result is a function of the text.
#[verifier::external_body]
pub(crate) fn to_lowercase(text: &str) -> (lower: String)
    ensures
        lower@ == lowercased(text@),
{
    text.to_lowercase()
}

/// The characters of a text, in order.
pub fn chars_of(text: &str) -> (chars: Vec<char>)
    ensures
        chars@ == text@,
{
    let mut chars: Vec<char> = Vec::new();
    let mut rest = text.chars();
    loop
        invariant
            rest.remaining() == text@.skip(chars@.len() as int),
            chars@ == text@.take(chars@.len() as int),
            chars@.len() <= text@.len(),
        ensures
            chars@ == text@,
        decreases text@.len() - chars@.len(),
    {
        let ghost before = chars@;
        match rest.next() {
            Some(c) => {
                chars.push(c);
                assert(chars@ =~= text@.take(chars@.len() as int));
                assert(rest.remaining() =~= text@.skip(chars@.len() as int));
            },
            None => {
                assert(chars@ =~= text@);
                break ;
            },
        }
    }
    chars
}

/// The space-delimited tokens of `text[start..]`, given that a token began at
/// `begin` and no space lies in `text[begin..start]`. Empty tokens are left
/// out.
pub open spec fn tokens_from(text: Seq<char>, begin: int, start: int) -> Seq<Seq<char>>
    decreases text.len() - start,
{
    if start >= text.len() {
        if begin < start {
            seq![text.subrange(begin, start)]
        } else {
            Seq::empty()
        }
    } else if text[start] == ' ' {
        if begin < start {
            seq![text.subrange(begin, start)] + tokens_from(text, start + 1, start + 1)
        } else {
            tokens_from(text, start + 1, start + 1)
        }
    } else {
        tokens_from(text, begin, start + 1)
    }
}

/// The non-empty tokens that single spaces delimit in a text, in order.
pub open spec fn space_tokens(text: Seq<char>) -> Seq<Seq<char>> {
    tokens_from(text, 0, 0)
}

/// The views of a list of strings.
pub open spec fn texts(list: Seq<String>) -> Seq<Seq<char>> {
    list.map_values(|s: String| s@)
}

/// Splits a text on spaces, dropping empty tokens.
pub fn split_spaces(text: &str) -> (tokens: Vec<String>)
    ensures
        texts(tokens@) == space_tokens(text@),
{
    let chars = chars_of(text);
    let mut tokens: Vec<String> = Vec::new();
    let mut begin: usize = 0;
    let mut at: usize = 0;
    while at < chars.len()
        invariant
            chars@ == text@,
            begin <= at <= chars@.len(),
            space_tokens(text@) == texts(tokens@) + tokens_from(text@, begin as int, at as int),
        decreases chars@.len() - at,
    {
        if chars[at] == ' ' {
            if begin < at {
                let token = text.substring_char(begin, at).to_owned();
                let ghost before = tokens@;
                tokens.push(token);
                assert(texts(tokens@) =~= texts(before) + seq![text@.subrange(
                    begin as int,
                    at as int,
                )]);
            }
            begin = at + 1;
        }
        at = at + 1;
    }
    if begin < at {
        let token = text.substring_char(begin, at).to_owned();
        let ghost before = tokens@;
        tokens.push(token);
        assert(texts(tokens@) =~= texts(before) + seq![text@.subrange(begin as int, at as int)]);
    }
    assert(texts(tokens@) =~= space_tokens(text@));
    tokens
}

} // verus!

//! Lower-case hexadecimal text of digests and its decoder.

use vstd::prelude::*;
use vstd::string::StringSliceAdditionalSpecFns;
use crate::latin1::{low_bytes, low_bytes_of};
use crate::outside::push_char;

verus! {

/// The number that the decoder gives a character: `0`–`9` and `a`–`f` stand
/// for 0 to 15, every other character for 0.
pub open spec fn hex_nibble(c: char) -> u8 {
    if '0' <= c <= '9' {
        (c as u32 - '0' as u32) as u8
    } else if 'a' <= c <= 'f' {
        (c as u32 - 'a' as u32 + 10) as u8
    } else {
        0
    }
}

/// Text that the decoder accepts: an even number of characters, each below
/// `'g'` (the decoder's table has 103 entries).
pub open spec fn hex_decodable(s: Seq<char>) -> bool {
    &&& s.len() % 2 == 0
    &&& forall|i: int| 0 <= i < s.len() ==> #[trigger] s[i] < 'g'
}

/// Each pair of characters read as a byte, the first as its high nibble.
pub open spec fn hex_decode(s: Seq<char>) -> Seq<u8> {
    Seq::new(
        s.len() / 2,
        |i: int| (16 * hex_nibble(s[2 * i]) + hex_nibble(s[2 * i + 1])) as u8,
    )
}

/// The lower-case digit for a number below 16.
pub open spec fn hex_digit(n: u8) -> char {
    if n < 10 {
        ('0' as u32 + n) as char
    } else {
        ('a' as u32 + n - 10) as char
    }
}

/// Two lower-case digits per byte, high nibble first.
pub open spec fn lower_hex(bytes: Seq<u8>) -> Seq<char> {
    Seq::new(
        2 * bytes.len(),
        |i: int|
            if i % 2 == 0 {
                hex_digit(bytes[i / 2] / 16)
            } else {
                hex_digit(bytes[i / 2] % 16)
            },
    )
}

fn hex_value(c: char) -> (n: u8)
    ensures
        n == hex_nibble(c),
        n < 16,
{
    if '0' <= c && c <= '9' {
        (c as u32 - '0' as u32) as u8
    } else if 'a' <= c && c <= 'f' {
        (c as u32 - 'a' as u32 + 10) as u8
    } else {
        0
    }
}

fn hex_char(n: u8) -> (c: char)
    requires
        n < 16,
    ensures
        c == hex_digit(n),
{
    if n < 10 {
        (48u8 + n) as char
    } else {
        (87u8 + n) as char
    }
}

/// The text that `md5::Digest` formats to with `{:x}`: two lower-case digits
/// per byte, high nibble first.
pub fn to_lower_hex(bytes: &[u8]) -> (text: String)
    ensures
        text@ == lower_hex(bytes@),
{
    let mut text = String::new();
    let n = bytes.len();
    for i in 0..n
        invariant
            n == bytes@.len(),
            text@ == lower_hex(bytes@.take(i as int)),
    {
        let b = bytes[i];
        push_char(&mut text, hex_char(b / 16));
        push_char(&mut text, hex_char(b % 16));
        assert(text@ =~= lower_hex(bytes@.take(i + 1)));
    }
    assert(bytes@.take(n as int) =~= bytes@);
    text
}

proof fn lemma_char_at_least_nul(c: char)
    ensures
        '\0' <= c,
{
}

/// Text that the decoder accepts is ASCII, so its UTF-8 encoding has one
/// byte per character.
pub proof fn lemma_hex_decodable_byte_len(s: Seq<char>)
    requires
        hex_decodable(s),
    ensures
        vstd::utf8::encode_utf8(s).len() == s.len(),
{
    assert(vstd::utf8::is_ascii_chars(s)) by {
        assert forall|i: int| 0 <= i < s.len() implies '\0' <= #[trigger] s[i] <= '\u{7f}' by {
            lemma_char_at_least_nul(s[i]);
        }
    }
    vstd::utf8::is_ascii_chars_encode_utf8(s);
}

/// Text of more than 32 bytes is kept character by character, the low byte
/// of each; shorter text is read as pairs of hexadecimal digits.
pub fn md52array(md5: &str) -> (arr: Vec<u8>)
    requires
        md5.spec_bytes().len() <= 32 ==> hex_decodable(md5@),
    ensures
        md5.spec_bytes().len() > 32 ==> arr@ == low_bytes(md5@),
        md5.spec_bytes().len() <= 32 ==> arr@ == hex_decode(md5@),
{
    let bytes = md5.as_bytes();
    let len = bytes.len();
    assert(bytes@ == md5.spec_bytes());
    assert(len == md5.spec_bytes().len());
    if len > 32 {
        return low_bytes_of(md5);
    }
    proof {
        lemma_hex_decodable_byte_len(md5@);
    }
    let mut arr: Vec<u8> = Vec::new();
    let mut idx: usize = 0;
    while idx < len
        invariant
            len == md5@.len(),
            hex_decodable(md5@),
            idx <= len,
            idx % 2 == 0,
            arr@ == hex_decode(md5@).take(idx as int / 2),
        decreases len - idx,
    {
        let n1 = hex_value(md5.get_char(idx));
        let n2 = hex_value(md5.get_char(idx + 1));
        let c1 = n1 << 4;
        assert(((n1 << 4u8) | n2) == (16 * n1 + n2) as u8) by (bit_vector)
            requires
                n1 < 16,
                n2 < 16,
        ;
        arr.push(c1 | n2);
        idx += 2;
        assert(arr@ =~= hex_decode(md5@).take(idx as int / 2));
    }
    assert(hex_decode(md5@).take(idx as int / 2) =~= hex_decode(md5@));
    arr
}

/// Decoding the lower-case hexadecimal text of a byte string gives the byte
/// string back.
pub proof fn lemma_hex_round_trip(bytes: Seq<u8>)
    ensures
        hex_decodable(lower_hex(bytes)),
        hex_decode(lower_hex(bytes)) == bytes,
{
    let text = lower_hex(bytes);
    assert forall|i: int| 0 <= i < text.len() implies #[trigger] text[i] < 'g' by {
        let b = bytes[i / 2];
        assert(b / 16 < 16 && b % 16 < 16);
    }
    assert forall|i: int| 0 <= i < bytes.len() implies #[trigger] hex_decode(text)[i] == bytes[i] by {
        let b = bytes[i];
        assert(text[2 * i] == hex_digit(b / 16));
        assert(text[2 * i + 1] == hex_digit(b % 16));
        assert(hex_nibble(hex_digit(b / 16)) == b / 16);
        assert(hex_nibble(hex_digit(b % 16)) == b % 16);
    }
    assert(hex_decode(text) =~= bytes);
}

} // verus!

//! Strings of one-byte characters: the library moves bytes in and out of
//! `String`s the way the signature's text encoding does, each byte standing
//! for the character with the same number.

use vstd::prelude::*;
use crate::outside::push_char;

verus! {

/// Each byte read as the character with the same number (`b as char`).
pub open spec fn latin1_chars(bytes: Seq<u8>) -> Seq<char> {
    bytes.map_values(|b: u8| b as char)
}

/// The low byte of each character (`c as u8`).
pub open spec fn low_bytes(chars: Seq<char>) -> Seq<u8> {
    chars.map_values(|c: char| c as u8)
}

/// `bytes.iter().map(|&b| b as char).collect()`.
pub fn latin1_string(bytes: &[u8]) -> (text: String)
    ensures
        text@ == latin1_chars(bytes@),
{
    let mut text = String::new();
    let n = bytes.len();
    for i in 0..n
        invariant
            n == bytes@.len(),
            text@ == latin1_chars(bytes@.take(i as int)),
    {
        push_char(&mut text, bytes[i] as char);
        assert(latin1_chars(bytes@.take(i + 1)) =~= latin1_chars(bytes@.take(i as int)).push(
            bytes@[i as int] as char,
        ));
    }
    assert(bytes@.take(n as int) =~= bytes@);
    text
}

/// `s.chars().map(|c| c as u8).collect()`.
pub fn low_bytes_of(s: &str) -> (bytes: Vec<u8>)
    ensures
        bytes@ == low_bytes(s@),
{
    let n = s.unicode_len();
    let mut bytes: Vec<u8> = Vec::new();
    for i in 0..n
        invariant
            n == s@.len(),
            bytes@ == low_bytes(s@.take(i as int)),
    {
        let c = s.get_char(i);
        bytes.push(c as u8);
        assert(low_bytes(s@.take(i + 1)) =~= low_bytes(s@.take(i as int)).push(s@[i as int] as u8));
    }
    assert(s@.take(n as int) =~= s@);
    bytes
}

/// Reading bytes as characters and taking the low byte of each gives the
/// bytes back.
pub proof fn lemma_latin1_round_trip(bytes: Seq<u8>)
    ensures
        low_bytes(latin1_chars(bytes)) == bytes,
{
    assert forall|i: int| 0 <= i < bytes.len() implies #[trigger] low_bytes(latin1_chars(bytes))[i]
        == bytes[i] by {
        let b = bytes[i];
        assert((b as char) as u8 == b);
    }
    assert(low_bytes(latin1_chars(bytes)) =~= bytes);
}

} // verus!

//! The calls this library makes into `md5`, `rc4` and `std`, each behind a
//! contract that Verus takes on trust.

use vstd::prelude::*;
use rc4::{KeyInit, StreamCipher};

verus! {

/// The MD5 digest of a byte string, as `md5::compute` computes it.
pub uninterp spec fn md5_digest(data: Seq<u8>) -> Seq<u8>;

/// Byte `i` (counted from 0) of the keystream that the RC4 stream cipher of
/// the `rc4` crate produces when keyed with `key`.
pub uninterp spec fn rc4_keystream_byte(key: Seq<u8>, i: nat) -> u8;

/// Calls `md5::compute` on `data` and hands back the sixteen bytes of the
/// `Digest` it returns (`Digest` is a tuple struct around `[u8; 16]`).
/// Trusted: that these bytes are `md5_digest(data)`, a function of `data`
/// alone; what MD5 computes is not stated.
#[verifier::external_body]
pub(crate) fn md5_compute(data: &[u8]) -> (digest: Vec<u8>)
    ensures
        digest@ == md5_digest(data@),
        digest@.len() == 16,
{
    md5::compute(data).0.to_vec()
}

/// Builds `rc4::Rc4` with the one-byte key `key` (through `KeyInit::new`)
/// and calls `StreamCipher::apply_keystream` on the whole of `data`.
/// Trusted: that the length of `data` is unchanged (the call works on a
/// slice of it), and that each byte afterwards is the old byte XOR-ed with
/// the keystream byte at its position, `rc4_keystream_byte([key], i)`: a
/// fresh cipher makes one keystream byte per buffer byte, in order, from a
/// state set by the key alone (`cipher::StreamCipher::apply_keystream` over
/// RC4's one-byte blocks). The keystream bytes themselves are not stated.
#[verifier::external_body]
pub(crate) fn rc4_apply_keystream(key: u8, data: &mut Vec<u8>)
    ensures
        final(data)@.len() == old(data)@.len(),
        forall|i: int|
            0 <= i < old(data)@.len() ==> #[trigger] final(data)@[i] == old(data)@[i]
                ^ rc4_keystream_byte(seq![key], i as nat),
{
    let key_bytes = [key];
    let mut cipher = rc4::Rc4::<rc4::consts::U1>::new((&key_bytes).into());
    cipher.apply_keystream(data.as_mut_slice());
}

/// Reads the clock through `std::time::SystemTime::elapsed` on
/// `UNIX_EPOCH` and returns the whole seconds of the elapsed time, or `None`
/// where the clock stands before the epoch. Nothing is promised of the value:
/// it depends on the time of the call.
#[verifier::external_body]
pub(crate) fn seconds_since_unix_epoch() -> (secs: Option<u64>)
{
    match std::time::UNIX_EPOCH.elapsed() {
        Ok(elapsed) => Some(elapsed.as_secs()),
        Err(_) => None,
    }
}

/// `String::push`: appends `c` to the end of `s`.
#[verifier::external_body]
pub(crate) fn push_char(s: &mut String, c: char)
    ensures
        final(s)@ == old(s)@.push(c),
{
    s.push(c);
}

/// `regex::Error`, the error of `regex::Regex::new`.
#[verifier::external_type_specification]
#[verifier::external_body]
pub struct ExRegexError(regex::Error);

/// Whether `regex::Regex::new` accepts a pattern.
pub uninterp spec fn regex_compiles(pattern: Seq<char>) -> bool;

/// The text of the named group `group` in the leftmost match of `pattern` in
/// `text`, as `regex::Regex::captures` and `regex::Captures::name` find it;
/// `None` where there is no match or the group took no part in it.
pub uninterp spec fn regex_named_capture(pattern: Seq<char>, text: Seq<char>, group: Seq<char>) -> Option<Seq<char>>;

/// Compiles `pattern` with `regex::Regex::new`, and on success calls
/// `captures` on `text` and `name(group)` on the captures found, handing
/// back the matched text as a `String`.
/// Trusted: that success depends on the pattern alone (`regex_compiles`),
/// and that the capture is `regex_named_capture(pattern, text, group)`, a
/// function of the three arguments alone. What the regular expression
/// language means is not stated.
#[verifier::external_body]
pub(crate) fn first_named_capture(pattern: &str, text: &str, group: &str) -> (found: Result<Option<String>, regex::Error>)
    ensures
        found is Ok <==> regex_compiles(pattern@),
        found matches Ok(capture) ==> match capture {
            Some(c) => regex_named_capture(pattern@, text@, group@) == Some(c@),
            None => regex_named_capture(pattern@, text@, group@) is None,
        },
{
    let re = regex::Regex::new(pattern)?;
    match re.captures(text) {
        Some(caps) => match caps.name(group) {
            Some(m) => Ok(Some(m.as_str().to_string())),
            None => Ok(None),
        },
        None => Ok(None),
    }
}

} // verus!

//! The `X-Bogus` signature of a query string: a 19-byte payload built from
//! MD5 digests and the time, shuffled, scrambled with RC4 and encoded as 28
//! characters of the signature's alphabet.

use vstd::prelude::*;
use vstd::string::StringSliceAdditionalSpecFns;
use crate::encoding::{
    encode_groups, encode_groups_of, encoding_conversion, encoding_conversion2,
    lemma_encode_groups_shape, xb_digits, xb_shuffle,
};
use crate::hex::{
    hex_decodable, hex_decode, lemma_hex_decodable_byte_len, lemma_hex_round_trip, md52array,
    to_lower_hex,
};
use crate::latin1::{latin1_chars, latin1_string, lemma_latin1_round_trip, low_bytes_of};
use crate::outside::{
    md5_compute, md5_digest, rc4_apply_keystream, rc4_keystream_byte, seconds_since_unix_epoch,
};

verus! {

/// Hexadecimal text of the fixed digest whose last two bytes go into every
/// payload.
pub open spec fn fixed_digest_hex() -> Seq<char> {
    "d88201c9344707acde7261b158656c0e"@
}

/// Hexadecimal text of the digest that is hashed once more for the payload
/// (the MD5 digest of empty input).
pub open spec fn salt_digest_hex() -> Seq<char> {
    "d41d8cd98f00b204e9800998ecf8427e"@
}

/// The XOR of all bytes.
pub open spec fn xor_all(s: Seq<u8>) -> u8
    decreases s.len(),
{
    if s.len() == 0 {
        0
    } else {
        xor_all(s.drop_last()) ^ s.last()
    }
}

/// The 18 leading bytes of the payload: a fixed prefix, the last two bytes
/// of each of the three digests, the low 32 bits of the timestamp and the
/// fixed word 536919696, both big-endian.
pub open spec fn xb_header(url_digest: Seq<u8>, salt_digest: Seq<u8>, fixed_digest: Seq<u8>, timestamp: u64) -> Seq<u8> {
    seq![
        64u8, 0u8, 1u8, 8u8,
        url_digest[14], url_digest[15],
        salt_digest[14], salt_digest[15],
        fixed_digest[14], fixed_digest[15],
        (timestamp / 0x1000000 % 256) as u8,
        (timestamp / 0x10000 % 256) as u8,
        (timestamp / 0x100 % 256) as u8,
        (timestamp % 256) as u8,
        0x20u8, 0x00u8, 0xbeu8, 0x90u8,
    ]
}

/// The 19-byte payload: the header and the XOR of its bytes.
pub open spec fn xb_payload_bytes(url_digest: Seq<u8>, salt_digest: Seq<u8>, fixed_digest: Seq<u8>, timestamp: u64) -> Seq<u8> {
    let header = xb_header(url_digest, salt_digest, fixed_digest, timestamp);
    header.push(xor_all(header))
}

/// The bytes at even positions.
pub open spec fn even_positions(a: Seq<u8>) -> Seq<u8> {
    Seq::new(((a.len() + 1) / 2) as nat, |i: int| a[2 * i])
}

/// The bytes at odd positions.
pub open spec fn odd_positions(a: Seq<u8>) -> Seq<u8> {
    Seq::new((a.len() / 2) as nat, |i: int| a[2 * i + 1])
}

/// Where the even-then-odd split puts byte `i` of `n` bytes.
pub open spec fn split_position(n: int, i: int) -> int {
    if i % 2 == 0 {
        i / 2
    } else {
        (n + 1) / 2 + i / 2
    }
}

/// The even-then-odd split keeps every byte, each in a place of its own.
pub proof fn lemma_split_keeps_every_byte(a: Seq<u8>)
    ensures
        (even_positions(a) + odd_positions(a)).len() == a.len(),
        forall|i: int| 0 <= i < a.len() ==> 0 <= #[trigger] split_position(a.len() as int, i) < a.len(),
        forall|i: int|
            0 <= i < a.len() ==> (even_positions(a) + odd_positions(a))[#[trigger] split_position(
                a.len() as int,
                i,
            )] == a[i],
        forall|i: int, j: int|
            0 <= i < a.len() && 0 <= j < a.len() && i != j ==> #[trigger] split_position(a.len() as int, i)
                != #[trigger] split_position(a.len() as int, j),
{
    let n = a.len() as int;
    let s = even_positions(a) + odd_positions(a);
    assert forall|i: int| 0 <= i < n implies s[#[trigger] split_position(n, i)] == a[i] by {
        if i % 2 == 0 {
            assert(s[i / 2] == even_positions(a)[i / 2]);
        } else {
            assert(s[(n + 1) / 2 + i / 2] == odd_positions(a)[i / 2]);
        }
    }
}

/// On 19 bytes the shuffle undoes the even-then-odd split: together they
/// leave the bytes in place.
pub proof fn lemma_split_shuffle_cancel(a: Seq<u8>)
    requires
        a.len() == 19,
    ensures
        xb_shuffle(even_positions(a) + odd_positions(a)) == a,
{
    let s = even_positions(a) + odd_positions(a);
    assert forall|i: int| 0 <= i < 19 implies #[trigger] xb_shuffle(s)[i] == a[i] by {
        if i % 2 == 0 {
            assert(s[i / 2] == even_positions(a)[i / 2]);
        } else {
            assert(s[10 + i / 2] == odd_positions(a)[i / 2]);
        }
    }
    assert(xb_shuffle(s) =~= a);
}

/// The signature text of a scrambled payload: the bytes 2 and 255 before
/// it, each group of three encoded as four alphabet characters.
pub open spec fn xb_text_of_cipher(cipher: Seq<u8>) -> Seq<char> {
    encode_groups(latin1_chars(seq![2u8, 255u8] + cipher))
}

/// The payload of a query string's bytes at a timestamp, with its bytes at
/// even positions first, shuffled.
pub open spec fn xb_plain(url: Seq<u8>, timestamp: u64) -> Seq<u8> {
    let payload = xb_payload_bytes(
        md5_digest(md5_digest(url)),
        md5_digest(hex_decode(salt_digest_hex())),
        hex_decode(fixed_digest_hex()),
        timestamp,
    );
    xb_shuffle(even_positions(payload) + odd_positions(payload))
}

/// The payload of a query string's bytes at a timestamp.
pub open spec fn xb_payload_of(url: Seq<u8>, timestamp: u64) -> Seq<u8> {
    xb_payload_bytes(
        md5_digest(md5_digest(url)),
        md5_digest(hex_decode(salt_digest_hex())),
        hex_decode(fixed_digest_hex()),
        timestamp,
    )
}

/// The bytes that RC4 scrambles are the payload itself.
pub proof fn lemma_plain_is_payload(url: Seq<u8>, timestamp: u64)
    ensures
        xb_plain(url, timestamp) == xb_payload_of(url, timestamp),
        xb_plain(url, timestamp).len() == 19,
{
    let payload = xb_payload_of(url, timestamp);
    assert(payload.len() == 19);
    lemma_split_shuffle_cancel(payload);
}

/// Each byte XOR-ed with the RC4 keystream byte of its position.
pub open spec fn keystream_xor(key: Seq<u8>, data: Seq<u8>) -> Seq<u8> {
    Seq::new(data.len(), |i: int| data[i] ^ rc4_keystream_byte(key, i as nat))
}

/// The scrambled payload of a query string's bytes at a timestamp.
pub open spec fn xb_cipher(url: Seq<u8>, timestamp: u64) -> Seq<u8> {
    keystream_xor(seq![0xffu8], xb_plain(url, timestamp))
}

/// The signature of a query string's bytes at a timestamp.
pub open spec fn xb_signature(url: Seq<u8>, timestamp: u64) -> Seq<char> {
    xb_text_of_cipher(xb_cipher(url, timestamp))
}

proof fn lemma_xor_zero(x: u8)
    ensures
        0u8 ^ x == x,
        x ^ x == 0u8,
{
    assert(0u8 ^ x == x) by (bit_vector);
    assert(x ^ x == 0u8) by (bit_vector);
}

/// The payload's bytes XOR to zero: its last byte is the XOR of all others.
pub proof fn lemma_payload_checksum(url_digest: Seq<u8>, salt_digest: Seq<u8>, fixed_digest: Seq<u8>, timestamp: u64)
    ensures
        xb_payload_bytes(url_digest, salt_digest, fixed_digest, timestamp).len() == 19,
        xor_all(xb_payload_bytes(url_digest, salt_digest, fixed_digest, timestamp)) == 0,
{
    let header = xb_header(url_digest, salt_digest, fixed_digest, timestamp);
    let payload = xb_payload_bytes(url_digest, salt_digest, fixed_digest, timestamp);
    assert(payload.drop_last() =~= header);
    lemma_xor_zero(xor_all(header));
}

/// The MD5 digest of the MD5 digest of the text's bytes.
pub fn md5_encrypt(url_path: &str) -> (digest: Vec<u8>)
    ensures
        digest@ == md5_digest(md5_digest(url_path.spec_bytes())),
        digest@.len() == 16,
{
    let first = md5_compute(url_path.as_bytes());
    let m1 = to_lower_hex(first.as_slice());
    proof {
        lemma_hex_round_trip(first@);
        lemma_hex_decodable_byte_len(m1@);
    }
    let m2 = md52array(m1.as_str());
    let second = md5_compute(m2.as_slice());
    let m3 = to_lower_hex(second.as_slice());
    proof {
        lemma_hex_round_trip(second@);
        lemma_hex_decodable_byte_len(m3@);
    }
    md52array(m3.as_str())
}

/// The 19-byte payload of the three digests and a timestamp: the header and,
/// last, the XOR of its bytes.
pub fn xb_payload(url_path_array: &Vec<u8>, arr2: &Vec<u8>, arr1: &Vec<u8>, timestamp: u64) -> (payload: Vec<u8>)
    requires
        url_path_array@.len() >= 16,
        arr2@.len() >= 16,
        arr1@.len() >= 16,
    ensures
        payload@ == xb_payload_bytes(url_path_array@, arr2@, arr1@, timestamp),
{
    let ct: u32 = 536919696;
    let t3 = (timestamp >> 24u64 & 255) as u8;
    let t2 = (timestamp >> 16u64 & 255) as u8;
    let t1 = (timestamp >> 8u64 & 255) as u8;
    let t0 = (timestamp & 255) as u8;
    assert(timestamp >> 24u64 & 255 == timestamp / 0x1000000 % 256) by (bit_vector);
    assert(timestamp >> 16u64 & 255 == timestamp / 0x10000 % 256) by (bit_vector);
    assert(timestamp >> 8u64 & 255 == timestamp / 0x100 % 256) by (bit_vector);
    assert(timestamp & 255 == timestamp % 256) by (bit_vector);
    assert(ct >> 24u32 & 255 == 0x20 && ct >> 16u32 & 255 == 0x00 && ct >> 8u32 & 255 == 0xbe
        && ct & 255 == 0x90) by (bit_vector)
        requires
            ct == 536919696u32,
    ;
    let mut new_arr: Vec<u8> = vec![
        64,
        0,
        1,
        8,
        url_path_array[14],
        url_path_array[15],
        arr2[14],
        arr2[15],
        arr1[14],
        arr1[15],
        t3,
        t2,
        t1,
        t0,
        (ct >> 24u32 & 255) as u8,
        (ct >> 16u32 & 255) as u8,
        (ct >> 8u32 & 255) as u8,
        (ct & 255) as u8,
    ];
    let ghost header = xb_header(url_path_array@, arr2@, arr1@, timestamp);
    assert(new_arr@ =~= header);
    let mut xor_result = new_arr[0];
    proof {
        lemma_xor_zero(header[0]);
        assert(header.take(1).drop_last() =~= header.take(0));
        assert(xor_all(header.take(0)) == 0);
        assert(xor_all(header.take(1)) == header[0]);
    }
    let n = new_arr.len();
    let mut i: usize = 1;
    while i < n
        invariant
            n == 18,
            header.len() == 18,
            new_arr@.len() == 18,
            1 <= i <= n,
            new_arr@ == header,
            xor_result == xor_all(header.take(i as int)),
        decreases n - i,
    {
        xor_result = xor_result ^ new_arr[i];
        assert(header.take(i + 1).drop_last() =~= header.take(i as int));
        i += 1;
    }
    assert(header.take(18) =~= header);
    new_arr.push(xor_result);
    new_arr
}

/// The bytes at even positions, then the bytes at odd positions.
pub fn split_even_odd(arr: &Vec<u8>) -> (out: Vec<u8>)
    ensures
        out@ == even_positions(arr@) + odd_positions(arr@),
{
    let mut arr3: Vec<u8> = Vec::new();
    let mut arr4: Vec<u8> = Vec::new();
    let n = arr.len();
    for i in 0..n
        invariant
            n == arr@.len(),
            arr3@ == even_positions(arr@.take(i as int)),
            arr4@ == odd_positions(arr@.take(i as int)),
    {
        if i % 2 == 0 {
            arr3.push(arr[i]);
        } else {
            arr4.push(arr[i]);
        }
        assert(arr3@ =~= even_positions(arr@.take(i + 1)));
        assert(arr4@ =~= odd_positions(arr@.take(i + 1)));
    }
    assert(arr@.take(n as int) =~= arr@);
    arr3.append(&mut arr4);
    arr3
}

/// The signature text of the scrambled payload.
pub fn xb_from_cipher(cipher: &Vec<u8>) -> (xb: String)
    requires
        (cipher@.len() + 2) % 3 == 0,
    ensures
        xb@ == xb_text_of_cipher(cipher@),
        xb@.len() == (cipher@.len() + 2) / 3 * 4,
        forall|i: int| 0 <= i < xb@.len() ==> xb_digits().contains(#[trigger] xb@[i]),
{
    let garbled_code = latin1_string(cipher.as_slice());
    let garbled_code = encoding_conversion2(2, 255, garbled_code);
    proof {
        lemma_latin1_round_trip(cipher@);
    }
    proof {
        lemma_encode_groups_shape(latin1_chars(seq![2u8, 255u8] + cipher@));
    }
    encode_groups_of(garbled_code.as_str())
}

/// The signature of `url_path` at the given Unix time in seconds.
pub fn generate_xb_at(url_path: &str, timestamp: u64) -> (xb: String)
    ensures
        xb@ == xb_signature(url_path.spec_bytes(), timestamp),
        xb@.len() == 28,
        forall|i: int| 0 <= i < xb@.len() ==> xb_digits().contains(#[trigger] xb@[i]),
{
    let fixed_hex = "d88201c9344707acde7261b158656c0e";
    let salt_hex = "d41d8cd98f00b204e9800998ecf8427e";
    proof {
        reveal_strlit("d88201c9344707acde7261b158656c0e");
        reveal_strlit("d41d8cd98f00b204e9800998ecf8427e");
        assert(hex_decodable(fixed_hex@));
        assert(hex_decodable(salt_hex@));
        lemma_hex_decodable_byte_len(fixed_hex@);
        lemma_hex_decodable_byte_len(salt_hex@);
    }
    let arr1 = md52array(fixed_hex);
    let salt_digest = md5_compute(md52array(salt_hex).as_slice());
    let salt_text = to_lower_hex(salt_digest.as_slice());
    proof {
        lemma_hex_round_trip(salt_digest@);
        lemma_hex_decodable_byte_len(salt_text@);
    }
    let arr2 = md52array(salt_text.as_str());
    let url_path_array = md5_encrypt(url_path);
    let new_arr = xb_payload(&url_path_array, &arr2, &arr1, timestamp);
    let arr3 = split_even_odd(&new_arr);
    let mut data = low_bytes_of(encoding_conversion(&arr3).as_str());
    proof {
        lemma_latin1_round_trip(xb_shuffle(arr3@));
    }
    rc4_apply_keystream(0xff, &mut data);
    assert(data@ =~= keystream_xor(seq![0xffu8], xb_shuffle(arr3@)));
    xb_from_cipher(&data)
}

/// The signature of `url_path` at the current time; `None` where the clock
/// stands before the Unix epoch.
pub fn generate_xb(url_path: &str) -> (xb: Option<String>)
    ensures
        xb matches Some(text) ==> {
            &&& exists|timestamp: u64| text@ == xb_signature(url_path.spec_bytes(), timestamp)
            &&& text@.len() == 28
            &&& forall|i: int| 0 <= i < text@.len() ==> xb_digits().contains(#[trigger] text@[i])
        },
{
    let clock = seconds_since_unix_epoch();
    let xb = generate_xb_with_clock(url_path, clock);
    proof {
        if let Some(secs) = clock {
            assert(xb->0@ == xb_signature(url_path.spec_bytes(), secs));
        }
    }
    xb
}

/// The signature of `url_path` at the clock reading `clock` (whole seconds
/// since the Unix epoch); `None` where there is no reading.
pub fn generate_xb_with_clock(url_path: &str, clock: Option<u64>) -> (xb: Option<String>)
    ensures
        clock is None <==> xb is None,
        forall|secs: u64|
            clock == Some(secs) ==> (xb matches Some(text) && text@ == xb_signature(
                url_path.spec_bytes(),
                secs,
            )),
        xb matches Some(text) ==> {
            &&& text@.len() == 28
            &&& forall|i: int| 0 <= i < text@.len() ==> xb_digits().contains(#[trigger] text@[i])
        },
{
    match clock {
        Some(timestamp) => Some(generate_xb_at(url_path, timestamp)),
        None => None,
    }
}

} // verus!

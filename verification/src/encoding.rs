//! The text encoding of the signature: a fixed shuffle of the payload bytes,
//! and a base-64 style encoding of three characters into four over the
//! signature's own alphabet.

use vstd::prelude::*;
use crate::latin1::{latin1_chars, latin1_string, low_bytes, low_bytes_of};
use crate::outside::push_char;

verus! {

/// The signature's alphabet: 64 digits and the padding character `=`.
pub const CHARACTER: &'static str = "Dkdpgh4ZKsQB80/Mfvw36XI1R25-WUAlEi7NLboqYTOPuzmFjJnryx9HVGcaStCe=";

/// The signature's alphabet, as characters.
pub open spec fn xb_alphabet() -> Seq<char> {
    CHARACTER@
}

/// The alphabet has 65 characters.
pub proof fn lemma_alphabet_len()
    ensures
        xb_alphabet().len() == 65,
{
    reveal_strlit("Dkdpgh4ZKsQB80/Mfvw36XI1R25-WUAlEi7NLboqYTOPuzmFjJnryx9HVGcaStCe=");
}

fn alphabet_char(i: i32) -> (c: char)
    requires
        0 <= i < 64,
    ensures
        c == xb_alphabet()[i as int],
{
    proof {
        lemma_alphabet_len();
    }
    CHARACTER.get_char(i as usize)
}

/// The first 19 bytes reordered: byte 0, then bytes 10 to 18 each followed
/// by bytes 1 to 9 in turn (`[a0, a10, a1, a11, ..., a18, a9]`).
pub open spec fn xb_shuffle(a: Seq<u8>) -> Seq<u8> {
    Seq::new(19, |i: int| if i % 2 == 0 { a[i / 2] } else { a[10 + i / 2] })
}

/// Where the shuffle puts byte `i`: bytes 0 to 9 go to the even places,
/// bytes 10 to 18 to the odd ones.
pub open spec fn shuffle_position(i: int) -> int {
    if i < 10 {
        2 * i
    } else {
        2 * (i - 10) + 1
    }
}

/// The shuffle keeps each of the first 19 bytes, each in a place of its own.
pub proof fn lemma_shuffle_keeps_every_byte(a: Seq<u8>)
    requires
        a.len() >= 19,
    ensures
        xb_shuffle(a).len() == 19,
        forall|i: int| 0 <= i < 19 ==> 0 <= #[trigger] shuffle_position(i) < 19,
        forall|i: int| 0 <= i < 19 ==> xb_shuffle(a)[#[trigger] shuffle_position(i)] == a[i],
        forall|i: int, j: int|
            0 <= i < 19 && 0 <= j < 19 && i != j ==> #[trigger] shuffle_position(i) != #[trigger] shuffle_position(j),
{
}

/// The shuffled first 19 bytes of `arr`, as a string of one-byte characters.
pub fn encoding_conversion(arr: &Vec<u8>) -> (text: String)
    requires
        arr@.len() >= 19,
    ensures
        text@ == latin1_chars(xb_shuffle(arr@)),
{
    let y: Vec<u8> = vec![
        arr[0],
        arr[10],
        arr[1],
        arr[11],
        arr[2],
        arr[12],
        arr[3],
        arr[13],
        arr[4],
        arr[14],
        arr[5],
        arr[15],
        arr[6],
        arr[16],
        arr[7],
        arr[17],
        arr[8],
        arr[18],
        arr[9],
    ];
    assert(y@ =~= xb_shuffle(arr@));
    latin1_string(y.as_slice())
}

/// `a` and `b` followed by the low byte of each character of `c`, as a
/// string of one-byte characters.
pub fn encoding_conversion2(a: u8, b: u8, c: String) -> (text: String)
    ensures
        text@ == latin1_chars(seq![a, b] + low_bytes(c@)),
{
    let mut arr3: Vec<u8> = vec![a, b];
    let mut rest = low_bytes_of(c.as_str());
    arr3.append(&mut rest);
    assert(arr3@ =~= seq![a, b] + low_bytes(c@));
    latin1_string(arr3.as_slice())
}

/// The 24-bit word of three inputs: the low byte of `a1`, the low byte of
/// `a2`, and `a3` or-ed in whole.
pub open spec fn calc_word(a1: i32, a2: i32, a3: i32) -> i32 {
    ((a1 & 255) << 16u32) | ((a2 & 255) << 8u32) | a3
}

/// The four 6-bit groups of bits 23..18, 17..12, 11..6 and 5..0 of `w`.
pub open spec fn calc_indices(w: i32) -> Seq<i32> {
    seq![(w & 16515072) >> 18u32, (w & 258048) >> 12u32, (w & 4032) >> 6u32, w & 63]
}

/// The four alphabet characters that `calculation` gives.
pub open spec fn calc_chars(a1: i32, a2: i32, a3: i32) -> Seq<char> {
    calc_indices(calc_word(a1, a2, a3)).map_values(|k: i32| xb_alphabet()[k as int])
}

/// Each 6-bit group of the 24-bit word of `a1`, `a2` and `a3`, most
/// significant first, as a character of the alphabet.
pub fn calculation(a1: i32, a2: i32, a3: i32) -> (text: String)
    ensures
        text@ == calc_chars(a1, a2, a3),
{
    assert((a1 & 255) <= 255 && (a1 & 255) >= 0) by (bit_vector);
    assert((a2 & 255) <= 255 && (a2 & 255) >= 0) by (bit_vector);
    let x1 = (a1 & 255) << 16u32;
    let x2 = (a2 & 255) << 8u32;
    let x3 = x1 | x2 | a3;
    let i0 = (x3 & 16515072) >> 18u32;
    let i1 = (x3 & 258048) >> 12u32;
    let i2 = (x3 & 4032) >> 6u32;
    let i3 = x3 & 63;
    assert(0 <= (x3 & 16515072) >> 18u32 < 64) by (bit_vector);
    assert(0 <= (x3 & 258048) >> 12u32 < 64) by (bit_vector);
    assert(0 <= (x3 & 4032) >> 6u32 < 64) by (bit_vector);
    assert(0 <= x3 & 63 < 64) by (bit_vector);
    let mut result = String::new();
    push_char(&mut result, alphabet_char(i0));
    push_char(&mut result, alphabet_char(i1));
    push_char(&mut result, alphabet_char(i2));
    push_char(&mut result, alphabet_char(i3));
    assert(result@ =~= calc_chars(a1, a2, a3));
    result
}

/// Each group of three characters, by its code, encoded as four alphabet
/// characters by `calculation`.
pub open spec fn encode_groups(s: Seq<char>) -> Seq<char>
    decreases s.len(),
{
    if s.len() < 3 {
        seq![]
    } else {
        calc_chars(s[0] as i32, s[1] as i32, s[2] as i32) + encode_groups(s.skip(3))
    }
}

pub(crate) fn encode_groups_of(s: &str) -> (text: String)
    requires
        s@.len() % 3 == 0,
    ensures
        text@ == encode_groups(s@),
{
    let n = s.unicode_len();
    let mut xb = String::new();
    let mut idx: usize = 0;
    assert(s@.skip(0) =~= s@);
    while idx < n
        invariant
            n == s@.len(),
            n % 3 == 0,
            idx <= n,
            idx % 3 == 0,
            encode_groups(s@) =~= xb@ + encode_groups(s@.skip(idx as int)),
        decreases n - idx,
    {
        let temp = calculation(
            s.get_char(idx) as i32,
            s.get_char(idx + 1) as i32,
            s.get_char(idx + 2) as i32,
        );
        xb.append(temp.as_str());
        assert(s@.skip(idx as int).skip(3) =~= s@.skip(idx + 3));
        idx += 3;
    }
    xb
}

/// The place of a digit in the alphabet; 64 for any other character.
pub open spec fn alphabet_rank(c: char) -> int {
    match c {
        'D' => 0,
        'k' => 1,
        'd' => 2,
        'p' => 3,
        'g' => 4,
        'h' => 5,
        '4' => 6,
        'Z' => 7,
        'K' => 8,
        's' => 9,
        'Q' => 10,
        'B' => 11,
        '8' => 12,
        '0' => 13,
        '/' => 14,
        'M' => 15,
        'f' => 16,
        'v' => 17,
        'w' => 18,
        '3' => 19,
        '6' => 20,
        'X' => 21,
        'I' => 22,
        '1' => 23,
        'R' => 24,
        '2' => 25,
        '5' => 26,
        '-' => 27,
        'W' => 28,
        'U' => 29,
        'A' => 30,
        'l' => 31,
        'E' => 32,
        'i' => 33,
        '7' => 34,
        'N' => 35,
        'L' => 36,
        'b' => 37,
        'o' => 38,
        'q' => 39,
        'Y' => 40,
        'T' => 41,
        'O' => 42,
        'P' => 43,
        'u' => 44,
        'z' => 45,
        'm' => 46,
        'F' => 47,
        'j' => 48,
        'J' => 49,
        'n' => 50,
        'r' => 51,
        'y' => 52,
        'x' => 53,
        '9' => 54,
        'H' => 55,
        'V' => 56,
        'G' => 57,
        'c' => 58,
        'a' => 59,
        'S' => 60,
        't' => 61,
        'C' => 62,
        'e' => 63,
        _ => 64,
    }
}

/// Each of the 64 digits has its own place: the rank of the digit at place
/// `k` is `k`, so no two places hold the same digit.
pub proof fn lemma_alphabet_digits_distinct()
    ensures
        forall|k: int| 0 <= k < 64 ==> alphabet_rank(#[trigger] xb_alphabet()[k]) == k,
        forall|i: int, j: int|
            0 <= i < 64 && 0 <= j < 64 && i != j ==> #[trigger] xb_alphabet()[i] != #[trigger] xb_alphabet()[j],
{
    reveal_strlit("Dkdpgh4ZKsQB80/Mfvw36XI1R25-WUAlEi7NLboqYTOPuzmFjJnryx9HVGcaStCe=");
    assert(alphabet_rank(xb_alphabet()[0]) == 0);
    assert(alphabet_rank(xb_alphabet()[1]) == 1);
    assert(alphabet_rank(xb_alphabet()[2]) == 2);
    assert(alphabet_rank(xb_alphabet()[3]) == 3);
    assert(alphabet_rank(xb_alphabet()[4]) == 4);
    assert(alphabet_rank(xb_alphabet()[5]) == 5);
    assert(alphabet_rank(xb_alphabet()[6]) == 6);
    assert(alphabet_rank(xb_alphabet()[7]) == 7);
    assert(alphabet_rank(xb_alphabet()[8]) == 8);
    assert(alphabet_rank(xb_alphabet()[9]) == 9);
    assert(alphabet_rank(xb_alphabet()[10]) == 10);
    assert(alphabet_rank(xb_alphabet()[11]) == 11);
    assert(alphabet_rank(xb_alphabet()[12]) == 12);
    assert(alphabet_rank(xb_alphabet()[13]) == 13);
    assert(alphabet_rank(xb_alphabet()[14]) == 14);
    assert(alphabet_rank(xb_alphabet()[15]) == 15);
    assert(alphabet_rank(xb_alphabet()[16]) == 16);
    assert(alphabet_rank(xb_alphabet()[17]) == 17);
    assert(alphabet_rank(xb_alphabet()[18]) == 18);
    assert(alphabet_rank(xb_alphabet()[19]) == 19);
    assert(alphabet_rank(xb_alphabet()[20]) == 20);
    assert(alphabet_rank(xb_alphabet()[21]) == 21);
    assert(alphabet_rank(xb_alphabet()[22]) == 22);
    assert(alphabet_rank(xb_alphabet()[23]) == 23);
    assert(alphabet_rank(xb_alphabet()[24]) == 24);
    assert(alphabet_rank(xb_alphabet()[25]) == 25);
    assert(alphabet_rank(xb_alphabet()[26]) == 26);
    assert(alphabet_rank(xb_alphabet()[27]) == 27);
    assert(alphabet_rank(xb_alphabet()[28]) == 28);
    assert(alphabet_rank(xb_alphabet()[29]) == 29);
    assert(alphabet_rank(xb_alphabet()[30]) == 30);
    assert(alphabet_rank(xb_alphabet()[31]) == 31);
    assert(alphabet_rank(xb_alphabet()[32]) == 32);
    assert(alphabet_rank(xb_alphabet()[33]) == 33);
    assert(alphabet_rank(xb_alphabet()[34]) == 34);
    assert(alphabet_rank(xb_alphabet()[35]) == 35);
    assert(alphabet_rank(xb_alphabet()[36]) == 36);
    assert(alphabet_rank(xb_alphabet()[37]) == 37);
    assert(alphabet_rank(xb_alphabet()[38]) == 38);
    assert(alphabet_rank(xb_alphabet()[39]) == 39);
    assert(alphabet_rank(xb_alphabet()[40]) == 40);
    assert(alphabet_rank(xb_alphabet()[41]) == 41);
    assert(alphabet_rank(xb_alphabet()[42]) == 42);
    assert(alphabet_rank(xb_alphabet()[43]) == 43);
    assert(alphabet_rank(xb_alphabet()[44]) == 44);
    assert(alphabet_rank(xb_alphabet()[45]) == 45);
    assert(alphabet_rank(xb_alphabet()[46]) == 46);
    assert(alphabet_rank(xb_alphabet()[47]) == 47);
    assert(alphabet_rank(xb_alphabet()[48]) == 48);
    assert(alphabet_rank(xb_alphabet()[49]) == 49);
    assert(alphabet_rank(xb_alphabet()[50]) == 50);
    assert(alphabet_rank(xb_alphabet()[51]) == 51);
    assert(alphabet_rank(xb_alphabet()[52]) == 52);
    assert(alphabet_rank(xb_alphabet()[53]) == 53);
    assert(alphabet_rank(xb_alphabet()[54]) == 54);
    assert(alphabet_rank(xb_alphabet()[55]) == 55);
    assert(alphabet_rank(xb_alphabet()[56]) == 56);
    assert(alphabet_rank(xb_alphabet()[57]) == 57);
    assert(alphabet_rank(xb_alphabet()[58]) == 58);
    assert(alphabet_rank(xb_alphabet()[59]) == 59);
    assert(alphabet_rank(xb_alphabet()[60]) == 60);
    assert(alphabet_rank(xb_alphabet()[61]) == 61);
    assert(alphabet_rank(xb_alphabet()[62]) == 62);
    assert(alphabet_rank(xb_alphabet()[63]) == 63);
    assert forall|i: int, j: int|
        0 <= i < 64 && 0 <= j < 64 && i != j implies #[trigger] xb_alphabet()[i] != #[trigger] xb_alphabet()[j] by {
        assert(alphabet_rank(xb_alphabet()[i]) == i);
        assert(alphabet_rank(xb_alphabet()[j]) == j);
    }
}

/// The 64 digits of the alphabet (all but the padding character).
pub open spec fn xb_digits() -> Seq<char> {
    xb_alphabet().take(64)
}

proof fn lemma_calc_indices_range(w: i32)
    ensures
        forall|j: int| 0 <= j < 4 ==> 0 <= #[trigger] calc_indices(w)[j] < 64,
{
    assert(0 <= (w & 16515072) >> 18u32 < 64) by (bit_vector);
    assert(0 <= (w & 258048) >> 12u32 < 64) by (bit_vector);
    assert(0 <= (w & 4032) >> 6u32 < 64) by (bit_vector);
    assert(0 <= w & 63 < 64) by (bit_vector);
}

/// `calculation` gives four digits of the alphabet.
pub proof fn lemma_calc_chars_digits(a1: i32, a2: i32, a3: i32)
    ensures
        calc_chars(a1, a2, a3).len() == 4,
        forall|j: int| 0 <= j < 4 ==> xb_digits().contains(#[trigger] calc_chars(a1, a2, a3)[j]),
{
    let w = calc_word(a1, a2, a3);
    lemma_calc_indices_range(w);
    lemma_alphabet_len();
    assert forall|j: int| 0 <= j < 4 implies xb_digits().contains(
        #[trigger] calc_chars(a1, a2, a3)[j],
    ) by {
        let k = calc_indices(w)[j] as int;
        assert(0 <= k < 64);
        assert(xb_digits()[k] == calc_chars(a1, a2, a3)[j]);
    }
}

/// Encoding `3 n` characters gives `4 n` digits of the alphabet.
pub proof fn lemma_encode_groups_shape(s: Seq<char>)
    requires
        s.len() % 3 == 0,
    ensures
        encode_groups(s).len() == s.len() / 3 * 4,
        forall|i: int|
            0 <= i < encode_groups(s).len() ==> xb_digits().contains(#[trigger] encode_groups(s)[i]),
    decreases s.len(),
{
    if s.len() >= 3 {
        let head = calc_chars(s[0] as i32, s[1] as i32, s[2] as i32);
        let tail = encode_groups(s.skip(3));
        lemma_encode_groups_shape(s.skip(3));
        lemma_calc_chars_digits(s[0] as i32, s[1] as i32, s[2] as i32);
        assert(encode_groups(s) == head + tail);
        assert forall|i: int| 0 <= i < encode_groups(s).len() implies xb_digits().contains(
            #[trigger] encode_groups(s)[i],
        ) by {
            if i < 4 {
                assert(encode_groups(s)[i] == head[i]);
            } else {
                assert(encode_groups(s)[i] == tail[i - 4]);
            }
        }
    }
}

/// When the third input is a byte, the four digit numbers of `calculation`
/// are the base-64 digits of the 24-bit word of the three bytes: nothing
/// of the three bytes is lost.
pub proof fn lemma_calculation_base64(a1: i32, a2: i32, a3: i32)
    requires
        0 <= a3 < 256,
    ensures
        ({
            let k = calc_indices(calc_word(a1, a2, a3));
            k[0] * 262144 + k[1] * 4096 + k[2] * 64 + k[3] == (a1 & 255) * 65536 + (a2 & 255) * 256 + a3
        }),
{
    let w = calc_word(a1, a2, a3);
    assert(0 <= (a1 & 255) < 256 && 0 <= (a2 & 255) < 256) by (bit_vector);
    assert(((a1 & 255) << 16u32) | ((a2 & 255) << 8u32) | a3 == (a1 & 255) * 65536 + (a2 & 255) * 256
        + a3) by (bit_vector)
        requires
            0 <= a3 < 256,
    ;
    assert(((w & 16515072) >> 18u32) * 262144 + ((w & 258048) >> 12u32) * 4096 + ((w & 4032) >> 6u32)
        * 64 + (w & 63) == w) by (bit_vector)
        requires
            0 <= w < 16777216,
    ;
}

/// The three bytes that four digits stand for: their ranks are the base-64
/// digits of a 24-bit word, read as three bytes, most significant first.
pub open spec fn decode_quad(c0: char, c1: char, c2: char, c3: char) -> Seq<u8> {
    let w = alphabet_rank(c0) * 262144 + alphabet_rank(c1) * 4096 + alphabet_rank(c2) * 64
        + alphabet_rank(c3);
    seq![(w / 65536) as u8, (w / 256 % 256) as u8, (w % 256) as u8]
}

/// Each group of four digits read back as three bytes.
pub open spec fn decode_groups(s: Seq<char>) -> Seq<u8>
    decreases s.len(),
{
    if s.len() < 4 {
        seq![]
    } else {
        decode_quad(s[0], s[1], s[2], s[3]) + decode_groups(s.skip(4))
    }
}

/// For three bytes, the place in the alphabet of each character of
/// `calculation` is the matching base-64 digit of the 24-bit word of the
/// bytes, and the four characters read back as the three bytes.
pub proof fn lemma_calculation_decodes(a1: i32, a2: i32, a3: i32)
    requires
        0 <= a1 < 256,
        0 <= a2 < 256,
        0 <= a3 < 256,
    ensures
        forall|k: int|
            0 <= k < 4 ==> alphabet_rank(#[trigger] calc_chars(a1, a2, a3)[k]) == calc_indices(
                calc_word(a1, a2, a3),
            )[k],
        alphabet_rank(calc_chars(a1, a2, a3)[0]) * 262144 + alphabet_rank(calc_chars(a1, a2, a3)[1])
            * 4096 + alphabet_rank(calc_chars(a1, a2, a3)[2]) * 64 + alphabet_rank(
            calc_chars(a1, a2, a3)[3],
        ) == a1 * 65536 + a2 * 256 + a3,
        decode_quad(
            calc_chars(a1, a2, a3)[0],
            calc_chars(a1, a2, a3)[1],
            calc_chars(a1, a2, a3)[2],
            calc_chars(a1, a2, a3)[3],
        ) == seq![a1 as u8, a2 as u8, a3 as u8],
{
    let w = calc_word(a1, a2, a3);
    let k = calc_indices(w);
    let c = calc_chars(a1, a2, a3);
    lemma_calculation_base64(a1, a2, a3);
    lemma_calc_indices_range(w);
    lemma_alphabet_digits_distinct();
    assert(a1 & 255 == a1 && a2 & 255 == a2) by (bit_vector)
        requires
            0 <= a1 < 256,
            0 <= a2 < 256,
    ;
    assert forall|j: int| 0 <= j < 4 implies alphabet_rank(#[trigger] c[j]) == k[j] by {
        assert(c[j] == xb_alphabet()[k[j] as int]);
    }
    let r0 = alphabet_rank(c[0]);
    let r1 = alphabet_rank(c[1]);
    let r2 = alphabet_rank(c[2]);
    let r3 = alphabet_rank(c[3]);
    assert(r0 == k[0] && r1 == k[1] && r2 == k[2] && r3 == k[3]);
    let v = r0 * 262144 + r1 * 4096 + r2 * 64 + r3;
    assert(v == a1 * 65536 + a2 * 256 + a3);
    assert(v / 65536 == a1 && v / 256 % 256 == a2 && v % 256 == a3) by (nonlinear_arith)
        requires
            v == a1 * 65536 + a2 * 256 + a3,
            0 <= a1 < 256,
            0 <= a2 < 256,
            0 <= a3 < 256,
    ;
    assert(decode_quad(c[0], c[1], c[2], c[3]) =~= seq![a1 as u8, a2 as u8, a3 as u8]);
}

/// Different byte triples give different `calculation` text.
pub proof fn lemma_calculation_injective(a1: i32, a2: i32, a3: i32, b1: i32, b2: i32, b3: i32)
    requires
        0 <= a1 < 256,
        0 <= a2 < 256,
        0 <= a3 < 256,
        0 <= b1 < 256,
        0 <= b2 < 256,
        0 <= b3 < 256,
        calc_chars(a1, a2, a3) == calc_chars(b1, b2, b3),
    ensures
        a1 == b1 && a2 == b2 && a3 == b3,
{
    lemma_calculation_decodes(a1, a2, a3);
    lemma_calculation_decodes(b1, b2, b3);
    let da = seq![a1 as u8, a2 as u8, a3 as u8];
    let db = seq![b1 as u8, b2 as u8, b3 as u8];
    assert(da == db);
    assert(da[0] == db[0] && da[1] == db[1] && da[2] == db[2]);
}

/// Group `k` of the encoding is `calculation` of the `k`-th three
/// characters.
pub proof fn lemma_encode_groups_group(s: Seq<char>, k: int)
    requires
        s.len() % 3 == 0,
        0 <= k < s.len() / 3,
    ensures
        encode_groups(s).len() == s.len() / 3 * 4,
        encode_groups(s).subrange(4 * k, 4 * k + 4) == calc_chars(
            s[3 * k] as i32,
            s[3 * k + 1] as i32,
            s[3 * k + 2] as i32,
        ),
    decreases k,
{
    lemma_encode_groups_shape(s);
    let head = calc_chars(s[0] as i32, s[1] as i32, s[2] as i32);
    let tail = encode_groups(s.skip(3));
    lemma_calc_chars_digits(s[0] as i32, s[1] as i32, s[2] as i32);
    assert(encode_groups(s) == head + tail);
    if k == 0 {
        assert(encode_groups(s).subrange(0, 4) =~= head);
    } else {
        lemma_encode_groups_group(s.skip(3), k - 1);
        assert(encode_groups(s).subrange(4 * k, 4 * k + 4) =~= tail.subrange(4 * (k - 1), 4 * (k - 1) + 4));
        assert(s.skip(3)[3 * (k - 1)] == s[3 * k]);
        assert(s.skip(3)[3 * (k - 1) + 1] == s[3 * k + 1]);
        assert(s.skip(3)[3 * (k - 1) + 2] == s[3 * k + 2]);
    }
}

/// Reading the encoding of one-byte characters back gives the bytes.
pub proof fn lemma_encode_groups_decode(b: Seq<u8>)
    requires
        b.len() % 3 == 0,
    ensures
        decode_groups(encode_groups(latin1_chars(b))) == b,
    decreases b.len(),
{
    let s = latin1_chars(b);
    if b.len() >= 3 {
        let head = calc_chars(s[0] as i32, s[1] as i32, s[2] as i32);
        let tail = encode_groups(s.skip(3));
        assert(s.skip(3) =~= latin1_chars(b.skip(3)));
        lemma_encode_groups_decode(b.skip(3));
        lemma_calculation_decodes(b[0] as i32, b[1] as i32, b[2] as i32);
        assert(s[0] as i32 == b[0] as i32 && s[1] as i32 == b[1] as i32 && s[2] as i32 == b[2] as i32);
        let e = encode_groups(s);
        assert(e == head + tail);
        assert(head.len() == 4);
        assert(e.skip(4) =~= tail);
        assert(e[0] == head[0] && e[1] == head[1] && e[2] == head[2] && e[3] == head[3]);
        assert(decode_groups(e) == decode_quad(e[0], e[1], e[2], e[3]) + decode_groups(e.skip(4)));
        assert(decode_groups(e) =~= b);
    } else {
        assert(b.len() == 0);
        assert(decode_groups(encode_groups(s)) =~= b);
    }
}

} // verus!

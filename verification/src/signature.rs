//! What the signature keeps of its inputs: which characters depend on the
//! query, which on the time and which on neither, when two signatures are
//! equal, and how a signature reads back to its payload.

use vstd::prelude::*;
use crate::encoding::{
    calc_chars, decode_groups, lemma_calculation_decodes, lemma_encode_groups_decode,
    lemma_encode_groups_group,
};
use crate::hex::hex_decode;
use crate::latin1::latin1_chars;
use crate::outside::{md5_digest, rc4_keystream_byte};
use crate::xbogus::{
    fixed_digest_hex, lemma_payload_checksum, lemma_plain_is_payload, xb_cipher, xb_payload_of, xb_plain,
    xb_signature, xor_all,
};

verus! {

/// The 21 bytes that the signature encodes: 2, 255 and the scrambled
/// payload.
pub open spec fn xb_garbled(url: Seq<u8>, timestamp: u64) -> Seq<u8> {
    seq![2u8, 255u8] + xb_cipher(url, timestamp)
}

proof fn lemma_xor_cancel(x: u8, k: u8)
    ensures
        (x ^ k) ^ k == x,
        forall|y: u8| #![trigger (y ^ k)] (x ^ k) == (y ^ k) ==> x == y,
{
    assert((x ^ k) ^ k == x) by (bit_vector);
    assert forall|y: u8| #![trigger (y ^ k)] (x ^ k) == (y ^ k) implies x == y by {
        assert((x ^ k) == (y ^ k) ==> x == y) by (bit_vector);
    }
}

/// The encoded bytes: 2 and 255, then each payload byte XOR-ed with the
/// keystream byte of its position.
pub proof fn lemma_garbled_bytes(url: Seq<u8>, timestamp: u64)
    ensures
        xb_garbled(url, timestamp).len() == 21,
        xb_garbled(url, timestamp)[0] == 2,
        xb_garbled(url, timestamp)[1] == 255,
        forall|i: int|
            0 <= i < 19 ==> #[trigger] xb_garbled(url, timestamp)[i + 2] == xb_payload_of(url, timestamp)[i]
                ^ rc4_keystream_byte(seq![0xffu8], i as nat),
{
    lemma_plain_is_payload(url, timestamp);
    let c = xb_cipher(url, timestamp);
    let g = xb_garbled(url, timestamp);
    assert(c.len() == 19);
    assert(g.len() == 21);
    assert forall|i: int| 0 <= i < 19 implies #[trigger] g[i + 2] == xb_payload_of(url, timestamp)[i]
        ^ rc4_keystream_byte(seq![0xffu8], i as nat) by {
        assert(g[i + 2] == c[i]);
        assert(c[i] == xb_plain(url, timestamp)[i] ^ rc4_keystream_byte(seq![0xffu8], i as nat));
    }
}

/// Characters `4 k` to `4 k + 3` of the signature encode bytes `3 k` to
/// `3 k + 2` of the encoded bytes.
pub proof fn lemma_signature_group(url: Seq<u8>, timestamp: u64, k: int)
    requires
        0 <= k < 7,
    ensures
        xb_signature(url, timestamp).len() == 28,
        xb_signature(url, timestamp).subrange(4 * k, 4 * k + 4) == calc_chars(
            xb_garbled(url, timestamp)[3 * k] as i32,
            xb_garbled(url, timestamp)[3 * k + 1] as i32,
            xb_garbled(url, timestamp)[3 * k + 2] as i32,
        ),
{
    lemma_garbled_bytes(url, timestamp);
    let g = xb_garbled(url, timestamp);
    let s = latin1_chars(g);
    lemma_encode_groups_group(s, k);
    assert(s[3 * k] as i32 == g[3 * k] as i32);
    assert(s[3 * k + 1] as i32 == g[3 * k + 1] as i32);
    assert(s[3 * k + 2] as i32 == g[3 * k + 2] as i32);
}

proof fn lemma_groups_agree(u1: Seq<u8>, t1: u64, u2: Seq<u8>, t2: u64, k: int)
    requires
        0 <= k < 7,
        forall|j: int| 3 * k <= j < 3 * k + 3 ==> #[trigger] xb_garbled(u1, t1)[j] == xb_garbled(u2, t2)[j],
    ensures
        xb_signature(u1, t1).subrange(4 * k, 4 * k + 4) == xb_signature(u2, t2).subrange(4 * k, 4 * k + 4),
{
    lemma_signature_group(u1, t1, k);
    lemma_signature_group(u2, t2, k);
    assert(xb_garbled(u1, t1)[3 * k] == xb_garbled(u2, t2)[3 * k]);
    assert(xb_garbled(u1, t1)[3 * k + 1] == xb_garbled(u2, t2)[3 * k + 1]);
    assert(xb_garbled(u1, t1)[3 * k + 2] == xb_garbled(u2, t2)[3 * k + 2]);
}

proof fn lemma_garbled_agree_on_payload(u1: Seq<u8>, t1: u64, u2: Seq<u8>, t2: u64, j: int)
    requires
        2 <= j < 21,
        xb_payload_of(u1, t1)[j - 2] == xb_payload_of(u2, t2)[j - 2],
    ensures
        xb_garbled(u1, t1)[j] == xb_garbled(u2, t2)[j],
{
    lemma_garbled_bytes(u1, t1);
    lemma_garbled_bytes(u2, t2);
    assert(xb_garbled(u1, t1)[(j - 2) + 2] == xb_garbled(u1, t1)[j]);
    assert(xb_garbled(u2, t2)[(j - 2) + 2] == xb_garbled(u2, t2)[j]);
}

/// Characters 0 to 7 and 12 to 15 of a signature are the same for every
/// query and every time: they encode only fixed bytes.
pub proof fn lemma_signature_fixed_parts(u1: Seq<u8>, t1: u64, u2: Seq<u8>, t2: u64)
    ensures
        xb_signature(u1, t1).subrange(0, 8) == xb_signature(u2, t2).subrange(0, 8),
        xb_signature(u1, t1).subrange(12, 16) == xb_signature(u2, t2).subrange(12, 16),
{
    lemma_garbled_bytes(u1, t1);
    lemma_garbled_bytes(u2, t2);
    let p1 = xb_payload_of(u1, t1);
    let p2 = xb_payload_of(u2, t2);
    assert(p1[0] == p2[0] && p1[1] == p2[1] && p1[2] == p2[2] && p1[3] == p2[3]);
    assert(p1[7] == p2[7] && p1[8] == p2[8] && p1[9] == p2[9]);
    assert forall|j: int| 2 <= j < 6 || 9 <= j < 12 implies #[trigger] xb_garbled(u1, t1)[j]
        == xb_garbled(u2, t2)[j] by {
        lemma_garbled_agree_on_payload(u1, t1, u2, t2, j);
    }
    lemma_groups_agree(u1, t1, u2, t2, 0);
    lemma_groups_agree(u1, t1, u2, t2, 1);
    lemma_groups_agree(u1, t1, u2, t2, 3);
    lemma_signature_group(u1, t1, 0);
    lemma_signature_group(u2, t2, 0);
    let s1 = xb_signature(u1, t1);
    let s2 = xb_signature(u2, t2);
    assert(s1.subrange(0, 8) =~= s1.subrange(0, 4) + s1.subrange(4, 8));
    assert(s2.subrange(0, 8) =~= s2.subrange(0, 4) + s2.subrange(4, 8));
}

/// Characters 8 to 11 of a signature depend on the query alone.
pub proof fn lemma_signature_query_part(url: Seq<u8>, t1: u64, t2: u64)
    ensures
        xb_signature(url, t1).subrange(8, 12) == xb_signature(url, t2).subrange(8, 12),
{
    let p1 = xb_payload_of(url, t1);
    let p2 = xb_payload_of(url, t2);
    assert(p1[4] == p2[4] && p1[5] == p2[5] && p1[6] == p2[6]);
    assert forall|j: int| 6 <= j < 9 implies #[trigger] xb_garbled(url, t1)[j] == xb_garbled(url, t2)[j] by {
        lemma_garbled_agree_on_payload(url, t1, url, t2, j);
    }
    lemma_groups_agree(url, t1, url, t2, 2);
}

/// Characters 16 to 23 of a signature depend on the time alone.
pub proof fn lemma_signature_time_part(u1: Seq<u8>, u2: Seq<u8>, timestamp: u64)
    ensures
        xb_signature(u1, timestamp).subrange(16, 24) == xb_signature(u2, timestamp).subrange(16, 24),
{
    let p1 = xb_payload_of(u1, timestamp);
    let p2 = xb_payload_of(u2, timestamp);
    assert(p1[10] == p2[10] && p1[11] == p2[11] && p1[12] == p2[12] && p1[13] == p2[13]);
    assert(p1[14] == p2[14] && p1[15] == p2[15]);
    assert forall|j: int| 12 <= j < 18 implies #[trigger] xb_garbled(u1, timestamp)[j] == xb_garbled(
        u2,
        timestamp,
    )[j] by {
        lemma_garbled_agree_on_payload(u1, timestamp, u2, timestamp, j);
    }
    lemma_groups_agree(u1, timestamp, u2, timestamp, 4);
    lemma_groups_agree(u1, timestamp, u2, timestamp, 5);
    lemma_signature_group(u1, timestamp, 4);
    lemma_signature_group(u2, timestamp, 4);
    let s1 = xb_signature(u1, timestamp);
    let s2 = xb_signature(u2, timestamp);
    assert(s1.subrange(16, 24) =~= s1.subrange(16, 20) + s1.subrange(20, 24));
    assert(s2.subrange(16, 24) =~= s2.subrange(16, 20) + s2.subrange(20, 24));
}

/// The payload's fields: the prefix 64 0 1 8, bytes 14 and 15 of the
/// query's double MD5 digest, bytes 14 and 15 of the fixed digest (0x6c
/// 0x0e), the low 32 bits of the time big-endian, the word 0x2000be90, and
/// a last byte that makes all 19 XOR to zero.
pub proof fn lemma_payload_fields(url: Seq<u8>, timestamp: u64)
    ensures
        ({
            let n = xb_payload_of(url, timestamp);
            let d = md5_digest(md5_digest(url));
            &&& n.len() == 19
            &&& n[0] == 64 && n[1] == 0 && n[2] == 1 && n[3] == 8
            &&& n[4] == d[14] && n[5] == d[15]
            &&& n[8] == 0x6c && n[9] == 0x0e
            &&& n[10] == (timestamp / 0x1000000 % 256) as u8
            &&& n[11] == (timestamp / 0x10000 % 256) as u8
            &&& n[12] == (timestamp / 0x100 % 256) as u8
            &&& n[13] == (timestamp % 256) as u8
            &&& n[14] == 0x20 && n[15] == 0x00 && n[16] == 0xbe && n[17] == 0x90
            &&& xor_all(n) == 0
        }),
{
    reveal_strlit("d88201c9344707acde7261b158656c0e");
    let f = fixed_digest_hex();
    assert(hex_decode(f)[14] == 0x6c);
    assert(hex_decode(f)[15] == 0x0e);
    lemma_payload_checksum(
        md5_digest(md5_digest(url)),
        md5_digest(hex_decode(crate::xbogus::salt_digest_hex())),
        hex_decode(f),
        timestamp,
    );
}

/// Reading a signature's characters back as base-64 digits gives 2, 255
/// and the scrambled payload; XOR-ing each byte with the keystream byte of
/// its position gives the payload back.
pub proof fn lemma_signature_decodes(url: Seq<u8>, timestamp: u64)
    ensures
        decode_groups(xb_signature(url, timestamp)) == xb_garbled(url, timestamp),
        decode_groups(xb_signature(url, timestamp)).len() == 21,
        decode_groups(xb_signature(url, timestamp))[0] == 2,
        decode_groups(xb_signature(url, timestamp))[1] == 255,
        forall|i: int|
            0 <= i < 19 ==> #[trigger] decode_groups(xb_signature(url, timestamp))[i + 2]
                ^ rc4_keystream_byte(seq![0xffu8], i as nat) == xb_payload_of(url, timestamp)[i],
{
    lemma_garbled_bytes(url, timestamp);
    let g = xb_garbled(url, timestamp);
    lemma_encode_groups_decode(g);
    assert forall|i: int| 0 <= i < 19 implies #[trigger] g[i + 2] ^ rc4_keystream_byte(
        seq![0xffu8],
        i as nat,
    ) == xb_payload_of(url, timestamp)[i] by {
        lemma_xor_cancel(xb_payload_of(url, timestamp)[i], rc4_keystream_byte(seq![0xffu8], i as nat));
    }
}

proof fn lemma_equal_signatures_equal_payloads(u1: Seq<u8>, t1: u64, u2: Seq<u8>, t2: u64)
    requires
        xb_signature(u1, t1) == xb_signature(u2, t2),
    ensures
        xb_payload_of(u1, t1) == xb_payload_of(u2, t2),
{
    lemma_signature_decodes(u1, t1);
    lemma_signature_decodes(u2, t2);
    lemma_plain_is_payload(u1, t1);
    lemma_plain_is_payload(u2, t2);
    let g = decode_groups(xb_signature(u1, t1));
    assert forall|i: int| 0 <= i < 19 implies #[trigger] xb_payload_of(u1, t1)[i] == xb_payload_of(
        u2,
        t2,
    )[i] by {
        assert(g[i + 2] ^ rc4_keystream_byte(seq![0xffu8], i as nat) == xb_payload_of(u1, t1)[i]);
        assert(g[i + 2] ^ rc4_keystream_byte(seq![0xffu8], i as nat) == xb_payload_of(u2, t2)[i]);
    }
    assert(xb_payload_of(u1, t1) =~= xb_payload_of(u2, t2));
}

proof fn lemma_equal_payloads_equal_signatures(u1: Seq<u8>, t1: u64, u2: Seq<u8>, t2: u64)
    requires
        xb_payload_of(u1, t1) == xb_payload_of(u2, t2),
    ensures
        xb_signature(u1, t1) == xb_signature(u2, t2),
{
    lemma_plain_is_payload(u1, t1);
    lemma_plain_is_payload(u2, t2);
}

/// At the same time, two queries get the same signature exactly when bytes
/// 14 and 15 of their double MD5 digests agree.
pub proof fn lemma_signature_query_equality(u1: Seq<u8>, u2: Seq<u8>, timestamp: u64)
    ensures
        xb_signature(u1, timestamp) == xb_signature(u2, timestamp) <==> (md5_digest(md5_digest(u1))[14]
            == md5_digest(md5_digest(u2))[14] && md5_digest(md5_digest(u1))[15] == md5_digest(
            md5_digest(u2),
        )[15]),
{
    lemma_payload_fields(u1, timestamp);
    lemma_payload_fields(u2, timestamp);
    let d1 = md5_digest(md5_digest(u1));
    let d2 = md5_digest(md5_digest(u2));
    if xb_signature(u1, timestamp) == xb_signature(u2, timestamp) {
        lemma_equal_signatures_equal_payloads(u1, timestamp, u2, timestamp);
        assert(xb_payload_of(u1, timestamp)[4] == xb_payload_of(u2, timestamp)[4]);
        assert(xb_payload_of(u1, timestamp)[5] == xb_payload_of(u2, timestamp)[5]);
    }
    if d1[14] == d2[14] && d1[15] == d2[15] {
        assert(xb_payload_of(u1, timestamp) =~= xb_payload_of(u2, timestamp));
        lemma_equal_payloads_equal_signatures(u1, timestamp, u2, timestamp);
    }
}

proof fn lemma_time_bytes(t1: u64, t2: u64)
    ensures
        (t1 % 0x100000000 == t2 % 0x100000000) <==> (t1 / 0x1000000 % 256 == t2 / 0x1000000 % 256
            && t1 / 0x10000 % 256 == t2 / 0x10000 % 256 && t1 / 0x100 % 256 == t2 / 0x100 % 256 && t1
            % 256 == t2 % 256),
{
    assert(t1 % 0x100000000 == t1 & 0xffffffff && t2 % 0x100000000 == t2 & 0xffffffff) by (bit_vector);
    assert(t1 / 0x1000000 % 256 == (t1 >> 24u64) & 255 && t2 / 0x1000000 % 256 == (t2 >> 24u64) & 255)
        by (bit_vector);
    assert(t1 / 0x10000 % 256 == (t1 >> 16u64) & 255 && t2 / 0x10000 % 256 == (t2 >> 16u64) & 255)
        by (bit_vector);
    assert(t1 / 0x100 % 256 == (t1 >> 8u64) & 255 && t2 / 0x100 % 256 == (t2 >> 8u64) & 255)
        by (bit_vector);
    assert(t1 % 256 == t1 & 255 && t2 % 256 == t2 & 255) by (bit_vector);
    assert((t1 & 0xffffffff == t2 & 0xffffffff) <==> ((t1 >> 24u64) & 255 == (t2 >> 24u64) & 255 && (t1
        >> 16u64) & 255 == (t2 >> 16u64) & 255 && (t1 >> 8u64) & 255 == (t2 >> 8u64) & 255 && t1 & 255
        == t2 & 255)) by (bit_vector);
}

/// For one query, two times get the same signature exactly when their low
/// 32 bits agree: only those are encoded.
pub proof fn lemma_signature_time_equality(url: Seq<u8>, t1: u64, t2: u64)
    ensures
        xb_signature(url, t1) == xb_signature(url, t2) <==> t1 % 0x100000000 == t2 % 0x100000000,
{
    lemma_payload_fields(url, t1);
    lemma_payload_fields(url, t2);
    lemma_time_bytes(t1, t2);
    let p1 = xb_payload_of(url, t1);
    let p2 = xb_payload_of(url, t2);
    if xb_signature(url, t1) == xb_signature(url, t2) {
        lemma_equal_signatures_equal_payloads(url, t1, url, t2);
        assert(p1[10] == p2[10] && p1[11] == p2[11] && p1[12] == p2[12] && p1[13] == p2[13]);
    }
    if t1 % 0x100000000 == t2 % 0x100000000 {
        assert(p1 =~= p2);
        lemma_equal_payloads_equal_signatures(url, t1, url, t2);
    }
}

} // verus!

use dy_xhs::encoding::{calculation, CHARACTER};
use dy_xhs::xbogus::{generate_xb_at, md5_encrypt};
use rc4::Rc4;
use rc4::{KeyInit, StreamCipher};

fn decode(text: &str) -> Vec<u8> {
    let digits: Vec<char> = CHARACTER.chars().take(64).collect();
    let ranks: Vec<u32> = text
        .chars()
        .map(|c| digits.iter().position(|&d| d == c).unwrap() as u32)
        .collect();
    let mut out = Vec::new();
    for q in ranks.chunks(4) {
        let w = (q[0] << 18) | (q[1] << 12) | (q[2] << 6) | q[3];
        out.push((w >> 16) as u8);
        out.push((w >> 8) as u8);
        out.push(w as u8);
    }
    out
}

fn keystream(n: usize) -> Vec<u8> {
    let mut data = vec![0u8; n];
    let mut cipher = Rc4::new(b"\xFF".into());
    cipher.apply_keystream(&mut data);
    data
}

#[test]
fn alphabet_digits_are_distinct() {
    let digits: Vec<char> = CHARACTER.chars().take(64).collect();
    for i in 0..64 {
        for j in 0..64 {
            if i != j {
                assert_ne!(digits[i], digits[j]);
            }
        }
    }
}

#[test]
fn calculation_reads_back_and_is_injective() {
    let mut seen = std::collections::HashSet::new();
    for a1 in [0, 1, 127, 255] {
        for a2 in [0, 2, 128, 254] {
            for a3 in 0..256 {
                let text = calculation(a1, a2, a3);
                assert_eq!(decode(&text), vec![a1 as u8, a2 as u8, a3 as u8]);
                assert!(seen.insert(text));
            }
        }
    }
}

#[test]
fn signature_reads_back_to_payload() {
    let t: u64 = 0x1234_5678_9abc;
    let sig = generate_xb_at("aid=6383&count=20", t);
    let g = decode(&sig);
    assert_eq!(g.len(), 21);
    assert_eq!(&g[..2], &[2, 255]);
    let ks = keystream(19);
    let n: Vec<u8> = (0..19).map(|i| g[i + 2] ^ ks[i]).collect();
    let d = md5_encrypt("aid=6383&count=20");
    assert_eq!(&n[0..4], &[64, 0, 1, 8]);
    assert_eq!(&n[4..6], &d[14..16]);
    assert_eq!(&n[8..10], &[0x6c, 0x0e]);
    assert_eq!(&n[10..14], &(t as u32).to_be_bytes());
    assert_eq!(&n[14..18], &[0x20, 0x00, 0xbe, 0x90]);
    assert_eq!(n.iter().fold(0u8, |a, b| a ^ b), 0);
}

#[test]
fn signature_parts() {
    let a = generate_xb_at("q=1", 1700000000);
    let b = generate_xb_at("q=2", 1600000123);
    let c = generate_xb_at("q=1", 1600000123);
    assert_eq!(a[0..8], b[0..8]);
    assert_eq!(a[12..16], b[12..16]);
    assert_eq!(a[8..12], c[8..12]);
    assert_eq!(b[16..24], c[16..24]);
}

#[test]
fn signature_equality() {
    let t: u64 = 1700000000;
    assert_eq!(generate_xb_at("q=1", t), generate_xb_at("q=1", t + (1u64 << 32)));
    assert_ne!(generate_xb_at("q=1", t), generate_xb_at("q=1", t + 1));
    assert_ne!(generate_xb_at("q=1", t), generate_xb_at("q=2", t));
    assert_ne!(md5_encrypt("q=1")[14..16], md5_encrypt("q=2")[14..16]);
}

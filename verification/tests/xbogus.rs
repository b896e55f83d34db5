use dy_xhs::encoding::{calculation, encoding_conversion, encoding_conversion2, CHARACTER};
use dy_xhs::hex::{md52array, to_lower_hex};
use dy_xhs::latin1::{latin1_string, low_bytes_of};
use dy_xhs::xbogus::{
    generate_xb, generate_xb_at, md5_encrypt, split_even_odd, xb_from_cipher, xb_payload,
};
use rc4::Rc4;
use rc4::{KeyInit, StreamCipher};

const LONG_QUERY: &str = "aid=6383&sec_user_id=MS4wLjABAAAA5fOskZLfiDB9wvPP0LHJB_tDvwTnzKL2K3Cj1C-81YczaAhHUvFr-7BnpZ-yOiX6&count=20&max_cursor=0&cookie_enabled=true&platform=PC&downlink=10";

fn is_signature_text(s: &str) -> bool {
    s.chars().count() == 28 && s.chars().all(|c| CHARACTER[..64].contains(c))
}

#[test]
fn test_md52array() {
    let md5 = "e10adc3949ba59abbe56e057f20f883e";
    let result = md52array(md5);
    println!("{:?}", result);
    assert_eq!(
        result,
        vec![225, 10, 220, 57, 73, 186, 89, 171, 190, 86, 224, 87, 242, 15, 136, 62]
    );
}

#[test]
fn test_md5() {
    let digest = md5_encrypt("123456");
    assert_eq!(
        digest,
        vec![66, 128, 216, 154, 90, 3, 248, 18, 117, 31, 80, 76, 193, 14, 232, 165]
    );
}

#[test]
fn test_rc4() {
    let mut rc4 = Rc4::new(b"Key".into());
    let mut data = b"Plaintext".to_vec();
    rc4.apply_keystream(&mut data);
    println!("{:?}", data);
    assert_eq!(data, [0xBB, 0xF3, 0x16, 0xE8, 0xD9, 0x40, 0xAF, 0x0A, 0xD3]);
}

#[test]
fn test_xb() {
    let result = generate_xb(LONG_QUERY).unwrap();
    println!("{}", result);
    assert!(is_signature_text(&result));
}

#[test]
fn generate_xb_at_fixed_times() {
    assert_eq!(generate_xb_at(LONG_QUERY, 1700000000), "DFSzswVuQBkANxXhtmWx-e9WX7r3");
    assert_eq!(generate_xb_at("", 0), "DFSzswVu0IJANxXhLa3g-e9WX7rX");
    assert_eq!(generate_xb_at("a", 4294967300), "DFSzswVu/PbANxXhLa3g5e9WX7jB");
}

#[test]
fn generate_xb_at_is_signature_text() {
    for t in [0u64, 1, 255, 65536, 1700000000, u64::MAX] {
        assert!(is_signature_text(&generate_xb_at("x=1", t)));
    }
}

#[test]
fn md52array_fixed_digest() {
    assert_eq!(
        md52array("d88201c9344707acde7261b158656c0e"),
        vec![216, 130, 1, 201, 52, 71, 7, 172, 222, 114, 97, 177, 88, 101, 108, 14]
    );
}

#[test]
fn md52array_other_characters_count_as_zero() {
    assert_eq!(
        md52array("0123456789abcdefABCDEF"),
        vec![1, 35, 69, 103, 137, 171, 205, 239, 0, 0, 0]
    );
    assert_eq!(md52array(""), Vec::<u8>::new());
}

#[test]
fn md52array_long_text_keeps_low_bytes() {
    let text = "0123456789abcdef0123456789abcdef0";
    assert_eq!(md52array(text), text.bytes().collect::<Vec<u8>>());
    let text = "\u{100}\u{102}0123456789abcdef0123456789abcdef";
    let expected: Vec<u8> = text.chars().map(|c| c as u8).collect();
    assert_eq!(md52array(text), expected);
    assert_eq!(expected[0], 0x00);
    assert_eq!(expected[1], 0x02);
}

#[test]
fn lower_hex_round_trip() {
    let bytes = vec![0u8, 1, 15, 16, 127, 128, 254, 255, 0xab, 0xcd, 0xef, 0x12, 0x34, 0x56, 0x78, 0x9a];
    let text = to_lower_hex(&bytes);
    assert_eq!(text, "00010f107f80feffabcdef123456789a");
    assert_eq!(md52array(&text), bytes);
}

#[test]
fn latin1_round_trip() {
    let bytes: Vec<u8> = (0..=255u8).collect();
    let text = latin1_string(&bytes);
    assert_eq!(text.chars().count(), 256);
    assert_eq!(low_bytes_of(&text), bytes);
}

#[test]
fn encoding_conversion_shuffles_first_19_bytes() {
    let arr: Vec<u8> = (100..120).collect();
    let text = encoding_conversion(&arr);
    let expected: Vec<u8> = vec![
        100, 110, 101, 111, 102, 112, 103, 113, 104, 114, 105, 115, 106, 116, 107, 117, 108, 118, 109,
    ];
    assert_eq!(low_bytes_of(&text), expected);
    let arr: Vec<u8> = (200..219).collect();
    let text = encoding_conversion(&arr);
    assert_eq!(text.chars().next(), Some(200u8 as char));
    assert_eq!(text.chars().nth(1), Some(210u8 as char));
}

#[test]
fn encoding_conversion2_prefixes_two_bytes() {
    let text = encoding_conversion2(2, 255, String::from("ab\u{100}\u{1ff}"));
    let bytes: Vec<u8> = text.chars().map(|c| c as u32 as u8).collect();
    assert_eq!(bytes, vec![2, 255, b'a', b'b', 0x00, 0xff]);
    assert!(text.chars().all(|c| (c as u32) < 256));
}

#[test]
fn calculation_values() {
    assert_eq!(calculation(1, 2, 3), "DfKp");
    assert_eq!(calculation(255, 255, 255), "eeee");
    assert_eq!(calculation(-1, 300, 0), "enjD");
    assert_eq!(calculation(0, 0, 70000), "Dvhj");
    assert_eq!(calculation(0, 0, 0), "DDDD");
}

#[test]
fn calculation_is_base64_of_three_bytes() {
    let digits: Vec<char> = CHARACTER.chars().take(64).collect();
    for (a1, a2, a3) in [(0, 0, 0), (1, 2, 3), (255, 0, 255), (17, 200, 99)] {
        let text = calculation(a1, a2, a3);
        let k: Vec<i32> = text
            .chars()
            .map(|c| digits.iter().position(|&d| d == c).unwrap() as i32)
            .collect();
        assert_eq!(k[0] * 262144 + k[1] * 4096 + k[2] * 64 + k[3], a1 * 65536 + a2 * 256 + a3);
    }
}

#[test]
fn payload_with_checksum() {
    let url = md5_encrypt("123456");
    let salt = vec![89u8, 173, 178, 78, 243, 205, 190, 2, 151, 240, 91, 57, 88, 39, 69, 63];
    let fixed = md52array("d88201c9344707acde7261b158656c0e");
    let payload = xb_payload(&url, &salt, &fixed, 0x01020304);
    assert_eq!(
        payload,
        vec![64, 0, 1, 8, 232, 165, 69, 63, 108, 14, 1, 2, 3, 4, 32, 0, 190, 144, 22]
    );
    assert_eq!(payload.iter().fold(0u8, |a, b| a ^ b), 0);
    let payload = xb_payload(&url, &salt, &fixed, u64::MAX);
    assert_eq!(payload.len(), 19);
    assert_eq!(&payload[10..14], &[255, 255, 255, 255]);
    assert_eq!(payload.iter().fold(0u8, |a, b| a ^ b), 0);
}

#[test]
fn split_even_odd_positions() {
    let arr: Vec<u8> = (0..19).collect();
    assert_eq!(
        split_even_odd(&arr),
        vec![0, 2, 4, 6, 8, 10, 12, 14, 16, 18, 1, 3, 5, 7, 9, 11, 13, 15, 17]
    );
    assert_eq!(split_even_odd(&vec![7, 8]), vec![7, 8]);
    assert_eq!(split_even_odd(&vec![]), Vec::<u8>::new());
}

#[test]
fn signature_text_of_cipher() {
    let data: Vec<u8> = (0..19).collect();
    assert_eq!(xb_from_cipher(&data), "DFSDDfKpkD64kjEsdEu8pfVMgkgw");
    assert_eq!(xb_from_cipher(&vec![1]), "DFSk");
    assert_eq!(xb_from_cipher(&vec![0, 0, 0, 0]), "DFSDDDDD");
}

#[test]
fn split_and_shuffle_keep_every_byte() {
    let arr: Vec<u8> = vec![9, 3, 250, 0, 7, 7, 1, 88, 42, 5, 6, 200, 13, 14, 15, 16, 17, 18, 19];
    let split = split_even_odd(&arr);
    for (i, &b) in arr.iter().enumerate() {
        let pos = if i % 2 == 0 { i / 2 } else { (arr.len() + 1) / 2 + i / 2 };
        assert_eq!(split[pos], b);
    }
    let shuffled = low_bytes_of(&encoding_conversion(&arr));
    for (i, &b) in arr.iter().enumerate() {
        let pos = if i < 10 { 2 * i } else { 2 * (i - 10) + 1 };
        assert_eq!(shuffled[pos], b);
    }
}

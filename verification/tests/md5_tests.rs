use rmd5::md5::{parse_hex, to_hex, Md5};

#[test]
fn known_vectors() {
    let cases = [
        ("", "d41d8cd98f00b204e9800998ecf8427e"),
        ("a", "0cc175b9c0f1b6a831c399e269772661"),
        ("abc", "900150983cd24fb0d6963f7d28e17f72"),
        ("message digest", "f96b697d7cb7938d525a2f31aaf161d0"),
        (
            "abcdefghijklmnopqrstuvwxyz",
            "c3fcd3d76192e4007dfb496cca67e13b",
        ),
    ];

    for (input, expected) in cases {
        let mut md5 = Md5::new();
        md5.update(input.as_bytes());
        assert_eq!(to_hex(&md5.finalize()), expected);
    }
}

#[test]
fn update_in_pieces_equals_one_update() {
    let mut whole = Md5::new();
    whole.update(b"message digest");
    let mut parts = Md5::new();
    parts.update(b"mess");
    parts.update(b"");
    parts.update(b"age digest");
    assert_eq!(whole.finalize(), parts.finalize());
}

#[test]
fn to_hex_is_lowercase_high_nibble_first() {
    let digest: [u8; 16] = [
        0x00, 0x01, 0x0f, 0x10, 0x7f, 0x80, 0xab, 0xcd, 0xef, 0xff, 0x12, 0x34, 0x56, 0x78, 0x9a,
        0xbc,
    ];
    assert_eq!(to_hex(&digest), "00010f107f80abcdefff123456789abc");
}

#[test]
fn parse_hex_reads_both_cases() {
    let lower = parse_hex("d41d8cd98f00b204e9800998ecf8427e").unwrap();
    let upper = parse_hex("D41D8CD98F00B204E9800998ECF8427E").unwrap();
    assert_eq!(lower, upper);
    assert_eq!(lower[0], 0xd4);
    assert_eq!(lower[15], 0x7e);
}

#[test]
fn parse_hex_of_to_hex_gives_digest_back() {
    let digest: [u8; 16] = [
        9, 8, 7, 6, 5, 4, 3, 2, 1, 0, 255, 254, 253, 252, 251, 250,
    ];
    assert_eq!(parse_hex(&to_hex(&digest)), Some(digest));
}

#[test]
fn parse_hex_refuses_bad_text() {
    assert_eq!(parse_hex(""), None);
    assert_eq!(parse_hex("d41d8cd98f00b204e9800998ecf8427"), None);
    assert_eq!(parse_hex("d41d8cd98f00b204e9800998ecf8427e0"), None);
    assert_eq!(parse_hex("g41d8cd98f00b204e9800998ecf8427e"), None);
    assert_eq!(parse_hex("d41d8cd98f00b204e9800998ecf8427 "), None);
    // 32 bytes, but two of them form one non-ASCII character
    assert_eq!(parse_hex("d41d8cd98f00b204e9800998ecf842é"), None);
}

#[test]
fn to_hex_of_parse_hex_is_lowercase_text() {
    let text = "D41D8cd98F00B204E9800998ECF8427E";
    let digest = parse_hex(text).unwrap();
    assert_eq!(to_hex(&digest), text.to_lowercase());
}

use std::path::PathBuf;

use faithea::websocket::apply_mask;

#[test]
fn u() {
    let mask = [0x8d, 0x20, 0xe3, 0xdf];
    let value = [
        0xf6, 0x02, 0x97, 0xa6, 0xfd, 0x45, 0xc1, 0xe5, 0xaf, 0x4d, 0x86, 0xac, 0xfe, 0x41, 0x84, 0xba, 0xaf,
        0x0c, 0xc1, 0xab, 0xe2, 0x02, 0xd9, 0xfd, 0xec, 0x02, 0xcf, 0xfd, 0xeb, 0x52, 0x8c, 0xb2, 0xaf, 0x1a,
        0xc1, 0xbe, 0xaf, 0x0c, 0xc1, 0xbc, 0xe2, 0x4e, 0x97, 0xba, 0xe3, 0x54, 0xc1, 0xe5, 0xaf, 0x41, 0x90,
        0xbb, 0xaf, 0x5d,
    ];
    println!("lent: {}", value.len());

    let mut unmasked = value;
    apply_mask(&mut unmasked, mask);
    for i in 0..value.len() {
        let masked = (mask[i % 4] ^ value[i]) as u8;
        println!("masked: {}", masked as char);
        assert_eq!(unmasked[i], masked);
    }
}

#[test]
fn path() {
    let a = PathBuf::from("/Users/dadigua/Desktop/graduation/http-server/src/data/inbound");
    println!("{:?}", a.extension());
}

#[test]
fn b() {}

#[test]
fn masking_twice_restores_the_payload() {
    let mask = [1, 2, 3, 4];
    let plain = *b"hello, world";
    let mut p = plain;
    apply_mask(&mut p, mask);
    assert_ne!(p, plain);
    apply_mask(&mut p, mask);
    assert_eq!(p, plain);
}

#[test]
fn a() {
    let a = "/a/";
    for i in a.split("/") {
        println!("-> [{}]", i);
    }
    let chars: Vec<char> = a.chars().collect();
    let pieces = faithea::text::split_chars(&chars, '/');
    let expected: Vec<String> = a.split('/').map(|s| s.to_string()).collect();
    assert_eq!(pieces, expected);
}

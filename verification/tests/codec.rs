use nyansync::be::{u32_from_be, u32_to_be};
use nyansync::decimal::{parse_u32, push_decimal};

#[test]
fn be_bytes() {
    assert_eq!(u32_to_be(0x0A0B_0C0D), [0x0A, 0x0B, 0x0C, 0x0D]);
    assert_eq!(u32_from_be([0xFF, 0, 0, 1]), 0xFF00_0001);
    assert_eq!(u32_to_be(7), 7u32.to_be_bytes());
}

#[test]
fn decimal_text() {
    let mut out = b"x".to_vec();
    push_decimal(&mut out, 0);
    push_decimal(&mut out, 4_294_967_295);
    assert_eq!(out, b"x04294967295".to_vec());
}

#[test]
fn decimal_parse_like_from_str() {
    for s in ["0", "+7", "0042", "4294967295", "", "+", "-1", "4294967296", "1a", " 1", "++1"] {
        assert_eq!(parse_u32(s.as_bytes()), s.parse::<u32>().ok(), "{s:?}");
    }
}

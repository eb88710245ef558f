use uwuhi::hex::{encode, parse};

#[test]
fn test_parse() {
    assert_eq!(parse("00abff"), &[0x00, 0xab, 0xff]);
}

#[test]
fn hex_encode() {
    assert_eq!(encode(&[0x00, 0xab, 0xff, 0x10]), "00abff10");
    assert_eq!(parse("ABcd"), vec![0xab, 0xcd]);
}

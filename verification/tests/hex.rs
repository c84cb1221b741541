use tao::hexencode;

#[test]
fn hexencode_of_nothing_is_empty() {
    assert_eq!(hexencode(&[]), "");
}

#[test]
fn hexencode_writes_two_lower_case_digits_per_byte() {
    assert_eq!(hexencode(&[0x00, 0xff, 0x1a, 0xa1, 0x09, 0x90]), "00ff1aa10990");
    assert_eq!(hexencode(b"Tao"), "54616f");
}

#[test]
fn hexencode_covers_every_digit() {
    assert_eq!(hexencode(&[0x01, 0x23, 0x45, 0x67, 0x89, 0xab, 0xcd, 0xef]), "0123456789abcdef");
}

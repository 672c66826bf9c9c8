use clipwin::digest::{content_address, hex};

#[test]
fn bytes_in_hexadecimal() {
    assert_eq!(hex(&[]), "");
    assert_eq!(hex(&[0x00, 0x0f, 0xa0, 0xff]), "000fa0ff");
    let all: Vec<u8> = (0..=255).collect();
    let want: String = all.iter().map(|b| format!("{b:02x}")).collect();
    assert_eq!(hex(&all), want);
}

#[test]
fn content_addresses_are_sha256() {
    assert_eq!(
        content_address(b""),
        "e3b0c44298fc1c149afbf4c8996fb92427ae41e4649b934ca495991b7852b855"
    );
    assert_eq!(
        content_address(b"abc"),
        "ba7816bf8f01cfea414140de5dae2223b00361a396177a9cb410ff61f20015ad"
    );
}

#[test]
fn different_bytes_have_different_hexadecimals() {
    assert_ne!(hex(&[1, 0x23]), hex(&[0x12, 3]));
}

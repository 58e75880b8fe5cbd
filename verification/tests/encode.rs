use chromaprint::encode::encode;

#[test]
fn encodes_without_padding() {
    assert_eq!(encode(b""), "");
    assert_eq!(encode(b"f"), "Zg");
    assert_eq!(encode(b"fo"), "Zm8");
    assert_eq!(encode(b"foo"), "Zm9v");
    assert_eq!(encode(b"foob"), "Zm9vYg");
    assert_eq!(encode(b"fooba"), "Zm9vYmE");
    assert_eq!(encode(b"foobar"), "Zm9vYmFy");
}

#[test]
fn encodes_with_the_url_safe_alphabet() {
    assert_eq!(encode(&[0xfb, 0xff]), "-_8");
    assert_eq!(encode(&[0xff, 0xff, 0xfe]), "___-");
    assert_eq!(encode(&[0, 0x10, 0x83]), "ABCD");
}

#[test]
fn encodes_a_long_input() {
    let bytes: Vec<u8> = (0..60u8).collect();
    assert_eq!(
        encode(&bytes),
        "AAECAwQFBgcICQoLDA0ODxAREhMUFRYXGBkaGxwdHh8gISIjJCUmJygpKissLS4vMDEyMzQ1Njc4OTo7"
    );
}

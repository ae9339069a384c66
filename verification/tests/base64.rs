use axsh::base64::Base64Error;
use axsh::{decode_base64, encode_base64};

#[test]
fn base64_base64_encodes_known_vectors() {
    assert_eq!(encode_base64(b""), "");
    assert_eq!(encode_base64(b"f"), "Zg==");
    assert_eq!(encode_base64(b"fo"), "Zm8=");
    assert_eq!(encode_base64(b"foo"), "Zm9v");
    assert_eq!(encode_base64(b"hello world"), "aGVsbG8gd29ybGQ=");
}

#[test]
fn base64_encodes_known_vectors() {
    assert_eq!(encode_base64(b""), "");
    assert_eq!(encode_base64(b"f"), "Zg==");
    assert_eq!(encode_base64(b"fo"), "Zm8=");
    assert_eq!(encode_base64(b"foo"), "Zm9v");
    assert_eq!(encode_base64(b"hello world"), "aGVsbG8gd29ybGQ=");
}

#[test]
fn base64_decodes_known_vectors() {
    assert_eq!(decode_base64("").expect("decode failed"), b"");
    assert_eq!(decode_base64("Zg==").expect("decode failed"), b"f");
    assert_eq!(decode_base64("Zm8=").expect("decode failed"), b"fo");
    assert_eq!(decode_base64("Zm9v").expect("decode failed"), b"foo");
    assert_eq!(
        decode_base64("aGVsbG8gd29ybGQ=").expect("decode failed"),
        b"hello world"
    );
}

#[test]
fn base64_rejects_invalid_input() {
    assert!(decode_base64("abc").is_err());
    assert!(decode_base64("ab=c").is_err());
    assert!(decode_base64("!!!!").is_err());
}

#[test]
fn base64_names_each_fault() {
    assert_eq!(decode_base64("abc"), Err(Base64Error::Length));
    assert_eq!(decode_base64("ab=c"), Err(Base64Error::InvalidPadding));
    assert_eq!(decode_base64("!!!!"), Err(Base64Error::InvalidCharacter));
    assert_eq!(decode_base64("Zg==Zm9v"), Err(Base64Error::EarlyPadding));
    assert_eq!(decode_base64("Zm8=Zm9v"), Err(Base64Error::EarlyPadding));
    assert_eq!(decode_base64("Zm!="), Err(Base64Error::InvalidCharacter));
    assert_eq!(decode_base64("Zm9!"), Err(Base64Error::InvalidCharacter));
    assert_eq!(decode_base64("\u{e9}\u{e9}"), Err(Base64Error::InvalidCharacter));
    assert_eq!(Base64Error::Length.message(), "base64 length must be a multiple of 4");
    assert_eq!(Base64Error::InvalidCharacter.message(), "invalid base64 character");
    assert_eq!(
        Base64Error::EarlyPadding.message(),
        "padding must appear only in the final chunk"
    );
    assert_eq!(Base64Error::InvalidPadding.message(), "invalid base64 padding");
}

#[test]
fn base64_drops_bits_that_padding_leaves_over() {
    assert_eq!(decode_base64("Zh=="), Ok(b"f".to_vec()));
    assert_eq!(decode_base64("Zm9="), Ok(b"fo".to_vec()));
}

#[test]
fn base64_round_trips_every_byte() {
    let mut data = Vec::new();
    for byte in 0..=255u8 {
        data.push(byte);
        let text = encode_base64(&data);
        assert_eq!(text.len(), data.len().div_ceil(3) * 4);
        assert_eq!(decode_base64(&text), Ok(data.clone()));
    }
}

#[test]
fn base64_of_whole_groups_is_joined() {
    assert_eq!(
        encode_base64(b"foobarbazqu"),
        encode_base64(b"foobar") + &encode_base64(b"bazqu")
    );
}

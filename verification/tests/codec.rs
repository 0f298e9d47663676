use koala::codec::{bytes_to_words, words_to_bytes};
use koala::decimal::{i32_to_string, u32_to_string};

#[test]
fn words_serialize_big_endian() {
    let words = vec![0x01020304u32, 0xAABBCCDDu32];
    let bytes = words_to_bytes(&words);
    assert_eq!(bytes, vec![0x01, 0x02, 0x03, 0x04, 0xAA, 0xBB, 0xCC, 0xDD]);
}

#[test]
fn bytes_decode_big_endian() {
    let bytes = vec![0x00u8, 0x00, 0x00, 0x40, 0xFF, 0x00, 0x00, 0x01];
    let words = bytes_to_words(&bytes);
    assert_eq!(words, vec![0x40u32, 0xFF000001u32]);
}

#[test]
fn framing_round_trips() {
    let words = vec![0u32, 1, 0x60, 0xFFFFFFFF, 0x12345678];
    let again = bytes_to_words(&words_to_bytes(&words));
    assert_eq!(again, words);
}

#[test]
fn trailing_fragment_is_ignored() {
    let bytes = vec![0x00u8, 0x00, 0x00, 0x07, 0xAA, 0xBB];
    let words = bytes_to_words(&bytes);
    assert_eq!(words, vec![7u32]);
}

#[test]
fn decimal_text_of_zero() {
    assert_eq!(u32_to_string(0), "0");
    assert_eq!(i32_to_string(0), "0");
}

#[test]
fn decimal_text_of_negative() {
    assert_eq!(i32_to_string(-123), "-123");
}

#[test]
fn decimal_text_of_extremes() {
    assert_eq!(i32_to_string(i32::MIN), "-2147483648");
    assert_eq!(i32_to_string(i32::MAX), "2147483647");
    assert_eq!(u32_to_string(4294967295), "4294967295");
}

#[test]
fn decimal_text_of_round_number() {
    assert_eq!(u32_to_string(1000), "1000");
}

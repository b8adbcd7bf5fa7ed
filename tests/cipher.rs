use encryption_macros::{decode_literal, encoded_literal, xor, Key};

#[test]
fn xor_twice_restores_buffer() {
    let original = vec![1u8, 2, 3, 250];
    let key = [9u8, 200, 0, 17, 5];
    let mut b = original.clone();
    xor(&mut b, &key);
    assert_eq!(b, vec![1 ^ 9, 2 ^ 200, 3, 250 ^ 17]);
    xor(&mut b, &key);
    assert_eq!(b, original);
}

#[test]
fn xor_leaves_tail_past_key() {
    let mut b = vec![10u8, 20, 30, 40];
    xor(&mut b, &[1u8, 2]);
    assert_eq!(b, vec![11, 22, 30, 40]);
}

#[test]
fn xor_with_empty_key_changes_nothing() {
    let mut b = vec![10u8, 20];
    xor(&mut b, &[]);
    assert_eq!(b, vec![10, 20]);
}

#[test]
fn encode_hello_with_one_byte_key() {
    let hex = encoded_literal("hello", &[0x05]);
    assert_eq!(hex, "6d656c6c6f");
    assert_eq!(decode_literal(&hex, "05"), Some("hello".to_string()));
}

#[test]
fn encode_uses_lowercase_hex() {
    assert_eq!(encoded_literal("\u{ff}", &[0xff, 0x0f]), "3cb0");
}

#[test]
fn decode_rejects_bad_hex() {
    assert_eq!(decode_literal("6", "05"), None);
    assert_eq!(decode_literal("zz", "05"), None);
    assert_eq!(decode_literal("68", "0"), None);
}

#[test]
fn decode_rejects_invalid_utf8() {
    assert_eq!(decode_literal("ff", ""), None);
}

#[test]
fn decode_accepts_uppercase_hex() {
    assert_eq!(decode_literal("6D", "05"), Some("h".to_string()));
}

#[test]
fn round_trip_longer_than_key() {
    let text = "a somewhat longer text, with ünïcode";
    let key = [3u8, 7, 11];
    let hex = encoded_literal(text, &key);
    assert_eq!(decode_literal(&hex, "03070b"), Some(text.to_string()));
}

#[test]
fn key_cycles_through_buffer() {
    let mut k = Key::new(vec![1, 2, 3]);
    let got: Vec<Option<u8>> = (0..7).map(|_| k.next()).collect();
    assert_eq!(got, vec![Some(2), Some(3), Some(1), Some(2), Some(3), Some(1), Some(2)]);
}

#[test]
fn one_byte_key_repeats() {
    let mut k = Key::new(vec![7]);
    assert_eq!(k.next(), Some(7));
    assert_eq!(k.next(), Some(7));
}

#[test]
fn empty_key_yields_nothing() {
    let mut k = Key::new(vec![]);
    assert_eq!(k.next(), None);
}


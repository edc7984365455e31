use base64::Engine;
use base64::prelude::BASE64_STANDARD;
use dotrs::encryption::{decrypt_string, encrypt_string, try_decrypt_string, try_encrypt_string,
    Error};

fn key_of(byte: u8) -> String {
    BASE64_STANDARD.encode([byte; 32])
}

#[test]
fn encrypt_then_decrypt_returns_plaintext() {
    let key = key_of(7);
    let blob = encrypt_string("hello dotfiles", &key).unwrap();
    let back = decrypt_string(&blob, &key).unwrap();
    assert_eq!(back, "hello dotfiles");
}

#[test]
fn round_trip_of_empty_and_unicode_plaintexts() {
    let key = key_of(1);
    for plain in ["", "a", "schr\u{f6}dinger \u{1f511}", "line\nbreak\tand spaces"] {
        let blob = encrypt_string(plain, &key).unwrap();
        assert_eq!(decrypt_string(&blob, &key).unwrap(), plain);
    }
}

#[test]
fn two_encryptions_differ_but_both_decrypt() {
    let key = key_of(2);
    let a = encrypt_string("same text", &key).unwrap();
    let b = encrypt_string("same text", &key).unwrap();
    // fresh nonces make the blobs differ
    assert_ne!(a, b);
    assert_eq!(decrypt_string(&a, &key).unwrap(), "same text");
    assert_eq!(decrypt_string(&b, &key).unwrap(), "same text");
}

#[test]
fn decrypting_under_wrong_key_fails_with_tag_mismatch() {
    let blob = encrypt_string("secret", &key_of(3)).unwrap();
    let r = decrypt_string(&blob, &key_of(4));
    assert_eq!(r, Err(Error::Decrypt));
}

#[test]
fn short_blob_fails_with_length_error() {
    let key = key_of(5);
    let short = BASE64_STANDARD.encode([1u8; 11]);
    assert_eq!(decrypt_string(&short, &key), Err(Error::InvalidCipheredDataLength));
    // exactly 12 decoded bytes pass the length check and fail later, at the tag
    let twelve = BASE64_STANDARD.encode([1u8; 12]);
    assert_eq!(decrypt_string(&twelve, &key), Err(Error::Decrypt));
}

#[test]
fn bad_base64_blob_or_key_fails_with_decode_error() {
    let key = key_of(6);
    assert_eq!(decrypt_string("*not base64*", &key), Err(Error::Base64Decode));
    let blob = encrypt_string("x", &key).unwrap();
    assert_eq!(decrypt_string(&blob, "*not base64*"), Err(Error::Base64Decode));
    assert_eq!(encrypt_string("x", "*not base64*"), Err(Error::Base64Decode));
}

#[test]
fn keys_of_wrong_length_are_refused_by_the_checked_entries() {
    let short_key = BASE64_STANDARD.encode([9u8; 16]);
    assert!(try_encrypt_string("x", &short_key).is_none());
    assert!(try_decrypt_string("x", &short_key).is_none());
    let good = key_of(8);
    let blob = try_encrypt_string("x", &good).unwrap().unwrap();
    assert_eq!(try_decrypt_string(&blob, &good).unwrap().unwrap(), "x");
}

//! Point encryption of strings under a caller-supplied symmetric key.
//!
//! A key is base64 text that must decode to 32 bytes.  `encrypt_string` draws
//! a fresh 96-bit nonce, seals the plaintext with AES-256-GCM and returns
//! `base64(nonce ++ ciphertext)`; `decrypt_string` inverts that.  The cipher
//! and the base64 codec come from outside crates and are modeled by named
//! results; everything around the two calls is verified, and every blob that
//! `encrypt_string` returns is proved to decrypt back to its plaintext under
//! the same key.

use vstd::prelude::*;
use vstd::slice::slice_subrange;
use vstd::utf8::{valid_utf8, decode_utf8, encode_utf8, encode_utf8_valid_utf8,
    encode_utf8_decode_utf8};
use base64::Engine;
use base64::prelude::BASE64_STANDARD;
use aes_gcm::{Aes256Gcm, KeyInit};
use aes_gcm::aead::{Aead, Generate};

verus! {

/// Why an encryption or decryption failed.
#[derive(Clone, Copy, Debug, PartialEq, Eq, Structural)]
pub enum Error {
    /// The cipher refused to seal (the plaintext exceeds the AES-GCM limit,
    /// or no nonce could be drawn).
    Encrypt,
    /// The authentication tag did not verify: wrong key or tampered data.
    Decrypt,
    /// The decrypted bytes are not valid UTF-8.
    Utf8Encode,
    /// The decoded blob is shorter than the 12-byte nonce.
    InvalidCipheredDataLength,
    /// The blob or the key is not valid base64.
    Base64Decode,
}

/// What base64's standard-alphabet encoder returns for the given bytes.
pub uninterp spec fn b64_encode_spec(bytes: Seq<u8>) -> Seq<char>;

/// What base64's standard-alphabet decoder returns: the decoded bytes, or
/// `None` when the text is not valid base64.
pub uninterp spec fn b64_decode_spec(text: Seq<char>) -> Option<Seq<u8>>;

/// What sealing with AES-256-GCM returns: ciphertext followed by the tag.
pub uninterp spec fn gcm_seal(key: Seq<u8>, nonce: Seq<u8>, plain: Seq<u8>) -> Seq<u8>;

/// What opening with AES-256-GCM returns: the plaintext when the tag
/// verifies, `None` otherwise.
pub uninterp spec fn gcm_open(key: Seq<u8>, nonce: Seq<u8>, cipher: Seq<u8>) -> Option<Seq<u8>>;

/// Relies on base64's `BASE64_STANDARD.encode`, and on its documented promise
/// that `decode` inverts `encode`.
#[verifier::external_body]
fn b64_encode(v: &[u8]) -> (r: String)
    ensures
        r@ == b64_encode_spec(v@),
        b64_decode_spec(r@) == Some(v@),
{
    BASE64_STANDARD.encode(v)
}

/// Relies on base64's `BASE64_STANDARD.decode`: the standard alphabet with
/// padding required and no trailing bits allowed.
#[verifier::external_body]
fn b64_decode(s: &str) -> (r: Option<Vec<u8>>)
    ensures
        r is Some <==> b64_decode_spec(s@) is Some,
        r matches Some(v) ==> b64_decode_spec(s@) == Some(v@),
{
    BASE64_STANDARD.decode(s).ok()
}

/// Relies on `Generate::try_generate` (backed by the system RNG): 12 fresh
/// random bytes.  Nothing is assumed of their values.
#[verifier::external_body]
fn generate_nonce() -> (r: Option<Vec<u8>>)
    ensures
        r matches Some(v) ==> v@.len() == 12,
{
    let bytes: [u8; 12] = Generate::try_generate().ok()?;
    Some(bytes.to_vec())
}

/// Relies on aes-gcm's `Aes256Gcm::new_from_slice` (a cipher exists exactly
/// for 32-byte keys), `Aead::encrypt` (deterministic in key, nonce and
/// plaintext; refuses only plaintexts over the AES-GCM length limit), and the
/// AEAD round-trip promise that `decrypt` inverts `encrypt`.
#[verifier::external_body]
fn gcm_encrypt(key: &[u8], nonce: &[u8], plain: &[u8]) -> (r: Option<Vec<u8>>)
    requires
        nonce@.len() == 12,
    ensures
        r matches Some(c) ==> key@.len() == 32 && c@ == gcm_seal(key@, nonce@, plain@),
        r matches Some(c) ==> gcm_open(key@, nonce@, c@) == Some(plain@),
        key@.len() == 32 && plain@.len() <= 0xF_FFFF_FFE0 ==> r is Some,
{
    let cipher = Aes256Gcm::new_from_slice(key).ok()?;
    let nonce = aes_gcm::Nonce::try_from(nonce).ok()?;
    cipher.encrypt(&nonce, plain).ok()
}

/// Relies on aes-gcm's `Aes256Gcm::new_from_slice` and `Aead::decrypt`:
/// deterministic in key, nonce and ciphertext, failing exactly when the
/// authentication tag does not verify.
#[verifier::external_body]
fn gcm_decrypt(key: &[u8], nonce: &[u8], cipher: &[u8]) -> (r: Option<Vec<u8>>)
    requires
        nonce@.len() == 12,
    ensures
        key@.len() != 32 ==> r is None,
        key@.len() == 32 ==> (r is Some <==> gcm_open(key@, nonce@, cipher@) is Some),
        key@.len() == 32 ==> (r matches Some(v) ==> gcm_open(key@, nonce@, cipher@) == Some(v@)),
{
    let aead = Aes256Gcm::new_from_slice(key).ok()?;
    let nonce = aes_gcm::Nonce::try_from(nonce).ok()?;
    aead.decrypt(&nonce, cipher).ok()
}

/// Relies on `String::from_utf8`: succeeds exactly on valid UTF-8 and
/// decodes it.
#[verifier::external_body]
pub(crate) fn string_from_utf8(bytes: &[u8]) -> (r: Option<String>)
    ensures
        r is Some <==> valid_utf8(bytes@),
        r matches Some(s) ==> s@ == decode_utf8(bytes@),
{
    String::from_utf8(bytes.to_vec()).ok()
}

/// A key this module can work with: base64 text that either fails to decode
/// (reported as `Base64Decode`) or decodes to exactly 32 bytes.  A key that
/// decodes to any other length selects no AES-256 cipher.
pub open spec fn spec_key_ok(key: Seq<char>) -> bool {
    match b64_decode_spec(key) {
        Some(k) => k.len() == 32,
        None => true,
    }
}

/// What decrypting the given blob under the given key yields.
pub open spec fn spec_decrypt(blob: Seq<char>, key: Seq<char>) -> Result<Seq<char>, Error> {
    match b64_decode_spec(blob) {
        None => Err(Error::Base64Decode),
        Some(data) => match b64_decode_spec(key) {
            None => Err(Error::Base64Decode),
            Some(kb) => if data.len() < 12 {
                Err(Error::InvalidCipheredDataLength)
            } else {
                match gcm_open(kb, data.take(12), data.skip(12)) {
                    None => Err(Error::Decrypt),
                    Some(pb) => if valid_utf8(pb) {
                        Ok(decode_utf8(pb))
                    } else {
                        Err(Error::Utf8Encode)
                    },
                }
            },
        },
    }
}

/// Encrypt `value` under `key`: base64-decode the key, draw a fresh 96-bit
/// nonce, seal with AES-256-GCM and return `base64(nonce ++ ciphertext)`.
/// Every blob returned decrypts back to `value` under the same key.
pub fn encrypt_string(value: &str, key: &str) -> (r: Result<String, Error>)
    requires
        spec_key_ok(key@),
    ensures
        r matches Ok(c) ==> spec_decrypt(c@, key@) == Ok::<Seq<char>, Error>(value@),
        r matches Ok(c) ==> (exists|n: Seq<u8>|
            n.len() == 12 && c@ == b64_encode_spec(
                n + gcm_seal(b64_decode_spec(key@)->Some_0, n, encode_utf8(value@)),
            )),
        r == Err::<String, Error>(Error::Base64Decode) <==> b64_decode_spec(key@) is None,
        r matches Err(e) ==> (e == Error::Base64Decode || e == Error::Encrypt),
{
    let key_bytes = match b64_decode(key) {
        Some(v) => v,
        None => {
            return Err(Error::Base64Decode);
        },
    };
    let nonce = match generate_nonce() {
        Some(v) => v,
        None => {
            return Err(Error::Encrypt);
        },
    };
    let ciphered = match gcm_encrypt(key_bytes.as_slice(), nonce.as_slice(), value.as_bytes()) {
        Some(v) => v,
        None => {
            return Err(Error::Encrypt);
        },
    };
    let ghost nonce_bytes = nonce@;
    let ghost cipher_bytes = ciphered@;
    let mut combined = nonce;
    let mut tail = ciphered;
    combined.append(&mut tail);
    let out = b64_encode(combined.as_slice());
    proof {
        broadcast use encode_utf8_valid_utf8, encode_utf8_decode_utf8;

        assert(combined@.take(12) =~= nonce_bytes);
        assert(combined@.skip(12) =~= cipher_bytes);
        assert(spec_decrypt(out@, key@) == Ok::<Seq<char>, Error>(value@));
    }
    Ok(out)
}

/// Decrypt a blob produced by `encrypt_string`: base64-decode it, split off
/// the 12-byte nonce, open with AES-256-GCM under the base64-decoded key and
/// require the plaintext to be valid UTF-8.
pub fn decrypt_string(encrypted_value: &str, key: &str) -> (r: Result<String, Error>)
    requires
        spec_key_ok(key@),
    ensures
        r matches Ok(s) ==> spec_decrypt(encrypted_value@, key@) == Ok::<Seq<char>, Error>(s@),
        r matches Err(e) ==> spec_decrypt(encrypted_value@, key@) == Err::<Seq<char>, Error>(e),
{
    let data = match b64_decode(encrypted_value) {
        Some(v) => v,
        None => {
            return Err(Error::Base64Decode);
        },
    };
    let key_bytes = match b64_decode(key) {
        Some(v) => v,
        None => {
            return Err(Error::Base64Decode);
        },
    };
    if data.len() < 12 {
        return Err(Error::InvalidCipheredDataLength);
    }
    let nonce = slice_subrange(data.as_slice(), 0, 12);
    let ciphered = slice_subrange(data.as_slice(), 12, data.len());
    proof {
        assert(nonce@ =~= data@.take(12));
        assert(ciphered@ =~= data@.skip(12));
    }
    let plain = match gcm_decrypt(key_bytes.as_slice(), nonce, ciphered) {
        Some(v) => v,
        None => {
            return Err(Error::Decrypt);
        },
    };
    match string_from_utf8(plain.as_slice()) {
        Some(s) => Ok(s),
        None => Err(Error::Utf8Encode),
    }
}

/// `encrypt_string` behind a key check: `None` exactly when the key is
/// base64 text that decodes to something other than 32 bytes.
pub fn try_encrypt_string(value: &str, key: &str) -> (r: Option<Result<String, Error>>)
    ensures
        r is None <==> !spec_key_ok(key@),
        r matches Some(inner) ==> (inner matches Ok(c) ==> spec_decrypt(c@, key@)
            == Ok::<Seq<char>, Error>(value@)),
        r matches Some(inner) ==> (inner == Err::<String, Error>(Error::Base64Decode)
            <==> b64_decode_spec(key@) is None),
{
    if !key_ok(key) {
        return None;
    }
    Some(encrypt_string(value, key))
}

/// `decrypt_string` behind the same key check.
pub fn try_decrypt_string(encrypted_value: &str, key: &str) -> (r: Option<Result<String, Error>>)
    ensures
        r is None <==> !spec_key_ok(key@),
        r matches Some(inner) ==> (inner matches Ok(s) ==> spec_decrypt(encrypted_value@, key@)
            == Ok::<Seq<char>, Error>(s@)),
        r matches Some(inner) ==> (inner matches Err(e) ==> spec_decrypt(encrypted_value@, key@)
            == Err::<Seq<char>, Error>(e)),
{
    if !key_ok(key) {
        return None;
    }
    Some(decrypt_string(encrypted_value, key))
}

/// Whether the key decodes to 32 bytes or fails to decode at all.
pub fn key_ok(key: &str) -> (r: bool)
    ensures
        r == spec_key_ok(key@),
{
    match b64_decode(key) {
        Some(v) => v.len() == 32,
        None => true,
    }
}

} // verus!

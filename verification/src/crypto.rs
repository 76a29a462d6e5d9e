//! Key derivation, message authentication and encryption for what is kept on
//! this device.
use aes::cipher::block_padding::Pkcs7;
use aes::cipher::{BlockModeDecrypt, BlockModeEncrypt, KeyIvInit};
use hkdf::Hkdf;
use hmac::{Hmac, KeyInit, Mac};
use sha2::Sha256;
use vstd::prelude::*;

use crate::codec::seq_of;

verus! {

/// The 32 bytes that HKDF with SHA-256 and no salt expands from a secret for a
/// purpose.
pub uninterp spec fn hkdf_sha256(secret: Seq<u8>, purpose: Seq<u8>) -> Seq<u8>;

/// The HMAC with SHA-256 of a message.
pub uninterp spec fn hmac_sha256(key: Seq<u8>, message: Seq<u8>) -> Seq<u8>;

/// A plaintext, padded by PKCS #7 and encrypted by AES-256 in CBC mode.
pub uninterp spec fn aes256_cbc(key: Seq<u8>, iv: Seq<u8>, plaintext: Seq<u8>) -> Seq<u8>;

/// A ciphertext, decrypted by AES-256 in CBC mode and freed of its PKCS #7
/// padding, where it has one.
pub uninterp spec fn aes256_cbc_read(key: Seq<u8>, iv: Seq<u8>, ciphertext: Seq<u8>) -> Option<
    Seq<u8>,
>;

/// `hkdf::Hkdf::<Sha256>::new` without a salt, and its `expand` to 32 bytes,
/// which is within what HKDF can give.
#[verifier::external_body]
pub(crate) fn expand(secret: &[u8], purpose: &[u8]) -> (r: [u8; 32])
    ensures
        r@ == hkdf_sha256(secret@, purpose@),
{
    let mut key = [0u8; 32];
    Hkdf::<Sha256>::new(None, secret).expand(purpose, &mut key).expect("32 bytes can be had");
    key
}

/// `hmac::Hmac::<Sha256>` of a message under a key: 32 bytes.
#[verifier::external_body]
pub(crate) fn authenticate(key: &[u8; 32], message: &[u8]) -> (r: Vec<u8>)
    ensures
        r@ == hmac_sha256(key@, message@),
        r@.len() == 32,
{
    let mut mac = Hmac::<Sha256>::new_from_slice(key).expect("any length of key will do");
    mac.update(message);
    mac.finalize().into_bytes().to_vec()
}

/// `encrypt_padded_vec` of `cbc::Encryptor` over `aes::Aes256`: the ciphertext,
/// from which `decrypt_padded_vec` with the same key and vector reads the
/// plaintext back.
#[verifier::external_body]
pub(crate) fn encrypt(key: &[u8; 32], iv: &[u8; 16], plaintext: &[u8]) -> (r: Vec<u8>)
    ensures
        r@ == aes256_cbc(key@, iv@, plaintext@),
        aes256_cbc_read(key@, iv@, r@) == Some(plaintext@),
{
    cbc::Encryptor::<aes::Aes256>::new(key.into(), iv.into()).encrypt_padded_vec::<Pkcs7>(plaintext)
}

/// `decrypt_padded_vec` of `cbc::Decryptor` over `aes::Aes256`: the plaintext,
/// or none where the length or the padding is not that of one.
#[verifier::external_body]
pub(crate) fn decrypt(key: &[u8; 32], iv: &[u8], ciphertext: &[u8]) -> (r: Option<Vec<u8>>)
    requires
        iv@.len() == 16,
    ensures
        seq_of(r) == aes256_cbc_read(key@, iv@, ciphertext@),
{
    let cipher = cbc::Decryptor::<aes::Aes256>::new_from_slices(key, iv).ok()?;
    cipher.decrypt_padded_vec::<Pkcs7>(ciphertext).ok()
}

/// `getrandom::getrandom`: 16 bytes of chance, or none where the system has
/// none to give. Which bytes they are is not said.
#[verifier::external_body]
pub(crate) fn random_vector() -> (r: Option<[u8; 16]>) {
    let mut iv = [0u8; 16];
    getrandom::getrandom(&mut iv).ok()?;
    Some(iv)
}

} // verus!

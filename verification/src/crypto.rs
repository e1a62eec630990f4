//! Trusted bindings to the cipher, MAC and digest crates.
//!
//! Each binding names the outside function it relies on. The named spec
//! functions stand for results that depend on the arguments alone; the
//! bindings state only what the crates' sources show.

use vstd::prelude::*;
use aes::Aes128;
use aes::Aes256;
use block_modes::BlockMode;
use block_modes::Cbc;
use block_modes::block_padding::Pkcs7;
use hmac::Hmac;
use hmac::Mac;
use hmac::NewMac;
use sha2::Digest;
use sha2::Sha256;

verus! {

/// What AES-128-CBC encryption with PKCS7 padding produces.
pub uninterp spec fn aes128_cbc_enc(key: Seq<u8>, iv: Seq<u8>, data: Seq<u8>) -> Seq<u8>;

/// What AES-128-CBC decryption with PKCS7 padding produces, `None` on a
/// length or padding failure.
pub uninterp spec fn aes128_cbc_dec(key: Seq<u8>, iv: Seq<u8>, data: Seq<u8>) -> Option<Seq<u8>>;

/// What AES-256-CBC encryption with PKCS7 padding produces.
pub uninterp spec fn aes256_cbc_enc(key: Seq<u8>, iv: Seq<u8>, data: Seq<u8>) -> Seq<u8>;

/// What AES-256-CBC decryption with PKCS7 padding produces, `None` on a
/// length or padding failure.
pub uninterp spec fn aes256_cbc_dec(key: Seq<u8>, iv: Seq<u8>, data: Seq<u8>) -> Option<Seq<u8>>;

/// The HMAC-SHA-256 tag over a message.
pub uninterp spec fn hmac_sha256_of(key: Seq<u8>, data: Seq<u8>) -> Seq<u8>;

/// The SHA-256 digest of a byte string.
pub uninterp spec fn sha256_of(data: Seq<u8>) -> Seq<u8>;

/// Relies on `block_modes::BlockMode::encrypt_vec` for `Cbc<Aes128, Pkcs7>`:
/// PKCS7 always pads to the next multiple of the 16-byte block size, and
/// `decrypt_vec` inverts `encrypt_vec` under the same key and IV.
#[verifier::external_body]
pub(crate) fn encrypt_aes128_cbc(key: &[u8], iv: &[u8], data: &[u8]) -> (r: Vec<u8>)
    requires
        key@.len() == 16,
        iv@.len() == 16,
    ensures
        r@ == aes128_cbc_enc(key@, iv@, data@),
        r@.len() == (data@.len() / 16 + 1) * 16,
        aes128_cbc_dec(key@, iv@, r@) == Some(data@),
{
    let cipher = Cbc::<Aes128, Pkcs7>::new_from_slices(key, iv).expect("key and IV are 16 bytes");
    cipher.encrypt_vec(data)
}

/// Relies on `block_modes::BlockMode::decrypt_vec` for `Cbc<Aes128, Pkcs7>`:
/// it fails exactly on inputs whose length is not a multiple of 16 or whose
/// final block unpads badly, and otherwise returns the unpadded plaintext.
#[verifier::external_body]
pub(crate) fn decrypt_aes128_cbc(key: &[u8], iv: &[u8], data: &[u8]) -> (r: Option<
    Vec<u8>,
>)
    requires
        key@.len() == 16,
        iv@.len() == 16,
    ensures
        r is Some <==> aes128_cbc_dec(key@, iv@, data@) is Some,
        r matches Some(p) ==> aes128_cbc_dec(key@, iv@, data@) == Some(p@),
{
    let cipher = Cbc::<Aes128, Pkcs7>::new_from_slices(key, iv).expect("key and IV are 16 bytes");
    match cipher.decrypt_vec(data) {
        Ok(p) => Some(p),
        Err(_) => None,
    }
}

/// Relies on `block_modes::BlockMode::encrypt_vec` for `Cbc<Aes256, Pkcs7>`,
/// as the 128-bit binding above does.
#[verifier::external_body]
pub(crate) fn encrypt_aes256_cbc(key: &[u8], iv: &[u8], data: &[u8]) -> (r: Vec<u8>)
    requires
        key@.len() == 32,
        iv@.len() == 16,
    ensures
        r@ == aes256_cbc_enc(key@, iv@, data@),
        r@.len() == (data@.len() / 16 + 1) * 16,
        aes256_cbc_dec(key@, iv@, r@) == Some(data@),
{
    let cipher = Cbc::<Aes256, Pkcs7>::new_from_slices(key, iv).expect("key is 32 and IV 16 bytes");
    cipher.encrypt_vec(data)
}

/// Relies on `block_modes::BlockMode::decrypt_vec` for `Cbc<Aes256, Pkcs7>`,
/// as the 128-bit binding above does.
#[verifier::external_body]
pub(crate) fn decrypt_aes256_cbc(key: &[u8], iv: &[u8], data: &[u8]) -> (r: Option<
    Vec<u8>,
>)
    requires
        key@.len() == 32,
        iv@.len() == 16,
    ensures
        r is Some <==> aes256_cbc_dec(key@, iv@, data@) is Some,
        r matches Some(p) ==> aes256_cbc_dec(key@, iv@, data@) == Some(p@),
{
    let cipher = Cbc::<Aes256, Pkcs7>::new_from_slices(key, iv).expect("key is 32 and IV 16 bytes");
    match cipher.decrypt_vec(data) {
        Ok(p) => Some(p),
        Err(_) => None,
    }
}

/// Relies on `hmac::Hmac<Sha256>`: accepts a key of any size and yields a
/// 32-byte tag that depends on key and message alone.
#[verifier::external_body]
pub(crate) fn hmac_sha256(key: &[u8], data: &[u8]) -> (r: Vec<u8>)
    ensures
        r@ == hmac_sha256_of(key@, data@),
        r@.len() == 32,
{
    let mut mac = Hmac::<Sha256>::new_from_slice(key).expect("HMAC accepts any key size");
    mac.update(data);
    mac.finalize().into_bytes().to_vec()
}

/// Relies on `sha2::Sha256`: a 32-byte digest that depends on the input
/// alone.
#[verifier::external_body]
pub(crate) fn sha256(data: &[u8]) -> (r: Vec<u8>)
    ensures
        r@ == sha256_of(data@),
        r@.len() == 32,
{
    let mut hasher = Sha256::new();
    hasher.update(data);
    hasher.finalize().to_vec()
}

} // verus!

//! Trusted gateway to the cryptographic primitives the pipeline relies on:
//! SHA-512 digests, PBKDF2 key derivation, AES-256-GCM sealing, and the
//! operating system's randomness. Each result that is a pure function of its
//! arguments is given a name that the verified contracts speak of.

use aes_gcm::aead::rand_core::RngCore;
use aes_gcm::aead::{Aead, KeyInit, Nonce, OsRng, Payload};
use aes_gcm::Aes256Gcm;
use vstd::prelude::*;

verus! {

/// The SHA-512 digest (64 bytes) of a byte string.
pub uninterp spec fn sha512_of(data: Seq<u8>) -> Seq<u8>;

/// The 32-byte key PBKDF2-HMAC-SHA256 derives from a password and a salt at
/// the fixed iteration count used throughout this system.
pub uninterp spec fn derived_key_of(password: Seq<char>, salt: Seq<u8>) -> Seq<u8>;

/// The AES-256-GCM sealing (ciphertext plus 16-byte tag) of a message under
/// a 32-byte key, a 12-byte nonce and associated data.
pub uninterp spec fn aes256gcm_sealed(key: Seq<u8>, nonce: Seq<u8>, aad: Seq<u8>, msg: Seq<u8>) -> Seq<u8>;

/// More rounds are better, but slower; they are paid on every file access,
/// so they are kept low. Neither the password nor the derived key is stored.
pub const PBKDF2_ITERATIONS: u32 = 256;

/// GCM's limit on the plaintext length (2^36 bytes).
pub const GCM_P_MAX: u64 = 0x10_0000_0000;

/// GCM's limit on the associated-data length (2^36 bytes).
pub const GCM_A_MAX: u64 = 0x10_0000_0000;

/// GCM's limit on the ciphertext length (2^36 + 16 bytes).
pub const GCM_C_MAX: u64 = 0x10_0000_0010;

/// Relies on `hmac_sha512::Hash::hash`: the plain SHA-512 digest of the
/// input, 64 bytes, a function of the input alone.
#[verifier::external_body]
pub fn sha512(data: &[u8]) -> (r: Vec<u8>)
    ensures
        r@ == sha512_of(data@),
        r@.len() == 64,
{
    hmac_sha512::Hash::hash(data).to_vec()
}

/// Relies on `pbkdf2::pbkdf2_hmac` with SHA-256: a 32-byte key that depends
/// only on the password bytes and the salt (the iteration count is fixed).
#[verifier::external_body]
pub fn salt_password(password: &str, salt: &[u8]) -> (r: Vec<u8>)
    ensures
        r@ == derived_key_of(password@, salt@),
        r@.len() == 32,
{
    let mut key1 = [0u8; 32];
    pbkdf2::pbkdf2_hmac::<sha2::Sha256>(password.as_bytes(), salt, PBKDF2_ITERATIONS, &mut key1);
    key1.to_vec()
}

/// Relies on `OsRng::fill_bytes`: 32 random bytes. Nothing but the length
/// can be promised of a random value.
#[verifier::external_body]
pub fn generate_salt() -> (r: Vec<u8>)
    ensures
        r@.len() == 32,
{
    let mut salt = [0u8; 32];
    OsRng.fill_bytes(&mut salt);
    salt.to_vec()
}

/// Relies on `OsRng::fill_bytes`: 12 random bytes for an AES-GCM nonce.
#[verifier::external_body]
pub fn generate_nonce() -> (r: Vec<u8>)
    ensures
        r@.len() == 12,
{
    let mut nonce = [0u8; 12];
    OsRng.fill_bytes(&mut nonce);
    nonce.to_vec()
}

/// Relies on `aes_gcm::Aes256Gcm::encrypt`: deterministic authenticated
/// encryption; the sealed output is the message plus a 16-byte tag. Within
/// GCM's length limits the call cannot fail.
#[verifier::external_body]
pub fn aes256gcm_encrypt(key: &[u8], nonce: &[u8], aad: &[u8], msg: &[u8]) -> (r: Result<
    Vec<u8>,
    (),
>)
    requires
        key@.len() == 32,
        nonce@.len() == 12,
        msg@.len() <= GCM_P_MAX,
        aad@.len() <= GCM_A_MAX,
    ensures
        r is Ok,
        r matches Ok(c) ==> c@ == aes256gcm_sealed(key@, nonce@, aad@, msg@) && c@.len() == msg@.len()
            + 16,
{
    let cipher = Aes256Gcm::new_from_slice(key).map_err(|_| ())?;
    let nonce_arr = Nonce::<Aes256Gcm>::from_slice(nonce);
    cipher.encrypt(nonce_arr, Payload { msg, aad }).map_err(|_| ())
}

/// Relies on `aes_gcm::Aes256Gcm::decrypt`: it inverts sealing, so it
/// succeeds on any ciphertext sealed under the same key, nonce and
/// associated data, returning that (unique) plaintext, and rejects all
/// other byte strings.
#[verifier::external_body]
pub fn aes256gcm_decrypt(key: &[u8], nonce: &[u8], aad: &[u8], ciphertext: &[u8]) -> (r: Result<
    Vec<u8>,
    (),
>)
    requires
        key@.len() == 32,
        nonce@.len() == 12,
        aad@.len() <= GCM_A_MAX,
        ciphertext@.len() <= GCM_C_MAX,
    ensures
        (match r {
            Ok(m) => ciphertext@ == aes256gcm_sealed(key@, nonce@, aad@, m@) && forall|x: Seq<u8>|
                ciphertext@ == #[trigger] aes256gcm_sealed(key@, nonce@, aad@, x) ==> x == m@,
            Err(_) => forall|x: Seq<u8>|
                ciphertext@ != #[trigger] aes256gcm_sealed(key@, nonce@, aad@, x),
        }),
{
    let cipher = Aes256Gcm::new_from_slice(key).map_err(|_| ())?;
    let nonce_arr = Nonce::<Aes256Gcm>::from_slice(nonce);
    cipher.decrypt(nonce_arr, Payload { msg: ciphertext, aad }).map_err(|_| ())
}

} // verus!

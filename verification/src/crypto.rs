//! Key derivation and the authenticated envelope.

use vstd::prelude::*;
use vstd::slice::slice_subrange;
use crate::error::VaultError;
use crate::json::{parsed, vault_from_json, vault_json, vault_to_json};
use crate::json::lemma_parsed_vault_json;
use crate::model::{Records, Vault};
use crate::primitives::{aes256_gcm_open, aes256_gcm_opened, aes256_gcm_seal, aes256_gcm_sealed};
use crate::primitives::{argon2id, argon2id_key, fill_random, wipe};
use crate::primitives::{GCM_MAX_PLAINTEXT, GCM_TAG_LEN};

verus! {

/// Length of a salt in bytes.
pub const SALT_LEN: usize = 16;

/// Length of an AES-GCM nonce in bytes.
pub const NONCE_LEN: usize = 12;

/// Length of a derived key in bytes.
pub const KEY_LEN: usize = 32;

/// Memory that one derivation fills, in KiB.
pub const ARGON_MEMORY_KIB: u32 = 15000;

/// Passes that one derivation makes over its memory.
pub const ARGON_PASSES: u32 = 2;

/// Lanes that one derivation fills in parallel.
pub const ARGON_LANES: u32 = 1;

/// The key that belongs to a password and a salt.
pub open spec fn derived_key(password: Seq<char>, salt: Seq<u8>) -> Seq<u8> {
    argon2id(
        vstd::utf8::encode_utf8(password),
        salt,
        ARGON_MEMORY_KIB,
        ARGON_PASSES,
        ARGON_LANES,
        KEY_LEN as nat,
    )
}

/// Whether a key can be derived from a password and a salt of these sizes.
pub open spec fn derivable(password: Seq<char>, salt: Seq<u8>) -> bool {
    &&& vstd::utf8::encode_utf8(password).len() <= 0xFFFF_FFFF
    &&& 8 <= salt.len() <= 0xFFFF_FFFF
}

/// What `derive_key` returns for a password and a salt.
pub open spec fn derive_key_spec(password: Seq<char>, salt: Seq<u8>) -> Result<Seq<u8>, VaultError> {
    if password.len() == 0 {
        Err(VaultError::InvalidInput)
    } else if !derivable(password, salt) {
        Err(VaultError::DerivationFailure)
    } else {
        Ok(derived_key(password, salt))
    }
}

/// `r` is what deriving a key from the password and the salt gives.
pub open spec fn derived(
    password: Seq<char>,
    salt: Seq<u8>,
    r: Result<[u8; KEY_LEN], VaultError>,
) -> bool {
    match r {
        Ok(key) => derive_key_spec(password, salt) == Ok::<Seq<u8>, VaultError>(key@),
        Err(e) => derive_key_spec(password, salt) == Err::<Seq<u8>, VaultError>(e),
    }
}

/// Derives the 256-bit key of a vault from its master password and salt,
/// with Argon2id at fixed costs.
///
/// An empty password is invalid input. A salt shorter than 8 bytes, and a
/// salt or password of 4 GiB or more, is a derivation failure. Every other
/// password and salt has a key, and always the same one.
pub fn derive_key(password: &str, salt: &[u8]) -> (r: Result<[u8; KEY_LEN], VaultError>)
    ensures
        derived(password@, salt@, r),
{
    if password.is_empty() {
        return Err(VaultError::InvalidInput);
    }
    match argon2id_key(password.as_bytes(), salt, ARGON_MEMORY_KIB, ARGON_PASSES, ARGON_LANES) {
        Some(key) => Ok(key),
        None => Err(VaultError::DerivationFailure),
    }
}

/// Overwrites a key with zeros. Keys are secret: whoever derives one wipes
/// it once it has served.
pub fn forget_key(key: &mut [u8; KEY_LEN])
    ensures
        forall|i: int| 0 <= i < KEY_LEN ==> final(key)@[i] == 0,
{
    wipe(key);
}

/// Draws a fresh salt from the operating system's generator.
pub fn generate_salt() -> (salt: [u8; SALT_LEN])
    ensures
        salt@.len() == SALT_LEN,
{
    let mut salt = [0u8; SALT_LEN];
    fill_random(&mut salt);
    salt
}

/// Draws a fresh nonce from the operating system's generator.
pub fn generate_nonce() -> (nonce: [u8; NONCE_LEN])
    ensures
        nonce@.len() == NONCE_LEN,
{
    let mut nonce = [0u8; NONCE_LEN];
    fill_random(&mut nonce);
    nonce
}

/// The envelope that holds a plaintext sealed under a key and a nonce: the
/// nonce, then the ciphertext with its tag.
pub open spec fn envelope(key: Seq<u8>, nonce: Seq<u8>, plaintext: Seq<u8>) -> Seq<u8> {
    nonce + aes256_gcm_sealed(key, nonce, plaintext)
}

/// What opening an envelope with a key gives: the records it holds, or the
/// reason why it holds none.
pub open spec fn opened_with_key(blob: Seq<u8>, key: Seq<u8>) -> Result<Records, VaultError> {
    if blob.len() < NONCE_LEN {
        Err(VaultError::MalformedBlob)
    } else {
        match aes256_gcm_opened(
            key,
            blob.subrange(0, NONCE_LEN as int),
            blob.subrange(NONCE_LEN as int, blob.len() as int),
        ) {
            None => Err(VaultError::AuthenticationFailure),
            Some(plaintext) => match parsed(plaintext) {
                Some(records) => Ok(records),
                None => Err(VaultError::CorruptPlaintext),
            },
        }
    }
}

/// What decrypting an envelope with a password and a salt gives.
pub open spec fn opened(blob: Seq<u8>, password: Seq<char>, salt: Seq<u8>) -> Result<
    Records,
    VaultError,
> {
    if blob.len() < NONCE_LEN {
        Err(VaultError::MalformedBlob)
    } else {
        match derive_key_spec(password, salt) {
            Err(e) => Err(e),
            Ok(key) => opened_with_key(blob, key),
        }
    }
}

/// Why a collection cannot be encrypted under a password and a salt, if it
/// cannot.
pub open spec fn encrypt_refusal(records: Records, password: Seq<char>, salt: Seq<u8>) -> Option<
    VaultError,
> {
    match derive_key_spec(password, salt) {
        Err(e) => Some(e),
        Ok(key) => if vault_json(records).len() > GCM_MAX_PLAINTEXT {
            Some(VaultError::SerializationFailure)
        } else {
            None
        },
    }
}

/// `r` is an outcome of encrypting the records under the password and the
/// salt: an envelope of a nonce and the sealed canonical text, which opens
/// to the records again, or the refusal that the arguments call for.
pub open spec fn encrypted(
    records: Records,
    password: Seq<char>,
    salt: Seq<u8>,
    r: Result<Vec<u8>, VaultError>,
) -> bool {
    match r {
        Ok(blob) => {
            &&& encrypt_refusal(records, password, salt) is None
            &&& blob@.len() == NONCE_LEN + vault_json(records).len() + GCM_TAG_LEN
            &&& blob@ == envelope(
                derived_key(password, salt),
                blob@.subrange(0, NONCE_LEN as int),
                vault_json(records),
            )
            &&& opened(blob@, password, salt) == Ok::<Records, VaultError>(records)
        },
        Err(e) => encrypt_refusal(records, password, salt) == Some(e),
    }
}

/// `r` is what decrypting the envelope under the password and the salt
/// gives.
pub open spec fn decrypted(
    blob: Seq<u8>,
    password: Seq<char>,
    salt: Seq<u8>,
    r: Result<Vault, VaultError>,
) -> bool {
    match r {
        Ok(vault) => opened(blob, password, salt) == Ok::<Records, VaultError>(vault.records()),
        Err(e) => opened(blob, password, salt) == Err::<Records, VaultError>(e),
    }
}

/// Seals the canonical text of a vault under a key and a nonce.
///
/// The envelope is refused only where the text is longer than the cipher
/// takes. An envelope that is made opens, under the same key, to the records
/// of the vault.
pub fn seal_with_key(vault: &Vault, key: &[u8; KEY_LEN], nonce: &[u8; NONCE_LEN]) -> (r: Result<
    Vec<u8>,
    VaultError,
>)
    ensures
        match r {
            Ok(blob) => {
                &&& vault_json(vault.records()).len() <= GCM_MAX_PLAINTEXT
                &&& blob@ == envelope(key@, nonce@, vault_json(vault.records()))
                &&& blob@.subrange(0, NONCE_LEN as int) == nonce@
                &&& blob@.len() == NONCE_LEN + vault_json(vault.records()).len() + GCM_TAG_LEN
                &&& opened_with_key(blob@, key@) == Ok::<Records, VaultError>(vault.records())
            },
            Err(e) => e == VaultError::SerializationFailure && vault_json(vault.records()).len()
                > GCM_MAX_PLAINTEXT,
        },
{
    let plaintext = vault_to_json(vault);
    match aes256_gcm_seal(key, nonce, plaintext.as_slice()) {
        None => Err(VaultError::SerializationFailure),
        Some(sealed) => {
            let mut blob: Vec<u8> = Vec::new();
            blob.extend_from_slice(nonce);
            blob.extend_from_slice(sealed.as_slice());
            proof {
                use_type_invariant(vault);
                lemma_parsed_vault_json(vault.records());
                assert(blob@ =~= nonce@ + sealed@);
                assert(blob@.subrange(0, NONCE_LEN as int) =~= nonce@);
                assert(blob@.subrange(NONCE_LEN as int, blob@.len() as int) =~= sealed@);
            }
            Ok(blob)
        },
    }
}

/// Encrypts a vault under a password and a salt with a given nonce.
///
/// With the nonce given, the envelope is a function of the arguments. A
/// nonce must never be used twice with one key: [`encrypt_vault`] draws a
/// fresh one for every call.
pub fn encrypt_vault_with_nonce(
    vault: &Vault,
    password: &str,
    salt: &[u8],
    nonce: &[u8; NONCE_LEN],
) -> (r: Result<Vec<u8>, VaultError>)
    ensures
        encrypted(vault.records(), password@, salt@, r),
        r matches Ok(blob) ==> blob@.subrange(0, NONCE_LEN as int) == nonce@,
{
    let mut key = match derive_key(password, salt) {
        Ok(key) => key,
        Err(e) => {
            return Err(e);
        },
    };
    let r = seal_with_key(vault, &key, nonce);
    forget_key(&mut key);
    r
}

/// Encrypts a vault under a password and a salt into an envelope: a fresh
/// 12-byte nonce, then the AES-256-GCM ciphertext of the vault's canonical
/// text with its tag. The key is wiped before the function returns.
///
/// Encryption is refused for an empty password, for a salt or password that
/// Argon2 does not take, and for a collection too large for the cipher, and
/// for nothing else. Every envelope that is made decrypts, under the same
/// password and salt, to the records of the vault.
pub fn encrypt_vault(vault: &Vault, password: &str, salt: &[u8]) -> (r: Result<Vec<u8>, VaultError>)
    ensures
        encrypted(vault.records(), password@, salt@, r),
{
    let mut key = match derive_key(password, salt) {
        Ok(key) => key,
        Err(e) => {
            return Err(e);
        },
    };
    let nonce = generate_nonce();
    let r = seal_with_key(vault, &key, &nonce);
    forget_key(&mut key);
    r
}

/// Opens an envelope with a key that has already been derived.
pub fn open_with_key(blob: &[u8], key: &[u8; KEY_LEN]) -> (r: Result<Vault, VaultError>)
    ensures
        match r {
            Ok(vault) => opened_with_key(blob@, key@) == Ok::<Records, VaultError>(
                vault.records(),
            ),
            Err(e) => opened_with_key(blob@, key@) == Err::<Records, VaultError>(e),
        },
{
    if blob.len() < NONCE_LEN {
        return Err(VaultError::MalformedBlob);
    }
    let nonce = slice_subrange(blob, 0, NONCE_LEN);
    let sealed = slice_subrange(blob, NONCE_LEN, blob.len());
    match aes256_gcm_open(key, nonce, sealed) {
        None => Err(VaultError::AuthenticationFailure),
        Some(plaintext) => match vault_from_json(plaintext.as_slice()) {
            Some(vault) => Ok(vault),
            None => Err(VaultError::CorruptPlaintext),
        },
    }
}

/// Decrypts an envelope under a password and a salt.
///
/// An envelope shorter than a nonce is malformed, whatever the password. A
/// tag that does not match is an authentication failure, be the password
/// wrong or the envelope altered. An authentic plaintext that is not the
/// canonical text of a collection is corrupt.
pub fn decrypt_vault(blob: &[u8], password: &str, salt: &[u8]) -> (r: Result<Vault, VaultError>)
    ensures
        decrypted(blob@, password@, salt@, r),
        blob@.len() < NONCE_LEN ==> r == Err::<Vault, VaultError>(VaultError::MalformedBlob),
{
    if blob.len() < NONCE_LEN {
        return Err(VaultError::MalformedBlob);
    }
    let mut key = match derive_key(password, salt) {
        Ok(key) => key,
        Err(e) => {
            return Err(e);
        },
    };
    let r = open_with_key(blob, &key);
    forget_key(&mut key);
    r
}

} // verus!

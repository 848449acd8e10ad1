//! The outside primitives that the vault is built on.
//!
//! Every function in this module is believed, not proved: its body calls into
//! another crate, and its contract records what that crate's source shows.

use vstd::prelude::*;

verus! {

/// The bytes that Argon2id, version 0x13, without secret or associated data,
/// derives from `password` and `salt` at the given costs and output length.
pub uninterp spec fn argon2id(
    password: Seq<u8>,
    salt: Seq<u8>,
    memory_kib: u32,
    passes: u32,
    lanes: u32,
    length: nat,
) -> Seq<u8>;

/// Whether `argon2` takes these costs and input lengths: at least 8 KiB of
/// memory per lane, at least one pass, between 1 and 2^24 - 1 lanes, a salt of
/// at least 8 bytes, and no input longer than 2^32 - 1 bytes.
pub open spec fn argon2_accepts(
    password_len: nat,
    salt_len: nat,
    memory_kib: u32,
    passes: u32,
    lanes: u32,
) -> bool {
    &&& memory_kib >= 8
    &&& memory_kib >= 8 * lanes
    &&& passes >= 1
    &&& 1 <= lanes <= 0xFF_FFFF
    &&& password_len <= 0xFFFF_FFFF
    &&& 8 <= salt_len <= 0xFFFF_FFFF
}

/// Calls `argon2::Params::new`, `argon2::Argon2::new` and
/// `Argon2::hash_password_into` to fill a 32-byte key.
///
/// Believed of `argon2`: the call is refused exactly when the costs or the
/// input lengths are out of the ranges of [`argon2_accepts`], and otherwise
/// the key depends on nothing but the arguments. `lanes` is bounded because
/// `Params::new` multiplies it by 8 in a `u32`.
#[verifier::external_body]
pub(crate) fn argon2id_key(
    password: &[u8],
    salt: &[u8],
    memory_kib: u32,
    passes: u32,
    lanes: u32,
) -> (r: Option<[u8; 32]>)
    requires
        lanes <= 0x1FFF_FFFF,
    ensures
        r is Some <==> argon2_accepts(password@.len(), salt@.len(), memory_kib, passes, lanes),
        r matches Some(key) ==> key@ == argon2id(password@, salt@, memory_kib, passes, lanes, 32),
{
    let params = argon2::Params::new(memory_kib, passes, lanes, None).ok()?;
    let context = argon2::Argon2::new(argon2::Algorithm::Argon2id, argon2::Version::V0x13, params);
    let mut key = [0u8; 32];
    context.hash_password_into(password, salt, &mut key).ok()?;
    Some(key)
}

/// The largest plaintext that AES-GCM seals, in bytes.
pub const GCM_MAX_PLAINTEXT: u64 = 0x10_0000_0000;

/// Length of the authentication tag that AES-GCM appends, in bytes.
pub const GCM_TAG_LEN: usize = 16;

/// What AES-256-GCM, without associated data, makes of a plaintext under a
/// key and a nonce: the ciphertext with the tag behind it.
pub uninterp spec fn aes256_gcm_sealed(key: Seq<u8>, nonce: Seq<u8>, plaintext: Seq<u8>) -> Seq<u8>;

/// What AES-256-GCM, without associated data, finds in a sealed text under a
/// key and a nonce: the plaintext, or nothing where the tag does not match.
pub uninterp spec fn aes256_gcm_opened(key: Seq<u8>, nonce: Seq<u8>, sealed: Seq<u8>) -> Option<
    Seq<u8>,
>;

/// Calls `Aes256Gcm::new_from_slice` and `Aead::encrypt` of `aes_gcm`.
///
/// Believed of `aes_gcm`: a plaintext of at most 2^36 bytes is sealed, a
/// longer one refused; the sealed text is 16 bytes longer than the
/// plaintext and depends on nothing but the arguments; and opening it with
/// the same key and nonce gives the plaintext back.
#[verifier::external_body]
pub(crate) fn aes256_gcm_seal(key: &[u8; 32], nonce: &[u8; 12], plaintext: &[u8]) -> (r: Option<
    Vec<u8>,
>)
    ensures
        r is Some <==> plaintext@.len() <= GCM_MAX_PLAINTEXT,
        r matches Some(sealed) ==> {
            &&& sealed@ == aes256_gcm_sealed(key@, nonce@, plaintext@)
            &&& sealed@.len() == plaintext@.len() + GCM_TAG_LEN
            &&& aes256_gcm_opened(key@, nonce@, sealed@) == Some(plaintext@)
        },
{
    let cipher = <aes_gcm::Aes256Gcm as aes_gcm::KeyInit>::new_from_slice(key).ok()?;
    aes_gcm::aead::Aead::encrypt(&cipher, aes_gcm::Nonce::from_slice(nonce), plaintext).ok()
}

/// Calls `Aes256Gcm::new_from_slice` and `Aead::decrypt` of `aes_gcm`.
///
/// Believed of `aes_gcm`: whether the tag matches, and the plaintext if it
/// does, depend on nothing but the arguments. `nonce` has 12 bytes because
/// `Nonce::from_slice` panics on any other length.
#[verifier::external_body]
pub(crate) fn aes256_gcm_open(key: &[u8; 32], nonce: &[u8], sealed: &[u8]) -> (r: Option<Vec<u8>>)
    requires
        nonce@.len() == 12,
    ensures
        match r {
            Some(plaintext) => aes256_gcm_opened(key@, nonce@, sealed@) == Some(plaintext@),
            None => aes256_gcm_opened(key@, nonce@, sealed@) is None,
        },
{
    let cipher = <aes_gcm::Aes256Gcm as aes_gcm::KeyInit>::new_from_slice(key).ok()?;
    aes_gcm::aead::Aead::decrypt(&cipher, aes_gcm::Nonce::from_slice(nonce), sealed).ok()
}

/// Calls `RngCore::fill_bytes` on `rand::rngs::OsRng`, which overwrites the
/// buffer with bytes from the operating system's generator.
///
/// Nothing is believed of the bytes. The call panics where the operating
/// system's generator fails, which no argument decides.
#[verifier::external_body]
pub(crate) fn fill_random(buffer: &mut [u8])
    ensures
        final(buffer)@.len() == old(buffer)@.len(),
{
    rand::RngCore::fill_bytes(&mut rand::rngs::OsRng, buffer);
}

/// Calls `Zeroize::zeroize` of `zeroize` on a key, which overwrites it with
/// zeros in a way that the compiler may not leave out.
///
/// Believed of `zeroize`: every byte is zero afterwards.
#[verifier::external_body]
pub(crate) fn wipe(key: &mut [u8; 32])
    ensures
        forall|i: int| 0 <= i < 32 ==> final(key)@[i] == 0,
{
    zeroize::Zeroize::zeroize(key);
}

/// Calls `String::from_utf8`.
///
/// Believed of std: the bytes are taken exactly when they are valid UTF-8,
/// and the string then holds them.
#[verifier::external_body]
pub(crate) fn text_from_utf8(bytes: Vec<u8>) -> (r: Option<String>)
    ensures
        r is Some <==> vstd::utf8::valid_utf8(bytes@),
        r matches Some(text) ==> vstd::utf8::encode_utf8(text@) == bytes@,
{
    String::from_utf8(bytes).ok()
}

/// The longest input that [`base64_encode`] takes, in bytes: its text then
/// has at most 2^31 - 1 bytes, which fits the address space of every target
/// of 32 bits and more.
pub const BASE64_MAX_INPUT: usize = 0x5FFF_FFFD;

/// The text that the standard base64 alphabet, with padding, gives to bytes.
pub uninterp spec fn base64_text(bytes: Seq<u8>) -> Seq<char>;

/// The bytes that a text stands for in the standard base64 alphabet with
/// canonical padding, or nothing where it is no such text.
pub uninterp spec fn base64_bytes(text: Seq<char>) -> Option<Seq<u8>>;

/// Calls `Engine::encode` on `base64::engine::general_purpose::STANDARD`.
///
/// Believed of `base64`: the text depends on nothing but the bytes, and
/// decoding it gives the bytes back. The input is bounded because the call
/// panics where the length of the text overflows.
#[verifier::external_body]
pub(crate) fn base64_encode(bytes: &[u8]) -> (text: String)
    requires
        bytes@.len() <= BASE64_MAX_INPUT,
    ensures
        text@ == base64_text(bytes@),
        base64_bytes(text@) == Some(bytes@),
{
    base64::Engine::encode(&base64::engine::general_purpose::STANDARD, bytes)
}

/// Calls `Engine::decode` on `base64::engine::general_purpose::STANDARD`.
///
/// Believed of `base64`: whether the text is taken, and the bytes if it is,
/// depend on nothing but the text.
#[verifier::external_body]
pub(crate) fn base64_decode(text: &str) -> (r: Option<Vec<u8>>)
    ensures
        match r {
            Some(bytes) => base64_bytes(text@) == Some(bytes@),
            None => base64_bytes(text@) is None,
        },
{
    base64::Engine::decode(&base64::engine::general_purpose::STANDARD, text).ok()
}

/// A text without the white space at its two ends.
pub uninterp spec fn trimmed(text: Seq<char>) -> Seq<char>;

/// Calls `str::trim`.
///
/// Believed of std: what is cut off depends on nothing but the text.
#[verifier::external_body]
pub(crate) fn trim_text<'a>(text: &'a str) -> (r: &'a str)
    ensures
        r@ == trimmed(text@),
{
    text.trim()
}

} // verus!

//! The container that carries a vault on disk.
//!
//! A container pairs a format version with the salt and the envelope of a
//! vault, both as base64 text so that they can stand in a JSON document.
//! Reading and writing the file is the caller's part.

use vstd::prelude::*;
use crate::crypto::{decrypt_vault, encrypt_refusal, encrypt_vault, generate_salt, opened};
use crate::crypto::{NONCE_LEN, SALT_LEN};
use crate::error::VaultError;
use crate::json::vault_json;
use crate::model::{EntryView, FileFormat, Records, Vault};
use crate::primitives::{base64_bytes, base64_decode, base64_encode, base64_text};
use crate::primitives::{BASE64_MAX_INPUT, GCM_TAG_LEN};

verus! {

/// The format version that this crate writes and reads.
pub const FORMAT_VERSION: u8 = 1;

/// The salt and the envelope that the text fields of a container stand
/// for, or the reason why they stand for none.
pub open spec fn decoded(salt: Seq<char>, blob: Seq<char>) -> Result<(Seq<u8>, Seq<u8>), VaultError> {
    match (base64_bytes(salt), base64_bytes(blob)) {
        (Some(salt_bytes), Some(envelope)) => Ok((salt_bytes, envelope)),
        _ => Err(VaultError::InvalidEncoding),
    }
}

/// What opening a container with a password gives: the records of the
/// vault, or the reason why there are none.
pub open spec fn opened_container(
    version: u8,
    salt: Seq<char>,
    blob: Seq<char>,
    password: Seq<char>,
) -> Result<Records, VaultError> {
    if version != FORMAT_VERSION {
        Err(VaultError::UnsupportedVersion)
    } else {
        match decoded(salt, blob) {
            Err(e) => Err(e),
            Ok((salt_bytes, envelope)) => opened(envelope, password, salt_bytes),
        }
    }
}

/// The container holds, under the given salt, an envelope that opens with
/// the password to the given records.
pub open spec fn carries(
    container: FileFormat,
    password: Seq<char>,
    salt: Seq<u8>,
    records: Records,
) -> bool {
    match decoded(container.salt@, container.blob@) {
        Ok((salt_bytes, envelope)) => salt_bytes == salt && opened(envelope, password, salt)
            == Ok::<Records, VaultError>(records),
        Err(_) => false,
    }
}

/// Why no vault can be created under a password, if none can.
pub open spec fn create_refusal(password: Seq<char>) -> Option<VaultError> {
    if password.len() == 0 {
        Some(VaultError::InvalidInput)
    } else if vstd::utf8::encode_utf8(password).len() > 0xFFFF_FFFF {
        Some(VaultError::DerivationFailure)
    } else {
        None
    }
}

/// Why a vault cannot be saved under a password and a salt, if it cannot:
/// because it cannot be encrypted, or because the salt or the envelope is
/// too long to be written as text.
pub open spec fn save_refusal(records: Records, password: Seq<char>, salt: Seq<u8>) -> Option<
    VaultError,
> {
    match encrypt_refusal(records, password, salt) {
        Some(e) => Some(e),
        None => if salt.len() > BASE64_MAX_INPUT || NONCE_LEN + vault_json(records).len()
            + GCM_TAG_LEN > BASE64_MAX_INPUT {
            Some(VaultError::SerializationFailure)
        } else {
            None
        },
    }
}

/// Wraps a salt and an envelope into a container of the given version.
pub fn encode(version: u8, salt: &[u8], envelope: &[u8]) -> (container: FileFormat)
    requires
        salt@.len() <= BASE64_MAX_INPUT,
        envelope@.len() <= BASE64_MAX_INPUT,
    ensures
        container.version == version,
        container.salt@ == base64_text(salt@),
        container.blob@ == base64_text(envelope@),
        decoded(container.salt@, container.blob@) == Ok::<(Seq<u8>, Seq<u8>), VaultError>(
            (salt@, envelope@),
        ),
{
    FileFormat { version, salt: base64_encode(salt), blob: base64_encode(envelope) }
}

/// Unwraps the salt and the envelope of a container. The version and the
/// inner structure of the envelope are not looked at.
pub fn decode(container: &FileFormat) -> (r: Result<(Vec<u8>, Vec<u8>), VaultError>)
    ensures
        match r {
            Ok((salt, envelope)) => decoded(container.salt@, container.blob@) == Ok::<
                (Seq<u8>, Seq<u8>),
                VaultError,
            >((salt@, envelope@)),
            Err(e) => decoded(container.salt@, container.blob@) == Err::<
                (Seq<u8>, Seq<u8>),
                VaultError,
            >(e),
        },
{
    let salt = match base64_decode(container.salt.as_str()) {
        Some(bytes) => bytes,
        None => {
            return Err(VaultError::InvalidEncoding);
        },
    };
    match base64_decode(container.blob.as_str()) {
        Some(envelope) => Ok((salt, envelope)),
        None => Err(VaultError::InvalidEncoding),
    }
}

/// Encrypts a vault under a password and a salt and wraps the envelope
/// into a container of the given version.
///
/// The salt of a vault never changes: every save of a vault passes the salt
/// that its container was opened with.
pub fn save_vault(vault: &Vault, password: &str, salt: &[u8], version: u8) -> (r: Result<
    FileFormat,
    VaultError,
>)
    ensures
        match r {
            Ok(container) => {
                &&& save_refusal(vault.records(), password@, salt@) is None
                &&& container.version == version
                &&& container.salt@ == base64_text(salt@)
                &&& carries(container, password@, salt@, vault.records())
                &&& version == FORMAT_VERSION ==> opened_container(
                    container.version,
                    container.salt@,
                    container.blob@,
                    password@,
                ) == Ok::<Records, VaultError>(vault.records())
            },
            Err(e) => save_refusal(vault.records(), password@, salt@) == Some(e),
        },
{
    let envelope = match encrypt_vault(vault, password, salt) {
        Ok(envelope) => envelope,
        Err(e) => {
            return Err(e);
        },
    };
    if salt.len() > BASE64_MAX_INPUT || envelope.len() > BASE64_MAX_INPUT {
        return Err(VaultError::SerializationFailure);
    }
    Ok(encode(version, salt, envelope.as_slice()))
}

/// Creates the container of a new, empty vault under a password, with a
/// fresh salt.
pub fn create_vault(password: &str) -> (r: Result<FileFormat, VaultError>)
    ensures
        match r {
            Ok(container) => {
                &&& create_refusal(password@) is None
                &&& container.version == FORMAT_VERSION
                &&& opened_container(
                    container.version,
                    container.salt@,
                    container.blob@,
                    password@,
                ) == Ok::<Records, VaultError>(Seq::<(Seq<char>, EntryView)>::empty())
                &&& decoded(container.salt@, container.blob@) matches Ok((salt, envelope))
                    && salt.len() == SALT_LEN
            },
            Err(e) => create_refusal(password@) == Some(e),
        },
{
    let salt = generate_salt();
    let vault = Vault::new();
    proof {
        lemma_empty_vault_json();
    }
    save_vault(&vault, password, &salt, FORMAT_VERSION)
}

/// The canonical text of the empty vault has 14 bytes.
proof fn lemma_empty_vault_json()
    ensures
        vault_json(Seq::<(Seq<char>, EntryView)>::empty()).len() == 14,
{
}

/// Opens a container with a password.
///
/// A container of another version is refused before anything is decoded.
pub fn open_vault(container: &FileFormat, password: &str) -> (r: Result<Vault, VaultError>)
    ensures
        match r {
            Ok(vault) => opened_container(
                container.version,
                container.salt@,
                container.blob@,
                password@,
            ) == Ok::<Records, VaultError>(vault.records()),
            Err(e) => opened_container(
                container.version,
                container.salt@,
                container.blob@,
                password@,
            ) == Err::<Records, VaultError>(e),
        },
{
    if container.version != FORMAT_VERSION {
        return Err(VaultError::UnsupportedVersion);
    }
    let (salt, envelope) = match decode(container) {
        Ok(parts) => parts,
        Err(e) => {
            return Err(e);
        },
    };
    decrypt_vault(envelope.as_slice(), password, salt.as_slice())
}

} // verus!

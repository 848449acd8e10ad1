//! What holds of the vault's operations taken together.
//!
//! Each law speaks of every outcome that the operations may have: an
//! operation's outcome is any value that its contract admits.

use vstd::prelude::*;
use crate::crypto::{decrypted, derived, encrypted, KEY_LEN, NONCE_LEN};
use crate::error::VaultError;
use crate::json::{lemma_parsed_vault_json, lemma_vault_json_injective, parsed, vault_json};
use crate::model::{lemma_map_determines_records, records_map, sorted, Records, Vault};
use crate::storage::{carries, opened_container, FORMAT_VERSION};

verus! {

/// Decrypting what was encrypted, under the same password and salt, gives
/// the collection back: the same records, and so the same mapping from
/// names to entries.
pub proof fn law_round_trip(
    records: Records,
    password: Seq<char>,
    salt: Seq<u8>,
    blob: Vec<u8>,
    back: Result<Vault, VaultError>,
)
    requires
        encrypted(records, password, salt, Ok::<Vec<u8>, VaultError>(blob)),
        decrypted(blob@, password, salt, back),
    ensures
        back matches Ok(vault) && vault.records() == records && vault@ == records_map(records),
{
}

/// Two encryptions of one collection under one password and salt may give
/// different envelopes, and each of them decrypts to the collection.
pub proof fn law_every_envelope_opens(
    records: Records,
    password: Seq<char>,
    salt: Seq<u8>,
    first: Vec<u8>,
    second: Vec<u8>,
    first_back: Result<Vault, VaultError>,
    second_back: Result<Vault, VaultError>,
)
    requires
        encrypted(records, password, salt, Ok::<Vec<u8>, VaultError>(first)),
        encrypted(records, password, salt, Ok::<Vec<u8>, VaultError>(second)),
        decrypted(first@, password, salt, first_back),
        decrypted(second@, password, salt, second_back),
    ensures
        first_back matches Ok(vault) && vault.records() == records,
        second_back matches Ok(vault) && vault.records() == records,
{
}

/// Whether encryption succeeds, and why it does not, is the same for every
/// encryption of one collection under one password and salt.
pub proof fn law_encryption_fails_alike(
    records: Records,
    password: Seq<char>,
    salt: Seq<u8>,
    first: Result<Vec<u8>, VaultError>,
    second: Result<Vec<u8>, VaultError>,
)
    requires
        encrypted(records, password, salt, first),
        encrypted(records, password, salt, second),
    ensures
        first is Ok <==> second is Ok,
        first matches Err(e) ==> second == Err::<Vec<u8>, VaultError>(e),
{
}

/// Deriving a key twice from the same password and salt gives the same
/// outcome: the same key, or the same refusal.
pub proof fn law_derivation_is_deterministic(
    password: Seq<char>,
    salt: Seq<u8>,
    first: Result<[u8; KEY_LEN], VaultError>,
    second: Result<[u8; KEY_LEN], VaultError>,
)
    requires
        derived(password, salt, first),
        derived(password, salt, second),
    ensures
        first == second,
{
    match (first, second) {
        (Ok(a), Ok(b)) => {
            assert(a@ == b@);
            assert(a =~= b);
        },
        _ => {},
    }
}

/// Decrypting an envelope shorter than a nonce fails as malformed, whatever
/// the password and the salt.
pub proof fn law_short_envelope_is_malformed(
    blob: Seq<u8>,
    password: Seq<char>,
    salt: Seq<u8>,
    back: Result<Vault, VaultError>,
)
    requires
        blob.len() < NONCE_LEN,
        decrypted(blob, password, salt, back),
    ensures
        back == Err::<Vault, VaultError>(VaultError::MalformedBlob),
{
}

/// Decrypting one envelope twice under the same password and salt gives the
/// same outcome: the same records, or the same failure.
pub proof fn law_decryption_is_deterministic(
    blob: Seq<u8>,
    password: Seq<char>,
    salt: Seq<u8>,
    first: Result<Vault, VaultError>,
    second: Result<Vault, VaultError>,
)
    requires
        decrypted(blob, password, salt, first),
        decrypted(blob, password, salt, second),
    ensures
        match (first, second) {
            (Ok(a), Ok(b)) => a.records() == b.records(),
            (Err(a), Err(b)) => a == b,
            _ => false,
        },
{
}

/// A container that carries a collection under the current format version
/// opens, with the password, to that collection.
pub proof fn law_saved_container_opens(
    container: crate::model::FileFormat,
    password: Seq<char>,
    salt: Seq<u8>,
    records: Records,
)
    requires
        container.version == FORMAT_VERSION,
        carries(container, password, salt, records),
    ensures
        opened_container(container.version, container.salt@, container.blob@, password) == Ok::<
            Records,
            VaultError,
        >(records),
{
}

/// Reading undoes writing: the canonical text of a sorted list of records
/// stands for that list, and two lists with the same text are the same.
pub proof fn law_text_round_trip(records: Records, other: Records)
    requires
        sorted(records),
    ensures
        parsed(vault_json(records)) == Some(records),
        vault_json(other) == vault_json(records) ==> other == records,
{
    lemma_parsed_vault_json(records);
    if vault_json(other) == vault_json(records) {
        lemma_vault_json_injective(other, records);
    }
}

/// A collection is its mapping from names to entries: two sorted lists of
/// records that stand for the same mapping are the same list.
pub proof fn law_mapping_determines_records(a: Records, b: Records)
    requires
        sorted(a),
        sorted(b),
        records_map(a) == records_map(b),
    ensures
        a == b,
{
    lemma_map_determines_records(a, b);
}

} // verus!

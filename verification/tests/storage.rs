use rust_passmgr::crypto::{decrypt_vault, encrypt_vault};
use rust_passmgr::error::VaultError;
use rust_passmgr::model::{Entry, FileFormat, Vault};
use rust_passmgr::storage::{create_vault, decode, encode, open_vault, save_vault, FORMAT_VERSION};

fn sample_vault() -> Vault {
    let mut vault = Vault::new();
    vault.insert(
        "example.com".to_string(),
        Entry { login: "user".to_string(), password: "pass123".to_string(), notes: None },
    );
    vault
}

#[test]
fn encode_writes_standard_base64_with_padding() {
    let container = encode(1, &[0u8; 16], b"hello world~");
    assert_eq!(container.version, 1);
    assert_eq!(container.salt, "AAAAAAAAAAAAAAAAAAAAAA==");
    assert_eq!(container.blob, "aGVsbG8gd29ybGR+");
    let other = encode(7, b"\xfb\xff", b"a");
    assert_eq!(other.version, 7);
    assert_eq!(other.salt, "+/8=");
    assert_eq!(other.blob, "YQ==");
    let empty = encode(0, &[], &[]);
    assert_eq!(empty.salt, "");
    assert_eq!(empty.blob, "");
}

#[test]
fn decode_undoes_encode() {
    let salt: Vec<u8> = (0u8..16).collect();
    let envelope: Vec<u8> = (0u8..=255).collect();
    let container = encode(1, &salt, &envelope);
    assert_eq!(decode(&container), Ok((salt, envelope)));
    assert_eq!(decode(&encode(1, &[], &[])), Ok((vec![], vec![])));
}

#[test]
fn decode_refuses_text_that_is_not_base64() {
    let good = "aGVsbG8=".to_string();
    for bad in ["not base64!", "aGVsbG8", "aGVsbG8==", "aGVs bG8=", "aGVsbG9=", "=", "a"] {
        let container = FileFormat { version: 1, salt: bad.to_string(), blob: good.clone() };
        assert_eq!(decode(&container), Err(VaultError::InvalidEncoding), "salt {:?}", bad);
        let container = FileFormat { version: 1, salt: good.clone(), blob: bad.to_string() };
        assert_eq!(decode(&container), Err(VaultError::InvalidEncoding), "blob {:?}", bad);
    }
    let container = FileFormat { version: 1, salt: good.clone(), blob: good.clone() };
    assert_eq!(decode(&container), Ok((b"hello".to_vec(), b"hello".to_vec())));
}

#[test]
fn decode_does_not_look_at_the_version_or_the_envelope() {
    let container = FileFormat { version: 200, salt: "".to_string(), blob: "AA==".to_string() };
    assert_eq!(decode(&container), Ok((vec![], vec![0u8])));
}

#[test]
fn created_vault_is_empty_and_opens_with_its_password() {
    let container = create_vault("master").unwrap();
    assert_eq!(container.version, FORMAT_VERSION);
    assert_eq!(container.version, 1);
    let (salt, envelope) = decode(&container).unwrap();
    assert_eq!(salt.len(), 16);
    assert_eq!(envelope.len(), 12 + 14 + 16);
    assert_eq!(open_vault(&container, "master"), Ok(Vault::new()));
    assert_eq!(open_vault(&container, "other"), Err(VaultError::AuthenticationFailure));
    assert_eq!(decrypt_vault(&envelope, "master", &salt), Ok(Vault::new()));
}

#[test]
fn every_created_vault_has_its_own_salt() {
    let first = create_vault("master").unwrap();
    let second = create_vault("master").unwrap();
    assert_ne!(first.salt, second.salt);
    assert_ne!(first.blob, second.blob);
}

#[test]
fn create_refuses_an_empty_password() {
    assert_eq!(create_vault(""), Err(VaultError::InvalidInput));
}

#[test]
fn saved_vault_keeps_salt_and_version_and_opens_again() {
    let salt = [5u8; 16];
    let container = save_vault(&sample_vault(), "master", &salt, 1).unwrap();
    assert_eq!(container.version, 1);
    assert_eq!(container.salt, "BQUFBQUFBQUFBQUFBQUFBQ==");
    assert_eq!(decode(&container).unwrap().0, salt.to_vec());
    assert_eq!(open_vault(&container, "master"), Ok(sample_vault()));
    let again = save_vault(&sample_vault(), "master", &salt, 1).unwrap();
    assert_eq!(again.salt, container.salt);
    assert_ne!(again.blob, container.blob);
    assert_eq!(open_vault(&again, "master"), Ok(sample_vault()));
}

#[test]
fn save_refuses_what_encryption_refuses() {
    assert_eq!(save_vault(&sample_vault(), "", &[5u8; 16], 1), Err(VaultError::InvalidInput));
    assert_eq!(
        save_vault(&sample_vault(), "master", &[5u8; 4], 1),
        Err(VaultError::DerivationFailure)
    );
}

#[test]
fn open_refuses_other_versions_before_anything_else() {
    let salt = [5u8; 16];
    for version in [0u8, 2, 255] {
        let container = save_vault(&sample_vault(), "master", &salt, version).unwrap();
        assert_eq!(container.version, version);
        assert_eq!(open_vault(&container, "master"), Err(VaultError::UnsupportedVersion));
        let broken = FileFormat { version, salt: "!".to_string(), blob: "!".to_string() };
        assert_eq!(open_vault(&broken, ""), Err(VaultError::UnsupportedVersion));
    }
}

#[test]
fn open_reports_each_failure_in_its_turn() {
    let salt = [5u8; 16];
    let good = save_vault(&sample_vault(), "master", &salt, 1).unwrap();
    let bad_salt = FileFormat { version: 1, salt: "***".to_string(), blob: good.blob.clone() };
    assert_eq!(open_vault(&bad_salt, "master"), Err(VaultError::InvalidEncoding));
    let bad_blob = FileFormat { version: 1, salt: good.salt.clone(), blob: "***".to_string() };
    assert_eq!(open_vault(&bad_blob, "master"), Err(VaultError::InvalidEncoding));
    let short = encode(1, &salt, &[0u8; 11]);
    assert_eq!(open_vault(&short, "master"), Err(VaultError::MalformedBlob));
    assert_eq!(open_vault(&short, ""), Err(VaultError::MalformedBlob));
    assert_eq!(open_vault(&good, ""), Err(VaultError::InvalidInput));
    let short_salt = encode(1, &[0u8; 4], &decode(&good).unwrap().1);
    assert_eq!(open_vault(&short_salt, "master"), Err(VaultError::DerivationFailure));
    assert_eq!(open_vault(&good, "wrong"), Err(VaultError::AuthenticationFailure));
    let other_salt = encode(1, &[6u8; 16], &decode(&good).unwrap().1);
    assert_eq!(open_vault(&other_salt, "master"), Err(VaultError::AuthenticationFailure));
    assert_eq!(open_vault(&good, "master"), Ok(sample_vault()));
}

#[test]
fn container_of_an_envelope_made_elsewhere_opens() {
    let salt = [11u8; 16];
    let envelope = encrypt_vault(&sample_vault(), "master", &salt).unwrap();
    let container = encode(FORMAT_VERSION, &salt, &envelope);
    assert_eq!(open_vault(&container, "master"), Ok(sample_vault()));
}

use aes_gcm::aead::{Aead, KeyInit};
use aes_gcm::{Aes256Gcm, Nonce};
use rust_passmgr::crypto::{
    decrypt_vault, derive_key, encrypt_vault, encrypt_vault_with_nonce, forget_key,
    generate_nonce, generate_salt, open_with_key, seal_with_key, KEY_LEN, NONCE_LEN, SALT_LEN,
};
use rust_passmgr::error::VaultError;
use rust_passmgr::json::vault_to_json;
use rust_passmgr::model::{Entry, Vault};

fn sample_vault() -> Vault {
    let mut vault = Vault::new();
    vault.insert(
        "example.com".to_string(),
        Entry { login: "user".to_string(), password: "pass123".to_string(), notes: None },
    );
    vault
}

fn larger_vault() -> Vault {
    let mut vault = sample_vault();
    vault.insert(
        "bank".to_string(),
        Entry {
            login: "me".to_string(),
            password: "s3cr\"et\\".to_string(),
            notes: Some("two\nlines".to_string()),
        },
    );
    vault.insert(
        "ünïcödé".to_string(),
        Entry { login: "🔐".to_string(), password: "".to_string(), notes: Some("".to_string()) },
    );
    vault
}

#[test]
fn encrypt_decrypt_cycle() {
    let vault = Vault::default();
    let salt = generate_salt();
    let password = "secret";
    let enc = encrypt_vault(&vault, password, &salt).unwrap();
    let dec = decrypt_vault(&enc, password, &salt).unwrap();
    assert_eq!(vault, dec);
}

#[test]
fn round_trip_recovers_every_record() {
    let vault = larger_vault();
    let salt = [7u8; SALT_LEN];
    let blob = encrypt_vault(&vault, "correct horse", &salt).unwrap();
    let back = decrypt_vault(&blob, "correct horse", &salt).unwrap();
    assert_eq!(back, vault);
    assert_eq!(back.keys(), vec!["bank", "example.com", "ünïcödé"]);
    assert_eq!(back.get("example.com").unwrap().notes, None);
    assert_eq!(back.get("ünïcödé").unwrap().notes, Some(String::new()));
}

#[test]
fn empty_vault_with_zero_salt() {
    let vault = Vault::new();
    let salt = [0u8; 16];
    let blob = encrypt_vault(&vault, "secret", &salt).unwrap();
    assert!(blob.len() >= 12 + 16);
    assert_eq!(blob.len(), 12 + 14 + 16);
    let back = decrypt_vault(&blob, "secret", &salt).unwrap();
    assert!(back.is_empty());
    assert_eq!(back, Vault::new());
    assert_eq!(decrypt_vault(&blob, "wrong", &salt), Err(VaultError::AuthenticationFailure));
}

#[test]
fn one_record_round_trips_without_notes() {
    let vault = sample_vault();
    let salt = [0u8; 16];
    let blob = encrypt_vault(&vault, "secret", &salt).unwrap();
    let back = decrypt_vault(&blob, "secret", &salt).unwrap();
    assert_eq!(back.len(), 1);
    let entry = back.get("example.com").unwrap();
    assert_eq!(entry.login, "user");
    assert_eq!(entry.password, "pass123");
    assert_eq!(entry.notes, None);
    assert_eq!(back, vault);
}

#[test]
fn wrong_password_is_an_authentication_failure() {
    let salt = [1u8; SALT_LEN];
    let blob = encrypt_vault(&sample_vault(), "first", &salt).unwrap();
    assert_eq!(decrypt_vault(&blob, "second", &salt), Err(VaultError::AuthenticationFailure));
    assert_eq!(decrypt_vault(&blob, "First", &salt), Err(VaultError::AuthenticationFailure));
    assert_eq!(decrypt_vault(&blob, "first ", &salt), Err(VaultError::AuthenticationFailure));
}

#[test]
fn wrong_salt_is_an_authentication_failure() {
    let blob = encrypt_vault(&sample_vault(), "secret", &[1u8; SALT_LEN]).unwrap();
    assert_eq!(
        decrypt_vault(&blob, "secret", &[2u8; SALT_LEN]),
        Err(VaultError::AuthenticationFailure)
    );
}

#[test]
fn every_flipped_bit_is_an_authentication_failure() {
    let vault = sample_vault();
    let key = derive_key("secret", &[3u8; SALT_LEN]).unwrap();
    let blob = seal_with_key(&vault, &key, &[9u8; NONCE_LEN]).unwrap();
    assert_eq!(open_with_key(&blob, &key), Ok(sample_vault()));
    for index in 0..blob.len() {
        for bit in 0..8 {
            let mut altered = blob.clone();
            altered[index] ^= 1 << bit;
            assert_eq!(
                open_with_key(&altered, &key),
                Err(VaultError::AuthenticationFailure),
                "byte {} bit {}",
                index,
                bit
            );
        }
    }
}

#[test]
fn altered_envelope_fails_under_the_password_too() {
    let salt = [3u8; SALT_LEN];
    let blob = encrypt_vault(&sample_vault(), "secret", &salt).unwrap();
    let mut first = blob.clone();
    first[0] ^= 0x01;
    assert_eq!(decrypt_vault(&first, "secret", &salt), Err(VaultError::AuthenticationFailure));
    let mut last = blob.clone();
    let end = last.len() - 1;
    last[end] ^= 0x80;
    assert_eq!(decrypt_vault(&last, "secret", &salt), Err(VaultError::AuthenticationFailure));
    let mut longer = blob.clone();
    longer.push(0);
    assert_eq!(decrypt_vault(&longer, "secret", &salt), Err(VaultError::AuthenticationFailure));
    let shorter = &blob[..blob.len() - 1];
    assert_eq!(decrypt_vault(shorter, "secret", &salt), Err(VaultError::AuthenticationFailure));
}

#[test]
fn every_encryption_draws_a_new_nonce() {
    let vault = sample_vault();
    let salt = [4u8; SALT_LEN];
    let first = encrypt_vault(&vault, "secret", &salt).unwrap();
    let second = encrypt_vault(&vault, "secret", &salt).unwrap();
    assert_ne!(first, second);
    assert_ne!(first[..NONCE_LEN], second[..NONCE_LEN]);
    assert_eq!(first.len(), second.len());
    assert_eq!(decrypt_vault(&first, "secret", &salt), Ok(sample_vault()));
    assert_eq!(decrypt_vault(&second, "secret", &salt), Ok(sample_vault()));
}

#[test]
fn salts_and_nonces_are_fresh() {
    let salt = generate_salt();
    let other = generate_salt();
    assert_eq!(salt.len(), SALT_LEN);
    assert_ne!(salt, other);
    let nonce = generate_nonce();
    assert_eq!(nonce.len(), NONCE_LEN);
    assert_ne!(nonce, generate_nonce());
}

#[test]
fn derivation_is_deterministic() {
    let first = derive_key("secret", &[5u8; SALT_LEN]).unwrap();
    let second = derive_key("secret", &[5u8; SALT_LEN]).unwrap();
    assert_eq!(first, second);
    assert_eq!(first.len(), KEY_LEN);
    assert_ne!(derive_key("secret", &[6u8; SALT_LEN]).unwrap(), first);
    assert_ne!(derive_key("Secret", &[5u8; SALT_LEN]).unwrap(), first);
}

#[test]
fn derived_key_is_argon2id_at_the_fixed_costs() {
    let salt = [5u8; SALT_LEN];
    let params = argon2::Params::new(15000, 2, 1, None).unwrap();
    let context = argon2::Argon2::new(argon2::Algorithm::Argon2id, argon2::Version::V0x13, params);
    let mut expected = [0u8; 32];
    context.hash_password_into("pässword".as_bytes(), &salt, &mut expected).unwrap();
    let key = derive_key("pässword", &salt).unwrap();
    assert_eq!(key, expected);
    assert_ne!(key, [0u8; 32]);
}

#[test]
fn empty_password_is_invalid_input() {
    assert_eq!(derive_key("", &[0u8; SALT_LEN]), Err(VaultError::InvalidInput));
    assert_eq!(derive_key("", &[]), Err(VaultError::InvalidInput));
    assert_eq!(encrypt_vault(&Vault::new(), "", &[0u8; SALT_LEN]), Err(VaultError::InvalidInput));
    let blob = encrypt_vault(&Vault::new(), "secret", &[0u8; SALT_LEN]).unwrap();
    assert_eq!(decrypt_vault(&blob, "", &[0u8; SALT_LEN]), Err(VaultError::InvalidInput));
}

#[test]
fn short_salt_is_a_derivation_failure() {
    assert_eq!(derive_key("secret", &[]), Err(VaultError::DerivationFailure));
    assert_eq!(derive_key("secret", &[0u8; 7]), Err(VaultError::DerivationFailure));
    assert!(derive_key("secret", &[0u8; 8]).is_ok());
    assert_eq!(encrypt_vault(&Vault::new(), "secret", &[0u8; 7]), Err(VaultError::DerivationFailure));
    let blob = encrypt_vault(&Vault::new(), "secret", &[0u8; SALT_LEN]).unwrap();
    assert_eq!(decrypt_vault(&blob, "secret", &[0u8; 7]), Err(VaultError::DerivationFailure));
}

#[test]
fn envelope_shorter_than_a_nonce_is_malformed() {
    let key = [0u8; KEY_LEN];
    for len in 0..NONCE_LEN {
        let blob = vec![0xabu8; len];
        assert_eq!(open_with_key(&blob, &key), Err(VaultError::MalformedBlob));
    }
    assert_eq!(decrypt_vault(&[], "secret", &[0u8; SALT_LEN]), Err(VaultError::MalformedBlob));
    assert_eq!(decrypt_vault(&[0u8; 11], "secret", &[0u8; SALT_LEN]), Err(VaultError::MalformedBlob));
    assert_eq!(decrypt_vault(&[0u8; 11], "", &[]), Err(VaultError::MalformedBlob));
    assert_eq!(
        open_with_key(&[0u8; NONCE_LEN], &key),
        Err(VaultError::AuthenticationFailure)
    );
    assert_eq!(open_with_key(&[0u8; 27], &key), Err(VaultError::AuthenticationFailure));
}

#[test]
fn authentic_plaintext_that_is_no_vault_is_corrupt() {
    let salt = [8u8; SALT_LEN];
    let key = derive_key("secret", &salt).unwrap();
    let cipher = Aes256Gcm::new_from_slice(&key).unwrap();
    let nonce = [2u8; NONCE_LEN];
    for plaintext in ["", "not json", "{\"entries\": {}}", "{\"entries\":{}}\n"] {
        let mut blob = nonce.to_vec();
        blob.extend(cipher.encrypt(Nonce::from_slice(&nonce), plaintext.as_bytes()).unwrap());
        assert_eq!(open_with_key(&blob, &key), Err(VaultError::CorruptPlaintext));
    }
    let mut blob = nonce.to_vec();
    blob.extend(cipher.encrypt(Nonce::from_slice(&nonce), b"{\"entries\":{}}".as_ref()).unwrap());
    assert_eq!(decrypt_vault(&blob, "secret", &salt), Ok(Vault::new()));
}

#[test]
fn envelope_is_the_nonce_and_the_aes_gcm_ciphertext_of_the_text() {
    let vault = larger_vault();
    let key = [0x42u8; KEY_LEN];
    let nonce = [0x24u8; NONCE_LEN];
    let blob = seal_with_key(&vault, &key, &nonce).unwrap();
    let text = vault_to_json(&vault);
    assert_eq!(blob.len(), NONCE_LEN + text.len() + 16);
    assert_eq!(&blob[..NONCE_LEN], &nonce);
    let cipher = Aes256Gcm::new_from_slice(&key).unwrap();
    let sealed = cipher.encrypt(Nonce::from_slice(&nonce), text.as_slice()).unwrap();
    assert_eq!(&blob[NONCE_LEN..], sealed.as_slice());
    assert_ne!(&blob[NONCE_LEN..NONCE_LEN + text.len()], text.as_slice());
    let opened = cipher.decrypt(Nonce::from_slice(&blob[..NONCE_LEN]), &blob[NONCE_LEN..]).unwrap();
    assert_eq!(opened, text);
    assert_eq!(open_with_key(&blob, &key), Ok(larger_vault()));
}

#[test]
fn with_a_given_nonce_the_envelope_is_determined() {
    let vault = sample_vault();
    let salt = [9u8; SALT_LEN];
    let nonce = [1u8; NONCE_LEN];
    let first = encrypt_vault_with_nonce(&vault, "secret", &salt, &nonce).unwrap();
    let second = encrypt_vault_with_nonce(&vault, "secret", &salt, &nonce).unwrap();
    assert_eq!(first, second);
    assert_eq!(&first[..NONCE_LEN], &nonce);
    let key = derive_key("secret", &salt).unwrap();
    assert_eq!(seal_with_key(&vault, &key, &nonce).unwrap(), first);
    assert_eq!(decrypt_vault(&first, "secret", &salt), Ok(sample_vault()));
    assert_eq!(
        encrypt_vault_with_nonce(&vault, "", &salt, &nonce),
        Err(VaultError::InvalidInput)
    );
}

#[test]
fn a_forgotten_key_is_all_zeros() {
    let mut key = derive_key("secret", &[5u8; SALT_LEN]).unwrap();
    assert_ne!(key, [0u8; KEY_LEN]);
    forget_key(&mut key);
    assert_eq!(key, [0u8; KEY_LEN]);
    let mut ones = [0xffu8; KEY_LEN];
    forget_key(&mut ones);
    assert_eq!(ones, [0u8; KEY_LEN]);
}

#[test]
fn known_key_and_envelope() {
    let key = derive_key("secret", &[0u8; SALT_LEN]).unwrap();
    assert_eq!(
        key,
        [
            214, 237, 102, 39, 42, 70, 107, 72, 55, 191, 0, 220, 38, 22, 152, 143, 37, 228, 91,
            65, 145, 244, 67, 177, 107, 38, 13, 65, 104, 65, 248, 133
        ]
    );
    let blob = seal_with_key(&Vault::new(), &[0x42u8; KEY_LEN], &[0x24u8; NONCE_LEN]).unwrap();
    assert_eq!(
        blob,
        vec![
            36, 36, 36, 36, 36, 36, 36, 36, 36, 36, 36, 36, 110, 179, 161, 47, 157, 180, 175, 91,
            85, 202, 24, 209, 192, 79, 198, 239, 37, 35, 221, 77, 186, 237, 209, 65, 8, 166, 99,
            72, 115, 165
        ]
    );
}

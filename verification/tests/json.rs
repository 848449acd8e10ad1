use rust_passmgr::json::{vault_from_json, vault_to_json};
use rust_passmgr::model::{Entry, Vault};

fn entry(login: &str, password: &str, notes: Option<&str>) -> Entry {
    Entry {
        login: login.to_string(),
        password: password.to_string(),
        notes: notes.map(|text| text.to_string()),
    }
}

/// The compact text that `serde_json` writes for a struct of one field
/// `entries`, a map of structs with the fields `login`, `password`, `notes`.
fn reference_text(records: &[(&str, &str, &str, Option<&str>)]) -> Vec<u8> {
    let mut sorted: Vec<&(&str, &str, &str, Option<&str>)> = records.iter().collect();
    sorted.sort_by(|a, b| a.0.cmp(b.0));
    let mut text = String::from("{\"entries\":{");
    for (i, (name, login, password, notes)) in sorted.into_iter().enumerate() {
        if i > 0 {
            text.push(',');
        }
        text.push_str(&serde_json::to_string(name).unwrap());
        text.push_str(":{\"login\":");
        text.push_str(&serde_json::to_string(login).unwrap());
        text.push_str(",\"password\":");
        text.push_str(&serde_json::to_string(password).unwrap());
        text.push_str(",\"notes\":");
        text.push_str(&serde_json::to_string(notes).unwrap());
        text.push('}');
    }
    text.push_str("}}");
    text.into_bytes()
}

fn vault_of(records: &[(&str, &str, &str, Option<&str>)]) -> Vault {
    let mut vault = Vault::new();
    for (name, login, password, notes) in records {
        vault.insert(name.to_string(), entry(login, password, *notes));
    }
    vault
}

#[test]
fn empty_vault_is_written_as_an_empty_object_of_entries() {
    let text = vault_to_json(&Vault::new());
    assert_eq!(text, b"{\"entries\":{}}");
    assert_eq!(text.len(), 14);
    assert_eq!(vault_from_json(&text), Some(Vault::new()));
}

#[test]
fn one_record_is_written_with_null_for_the_absent_note() {
    let vault = vault_of(&[("example.com", "user", "pass123", None)]);
    let text = vault_to_json(&vault);
    assert_eq!(
        String::from_utf8(text.clone()).unwrap(),
        "{\"entries\":{\"example.com\":{\"login\":\"user\",\"password\":\"pass123\",\"notes\":null}}}"
    );
    let back = vault_from_json(&text).unwrap();
    assert_eq!(back, vault);
    assert_eq!(back.get("example.com").unwrap().notes, None);
}

#[test]
fn an_empty_note_is_not_an_absent_note() {
    let with_empty = vault_of(&[("k", "l", "p", Some(""))]);
    let without = vault_of(&[("k", "l", "p", None)]);
    let text = vault_to_json(&with_empty);
    assert_eq!(
        String::from_utf8(text.clone()).unwrap(),
        "{\"entries\":{\"k\":{\"login\":\"l\",\"password\":\"p\",\"notes\":\"\"}}}"
    );
    assert_ne!(text, vault_to_json(&without));
    assert_eq!(vault_from_json(&text).unwrap().get("k").unwrap().notes, Some(String::new()));
}

#[test]
fn records_are_written_in_the_order_of_their_names() {
    let records = [
        ("zeta", "z", "1", Some("last")),
        ("alpha", "a", "2", None),
        ("Mid", "m", "3", Some("upper case sorts first")),
        ("beta", "b", "4", None),
    ];
    let vault = vault_of(&records);
    let text = vault_to_json(&vault);
    assert_eq!(text, reference_text(&records));
    let as_text = String::from_utf8(text.clone()).unwrap();
    let mid = as_text.find("\"Mid\"").unwrap();
    let alpha = as_text.find("\"alpha\"").unwrap();
    let beta = as_text.find("\"beta\"").unwrap();
    let zeta = as_text.find("\"zeta\"").unwrap();
    assert!(mid < alpha && alpha < beta && beta < zeta);
    assert_eq!(vault_from_json(&text), Some(vault));
}

#[test]
fn strings_are_escaped_as_serde_json_escapes_them() {
    let mut all_ascii = String::new();
    for code in 0u8..128 {
        all_ascii.push(code as char);
    }
    let samples = [
        "",
        "plain",
        "quote\" and backslash\\",
        "\u{8}\u{9}\n\u{c}\r",
        "\u{0}\u{1}\u{1f}\u{7f}",
        "tab\tseparated\tvalues",
        "ünïcödé ☃ 🔐 日本語",
        "/slash is not escaped",
        all_ascii.as_str(),
    ];
    for sample in samples {
        let records = [(sample, sample, sample, Some(sample))];
        let vault = vault_of(&records);
        let text = vault_to_json(&vault);
        assert_eq!(text, reference_text(&records), "text of {:?}", sample);
        assert_eq!(vault_from_json(&text), Some(vault), "reading of {:?}", sample);
    }
}

#[test]
fn control_characters_use_the_short_escapes_and_lower_case_hex() {
    let vault = vault_of(&[("k", "\u{8}\u{9}\n\u{c}\r\u{b}\u{1f}\u{0}", "p", None)]);
    assert_eq!(
        String::from_utf8(vault_to_json(&vault)).unwrap(),
        "{\"entries\":{\"k\":{\"login\":\"\\b\\t\\n\\f\\r\\u000b\\u001f\\u0000\",\"password\":\"p\",\"notes\":null}}}"
    );
}

#[test]
fn written_text_is_json_that_serde_json_reads_back() {
    let vault = vault_of(&[
        ("example.com", "user", "pass123", None),
        ("b\"ank", "me\\", "p\u{1}w", Some("line\nbreak")),
    ]);
    let value: serde_json::Value = serde_json::from_slice(&vault_to_json(&vault)).unwrap();
    let entries = value.get("entries").unwrap().as_object().unwrap();
    assert_eq!(entries.len(), 2);
    let first = entries.get("example.com").unwrap();
    assert_eq!(first.get("login").unwrap().as_str(), Some("user"));
    assert_eq!(first.get("password").unwrap().as_str(), Some("pass123"));
    assert!(first.get("notes").unwrap().is_null());
    let second = entries.get("b\"ank").unwrap();
    assert_eq!(second.get("login").unwrap().as_str(), Some("me\\"));
    assert_eq!(second.get("password").unwrap().as_str(), Some("p\u{1}w"));
    assert_eq!(second.get("notes").unwrap().as_str(), Some("line\nbreak"));
}

#[test]
fn text_that_is_not_canonical_is_refused() {
    let canonical = "{\"entries\":{\"a\":{\"login\":\"l\",\"password\":\"p\",\"notes\":null}}}";
    assert!(vault_from_json(canonical.as_bytes()).is_some());
    let refused = [
        "",
        "{}",
        "null",
        "{\"entries\":{}",
        "{\"entries\":{}}}",
        "{\"entries\":{}} ",
        " {\"entries\":{}}",
        "{\"entries\": {}}",
        "{\"entries\":{\"a\":{\"login\":\"l\",\"password\":\"p\"}}}",
        "{\"entries\":{\"a\":{\"login\":\"l\",\"password\":\"p\",\"notes\":null},}}",
        "{\"entries\":{\"a\":{\"password\":\"p\",\"login\":\"l\",\"notes\":null}}}",
        "{\"entries\":{\"a\":{\"login\":\"l\",\"password\":\"p\",\"notes\":null,\"more\":1}}}",
        "{\"entries\":{\"a\":{\"login\":\"l\",\"password\":\"p\",\"notes\":Null}}}",
        "{\"entries\":{\"a\":{\"login\":\"l\",\"password\":\"p\",\"notes\":\"n}}}",
        "{\"entries\":{\"a\":{\"login\":\"\\u006c\",\"password\":\"p\",\"notes\":null}}}",
        "{\"entries\":{\"a\":{\"login\":\"\\u000a\",\"password\":\"p\",\"notes\":null}}}",
        "{\"entries\":{\"a\":{\"login\":\"\\u001F\",\"password\":\"p\",\"notes\":null}}}",
        "{\"entries\":{\"a\":{\"login\":\"\\/\",\"password\":\"p\",\"notes\":null}}}",
        "{\"entries\":{\"a\":{\"login\":\"\\x\",\"password\":\"p\",\"notes\":null}}}",
        "{\"entries\":{\"a\":{\"login\":\"\t\",\"password\":\"p\",\"notes\":null}}}",
        "{\"entries\":{\"a\":{\"login\":1,\"password\":\"p\",\"notes\":null}}}",
        "{\"entries\":{\"b\":{\"login\":\"l\",\"password\":\"p\",\"notes\":null},\"a\":{\"login\":\"l\",\"password\":\"p\",\"notes\":null}}}",
        "{\"entries\":{\"a\":{\"login\":\"l\",\"password\":\"p\",\"notes\":null},\"a\":{\"login\":\"l\",\"password\":\"p\",\"notes\":null}}}",
        "{\"entries\":[]}",
        "{\"entrie\":{}}",
    ];
    for text in refused {
        assert_eq!(vault_from_json(text.as_bytes()), None, "text {:?}", text);
    }
}

#[test]
fn text_that_is_not_utf8_is_refused() {
    let mut text = b"{\"entries\":{\"a\":{\"login\":\"".to_vec();
    text.push(0xff);
    text.extend_from_slice(b"\",\"password\":\"p\",\"notes\":null}}}");
    assert_eq!(vault_from_json(&text), None);
    let mut truncated = b"{\"entries\":{\"".to_vec();
    truncated.extend_from_slice(&[0xe2, 0x98]);
    truncated.extend_from_slice(b"\":{\"login\":\"l\",\"password\":\"p\",\"notes\":null}}}");
    assert_eq!(vault_from_json(&truncated), None);
}

#[test]
fn reading_undoes_writing_for_many_records() {
    let mut vault = Vault::new();
    for i in 0..200u32 {
        let name = format!("site-{:03}.example", (i * 37) % 200);
        let notes = if i % 3 == 0 { None } else { Some(format!("note \"{}\"\n", i)) };
        vault.insert(name, Entry { login: format!("user{}", i), password: format!("p\\{}", i), notes });
    }
    assert_eq!(vault.len(), 200);
    let text = vault_to_json(&vault);
    assert_eq!(vault_from_json(&text), Some(vault));
}

#[test]
fn different_vaults_have_different_texts() {
    let a = vault_of(&[("k", "l", "p", None)]);
    let b = vault_of(&[("k", "l", "p", Some(""))]);
    let c = vault_of(&[("k", "l\",\"password\":\"p", "p", None)]);
    let d = vault_of(&[("k", "l", "p", Some("null"))]);
    let texts = [vault_to_json(&a), vault_to_json(&b), vault_to_json(&c), vault_to_json(&d)];
    for i in 0..texts.len() {
        for j in 0..texts.len() {
            if i != j {
                assert_ne!(texts[i], texts[j]);
            }
        }
    }
}

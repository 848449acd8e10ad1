use rust_passmgr::keys::{rank_bytes, rank_names, Rank};
use rust_passmgr::model::{Entry, FileFormat, Vault};

fn entry(login: &str, password: &str, notes: Option<&str>) -> Entry {
    Entry {
        login: login.to_string(),
        password: password.to_string(),
        notes: notes.map(|text| text.to_string()),
    }
}

#[test]
fn new_vault_is_empty() {
    let vault = Vault::new();
    assert!(vault.is_empty());
    assert_eq!(vault.len(), 0);
    assert_eq!(vault.keys(), Vec::<String>::new());
    assert_eq!(vault.get("anything"), None);
    assert_eq!(vault.record(0), None);
    assert_eq!(vault, Vault::default());
}

#[test]
fn insert_keeps_names_sorted_whatever_the_order_of_insertion() {
    let mut vault = Vault::new();
    assert_eq!(vault.insert("mail".to_string(), entry("m", "1", None)), None);
    assert_eq!(vault.insert("bank".to_string(), entry("b", "2", None)), None);
    assert_eq!(vault.insert("zoo".to_string(), entry("z", "3", Some("n"))), None);
    assert_eq!(vault.insert("cloud".to_string(), entry("c", "4", None)), None);
    assert_eq!(vault.keys(), vec!["bank", "cloud", "mail", "zoo"]);
    assert_eq!(vault.len(), 4);
    assert!(!vault.is_empty());
    let (name, found) = vault.record(1).unwrap();
    assert_eq!(name, "cloud");
    assert_eq!(found, &entry("c", "4", None));
    assert_eq!(vault.record(4), None);
}

#[test]
fn insert_under_an_existing_name_replaces_the_entry() {
    let mut vault = Vault::new();
    vault.insert("mail".to_string(), entry("old", "1", None));
    vault.insert("bank".to_string(), entry("b", "2", None));
    let previous = vault.insert("mail".to_string(), entry("new", "9", Some("moved")));
    assert_eq!(previous, Some(entry("old", "1", None)));
    assert_eq!(vault.len(), 2);
    assert_eq!(vault.get("mail"), Some(&entry("new", "9", Some("moved"))));
    assert_eq!(vault.get("bank"), Some(&entry("b", "2", None)));
}

#[test]
fn remove_takes_out_one_entry_and_returns_it() {
    let mut vault = Vault::new();
    vault.insert("a".to_string(), entry("1", "1", None));
    vault.insert("b".to_string(), entry("2", "2", None));
    vault.insert("c".to_string(), entry("3", "3", None));
    assert_eq!(vault.remove("b"), Some(entry("2", "2", None)));
    assert_eq!(vault.keys(), vec!["a", "c"]);
    assert_eq!(vault.remove("b"), None);
    assert_eq!(vault.remove("missing"), None);
    assert_eq!(vault.keys(), vec!["a", "c"]);
    assert_eq!(vault.remove("a"), Some(entry("1", "1", None)));
    assert_eq!(vault.remove("c"), Some(entry("3", "3", None)));
    assert!(vault.is_empty());
}

#[test]
fn names_are_ordered_by_the_bytes_of_their_encoding() {
    let mut vault = Vault::new();
    for name in ["b", "a", "B", "", "ab", "é", "z", "a\u{10000}", "a\u{ffff}", "10", "9"] {
        vault.insert(name.to_string(), entry(name, "x", None));
    }
    let mut expected: Vec<String> =
        ["b", "a", "B", "", "ab", "é", "z", "a\u{10000}", "a\u{ffff}", "10", "9"]
            .iter()
            .map(|name| name.to_string())
            .collect();
    expected.sort();
    assert_eq!(vault.keys(), expected);
    assert_eq!(vault.keys()[0], "");
    assert_eq!(vault.get("é"), Some(&entry("é", "x", None)));
}

#[test]
fn vaults_with_the_same_records_are_equal() {
    let mut first = Vault::new();
    first.insert("a".to_string(), entry("1", "1", None));
    first.insert("b".to_string(), entry("2", "2", None));
    let mut second = Vault::new();
    second.insert("b".to_string(), entry("2", "2", None));
    second.insert("a".to_string(), entry("1", "1", None));
    assert_eq!(first, second);
    assert_eq!(first.clone(), first);
    second.remove("a");
    assert_ne!(first, second);
}

#[test]
fn rank_bytes_is_the_lexicographic_order() {
    assert_eq!(rank_bytes(b"", b""), Rank::Same);
    assert_eq!(rank_bytes(b"", b"a"), Rank::Before);
    assert_eq!(rank_bytes(b"a", b""), Rank::After);
    assert_eq!(rank_bytes(b"abc", b"abd"), Rank::Before);
    assert_eq!(rank_bytes(b"abd", b"abc"), Rank::After);
    assert_eq!(rank_bytes(b"ab", b"abc"), Rank::Before);
    assert_eq!(rank_bytes(b"abc", b"abc"), Rank::Same);
    assert_eq!(rank_bytes(&[0xff], &[0x00, 0x01]), Rank::After);
    assert_eq!(rank_names("Zebra", "apple"), Rank::Before);
    assert_eq!(rank_names("apple", "apple"), Rank::Same);
    assert_eq!(rank_names("é", "z"), Rank::After);
}

#[test]
fn entry_and_container_clone_to_equal_values() {
    let e = entry("user", "pass123", Some("note"));
    assert_eq!(e.clone(), e);
    let container = FileFormat { version: 1, salt: "c2FsdA==".to_string(), blob: "YmxvYg==".to_string() };
    assert_eq!(container.clone(), container);
}

use sha2::{Digest, Sha256};
use sprouter::kind::AsSproutKind;
use sprouter::object::{ConfigMap, Secret};
use sprouter::payload::Payload;
use sprouter::utils::{hash_seed_data, hex_digest, seed_hash};

fn sha_hex(b: &[u8]) -> String {
    let d = Sha256::digest(b);
    let mut s = String::new();
    for x in d.iter() {
        s.push_str(&format!("{:02x}", x));
    }
    s
}

#[test]
fn hex_digest_is_lower_case_two_digits_per_byte() {
    assert_eq!(hex_digest(&vec![0x00, 0x0f, 0xa0, 0xff]), "000fa0ff");
    assert_eq!(hex_digest(&vec![]), "");
}

#[test]
fn hash_of_empty_payload_is_absent() {
    assert_eq!(seed_hash(&Payload::new()), None);
    assert_eq!(ConfigMap::default().hash(), None);
    assert_eq!(Secret::default().hash(), None);
}

#[test]
fn hash_concatenates_key_and_value() {
    let mut cm = ConfigMap::default();
    cm.data = vec![("k".to_string(), "v".to_string())];
    assert_eq!(cm.hash(), Some(sha_hex(b"kv")));
}

#[test]
fn hash_has_exact_known_values() {
    assert_eq!(
        hash_seed_data(&Payload::new()),
        "e3b0c44298fc1c149afbf4c8996fb92427ae41e4649b934ca495991b7852b855"
    );
    let p = Payload::from_pairs(&vec![("a".to_string(), b"bc".to_vec())]);
    assert_eq!(
        hash_seed_data(&p),
        "ba7816bf8f01cfea414140de5dae2223b00361a396177a9cb410ff61f20015ad"
    );
}

#[test]
fn hash_orders_entries_by_key() {
    let mut p = Payload::new();
    p.insert("b".to_string(), b"2".to_vec());
    p.insert("a".to_string(), b"1".to_vec());
    assert_eq!(hash_seed_data(&p), sha_hex(b"a1b2"));
    assert_eq!(p.digest_input(), b"a1b2".to_vec());
}

#[test]
fn hash_orders_keys_by_bytes() {
    let mut p = Payload::new();
    p.insert("ab".to_string(), b"x".to_vec());
    p.insert("a".to_string(), b"y".to_vec());
    p.insert("B".to_string(), b"z".to_vec());
    assert_eq!(p.digest_input(), b"Bzayabx".to_vec());
}

#[test]
fn hash_ignores_insertion_order() {
    let a = Payload::from_pairs(&vec![
        ("x".to_string(), b"1".to_vec()),
        ("y".to_string(), b"2".to_vec()),
        ("z".to_string(), b"3".to_vec()),
    ]);
    let b = Payload::from_pairs(&vec![
        ("z".to_string(), b"3".to_vec()),
        ("x".to_string(), b"1".to_vec()),
        ("y".to_string(), b"2".to_vec()),
    ]);
    assert_eq!(hash_seed_data(&a), hash_seed_data(&b));
    assert_eq!(hash_seed_data(&a), sha_hex(b"x1y2z3"));
}

#[test]
fn later_payload_pair_replaces_value() {
    let p = Payload::from_pairs(&vec![("k".to_string(), b"v".to_vec()), ("k".to_string(), b"w".to_vec())]);
    assert_eq!(p.digest_input(), b"kw".to_vec());
    assert!(!p.is_empty());
}

#[test]
fn config_map_binary_data_takes_precedence() {
    let mut cm = ConfigMap::default();
    cm.data = vec![("k".to_string(), "text".to_string()), ("t".to_string(), "only".to_string())];
    cm.binary_data = vec![("k".to_string(), vec![0x01, 0x02])];
    let mut expected = b"k".to_vec();
    expected.extend_from_slice(&[0x01, 0x02]);
    expected.extend_from_slice(b"tonly");
    assert_eq!(cm.payload().digest_input(), expected);
    assert_eq!(cm.hash(), Some(sha_hex(&expected)));
}

#[test]
fn secret_hash_covers_decoded_data() {
    let mut s = Secret::default();
    s.data = vec![("password".to_string(), b"hunter2".to_vec())];
    assert_eq!(s.hash(), Some(sha_hex(b"passwordhunter2")));
}

#[test]
fn hash_changes_with_data() {
    let mut cm = ConfigMap::default();
    cm.data = vec![("k".to_string(), "v".to_string())];
    let h1 = cm.hash();
    cm.data = vec![("k".to_string(), "w".to_string())];
    let h2 = cm.hash();
    assert_ne!(h1, h2);
    assert_eq!(h2, Some(sha_hex(b"kw")));
}

#[test]
fn multibyte_keys_hash_their_utf8_bytes() {
    let mut cm = ConfigMap::default();
    cm.data = vec![("é".to_string(), "ü".to_string())];
    assert_eq!(cm.hash(), Some(sha_hex("éü".as_bytes())));
}

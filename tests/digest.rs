use nano::digest::{content_digest, digest_table, hex_encode};

#[test]
fn digest_of_abc() {
    assert_eq!(
        content_digest(&b"abc".to_vec()),
        "ba7816bf8f01cfea414140de5dae2223b00361a396177a9cb410ff61f20015ad"
    );
}

#[test]
fn digest_of_empty() {
    assert_eq!(
        content_digest(&Vec::new()),
        "e3b0c44298fc1c149afbf4c8996fb92427ae41e4649b934ca495991b7852b855"
    );
}

#[test]
fn digest_is_stable_and_sensitive() {
    let a = content_digest(&b"plugin archive".to_vec());
    let b = content_digest(&b"plugin archive".to_vec());
    let c = content_digest(&b"plugin archivf".to_vec());
    assert_eq!(a, b);
    assert_ne!(a, c);
    assert_eq!(a.len(), 64);
    assert!(a.chars().all(|ch| ch.is_ascii_digit() || ('a'..='f').contains(&ch)));
}

#[test]
fn hex_of_bytes() {
    assert_eq!(hex_encode(&vec![0x00, 0xab, 0xff, 0x10]), "00abff10");
    assert_eq!(hex_encode(&Vec::new()), "");
}

#[test]
fn digest_table_skips_unreadable() {
    let table = digest_table(&vec![
        ("a".to_string(), Some(b"abc".to_vec())),
        ("b".to_string(), None),
        ("c".to_string(), Some(Vec::new())),
    ]);
    assert_eq!(table.len(), 2);
    assert_eq!(
        table.get(&"a".to_string()),
        Some(&"ba7816bf8f01cfea414140de5dae2223b00361a396177a9cb410ff61f20015ad".to_string())
    );
    assert_eq!(table.get(&"b".to_string()), None);
    assert_eq!(
        table.get(&"c".to_string()),
        Some(&"e3b0c44298fc1c149afbf4c8996fb92427ae41e4649b934ca495991b7852b855".to_string())
    );
}

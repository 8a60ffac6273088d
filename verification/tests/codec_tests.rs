use pass::codec::{decode_entries, decode_one_entry, encode_entries, encode_one_entry};
use pass::entry::PasswordEntry;

#[test]
fn entries_encode_then_decode_unchanged() {
    let entries = vec![
        PasswordEntry::new(
            "GitHub".to_string(),
            Some("alice".to_string()),
            Some(b"s3cret".to_vec()),
            Some("work".to_string()),
        ),
        PasswordEntry::new("email".to_string(), None, Some(b"x1y2z3".to_vec()), None),
    ];
    let blob = encode_entries(&entries);
    let back = decode_entries(&blob).unwrap();
    assert_eq!(back, entries);
}

#[test]
fn empty_entry_list_round_trips() {
    let entries: Vec<PasswordEntry> = Vec::new();
    let back = decode_entries(&encode_entries(&entries)).unwrap();
    assert_eq!(back, entries);
}

#[test]
fn garbage_bytes_do_not_decode() {
    assert!(decode_entries(&vec![1u8, 2, 3]).is_none());
    assert!(decode_one_entry(&vec![0u8; 40]).is_none());
}

#[test]
fn trailing_bytes_are_rejected() {
    let entries = vec![PasswordEntry::new(
        "email".to_string(),
        None,
        Some(b"x".to_vec()),
        None,
    )];
    let mut blob = encode_entries(&entries);
    blob.push(0);
    assert!(decode_entries(&blob).is_none());
}

#[test]
fn one_entry_round_trips() {
    let entry = PasswordEntry::new(
        "Netflix".to_string(),
        Some("carol".to_string()),
        Some(b"p@ss".to_vec()),
        None,
    );
    let blob = encode_one_entry(&entry);
    let back = decode_one_entry(&blob).unwrap();
    assert_eq!(back, entry);
}

#[test]
fn unicode_service_names_round_trip() {
    let entries = vec![PasswordEntry::new(
        "caf\u{e9} \u{1f512}".to_string(),
        Some("\u{fc}ser".to_string()),
        Some(b"bytes\x00\xff".to_vec()),
        None,
    )];
    let back = decode_entries(&encode_entries(&entries)).unwrap();
    assert_eq!(back, entries);
}

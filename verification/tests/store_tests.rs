use pass::entry::PasswordEntry;
use pass::master::MasterPassword;
use pass::store::{PasswordStore, PasswordStoreError};

#[test]
fn test_storage() -> Result<(), PasswordStoreError> {
    let test_master_pass = MasterPassword::from_pass(b"Test123@").unwrap();
    // Making a new Password manager
    let mut manager = PasswordStore::new(None, test_master_pass)?;

    let entries = vec![
        PasswordEntry::new(
            "pass 1".to_owned(),
            Some("Ishan".to_owned()),
            None,
            Some("hello notes".to_owned()),
        ),
        PasswordEntry::new(
            "pass 2".to_owned(),
            Some("Tanveer".to_owned()),
            None,
            Some("hello notes again".to_owned()),
        ),
    ];

    // Pushing multiple entries
    for entry in entries.into_iter() {
        manager.push_entry(entry)?;
    }

    // Writing these entries to an encrypted blob
    let blob = manager.dump()?;

    // Loading contents back from the blob
    let reopened_master = MasterPassword::from_pass(b"Test123@").unwrap();
    let decrypted_manager = PasswordStore::load(&blob, reopened_master)?;

    assert_eq!(manager.passwords[0], decrypted_manager.passwords[0]);
    assert_eq!(manager.passwords[1], decrypted_manager.passwords[1]);

    Ok(())
}

#[test]
fn encrypt_decrypt_works() -> Result<(), PasswordStoreError> {
    let any_entry = PasswordEntry::new(
        String::from("Netflix"),
        None,
        Some(b"GxM4B7PDBe3NVY!Yj7A&&hvPs!ssJ3^q".to_vec()),
        None,
    );
    println!("{:?}", &any_entry);

    let key = "this is key".as_bytes().to_vec();

    let encrypted_content = any_entry.encrypt_entry(&key)?;
    println!("Encrypted content: {:?}", &encrypted_content);

    let decrypted_content = PasswordEntry::decrypt_entry(&encrypted_content, &key)?;
    println!("Decrypted content: {:?}", &decrypted_content);

    assert_eq!(any_entry.password, decrypted_content.password);

    Ok(())
}

#[test]
fn duplicate_entry_is_rejected() {
    let master = MasterPassword::from_pass(b"Str0ng!Pass").unwrap();
    let mut store = PasswordStore::new(None, master).unwrap();

    let first = PasswordEntry::new(
        "github".to_string(),
        Some("alice".to_string()),
        Some(b"one".to_vec()),
        None,
    );
    let second = PasswordEntry::new(
        "github".to_string(),
        Some("alice".to_string()),
        Some(b"two".to_vec()),
        None,
    );
    assert!(store.push_entry(first).is_ok());
    let outcome = store.push_entry(second);
    assert!(matches!(outcome, Err(PasswordStoreError::DuplicateEntry)));
    assert_eq!(store.passwords.len(), 1);
}

#[test]
fn duplicate_check_is_case_insensitive_on_service() {
    let master = MasterPassword::from_pass(b"Str0ng!Pass").unwrap();
    let mut store = PasswordStore::new(None, master).unwrap();

    let first = PasswordEntry::new(
        "GitHub".to_string(),
        Some("alice".to_string()),
        Some(b"one".to_vec()),
        None,
    );
    let second = PasswordEntry::new(
        "github".to_string(),
        Some("alice".to_string()),
        Some(b"two".to_vec()),
        None,
    );
    // same identifier under another username is fine
    let third = PasswordEntry::new(
        "github".to_string(),
        Some("bob".to_string()),
        Some(b"three".to_vec()),
        None,
    );
    assert!(store.push_entry(first).is_ok());
    assert!(matches!(store.push_entry(second), Err(PasswordStoreError::DuplicateEntry)));
    assert!(store.push_entry(third).is_ok());
    assert_eq!(store.passwords.len(), 2);
}

#[test]
fn exact_lookup_is_case_insensitive() {
    let master = MasterPassword::from_pass(b"Str0ng!Pass").unwrap();
    let mut store = PasswordStore::new(None, master).unwrap();
    let entry = PasswordEntry::new(
        "GitHub".to_string(),
        Some("alice".to_string()),
        Some(b"s3cret".to_vec()),
        None,
    );
    store.push_entry(entry.clone()).unwrap();

    let found = store.get("github");
    assert_eq!(found.len(), 1);
    assert_eq!(found[0], entry);

    assert_eq!(store.get("gitlab").len(), 0);
}

#[test]
fn fuzzy_lookup_covers_exact_lookup() {
    let master = MasterPassword::from_pass(b"Str0ng!Pass").unwrap();
    let mut store = PasswordStore::new(None, master).unwrap();
    for (service, user) in [("GitHub", "alice"), ("GitLab", "bob"), ("email", "carol")] {
        let entry = PasswordEntry::new(
            service.to_string(),
            Some(user.to_string()),
            Some(b"s3cret".to_vec()),
            None,
        );
        store.push_entry(entry).unwrap();
    }

    let exact = store.get("github");
    let fuzzy = store.fuzzy_find("github");
    assert!(exact.iter().all(|e| fuzzy.contains(e)));

    let by_part = store.fuzzy_find("git");
    assert_eq!(by_part.len(), 2);

    assert_eq!(store.fuzzy_find("zzz").len(), 0);
}

#[test]
fn remove_deletes_matching_entries() {
    let master = MasterPassword::from_pass(b"Str0ng!Pass").unwrap();
    let mut store = PasswordStore::new(None, master).unwrap();
    let keep = PasswordEntry::new(
        "email".to_string(),
        Some("carol".to_string()),
        Some(b"k".to_vec()),
        None,
    );
    let gone = PasswordEntry::new(
        "GitHub".to_string(),
        Some("alice".to_string()),
        Some(b"g".to_vec()),
        None,
    );
    store.push_entry(keep.clone()).unwrap();
    store.push_entry(gone.clone()).unwrap();

    store.remove(vec![gone]).unwrap();
    assert_eq!(store.passwords, vec![keep]);
}

#[test]
fn end_to_end_insert_dump_reopen() {
    // initialize the vault with the master secret
    let master = MasterPassword::from_pass(b"Str0ng!Pass").unwrap();
    let mut store = PasswordStore::new(None, master).unwrap();
    let entry = PasswordEntry::new(
        "email".to_string(),
        Some("a@b.com".to_string()),
        Some(b"x1y2z3".to_vec()),
        None,
    );
    store.push_entry(entry).unwrap();

    // dump, then reopen with the same secret
    let blob = store.dump().unwrap();
    let reopened_master = MasterPassword::from_pass(b"Str0ng!Pass").unwrap();
    let reopened = PasswordStore::load(&blob, reopened_master).unwrap();

    let found = reopened.get("EMAIL");
    assert_eq!(found.len(), 1);
    assert_eq!(found[0].service, "email");
    assert_eq!(found[0].username, Some("a@b.com".to_string()));
    assert_eq!(found[0].get_pass_str(), "x1y2z3");
}

#[test]
fn end_to_end_change_master_secret() {
    // a non-empty vault under the old secret
    let old_master = MasterPassword::from_pass(b"Str0ng!Pass").unwrap();
    let mut store = PasswordStore::new(None, old_master).unwrap();
    let entry = PasswordEntry::new(
        "email".to_string(),
        Some("a@b.com".to_string()),
        Some(b"x1y2z3".to_vec()),
        None,
    );
    store.push_entry(entry.clone()).unwrap();
    let blob = store.dump().unwrap();

    // change the master secret and re-encrypt
    let new_master = MasterPassword::from_pass(b"An0ther$Pass").unwrap();
    let old_again = MasterPassword::from_pass(b"Str0ng!Pass").unwrap();
    let new_blob = new_master.re_encrypt_contents(old_again, &blob).unwrap();

    // the new secret opens the identical entry set
    let reopen_master = MasterPassword::from_pass(b"An0ther$Pass").unwrap();
    let reopened = PasswordStore::load(&new_blob, reopen_master).unwrap();
    assert_eq!(reopened.passwords, vec![entry]);

    // the old secret no longer opens the vault
    let stale_master = MasterPassword::from_pass(b"Str0ng!Pass").unwrap();
    assert!(PasswordStore::load(&new_blob, stale_master).is_err());
}

#[test]
fn tampered_blob_is_rejected() {
    let master = MasterPassword::from_pass(b"Str0ng!Pass").unwrap();
    let mut store = PasswordStore::new(None, master).unwrap();
    store
        .push_entry(PasswordEntry::new(
            "email".to_string(),
            None,
            Some(b"x".to_vec()),
            None,
        ))
        .unwrap();
    let mut blob = store.dump().unwrap();
    let last = blob.len() - 1;
    blob[last] ^= 0xff;

    let reopened_master = MasterPassword::from_pass(b"Str0ng!Pass").unwrap();
    assert!(PasswordStore::load(&blob, reopened_master).is_err());
}

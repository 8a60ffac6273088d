use pass::entry::{Password, PasswordEntry};

#[test]
fn entry_new_password() {
    println!("Random password generating: ");
    println!("{:?}", Password::new(None));

    println!("\nPassword Input: ");
    println!("{:?}", Password::new(Some("PasswordInputed".as_bytes().to_vec())));
}

#[test]
fn pass_new_password() {
    println!("Random password generating: ");
    println!("{:?}", Password::new(None));

    println!("\nPassword Inputed: ");
    println!("{:?}", Password::new(Some("PasswordInputed".as_bytes().to_vec())));
}

#[test]
fn password_keeps_given_bytes() {
    let p = Password::new(Some(b"x1y2z3".to_vec()));
    assert_eq!(p.bytes().as_slice(), b"x1y2z3");
}

#[test]
fn random_password_has_twelve_characters() {
    let p = Password::new(None);
    assert_eq!(p.bytes().len(), 12);
}

#[test]
fn entry_fields_and_pass_str() {
    let e = PasswordEntry::new(
        "email".to_string(),
        Some("a@b.com".to_string()),
        Some(b"x1y2z3".to_vec()),
        Some("personal".to_string()),
    );
    assert_eq!(e.service, "email");
    assert_eq!(e.username, Some("a@b.com".to_string()));
    assert_eq!(e.other, Some("personal".to_string()));
    assert_eq!(e.get_pass_str(), "x1y2z3");
}

#[test]
fn change_password_replaces_secret_only() {
    let mut e = PasswordEntry::new(
        "email".to_string(),
        Some("a@b.com".to_string()),
        Some(b"old".to_vec()),
        None,
    );
    e.change_password("newpass");
    assert_eq!(e.get_pass_str(), "newpass");
    assert_eq!(e.service, "email");
    assert_eq!(e.username, Some("a@b.com".to_string()));
}

#[test]
fn default_entry_is_empty_with_random_secret() {
    let e = PasswordEntry::default();
    assert_eq!(e.service, "");
    assert_eq!(e.username, None);
    assert_eq!(e.other, None);
    assert_eq!(e.password.password.len(), 12);
}

#[test]
fn duplicate_is_equal() {
    let e = PasswordEntry::new(
        "GitHub".to_string(),
        Some("alice".to_string()),
        Some(b"s3cret".to_vec()),
        None,
    );
    assert_eq!(e.duplicate(), e);
}

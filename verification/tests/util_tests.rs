use pass::account::Account;
use pass::encrypt::hash;
use pass::util::{
    generate_random_password, get_random_salt, is_strong_password, password_hash, rand_str,
    verify_hash,
};

#[test]
fn check_rng() {
    let pass = Account::new_rand();

    println!("{:?}", pass);
}

#[test]
fn account_new_keeps_fields() {
    let a = Account::new("instagram", "alice", "ignored");
    assert_eq!(a.name, "instagram");
    assert_eq!(a.username, "alice");
    assert!(a.notes.is_some());
}

#[test]
fn strong_password_accepted() {
    assert!(is_strong_password("Str0ng!Pass"));
    assert!(is_strong_password("An0ther$Pass"));
}

#[test]
fn short_password_rejected() {
    assert!(!is_strong_password("aB1!x"));
}

#[test]
fn password_without_uppercase_rejected() {
    assert!(!is_strong_password("alllower1!x"));
}

#[test]
fn password_without_digit_rejected() {
    assert!(!is_strong_password("NoDigits!here"));
}

#[test]
fn password_without_special_rejected() {
    assert!(!is_strong_password("NoSpecial123"));
}

#[test]
fn hash_verifies_same_secret() {
    let h = password_hash(b"Str0ng!Pass").unwrap();
    assert_eq!(verify_hash(b"Str0ng!Pass", &h).unwrap(), true);
}

#[test]
fn hash_bytes_verify_against_content() {
    let h = hash("Str0ng!Pass").unwrap();
    let h_str = String::from_utf8(h).unwrap();
    assert!(verify_hash(b"Str0ng!Pass", &h_str).unwrap());
}

#[test]
fn hash_rejects_other_secret() {
    let h = password_hash(b"Str0ng!Pass").unwrap();
    assert_eq!(verify_hash(b"An0ther$Pass", &h).unwrap(), false);
}

#[test]
fn generated_password_has_requested_length() {
    let p = generate_random_password(20);
    assert_eq!(p.chars().count(), 20);
}

#[test]
fn random_salt_has_sixteen_bytes() {
    assert_eq!(get_random_salt().len(), 16);
}

#[test]
fn random_string_is_short() {
    assert!(rand_str().chars().count() < 100);
}

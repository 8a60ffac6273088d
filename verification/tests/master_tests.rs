use pass::master::MasterPassword;

#[test]
fn check_init() {
    let _master = MasterPassword::new();
}

#[test]
fn from_pass_yields_consistent_hash() {
    let verified = MasterPassword::from_pass(b"Str0ng!Pass").unwrap();
    assert_eq!(verified.get_pass(), b"Str0ng!Pass".to_vec());
    assert_eq!(verified.get_master_str(), "Str0ng!Pass");
    let hash = verified.get_hash();
    assert!(pass::util::verify_hash(b"Str0ng!Pass", &hash).unwrap());
}

#[test]
fn load_prompt_verify_right_candidate() {
    let verified = MasterPassword::from_pass(b"Str0ng!Pass").unwrap();
    let hash = verified.get_hash();

    let mut unverified = MasterPassword::new().load(hash);
    unverified.prompt(b"Str0ng!Pass".to_vec());
    let again = unverified.verify().unwrap();
    assert!(again.is_some());
    assert_eq!(again.unwrap().get_pass(), b"Str0ng!Pass".to_vec());
}

#[test]
fn verify_wrong_candidate_is_negative_not_error() {
    let verified = MasterPassword::from_pass(b"Str0ng!Pass").unwrap();
    let mut unverified = verified.lock();
    unverified.prompt(b"WrongPass1!".to_vec());
    let outcome = unverified.verify().unwrap();
    assert!(outcome.is_none());
}

#[test]
fn malformed_stored_hash_is_an_error_not_a_mismatch() {
    let mut unverified = MasterPassword::new().load("not a bcrypt hash".to_string());
    unverified.prompt(b"Str0ng!Pass".to_vec());
    assert!(unverified.verify().is_err());
}

#[test]
fn lock_keeps_hash_and_drops_secret() {
    let verified = MasterPassword::from_pass(b"Str0ng!Pass").unwrap();
    let hash = verified.get_hash();
    let unverified = verified.lock();
    assert_eq!(unverified.get_hash(), hash);
    assert!(!unverified.has_candidate());
}

#[test]
fn derived_key_is_deterministic_and_salt_sensitive() {
    let verified = MasterPassword::from_pass(b"Str0ng!Pass").unwrap();
    let k1 = verified.derive_encryption_key(b"Salt");
    let k2 = verified.derive_encryption_key(b"Salt");
    let k3 = verified.derive_encryption_key(b"Pepper");
    assert_eq!(k1, k2);
    assert_ne!(k1, k3);
    assert_eq!(k1.len(), 32);
}

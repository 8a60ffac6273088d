use pass::master::MasterPassword;
use pass::session::{password_verification, try_unlock, CliError};

#[test]
fn three_wrong_candidates_end_with_wrong_master_outcome() {
    let verified = MasterPassword::from_pass(b"Str0ng!Pass").unwrap();
    let mut unverified = verified.lock();

    let candidates = vec![b"Wrong1!xx".to_vec(), b"Wrong2!xx".to_vec(), b"Wrong3!xx".to_vec()];
    let outcome = password_verification(&mut unverified, &candidates);
    assert!(matches!(outcome, Err(CliError::UnableToUnlockMaster)));
}

#[test]
fn right_candidate_on_second_attempt_unlocks() {
    let verified = MasterPassword::from_pass(b"Str0ng!Pass").unwrap();
    let mut unverified = verified.lock();

    let candidates = vec![b"Wrong1!xx".to_vec(), b"Str0ng!Pass".to_vec()];
    let outcome = password_verification(&mut unverified, &candidates).unwrap();
    assert_eq!(outcome.get_pass(), b"Str0ng!Pass".to_vec());
}

#[test]
fn fourth_candidate_is_never_tried() {
    let verified = MasterPassword::from_pass(b"Str0ng!Pass").unwrap();
    let mut unverified = verified.lock();

    // the right candidate sits behind three wrong ones: the session stops first
    let candidates = vec![
        b"Wrong1!xx".to_vec(),
        b"Wrong2!xx".to_vec(),
        b"Wrong3!xx".to_vec(),
        b"Str0ng!Pass".to_vec(),
    ];
    let outcome = password_verification(&mut unverified, &candidates);
    assert!(matches!(outcome, Err(CliError::UnableToUnlockMaster)));
}

#[test]
fn single_attempt_step_matches_and_mismatches() {
    let verified = MasterPassword::from_pass(b"Str0ng!Pass").unwrap();
    let mut unverified = verified.lock();

    let miss = try_unlock(&mut unverified, b"Wrong1!xx".to_vec()).unwrap();
    assert!(miss.is_none());

    let hit = try_unlock(&mut unverified, b"Str0ng!Pass".to_vec()).unwrap();
    assert_eq!(hit.unwrap().get_pass(), b"Str0ng!Pass".to_vec());
}

#[test]
fn no_candidates_end_with_wrong_master_outcome() {
    let verified = MasterPassword::from_pass(b"Str0ng!Pass").unwrap();
    let mut unverified = verified.lock();

    let outcome = password_verification(&mut unverified, &Vec::new());
    assert!(matches!(outcome, Err(CliError::UnableToUnlockMaster)));
}

//! A free-standing account record with key/value notes, and a random
//! generator for it.

use crate::util::{is_alphanumeric_char, rand_str};
use std::collections::HashMap;
use vstd::prelude::*;

verus! {

/// Stores the information of one entry in the vault: a unique name, the
/// identifier of the account, and free-form notes keyed by short labels.
#[derive(Debug)]
pub struct Account {
    /// Name, unique among all entries of the vault.
    pub name: String,
    /// Username, email, phone number or any other identifier.
    pub username: String,
    /// Other notes regarding the account, keyed by a label.
    pub notes: Option<HashMap<String, Option<String>>>,
}

impl Account {
    /// A new account with the given name and identifier and empty notes.
    /// The password argument is not stored anywhere.
    pub fn new(name: &str, username: &str, _password: &str) -> (r: Account)
        ensures
            r.name@ == name@,
            r.username@ == username@,
            r.notes matches Some(m) && m@ == Map::<String, Option<String>>::empty(),
    {
        Account { name: name.to_owned(), username: username.to_owned(), notes: Some(HashMap::new()) }
    }

    /// A random account: short random alphanumeric strings for every field
    /// and two random notes.
    pub fn new_rand() -> (r: Account)
        ensures
            r.name@.len() < 100,
            r.username@.len() < 100,
            forall|i: int| 0 <= i < r.name@.len() ==> is_alphanumeric_char(#[trigger] r.name@[i]),
            forall|i: int|
                0 <= i < r.username@.len() ==> is_alphanumeric_char(#[trigger] r.username@[i]),
            r.notes is Some,
    {
        let mut notes: HashMap<String, Option<String>> = HashMap::new();
        notes.insert(rand_str(), Some(rand_str()));
        notes.insert(rand_str(), Some(rand_str()));
        Account { name: rand_str(), username: rand_str(), notes: Some(notes) }
    }
}

} // verus!

//! The in-memory model of one vault record: a stored secret and the entry
//! that carries it together with its service name, identifier and notes.

use crate::util::generate_random_password_bytes;
use crate::util::string_from_utf8;
use vstd::prelude::*;
use vstd::string::StringSliceAdditionalSpecFns;
use vstd::utf8::{encode_utf8, valid_utf8};

verus! {

/// A stored secret, owned as bytes.
#[derive(Debug, Clone, PartialEq, Eq)]
pub struct Password {
    pub password: Vec<u8>,
}

impl View for Password {
    type V = Seq<u8>;

    open spec fn view(&self) -> Seq<u8> {
        self.password@
    }
}

impl Password {
    /// Wrap the given secret, or generate a random 12-character one when
    /// none is supplied.
    pub fn new(password: Option<Vec<u8>>) -> (r: Password)
        ensures
            match password {
                Some(p) => r@ == p@,
                None => r@.len() == 12,
            },
    {
        let pass = match password {
            Some(pass) => pass,
            None => generate_random_password_bytes(12),
        };
        Password { password: pass }
    }

    /// The secret as bytes.
    pub fn bytes(&self) -> (r: &Vec<u8>)
        ensures
            r@ == self@,
    {
        &self.password
    }
}

/// The mathematical model of one entry: its service name and optional
/// identifier as character sequences, its secret as bytes, and its notes.
#[verifier::ext_equal]
pub ghost struct EntryView {
    pub service: Seq<char>,
    pub username: Option<Seq<char>>,
    pub password: Seq<u8>,
    pub notes: Option<Seq<char>>,
}

/// One vault record.
#[derive(Debug, Clone, PartialEq, Eq)]
pub struct PasswordEntry {
    /// Name of the service/email/website for which the secret is stored.
    pub service: String,
    /// Username or identifier used for that service.
    pub username: Option<String>,
    /// Secret for the service.
    pub password: Password,
    /// Other details.
    pub other: Option<String>,
}

/// The view of an optional string.
pub open spec fn opt_str_view(o: Option<String>) -> Option<Seq<char>> {
    match o {
        Some(s) => Some(s@),
        None => None,
    }
}

impl View for PasswordEntry {
    type V = EntryView;

    open spec fn view(&self) -> EntryView {
        EntryView {
            service: self.service@,
            username: opt_str_view(self.username),
            password: self.password@,
            notes: opt_str_view(self.other),
        }
    }
}

impl PasswordEntry {
    /// Build an entry from its details; a missing secret is replaced by a
    /// random 12-character one.
    pub fn new(
        service: String,
        username: Option<String>,
        password: Option<Vec<u8>>,
        other: Option<String>,
    ) -> (r: PasswordEntry)
        ensures
            r@.service == service@,
            r@.username == opt_str_view(username),
            r@.notes == opt_str_view(other),
            match password {
                Some(p) => r@.password == p@,
                None => r@.password.len() == 12,
            },
    {
        Self { service, username, password: Password::new(password), other }
    }

    /// Replace the secret of this entry, leaving the rest unchanged.
    pub fn change_password(&mut self, password: &str)
        ensures
            final(self)@.password == password.spec_bytes(),
            final(self)@.service == old(self)@.service,
            final(self)@.username == old(self)@.username,
            final(self)@.notes == old(self)@.notes,
    {
        self.password = Password::new(Some(password.as_bytes_vec()));
    }

    /// The stored secret, as a string.
    pub fn get_pass_str(&self) -> (r: String)
        requires
            valid_utf8(self@.password),
        ensures
            encode_utf8(r@) == self@.password,
    {
        let bytes = self.password.bytes();
        let mut copy: Vec<u8> = Vec::new();
        let mut i: usize = 0;
        while i < bytes.len()
            invariant
                i <= bytes@.len(),
                copy@ == bytes@.subrange(0, i as int),
            decreases bytes@.len() - i,
        {
            copy.push(bytes[i]);
            i = i + 1;
        }
        proof {
            assert(copy@ =~= self@.password);
        }
        match string_from_utf8(copy) {
            Some(s) => s,
            None => unreached(),
        }
    }
}

impl PasswordEntry {
    /// An owned copy of this entry.
    pub fn duplicate(&self) -> (r: PasswordEntry)
        ensures
            r@ == self@,
    {
        let username = match &self.username {
            Some(u) => Some(u.clone()),
            None => None,
        };
        let other = match &self.other {
            Some(o) => Some(o.clone()),
            None => None,
        };
        let r = PasswordEntry {
            service: self.service.clone(),
            username,
            password: Password { password: crate::util::clone_bytes(&self.password.password) },
            other,
        };
        proof {
            assert(r@ =~= self@);
        }
        r
    }
}

impl Default for PasswordEntry {
    /// An empty entry carrying a fresh random 12-character secret.
    fn default() -> (r: Self)
        ensures
            r@.service == Seq::<char>::empty(),
            r@.username is None,
            r@.notes is None,
            r@.password.len() == 12,
    {
        PasswordEntry {
            service: String::new(),
            username: None,
            password: Password::new(None),
            other: None,
        }
    }
}

} // verus!

//! The master-secret state machine: Uninitialized, Initialized, Unverified
//! and Verified states of the master password, the hash check that gates
//! the Verified state, and the derivation of the vault encryption key.

use crate::util::{bcrypt_matches, bcrypt_wellformed, clone_bytes, password_hash, string_from_utf8, verify_hash};
use core::marker::PhantomData;
use vstd::prelude::*;
use vstd::slice::slice_to_vec;
use vstd::string::StringExecFns;
use vstd::string::StringSliceAdditionalSpecFns;
use vstd::utf8::{encode_utf8, valid_utf8};

verus! {

/// Errors of the master-password lifecycle.
#[derive(Debug, Clone)]
pub enum MasterPasswordError {
    UnableToRead,
    UnableToCreateDirs,
    UnableToReadFromConsole,
    UnableToWriteFile,
    WrongMasterPassword,
    UnableToConvert,
    BcryptError(String),
    IO,
    MasterPassConfirmFailed,
    PassNotStrong,
}

/// Default state of [MasterPassword].
pub struct UnInit;

/// Initial state of [MasterPassword].
#[derive(Debug, Clone, Copy)]
pub struct Init;

/// Unverified state of [MasterPassword].
#[derive(Debug, Clone, Copy)]
pub struct UnVerified;

/// Verified state of [MasterPassword]: the only state whose secret is
/// handed out.
#[derive(Debug, Clone, Copy)]
pub struct Verified;

/// The master credential, tagged by its lifecycle state. The secret itself
/// is private: while Unverified it is readable only by the verification
/// routine, and only the Verified state hands it out.
#[derive(Debug)]
pub struct MasterPassword<State = UnInit> {
    /// Master password, present only as a pending candidate or once verified.
    master_pass: Option<Vec<u8>>,
    /// One-way hash of the master password.
    hash: Option<String>,
    /// [MasterPassword] state.
    state: PhantomData<State>,
}

impl<State> MasterPassword<State> {
    /// Whether a secret (or a pending candidate) is held in memory.
    pub closed spec fn holds_secret(&self) -> bool {
        self.master_pass is Some
    }

    /// The view of the carried one-way hash, if any.
    pub closed spec fn hash_opt(&self) -> Option<Seq<char>> {
        match self.hash {
            Some(h) => Some(h@),
            None => None,
        }
    }

    /// Whether a one-way hash is carried.
    pub fn has_hash(&self) -> (r: bool)
        ensures
            r == (self.hash_opt() is Some),
    {
        self.hash.is_some()
    }
}

impl Default for MasterPassword<Init> {
    /// A fresh credential: no secret, no hash.
    fn default() -> (r: Self)
        ensures
            !r.holds_secret(),
            r.hash_opt() is None,
    {
        MasterPassword { master_pass: None, hash: None, state: PhantomData }
    }
}

impl MasterPassword<UnInit> {
    /// Start the lifecycle: an Initialized credential holding nothing.
    pub fn new() -> (r: MasterPassword<Init>)
        ensures
            !r.holds_secret(),
            r.hash_opt() is None,
    {
        MasterPassword::default()
    }
}

impl MasterPassword<Init> {
    /// Move to the Unverified state, remembering the stored hash that a
    /// later candidate has to be verified against.
    pub fn load(self, stored_hash: String) -> (r: MasterPassword<UnVerified>)
        ensures
            r.wf(),
            r.stored_hash() == stored_hash@,
            r.candidate() is None,
    {
        MasterPassword { hash: Some(stored_hash), master_pass: None, state: PhantomData }
    }

    /// Create a Verified credential directly from a known master password,
    /// hashing it for later verification and persistence.
    pub fn from_pass(password: &[u8]) -> (r: Result<
        MasterPassword<Verified>,
        MasterPasswordError,
    >)
        ensures
            r matches Ok(m) ==> m.wf() && m.secret() == password@ && m.hash_consistent(),
            r is Err ==> (r matches Err(e) && e is BcryptError),
    {
        match password_hash(password) {
            Ok(hashed_password) => Ok(
                MasterPassword {
                    master_pass: Some(slice_to_vec(password)),
                    hash: Some(hashed_password),
                    state: PhantomData,
                },
            ),
            Err(_) => Err(MasterPasswordError::BcryptError(String::from_str("Unable to hash"))),
        }
    }
}

impl MasterPassword<UnVerified> {
    /// An Unverified credential always carries the stored hash.
    pub open spec fn wf(&self) -> bool {
        self.hash_opt() is Some
    }

    /// The hash that candidates are verified against.
    pub open spec fn stored_hash(&self) -> Seq<char> {
        self.hash_opt()->0
    }

    /// The pending candidate secret, if one has been supplied. Closed: the
    /// candidate's value is not observable in this state.
    pub closed spec fn candidate(&self) -> Option<Seq<u8>> {
        match self.master_pass {
            Some(p) => Some(p@),
            None => None,
        }
    }

    /// Store a candidate master password for verification.
    pub fn prompt(&mut self, candidate: Vec<u8>)
        ensures
            final(self).hash_opt() == old(self).hash_opt(),
            final(self).candidate() == Some(candidate@),
    {
        self.master_pass = Some(candidate);
    }

    /// The stored hash.
    pub fn get_hash(&self) -> (r: String)
        requires
            self.wf(),
        ensures
            r@ == self.stored_hash(),
    {
        match &self.hash {
            Some(h) => h.clone(),
            None => unreached(),
        }
    }

    /// Whether a candidate is pending.
    pub fn has_candidate(&self) -> (r: bool)
        ensures
            r == (self.candidate() is Some),
    {
        self.master_pass.is_some()
    }

    /// The pending candidate secret. Private: in this state only the
    /// verification routine below may read the candidate.
    fn get_pass(&self) -> (r: Vec<u8>)
        requires
            self.candidate() is Some,
        ensures
            Some(r@) == self.candidate(),
    {
        match &self.master_pass {
            Some(p) => clone_bytes(p),
            None => unreached(),
        }
    }

    /// Compare the pending candidate against the stored hash: a match
    /// yields a Verified credential, a mismatch yields None, and the only
    /// error is a stored hash that does not parse as a bcrypt hash.
    pub fn verify(&self) -> (r: Result<Option<MasterPassword<Verified>>, MasterPasswordError>)
        requires
            self.wf(),
            self.candidate() is Some,
        ensures
            r is Ok <==> bcrypt_wellformed(self.stored_hash()),
            r matches Ok(o) ==> (o is Some <==> bcrypt_matches(
                self.candidate()->0,
                self.stored_hash(),
            )),
            r matches Ok(Some(v)) ==> v.wf() && Some(v.secret()) == self.candidate()
                && v.hash_opt() == self.hash_opt() && v.hash_consistent(),
            r is Err ==> (r matches Err(e) && e is BcryptError),
    {
        let password = self.get_pass();
        let hash = self.get_hash();
        match verify_hash(password.as_slice(), hash.as_str()) {
            Ok(true) => Ok(
                Some(
                    MasterPassword {
                        master_pass: Some(password),
                        hash: Some(hash),
                        state: PhantomData,
                    },
                ),
            ),
            Ok(false) => Ok(None),
            Err(_) => Err(
                MasterPasswordError::BcryptError(String::from_str("Unable to verify password")),
            ),
        }
    }
}

impl MasterPassword<Verified> {
    /// A Verified credential always owns its secret.
    pub open spec fn wf(&self) -> bool {
        self.holds_secret()
    }

    /// The verified master secret.
    pub closed spec fn secret(&self) -> Seq<u8> {
        self.master_pass->0@
    }

    /// The carried hash is a well-formed bcrypt hash of the carried secret.
    pub open spec fn hash_consistent(&self) -> bool {
        self.hash_opt() matches Some(h) && bcrypt_matches(self.secret(), h) && bcrypt_wellformed(h)
    }

    /// Whether the secret is held (it always is for a credential built by
    /// this library).
    pub fn has_secret(&self) -> (r: bool)
        ensures
            r == self.wf(),
    {
        self.master_pass.is_some()
    }

    /// Drop the secret from memory, keeping the hash for a later
    /// verification round.
    pub fn lock(self) -> (r: MasterPassword<UnVerified>)
        ensures
            r.hash_opt() == self.hash_opt(),
            r.candidate() is None,
    {
        MasterPassword { master_pass: None, hash: self.hash, state: PhantomData }
    }

    /// The verified master secret.
    pub fn get_pass(&self) -> (r: Vec<u8>)
        requires
            self.wf(),
        ensures
            r@ == self.secret(),
    {
        match &self.master_pass {
            Some(p) => clone_bytes(p),
            None => unreached(),
        }
    }

    /// The verified master secret as a string.
    pub fn get_master_str(&self) -> (r: String)
        requires
            self.wf(),
            valid_utf8(self.secret()),
        ensures
            encode_utf8(r@) == self.secret(),
    {
        match &self.master_pass {
            Some(p) => match string_from_utf8(clone_bytes(p)) {
                Some(s) => s,
                None => unreached(),
            },
            None => unreached(),
        }
    }

    /// The carried hash.
    pub fn get_hash(&self) -> (r: String)
        requires
            self.hash_opt() is Some,
        ensures
            Some(r@) == self.hash_opt(),
    {
        match &self.hash {
            Some(h) => h.clone(),
            None => unreached(),
        }
    }

    /// An owned copy of this credential.
    pub fn duplicate(&self) -> (r: MasterPassword<Verified>)
        ensures
            r.holds_secret() <==> self.holds_secret(),
            self.wf() ==> r.wf() && r.secret() == self.secret(),
            r.hash_opt() == self.hash_opt(),
    {
        let master_pass = match &self.master_pass {
            Some(p) => Some(clone_bytes(p)),
            None => None,
        };
        let hash = match &self.hash {
            Some(h) => Some(h.clone()),
            None => None,
        };
        MasterPassword { master_pass, hash, state: PhantomData }
    }

    /// Replace the secret with a new one and re-hash; on failure nothing
    /// changes.
    pub fn set_new_master(&mut self, new_master: &str) -> (r: Result<(), MasterPasswordError>)
        ensures
            r is Ok ==> final(self).wf() && final(self).secret() == new_master.spec_bytes()
                && final(self).hash_consistent(),
            r is Err ==> *final(self) == *old(self) && (r matches Err(e) && e is BcryptError),
    {
        match password_hash(new_master.as_bytes()) {
            Ok(hash) => {
                self.master_pass = Some(new_master.as_bytes_vec());
                self.hash = Some(hash);
                Ok(())
            },
            Err(_) => Err(MasterPasswordError::BcryptError(String::from_str("Unable to hash"))),
        }
    }
}

/// What PBKDF2-HMAC-SHA-256 with 600000 iterations derives, as 32 bytes,
/// from a master secret and a salt. A pure function of the two arguments.
pub uninterp spec fn derived_key(secret: Seq<u8>, salt: Seq<u8>) -> Seq<u8>;

/// Relies on ring::pbkdf2::derive with PBKDF2_HMAC_SHA256 and 600000
/// iterations: it deterministically fills the 32-byte output from the
/// secret and the salt.
#[verifier::external_body]
pub fn derive_encrytion_key(master_pass: &Vec<u8>, salt: &[u8]) -> (r: [u8; 32])
    ensures
        r@ == derived_key(master_pass@, salt@),
        r@.len() == 32,
{
    let mut encryption_key = [0_u8; 32];
    ring::pbkdf2::derive(
        ring::pbkdf2::PBKDF2_HMAC_SHA256,
        core::num::NonZeroU32::new(600_000).unwrap(),
        salt,
        master_pass,
        &mut encryption_key,
    );
    encryption_key
}

/// The fixed salt under which the vault encryption key is derived.
pub open spec fn vault_salt() -> Seq<u8> {
    seq![83u8, 97u8, 108u8, 116u8]
}

/// The bytes of the fixed vault salt (the ASCII string "Salt").
pub fn vault_salt_bytes() -> (r: Vec<u8>)
    ensures
        r@ == vault_salt(),
{
    let mut v: Vec<u8> = Vec::new();
    v.push(83u8);
    v.push(97u8);
    v.push(108u8);
    v.push(116u8);
    proof {
        assert(v@ =~= vault_salt());
    }
    v
}

/// The symmetric key that protects a vault bound to this credential.
pub open spec fn vault_key(m: MasterPassword<Verified>) -> Seq<u8> {
    derived_key(m.secret(), vault_salt())
}

impl MasterPassword<Verified> {
    /// Derive the 32-byte vault encryption key from the verified secret
    /// and the given salt.
    pub fn derive_encryption_key(&self, salt: &[u8]) -> (r: [u8; 32])
        requires
            self.wf(),
        ensures
            r@ == derived_key(self.secret(), salt@),
    {
        match &self.master_pass {
            Some(p) => derive_encrytion_key(p, salt),
            None => unreached(),
        }
    }
}

} // verus!

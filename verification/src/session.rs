//! The command layer's verification session: drive prompt and verify over
//! a bounded number of candidate master passwords. The session never
//! derives an encryption key; only the Verified credential it returns can.

use crate::master::{MasterPassword, UnVerified, Verified};
use crate::util::{bcrypt_matches, bcrypt_wellformed, clone_bytes};
use vstd::prelude::*;

verus! {

/// Errors of the command layer.
#[derive(Debug, Clone, Copy, PartialEq, Eq)]
pub enum CliError {
    UnableToCreateMaster,
    UnableToUnlockMaster,
    UnableToChangeMaster,
    UnableToReadFromConsole,
    UnableToResetPassDir,
    UnableToResetPassEntry,
}

/// How many of the supplied candidates a session consumes at most: three,
/// or fewer when the caller runs out of candidates.
pub open spec fn attempts_tried(n: nat) -> int {
    if n < 3 {
        n as int
    } else {
        3
    }
}

/// One verification attempt: store the candidate and compare it against
/// the stored hash. Succeeds or mismatches whenever the stored hash is a
/// well-formed bcrypt hash.
pub fn try_unlock(master: &mut MasterPassword<UnVerified>, candidate: Vec<u8>) -> (r: Result<
    Option<MasterPassword<Verified>>,
    CliError,
>)
    requires
        old(master).wf(),
    ensures
        final(master).wf(),
        final(master).hash_opt() == old(master).hash_opt(),
        r is Ok <==> bcrypt_wellformed(old(master).stored_hash()),
        r matches Ok(o) ==> (o is Some <==> bcrypt_matches(
            candidate@,
            old(master).stored_hash(),
        )),
        r matches Ok(Some(v)) ==> v.wf() && v.secret() == candidate@ && v.hash_opt() == old(
            master,
        ).hash_opt() && v.hash_consistent(),
        r is Err ==> r == Err::<Option<MasterPassword<Verified>>, CliError>(
            CliError::UnableToUnlockMaster,
        ),
{
    master.prompt(candidate);
    match master.verify() {
        Ok(o) => Ok(o),
        Err(_) => Err(CliError::UnableToUnlockMaster),
    }
}

/// Try the given candidate master passwords in order, at most three of
/// them: the first one that matches the stored hash yields a Verified
/// credential; three mismatches (or running out of candidates, or a stored
/// hash that does not parse) end the session with a wrong-master-password
/// outcome.
pub fn password_verification(
    master: &mut MasterPassword<UnVerified>,
    candidates: &Vec<Vec<u8>>,
) -> (r: Result<MasterPassword<Verified>, CliError>)
    requires
        old(master).wf(),
    ensures
        final(master).wf(),
        final(master).hash_opt() == old(master).hash_opt(),
        r matches Ok(v) ==> v.wf() && v.hash_opt() == old(master).hash_opt()
            && v.hash_consistent() && (exists|i: int|
            0 <= i < attempts_tried(candidates@.len()) && v.secret() == #[trigger] candidates@[i]@
                && bcrypt_matches(candidates@[i]@, old(master).stored_hash())),
        (bcrypt_wellformed(old(master).stored_hash()) && exists|i: int|
            0 <= i < attempts_tried(candidates@.len()) && bcrypt_matches(
                #[trigger] candidates@[i]@,
                old(master).stored_hash(),
            )) ==> r is Ok,
        (forall|i: int|
            0 <= i < attempts_tried(candidates@.len()) ==> !bcrypt_matches(
                #[trigger] candidates@[i]@,
                old(master).stored_hash(),
            )) ==> r is Err,
        r is Err ==> r == Err::<MasterPassword<Verified>, CliError>(CliError::UnableToUnlockMaster),
{
    let mut attempt: usize = 0;
    while attempt < 3
        invariant
            attempt <= 3,
            master.wf(),
            master.hash_opt() == old(master).hash_opt(),
            forall|k: int|
                0 <= k < attempt && k < candidates@.len() ==> !bcrypt_matches(
                    #[trigger] candidates@[k]@,
                    old(master).stored_hash(),
                ),
        decreases 3 - attempt,
    {
        if attempt >= candidates.len() {
            return Err(CliError::UnableToUnlockMaster);
        }
        match try_unlock(master, clone_bytes(&candidates[attempt])) {
            Ok(Some(verified)) => {
                return Ok(verified);
            },
            Ok(None) => {},
            Err(e) => {
                return Err(e);
            },
        }
        attempt = attempt + 1;
    }
    Err(CliError::UnableToUnlockMaster)
}

} // verus!

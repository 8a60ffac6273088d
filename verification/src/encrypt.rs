//! The one-way hash of a secret, as raw bytes.

use crate::util::{bcrypt_matches, password_hash, UtilError};
use vstd::prelude::*;
use vstd::string::StringSliceAdditionalSpecFns;
use vstd::string::StrSliceExecFns;
use vstd::utf8::encode_utf8;

verus! {

/// Hash a secret and return the bytes of the hash string: some hash that
/// verifies against the given content.
pub fn hash(content: &str) -> (r: Result<Vec<u8>, UtilError>)
    ensures
        r matches Ok(b) ==> exists|hs: Seq<char>|
            b@ == #[trigger] encode_utf8(hs) && bcrypt_matches(content.spec_bytes(), hs),
{
    match password_hash(content.as_bytes()) {
        Ok(h) => {
            let hb = h.as_str().as_bytes_vec();
            proof {
                assert(hb@ == encode_utf8(h@) && bcrypt_matches(content.spec_bytes(), h@));
            }
            Ok(hb)
        },
        Err(e) => Err(e),
    }
}

} // verus!

//! Helper routines: password strength, credential hashing, random
//! generation, and the UTF-8 bridge used by the store.

use rand::Rng;
use vstd::prelude::*;
use vstd::utf8::{encode_utf8, valid_utf8};

verus! {

/// Errors of the helper routines.
#[derive(Debug, Clone)]
pub enum UtilError {
    BcryptError(String),
    UnableToReadFromConsole,
}

/// ASCII lowercase letter.
pub open spec fn is_lowercase_char(c: char) -> bool {
    97 <= c as u32 <= 122
}

/// ASCII uppercase letter.
pub open spec fn is_uppercase_char(c: char) -> bool {
    65 <= c as u32 <= 90
}

/// ASCII decimal digit.
pub open spec fn is_digit_char(c: char) -> bool {
    48 <= c as u32 <= 57
}

/// ASCII whitespace: space, tab, newline, form feed, carriage return.
pub open spec fn is_whitespace_char(c: char) -> bool {
    c as u32 == 32 || c as u32 == 9 || c as u32 == 10 || c as u32 == 12 || c as u32 == 13
}

/// Anything that is neither an ASCII alphanumeric character nor whitespace.
pub open spec fn is_special_char(c: char) -> bool {
    !is_lowercase_char(c) && !is_uppercase_char(c) && !is_digit_char(c) && !is_whitespace_char(c)
}

/// A password is strong when it has at least 8 characters and contains a
/// lowercase letter, an uppercase letter, a digit and a special character.
pub open spec fn strong_password(s: Seq<char>) -> bool {
    &&& s.len() >= 8
    &&& exists|i: int| 0 <= i < s.len() && is_lowercase_char(#[trigger] s[i])
    &&& exists|i: int| 0 <= i < s.len() && is_uppercase_char(#[trigger] s[i])
    &&& exists|i: int| 0 <= i < s.len() && is_digit_char(#[trigger] s[i])
    &&& exists|i: int| 0 <= i < s.len() && is_special_char(#[trigger] s[i])
}

/// Decide whether a candidate master password is strong enough.
pub fn is_strong_password(password: &str) -> (r: bool)
    ensures
        r == strong_password(password@),
{
    let n = password.unicode_len();
    if n < 8 {
        return false;
    }
    let mut has_lowercase = false;
    let mut has_uppercase = false;
    let mut has_digit = false;
    let mut has_special = false;
    let mut i: usize = 0;
    while i < n
        invariant
            n == password@.len(),
            i <= n,
            has_lowercase == exists|j: int| 0 <= j < i && is_lowercase_char(#[trigger] password@[j]),
            has_uppercase == exists|j: int| 0 <= j < i && is_uppercase_char(#[trigger] password@[j]),
            has_digit == exists|j: int| 0 <= j < i && is_digit_char(#[trigger] password@[j]),
            has_special == exists|j: int| 0 <= j < i && is_special_char(#[trigger] password@[j]),
        decreases n - i,
    {
        let c = password.get_char(i);
        let u = c as u32;
        has_lowercase = has_lowercase || (97 <= u && u <= 122);
        has_uppercase = has_uppercase || (65 <= u && u <= 90);
        has_digit = has_digit || (48 <= u && u <= 57);
        has_special = has_special || !(97 <= u && u <= 122) && !(65 <= u && u <= 90) && !(48 <= u
            && u <= 57) && !(u == 32 || u == 9 || u == 10 || u == 12 || u == 13);
        i = i + 1;
    }
    has_lowercase && has_uppercase && has_digit && has_special
}

/// Whether bcrypt verification of `pass` against the hash string `hash`
/// succeeds. Verification is a pure function of the two arguments: the salt
/// and the cost are read back out of the hash string.
pub uninterp spec fn bcrypt_matches(pass: Seq<u8>, hash: Seq<char>) -> bool;

/// Whether a string parses as a bcrypt hash (version, cost in range, and
/// base64 salt and digest). A pure function of the string: verification
/// fails exactly on strings that do not.
pub uninterp spec fn bcrypt_wellformed(hash: Seq<char>) -> bool;

/// Relies on bcrypt::hash: every hash it produces for a password is
/// well-formed and verifies against that same password (bcrypt::verify
/// re-derives the hash from the salt and cost embedded in the hash string).
#[verifier::external_body]
pub fn password_hash(content: &[u8]) -> (r: Result<String, UtilError>)
    ensures
        r matches Ok(h) ==> bcrypt_matches(content@, h@) && bcrypt_wellformed(h@),
{
    bcrypt::hash(content, bcrypt::DEFAULT_COST).map_err(|_| {
        UtilError::BcryptError(String::from("Unable to hash password"))
    })
}

/// Relies on bcrypt::verify: it deterministically recomputes the hash of
/// `pass` under the salt and cost stored in `hash` and compares; it fails
/// exactly on a hash string that does not parse as a bcrypt hash.
#[verifier::external_body]
pub fn verify_hash(pass: &[u8], hash: &str) -> (r: Result<bool, UtilError>)
    ensures
        r matches Ok(b) ==> b == bcrypt_matches(pass@, hash@),
        r is Ok <==> bcrypt_wellformed(hash@),
{
    bcrypt::verify(pass, hash).map_err(|e| UtilError::BcryptError(format!("{}", e)))
}

/// Relies on passwords::PasswordGenerator::generate_one: with numbers,
/// lowercase and uppercase letters enabled (three character classes) and
/// a length of at least 3, it returns a password of exactly `length`
/// ASCII characters.
#[verifier::external_body]
fn random_password_string(length: usize) -> (r: String)
    requires
        3 <= length,
    ensures
        r@.len() == length as nat,
        r.is_ascii(),
{
    passwords::PasswordGenerator::new()
        .length(length)
        .uppercase_letters(true)
        .symbols(false)
        .strict(true)
        .generate_one()
        .expect("password generation with three classes and length >= 3 cannot fail")
}

/// Generate a random password of the given length.
pub fn generate_random_password(length: u8) -> (r: String)
    requires
        3 <= length,
    ensures
        r@.len() == length as nat,
        r.is_ascii(),
{
    random_password_string(length as usize)
}

/// Generate the byte form of a random password of the given length.
pub fn generate_random_password_bytes(length: u8) -> (r: Vec<u8>)
    requires
        3 <= length,
    ensures
        r@.len() == length as nat,
{
    let s = random_password_string(length as usize);
    let st = s.as_str();
    proof {
        vstd::string::is_ascii_spec_bytes(st);
    }
    st.as_bytes_vec()
}

/// An ASCII letter or digit.
pub open spec fn is_alphanumeric_char(c: char) -> bool {
    is_lowercase_char(c) || is_uppercase_char(c) || is_digit_char(c)
}

/// Relies on rand's thread_rng and Alphanumeric distribution: a string of
/// fewer than 100 random characters, each an ASCII letter or digit.
#[verifier::external_body]
pub fn rand_str() -> (r: String)
    ensures
        r@.len() < 100,
        forall|i: int| 0 <= i < r@.len() ==> is_alphanumeric_char(#[trigger] r@[i]),
{
    rand::thread_rng()
        .sample_iter(&rand::distributions::Alphanumeric)
        .take(rand::thread_rng().gen_range(0..100))
        .map(char::from)
        .collect()
}

/// Relies on ring::rand::SystemRandom::fill to fill the 16 bytes; the fill
/// fails only when the system randomness source is unavailable.
#[verifier::external_body]
pub fn get_random_salt() -> (r: [u8; 16])
    ensures
        r@.len() == 16,
{
    let mut salt = [0u8; 16];
    let rng = ring::rand::SystemRandom::new();
    ring::rand::SecureRandom::fill(&rng, &mut salt).expect("system randomness unavailable");
    salt
}

/// Copy a byte vector.
pub fn clone_bytes(v: &Vec<u8>) -> (r: Vec<u8>)
    ensures
        r@ == v@,
{
    let mut out: Vec<u8> = Vec::new();
    let mut i: usize = 0;
    while i < v.len()
        invariant
            i <= v@.len(),
            out@ == v@.subrange(0, i as int),
        decreases v@.len() - i,
    {
        out.push(v[i]);
        i = i + 1;
    }
    proof {
        assert(out@ =~= v@);
    }
    out
}

/// Relies on String::from_utf8: it returns the string whose UTF-8 encoding
/// is exactly the given bytes, and fails exactly when the bytes are not
/// valid UTF-8.
#[verifier::external_body]
pub fn string_from_utf8(v: Vec<u8>) -> (r: Option<String>)
    ensures
        r is Some <==> valid_utf8(v@),
        r matches Some(s) ==> encode_utf8(s@) == v@,
{
    String::from_utf8(v).ok()
}

} // verus!

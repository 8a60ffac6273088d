//! The vault store: the deduplicated collection of entries bound to a
//! Verified credential, its encryption to one blob and decryption back,
//! lookup (exact and fuzzy), removal, and re-keying.

use crate::codec::{
    dec_entries, decode_entries, enc_entries, encode_entries, entries_fit, entry_fits,
    lemma_dec_entries_fit, views_of,
};
use crate::entry::{EntryView, PasswordEntry};
use crate::master::{derived_key, vault_key, vault_salt, vault_salt_bytes, MasterPassword, Verified};
use serde_encrypt::encrypt::plain_message_shared_key::PlainMessageSharedKey;
use serde_encrypt::shared_key::SharedKey;
use serde_encrypt::EncryptedMessage;
use serde_encrypt_core::encrypt::plain_message_shared_key::PlainMessageSharedKeyCore;
use vstd::prelude::*;

verus! {

/// Errors of the vault store.
#[derive(Debug, Clone)]
pub enum PasswordStoreError {
    UnableToRead,
    UnableToReadFromConsole,
    UnableToCreateDirs,
    UnableToCreateFile,
    UnableToWriteFile,
    UnableToConvert(String),
    UnableToDecryptError(String),
    UnableToEncryptError(String),
    NoEntryAvailable,
    NothingToDo,
    DuplicateEntry,
}

/// What str::to_lowercase returns for a given character sequence. A pure
/// function of its argument.
pub uninterp spec fn lower_of(s: Seq<char>) -> Seq<char>;

/// Relies on str::to_lowercase: the result depends on the characters alone.
#[verifier::external_body]
fn lowercase(s: &str) -> (r: String)
    ensures
        r@ == lower_of(s@),
{
    s.to_lowercase()
}

/// What decrypting a blob under a 32-byte key yields: the plain bytes when
/// the blob was sealed under that key, `None` when authentication fails.
/// Decryption is a pure function of the blob and the key.
pub uninterp spec fn opened(cipher: Seq<u8>, key: Seq<u8>) -> Option<Seq<u8>>;

/// Relies on serde_encrypt's shared-key encryption (XChaCha20 with a
/// Poly1305 tag and a fresh random nonce stored in the blob): every blob it
/// returns decrypts, under the same key, back to the plain bytes.
#[verifier::external_body]
fn seal_bytes(plain: &Vec<u8>, key: &[u8; 32]) -> (r: Result<Vec<u8>, PasswordStoreError>)
    ensures
        r matches Ok(c) ==> opened(c@, key@) == Some(plain@) && c@.len() >= 24,
{
    let shared = SharedKey::new(*key);
    let msg = PlainMessageSharedKey::new(plain.clone());
    match msg.encrypt(&shared) {
        Ok(em) => Ok(em.serialize()),
        Err(_) => Err(
            PasswordStoreError::UnableToEncryptError("Failed to encrypt entry".to_owned()),
        ),
    }
}

/// Relies on serde_encrypt's shared-key decryption: deterministic in the
/// blob and the key, returning the sealed bytes or failing on a blob that
/// was not sealed under this key.
#[verifier::external_body]
fn open_bytes(cipher: &Vec<u8>, key: &[u8; 32]) -> (r: Result<Vec<u8>, PasswordStoreError>)
    ensures
        r matches Ok(p) ==> opened(cipher@, key@) == Some(p@),
        r is Err ==> opened(cipher@, key@) is None,
{
    let shared = SharedKey::new(*key);
    match EncryptedMessage::deserialize(cipher.clone()) {
        Ok(em) => match PlainMessageSharedKey::decrypt(&em, &shared) {
            Ok(pm) => Ok(pm.into_vec()),
            Err(_) => Err(
                PasswordStoreError::UnableToDecryptError("Failed to decrypt entries".to_owned()),
            ),
        },
        Err(_) => Err(
            PasswordStoreError::UnableToDecryptError("Failed to decrypt entries".to_owned()),
        ),
    }
}

/// Two entries collide when they name the same service (case-insensitive)
/// and the same identifier.
pub open spec fn same_key(a: EntryView, b: EntryView) -> bool {
    lower_of(a.service) == lower_of(b.service) && a.username == b.username
}

/// No two entries of the sequence collide.
pub open spec fn dedup_ok(s: Seq<EntryView>) -> bool {
    forall|i: int, j: int| 0 <= i < j < s.len() ==> !same_key(#[trigger] s[i], #[trigger] s[j])
}

/// Compare two optional strings.
fn opt_string_eq(a: &Option<String>, b: &Option<String>) -> (r: bool)
    ensures
        r == (crate::entry::opt_str_view(*a) == crate::entry::opt_str_view(*b)),
{
    match (a, b) {
        (None, None) => true,
        (Some(x), Some(y)) => x.eq(y),
        _ => false,
    }
}

/// Decide whether two entries collide on (service, identifier).
fn same_entry_key(a: &PasswordEntry, b: &PasswordEntry) -> (r: bool)
    ensures
        r == same_key(a@, b@),
{
    let la = lowercase(a.service.as_str());
    let lb = lowercase(b.service.as_str());
    la == lb && opt_string_eq(&a.username, &b.username)
}

/// Decide whether some stored entry collides with `entry` on
/// (service, identifier).
fn find_same_key(entries: &Vec<PasswordEntry>, entry: &PasswordEntry) -> (r: bool)
    ensures
        r == exists|i: int|
            0 <= i < entries@.len() && same_key(#[trigger] views_of(entries@)[i], entry@),
{
    let n = entries.len();
    let mut i: usize = 0;
    while i < n
        invariant
            i <= n,
            n == entries@.len(),
            forall|k: int| 0 <= k < i ==> !same_key(#[trigger] views_of(entries@)[k], entry@),
        decreases n - i,
    {
        if same_entry_key(&entries[i], &entry) {
            proof {
                assert(views_of(entries@)[i as int] == entries@[i as int]@);
                assert(same_key(views_of(entries@)[i as int], entry@));
            }
            return true;
        }
        i = i + 1;
    }
    false
}

/// The vault: its entries and the credential its blob is bound to.
#[derive(Debug)]
pub struct PasswordStore {
    pub passwords: Vec<PasswordEntry>,
    pub master_password: MasterPassword<Verified>,
}

/// What decrypting and parsing a non-empty blob under the credential `m`
/// yields.
pub open spec fn vault_contents(cipher: Seq<u8>, m: MasterPassword<Verified>) -> Option<
    Seq<EntryView>,
> {
    match opened(cipher, vault_key(m)) {
        Some(p) => dec_entries(p),
        None => None,
    }
}

/// What opening a stored vault file yields: an empty file is an empty
/// vault, anything else must decrypt and parse.
pub open spec fn loaded_contents(content: Seq<u8>, m: MasterPassword<Verified>) -> Option<
    Seq<EntryView>,
> {
    if content.len() == 0 {
        Some(Seq::empty())
    } else {
        vault_contents(content, m)
    }
}

/// Check that no two entries of the vector collide.
fn entries_dedup_ok(entries: &Vec<PasswordEntry>) -> (r: bool)
    ensures
        r == dedup_ok(views_of(entries@)),
{
    let n = entries.len();
    let mut i: usize = 0;
    while i < n
        invariant
            i <= n,
            n == entries@.len(),
            forall|a: int, b: int|
                0 <= a < b < i ==> !same_key(
                    #[trigger] views_of(entries@)[a],
                    #[trigger] views_of(entries@)[b],
                ),
        decreases n - i,
    {
        let mut j: usize = 0;
        while j < i
            invariant
                j <= i < n,
                n == entries@.len(),
                forall|b: int|
                    0 <= b < j ==> !same_key(
                        #[trigger] views_of(entries@)[b],
                        views_of(entries@)[i as int],
                    ),
            decreases i - j,
        {
            if same_entry_key(&entries[j], &entries[i]) {
                proof {
                    assert(views_of(entries@)[j as int] == entries@[j as int]@);
                    assert(views_of(entries@)[i as int] == entries@[i as int]@);
                    assert(same_key(views_of(entries@)[j as int], views_of(entries@)[i as int]));
                }
                return false;
            }
            j = j + 1;
        }
        i = i + 1;
    }
    true
}

/// Round trip of the whole vault: a non-empty blob that decrypts under the
/// credential's key to the encoding of the entries `es` loads back to
/// exactly `es`. With the contract of `dump`, what `dump` writes under a
/// credential, `load` under the same credential returns unchanged.
pub proof fn lemma_vault_round_trip(
    es: Seq<EntryView>,
    m: MasterPassword<Verified>,
    blob: Seq<u8>,
)
    requires
        blob.len() > 0,
        opened(blob, vault_key(m)) == Some(enc_entries(es)),
        es.len() <= u64::MAX,
        entries_fit(es),
    ensures
        loaded_contents(blob, m) == Some(es),
{
    crate::codec::lemma_codec_round_trip(es);
}

/// Round trip across a re-keying: when a stored vault holds the entries
/// `es` under the old credential, and a new non-empty blob decrypts under
/// the new credential's key to the encoding of `es` (what
/// `re_encrypt_contents` returns), then loading the new blob under the new
/// credential yields exactly `es`.
pub proof fn lemma_rekey_round_trip(
    old_blob: Seq<u8>,
    old_m: MasterPassword<Verified>,
    es: Seq<EntryView>,
    new_m: MasterPassword<Verified>,
    new_blob: Seq<u8>,
)
    requires
        loaded_contents(old_blob, old_m) == Some(es),
        opened(new_blob, vault_key(new_m)) == Some(enc_entries(es)),
        new_blob.len() > 0,
    ensures
        loaded_contents(new_blob, new_m) == Some(es),
{
    if old_blob.len() == 0 {
        assert(es =~= Seq::<EntryView>::empty());
        crate::codec::lemma_codec_round_trip(es);
    } else {
        let p = opened(old_blob, vault_key(old_m))->0;
        lemma_dec_entries_fit(p);
        lemma_vault_round_trip(es, new_m, new_blob);
    }
}

impl PasswordStore {
    /// The mathematical contents of the vault.
    pub open spec fn entries(&self) -> Seq<EntryView> {
        views_of(self.passwords@)
    }

    /// The key protecting this vault's blob.
    pub open spec fn key(&self) -> Seq<u8> {
        vault_key(self.master_password)
    }

    /// A well-formed vault: a usable credential and no colliding entries.
    pub open spec fn wf(&self) -> bool {
        self.master_password.wf() && dedup_ok(self.entries())
    }

    /// Open a vault from the stored file contents, or an empty vault when
    /// the file did not exist.
    pub fn new(content: Option<Vec<u8>>, master_password: MasterPassword<Verified>) -> (r: Result<
        Self,
        PasswordStoreError,
    >)
        requires
            master_password.wf(),
        ensures
            match content {
                None => r matches Ok(st) && st.wf() && st.entries() == Seq::<EntryView>::empty()
                    && st.master_password == master_password,
                Some(c) => {
                    &&& (r matches Ok(st) ==> st.wf() && st.master_password == master_password
                        && loaded_contents(c@, master_password) == Some(st.entries()))
                    &&& (r is Ok <==> (loaded_contents(c@, master_password) matches Some(es)
                        && dedup_ok(es)))
                },
            },
    {
        match content {
            Some(c) => PasswordStore::load(&c, master_password),
            None => Ok(PasswordStore { passwords: Vec::new(), master_password }),
        }
    }

    /// Serialize and encrypt the entries under the bound credential's key.
    pub fn encrypt_entry(&self) -> (r: Result<Vec<u8>, PasswordStoreError>)
        requires
            self.master_password.wf(),
        ensures
            r matches Ok(c) ==> opened(c@, self.key()) == Some(enc_entries(self.entries()))
                && c@.len() >= 24,
            r is Ok ==> entries_fit(self.entries()) && self.entries().len() <= u64::MAX,
    {
        let salt = vault_salt_bytes();
        let key = self.master_password.derive_encryption_key(salt.as_slice());
        let plain = encode_entries(&self.passwords);
        seal_bytes(&plain, &key)
    }

    /// Decrypt a blob under the given credential and parse the entries.
    pub fn decrypt_entry(content: &Vec<u8>, master_password: MasterPassword<Verified>) -> (r:
        Result<Self, PasswordStoreError>)
        requires
            master_password.wf(),
        ensures
            r matches Ok(st) ==> st.wf() && st.master_password == master_password
                && vault_contents(content@, master_password) == Some(st.entries()),
            r is Ok <==> (vault_contents(content@, master_password) matches Some(es) && dedup_ok(
                es,
            )),
    {
        let salt = vault_salt_bytes();
        let key = master_password.derive_encryption_key(salt.as_slice());
        let plain = open_bytes(content, &key)?;
        match decode_entries(&plain) {
            Some(passwords) => {
                if entries_dedup_ok(&passwords) {
                    Ok(PasswordStore { passwords, master_password })
                } else {
                    Err(
                        PasswordStoreError::UnableToDecryptError(
                            "Vault holds colliding entries".to_owned(),
                        ),
                    )
                }
            },
            None => Err(
                PasswordStoreError::UnableToDecryptError("Failed to decrypt entries".to_owned()),
            ),
        }
    }

    /// Serialize and encrypt the entries: what `dump` writes to disk.
    pub fn dump(&self) -> (r: Result<Vec<u8>, PasswordStoreError>)
        requires
            self.master_password.wf(),
        ensures
            r matches Ok(c) ==> opened(c@, self.key()) == Some(enc_entries(self.entries()))
                && c@.len() >= 24,
            r is Ok ==> entries_fit(self.entries()) && self.entries().len() <= u64::MAX,
    {
        self.encrypt_entry()
    }

    /// Open a vault from the raw contents of the stored file: empty file,
    /// empty vault; otherwise decrypt and parse.
    pub fn load(content: &Vec<u8>, master_password: MasterPassword<Verified>) -> (r: Result<
        Self,
        PasswordStoreError,
    >)
        requires
            master_password.wf(),
        ensures
            r matches Ok(st) ==> st.wf() && st.master_password == master_password
                && loaded_contents(content@, master_password) == Some(st.entries()),
            r is Ok <==> (loaded_contents(content@, master_password) matches Some(es) && dedup_ok(
                es,
            )),
    {
        if content.len() == 0 {
            Ok(PasswordStore { passwords: Vec::new(), master_password })
        } else {
            PasswordStore::decrypt_entry(content, master_password)
        }
    }

    /// Append an entry unless one with the same (service, identifier)
    /// already exists; a collision is reported and changes nothing.
    pub fn push_entry(&mut self, entry: PasswordEntry) -> (r: Result<(), PasswordStoreError>)
        requires
            old(self).wf(),
        ensures
            final(self).wf(),
            final(self).master_password == old(self).master_password,
            r is Ok <==> !(exists|i: int|
                0 <= i < old(self).entries().len() && same_key(
                    #[trigger] old(self).entries()[i],
                    entry@,
                )),
            r is Ok ==> final(self).entries() == old(self).entries().push(entry@),
            r is Err ==> final(self).entries() == old(self).entries() && (r matches Err(e)
                && e is DuplicateEntry),
    {
        if find_same_key(&self.passwords, &entry) {
            return Err(PasswordStoreError::DuplicateEntry);
        }
        let ghost old_views = views_of(self.passwords@);
        self.passwords.push(entry);
        proof {
            assert(views_of(self.passwords@) =~= old_views.push(entry@));
        }
        Ok(())
    }

    /// Rebind the vault to a new Verified credential, keeping the entries.
    pub fn change_master(&mut self, new_master: MasterPassword<Verified>)
        requires
            old(self).wf(),
            new_master.wf(),
        ensures
            final(self).wf(),
            final(self).passwords == old(self).passwords,
            final(self).master_password == new_master,
    {
        self.master_password = new_master;
    }
}

/// An entry matches an exact lookup when its service name equals the query,
/// case-insensitively.
pub open spec fn exact_matches(e: EntryView, query: Seq<char>) -> bool {
    lower_of(e.service) == lower_of(query)
}

/// The needle occurs contiguously inside the haystack.
pub open spec fn contains_substr(hay: Seq<char>, needle: Seq<char>) -> bool {
    exists|k: int|
        0 <= k && k + needle.len() <= hay.len() && #[trigger] hay.subrange(
            k,
            k + needle.len() as int,
        ) == needle
}

/// An entry matches a fuzzy lookup when the lowercased query occurs inside
/// its lowercased service name.
pub open spec fn fuzzy_matches(e: EntryView, query: Seq<char>) -> bool {
    contains_substr(lower_of(e.service), lower_of(query))
}

/// The entries an exact lookup returns, in stored order.
pub open spec fn exact_results(es: Seq<EntryView>, query: Seq<char>) -> Seq<EntryView>
    decreases es.len(),
{
    if es.len() == 0 {
        Seq::empty()
    } else {
        let rest = exact_results(es.drop_last(), query);
        if exact_matches(es.last(), query) {
            rest.push(es.last())
        } else {
            rest
        }
    }
}

/// The entries a fuzzy lookup returns, in stored order.
pub open spec fn fuzzy_results(es: Seq<EntryView>, query: Seq<char>) -> Seq<EntryView>
    decreases es.len(),
{
    if es.len() == 0 {
        Seq::empty()
    } else {
        let rest = fuzzy_results(es.drop_last(), query);
        if fuzzy_matches(es.last(), query) {
            rest.push(es.last())
        } else {
            rest
        }
    }
}

/// What an exact lookup returns comes from the entries and matches exactly.
proof fn lemma_exact_results_sound(es: Seq<EntryView>, query: Seq<char>, x: EntryView)
    requires
        exact_results(es, query).contains(x),
    ensures
        es.contains(x),
        exact_matches(x, query),
    decreases es.len(),
{
    if es.len() == 0 {
    } else {
        let rest = exact_results(es.drop_last(), query);
        if exact_matches(es.last(), query) && x == es.last() {
            assert(es[es.len() - 1] == x);
        } else {
            assert(rest.contains(x)) by {
                if exact_matches(es.last(), query) {
                    let i = choose|i: int|
                        0 <= i < rest.push(es.last()).len() && rest.push(es.last())[i] == x;
                    assert(rest[i] == x);
                }
            }
            lemma_exact_results_sound(es.drop_last(), query, x);
            let i = choose|i: int| 0 <= i < es.drop_last().len() && es.drop_last()[i] == x;
            assert(es[i] == x);
        }
    }
}

/// Every stored entry that matches a fuzzy lookup is in its results.
proof fn lemma_fuzzy_results_complete(es: Seq<EntryView>, query: Seq<char>, x: EntryView)
    requires
        es.contains(x),
        fuzzy_matches(x, query),
    ensures
        fuzzy_results(es, query).contains(x),
    decreases es.len(),
{
    if es.len() == 0 {
    } else {
        let rest = fuzzy_results(es.drop_last(), query);
        if x == es.last() {
            assert(fuzzy_results(es, query) == rest.push(x));
            assert(rest.push(x)[rest.push(x).len() - 1] == x);
        } else {
            let i = choose|i: int| 0 <= i < es.len() && es[i] == x;
            assert(es.drop_last()[i] == x);
            lemma_fuzzy_results_complete(es.drop_last(), query, x);
            let j = choose|j: int| 0 <= j < rest.len() && rest[j] == x;
            if fuzzy_matches(es.last(), query) {
                assert(rest.push(es.last())[j] == x);
            }
        }
    }
}

/// A service name that equals the query (case-insensitively) also contains
/// it: exact lookup results are always among the fuzzy lookup results for
/// the same query.
pub proof fn lemma_fuzzy_superset(es: Seq<EntryView>, query: Seq<char>)
    ensures
        forall|x: EntryView|
            exact_results(es, query).contains(x) ==> #[trigger] fuzzy_results(
                es,
                query,
            ).contains(x),
{
    assert forall|x: EntryView|
        exact_results(es, query).contains(x) implies #[trigger] fuzzy_results(
        es,
        query,
    ).contains(x) by {
        lemma_exact_results_sound(es, query, x);
        let l = lower_of(x.service);
        let nd = lower_of(query);
        assert(contains_substr(l, nd)) by {
            assert(l.subrange(0, 0 + nd.len() as int) =~= nd);
        }
        lemma_fuzzy_results_complete(es, query, x);
    }
}

/// A fuzzy lookup comes back empty exactly when no stored entry's
/// lowercased service name contains the lowercased query.
pub proof fn lemma_fuzzy_empty(es: Seq<EntryView>, query: Seq<char>)
    ensures
        fuzzy_results(es, query).len() == 0 <==> (forall|i: int|
            0 <= i < es.len() ==> !fuzzy_matches(#[trigger] es[i], query)),
    decreases es.len(),
{
    if es.len() == 0 {
    } else {
        lemma_fuzzy_empty(es.drop_last(), query);
        let rest = fuzzy_results(es.drop_last(), query);
        if fuzzy_results(es, query).len() == 0 {
            assert(!fuzzy_matches(es.last(), query));
            assert forall|i: int| 0 <= i < es.len() implies !fuzzy_matches(
                #[trigger] es[i],
                query,
            ) by {
                if i < es.len() - 1 {
                    assert(es.drop_last()[i] == es[i]);
                } else {
                    assert(es[i] == es.last());
                }
            }
        } else {
            if fuzzy_matches(es.last(), query) {
                assert(es[es.len() - 1] == es.last());
            } else {
                assert(rest.len() != 0);
                assert(exists|i: int|
                    0 <= i < es.drop_last().len() && fuzzy_matches(
                        #[trigger] es.drop_last()[i],
                        query,
                    ));
                let i = choose|i: int|
                    0 <= i < es.drop_last().len() && fuzzy_matches(es.drop_last()[i], query);
                assert(fuzzy_matches(es[i], query));
            }
        }
    }
}

/// Decide whether the needle occurs inside the haystack.
fn str_contains_sub(hay: &str, needle: &str) -> (r: bool)
    ensures
        r == contains_substr(hay@, needle@),
{
    let n = hay.unicode_len();
    let m = needle.unicode_len();
    if m > n {
        return false;
    }
    if m == 0 {
        proof {
            assert(hay@.subrange(0, 0 + needle@.len() as int) =~= needle@);
        }
        return true;
    }
    let mut k: usize = 0;
    while k <= n - m
        invariant
            1 <= m <= n,
            n == hay@.len(),
            m == needle@.len(),
            k <= n - m + 1,
            forall|p: int| 0 <= p < k ==> #[trigger] hay@.subrange(p, p + m) != needle@,
        decreases n - k,
    {
        let mut j: usize = 0;
        let mut matched = true;
        while j < m
            invariant
                k + m <= n,
                n == hay@.len(),
                m == needle@.len(),
                j <= m,
                matched ==> forall|t: int| 0 <= t < j ==> hay@[k + t] == needle@[t],
                !matched ==> hay@.subrange(k as int, k + m) != needle@,
            decreases m - j,
        {
            let hc = hay.get_char(k + j);
            let nc = needle.get_char(j);
            if hc != nc {
                proof {
                    assert(hay@.subrange(k as int, k + m)[j as int] == hay@[k + j]);
                }
                matched = false;
                j = m;
            } else {
                j = j + 1;
            }
        }
        if matched {
            proof {
                assert(hay@.subrange(k as int, k + m) =~= needle@);
            }
            return true;
        }
        k = k + 1;
    }
    proof {
        assert forall|p: int| 0 <= p && p + m <= n implies #[trigger] hay@.subrange(p, p + m) != needle@ by {
            assert(p < k);
        }
    }
    false
}

impl PasswordStore {
    /// All entries whose service name equals `service`, case-insensitively.
    pub fn get(&self, service: &str) -> (r: Vec<PasswordEntry>)
        ensures
            views_of(r@) == exact_results(self.entries(), service@),
    {
        let q = lowercase(service);
        let mut out: Vec<PasswordEntry> = Vec::new();
        let n = self.passwords.len();
        let mut i: usize = 0;
        while i < n
            invariant
                i <= n,
                n == self.passwords@.len(),
                q@ == lower_of(service@),
                views_of(out@) == exact_results(self.entries().take(i as int), service@),
            decreases n - i,
        {
            let ls = lowercase(self.passwords[i].service.as_str());
            let ghost prefix = self.entries().take(i as int);
            proof {
                assert(self.entries().take(i + 1).drop_last() =~= prefix);
                assert(self.entries().take(i + 1).last() == self.entries()[i as int]);
                assert(views_of(self.passwords@)[i as int] == self.passwords@[i as int]@);
            }
            if ls.eq(&q) {
                let dup = self.passwords[i].duplicate();
                let ghost out_views = views_of(out@);
                out.push(dup);
                proof {
                    assert(views_of(out@) =~= out_views.push(self.entries()[i as int]));
                }
            }
            i = i + 1;
        }
        proof {
            assert(self.entries().take(n as int) =~= self.entries());
        }
        out
    }

    /// All entries whose lowercased service name contains the lowercased
    /// query.
    pub fn fuzzy_find(&self, service: &str) -> (r: Vec<PasswordEntry>)
        ensures
            views_of(r@) == fuzzy_results(self.entries(), service@),
    {
        let q = lowercase(service);
        let mut out: Vec<PasswordEntry> = Vec::new();
        let n = self.passwords.len();
        let mut i: usize = 0;
        while i < n
            invariant
                i <= n,
                n == self.passwords@.len(),
                q@ == lower_of(service@),
                views_of(out@) == fuzzy_results(self.entries().take(i as int), service@),
            decreases n - i,
        {
            let ls = lowercase(self.passwords[i].service.as_str());
            let ghost prefix = self.entries().take(i as int);
            proof {
                assert(self.entries().take(i + 1).drop_last() =~= prefix);
                assert(self.entries().take(i + 1).last() == self.entries()[i as int]);
                assert(views_of(self.passwords@)[i as int] == self.passwords@[i as int]@);
            }
            if str_contains_sub(ls.as_str(), q.as_str()) {
                let dup = self.passwords[i].duplicate();
                let ghost out_views = views_of(out@);
                out.push(dup);
                proof {
                    assert(views_of(out@) =~= out_views.push(self.entries()[i as int]));
                }
            }
            i = i + 1;
        }
        proof {
            assert(self.entries().take(n as int) =~= self.entries());
        }
        out
    }
}

/// Compare two byte vectors.
fn bytes_eq(a: &Vec<u8>, b: &Vec<u8>) -> (r: bool)
    ensures
        r == (a@ == b@),
{
    if a.len() != b.len() {
        return false;
    }
    let n = a.len();
    let mut i: usize = 0;
    while i < n
        invariant
            i <= n,
            n == a@.len() == b@.len(),
            forall|k: int| 0 <= k < i ==> a@[k] == b@[k],
        decreases n - i,
    {
        if a[i] != b[i] {
            return false;
        }
        i = i + 1;
    }
    proof {
        assert(a@ =~= b@);
    }
    true
}

/// Decide whether two entries are equal in every field.
fn entry_eq(a: &PasswordEntry, b: &PasswordEntry) -> (r: bool)
    ensures
        r == (a@ == b@),
{
    let r = a.service.eq(&b.service) && opt_string_eq(&a.username, &b.username) && bytes_eq(
        &a.password.password,
        &b.password.password,
    ) && opt_string_eq(&a.other, &b.other);
    proof {
        if r {
            assert(a@ =~= b@);
        }
    }
    r
}

/// Decide whether the list holds an entry equal to `e`.
fn list_contains_entry(t: &Vec<PasswordEntry>, e: &PasswordEntry) -> (r: bool)
    ensures
        r == views_of(t@).contains(e@),
{
    let n = t.len();
    let mut i: usize = 0;
    while i < n
        invariant
            i <= n,
            n == t@.len(),
            forall|k: int| 0 <= k < i ==> #[trigger] views_of(t@)[k] != e@,
        decreases n - i,
    {
        if entry_eq(&t[i], e) {
            proof {
                assert(views_of(t@)[i as int] == e@);
            }
            return true;
        }
        i = i + 1;
    }
    proof {
        if views_of(t@).contains(e@) {
            let k = choose|k: int| 0 <= k < views_of(t@).len() && views_of(t@)[k] == e@;
            assert(views_of(t@)[k] != e@);
        }
    }
    false
}

/// The entries that stay when every entry equal to one of `ts` is removed.
pub open spec fn remove_results(es: Seq<EntryView>, ts: Seq<EntryView>) -> Seq<EntryView>
    decreases es.len(),
{
    if es.len() == 0 {
        Seq::empty()
    } else {
        let rest = remove_results(es.drop_last(), ts);
        if ts.contains(es.last()) {
            rest
        } else {
            rest.push(es.last())
        }
    }
}

/// What stays after a removal comes from the stored entries.
proof fn lemma_remove_results_sound(es: Seq<EntryView>, ts: Seq<EntryView>, x: EntryView)
    requires
        remove_results(es, ts).contains(x),
    ensures
        es.contains(x),
    decreases es.len(),
{
    if es.len() == 0 {
    } else {
        let rest = remove_results(es.drop_last(), ts);
        if !ts.contains(es.last()) && x == es.last() {
            assert(es[es.len() - 1] == x);
        } else {
            assert(rest.contains(x)) by {
                if !ts.contains(es.last()) {
                    let i = choose|i: int|
                        0 <= i < rest.push(es.last()).len() && rest.push(es.last())[i] == x;
                    assert(rest[i] == x);
                }
            }
            lemma_remove_results_sound(es.drop_last(), ts, x);
            let i = choose|i: int| 0 <= i < es.drop_last().len() && es.drop_last()[i] == x;
            assert(es[i] == x);
        }
    }
}

/// Removal keeps the no-collision invariant.
proof fn lemma_remove_results_dedup(es: Seq<EntryView>, ts: Seq<EntryView>)
    requires
        dedup_ok(es),
    ensures
        dedup_ok(remove_results(es, ts)),
    decreases es.len(),
{
    if es.len() == 0 {
    } else {
        let head = es.drop_last();
        assert(dedup_ok(head)) by {
            assert(forall|i: int, j: int|
                0 <= i < j < head.len() ==> #[trigger] head[i] == es[i] && #[trigger] head[j]
                    == es[j]);
        }
        lemma_remove_results_dedup(head, ts);
        let rest = remove_results(head, ts);
        if !ts.contains(es.last()) {
            let out = rest.push(es.last());
            assert forall|i: int, j: int| 0 <= i < j < out.len() implies !same_key(
                #[trigger] out[i],
                #[trigger] out[j],
            ) by {
                if j < out.len() - 1 {
                } else {
                    lemma_remove_results_sound(head, ts, out[i]);
                    let k = choose|k: int| 0 <= k < head.len() && head[k] == out[i];
                    assert(es[k] == out[i]);
                    assert(!same_key(es[k], es[es.len() - 1]));
                }
            }
        }
    }
}

impl PasswordStore {
    /// Remove every stored entry that equals one of the given entries.
    pub fn remove(&mut self, t: Vec<PasswordEntry>) -> (r: Result<(), PasswordStoreError>)
        requires
            old(self).wf(),
        ensures
            final(self).wf(),
            final(self).master_password == old(self).master_password,
            final(self).entries() == remove_results(old(self).entries(), views_of(t@)),
            r is Ok,
    {
        let ghost t_views = views_of(t@);
        let mut kept: Vec<PasswordEntry> = Vec::new();
        let n = self.passwords.len();
        let mut i: usize = 0;
        while i < n
            invariant
                i <= n,
                n == self.passwords@.len(),
                views_of(kept@) == remove_results(self.entries().take(i as int), views_of(t@)),
            decreases n - i,
        {
            let ghost prefix = self.entries().take(i as int);
            proof {
                assert(self.entries().take(i + 1).drop_last() =~= prefix);
                assert(self.entries().take(i + 1).last() == self.entries()[i as int]);
                assert(views_of(self.passwords@)[i as int] == self.passwords@[i as int]@);
            }
            if !list_contains_entry(&t, &self.passwords[i]) {
                let dup = self.passwords[i].duplicate();
                let ghost kept_views = views_of(kept@);
                kept.push(dup);
                proof {
                    assert(views_of(kept@) =~= kept_views.push(self.entries()[i as int]));
                }
            }
            i = i + 1;
        }
        proof {
            assert(self.entries().take(n as int) =~= self.entries());
            lemma_remove_results_dedup(self.entries(), t_views);
        }
        self.passwords = kept;
        Ok(())
    }
}

impl PasswordEntry {
    /// Encrypt this entry alone under a key derived from the given master
    /// secret and the fixed vault salt.
    pub fn encrypt_entry(&self, master_pass: &Vec<u8>) -> (r: Result<Vec<u8>, PasswordStoreError>)
        ensures
            r matches Ok(c) ==> opened(c@, derived_key(master_pass@, vault_salt())) == Some(
                crate::codec::enc_entry(self@),
            ) && c@.len() >= 24,
            r is Ok ==> entry_fits(self@),
    {
        let salt = vault_salt_bytes();
        let key = crate::master::derive_encrytion_key(master_pass, salt.as_slice());
        let plain = crate::codec::encode_one_entry(self);
        seal_bytes(&plain, &key)
    }

    /// Decrypt a blob that holds one entry, under a key derived from the
    /// given master secret and the fixed vault salt.
    pub fn decrypt_entry(content: &Vec<u8>, master_pass: &Vec<u8>) -> (r: Result<
        PasswordEntry,
        PasswordStoreError,
    >)
        ensures
            r matches Ok(e) ==> (match opened(content@, derived_key(master_pass@, vault_salt())) {
                Some(p) => crate::codec::dec_entry(p) matches Some((ev, rest)) && ev == e@
                    && rest.len() == 0,
                None => false,
            }),
            r is Ok <==> (match opened(content@, derived_key(master_pass@, vault_salt())) {
                Some(p) => crate::codec::dec_entry(p) matches Some((ev, rest)) && rest.len() == 0,
                None => false,
            }),
    {
        let salt = vault_salt_bytes();
        let key = crate::master::derive_encrytion_key(master_pass, salt.as_slice());
        let plain = open_bytes(content, &key)?;
        match crate::codec::decode_one_entry(&plain) {
            Some(e) => Ok(e),
            None => Err(
                PasswordStoreError::UnableToDecryptError("Failed to decrypt entries".to_owned()),
            ),
        }
    }
}

impl MasterPassword<Verified> {
    /// Re-encrypt a vault blob: open it under the old credential and seal
    /// its entries again under this credential's key. The caller replaces
    /// the stored file only with the returned blob.
    pub fn re_encrypt_contents(
        &self,
        old_master: MasterPassword<Verified>,
        encrypted: &Vec<u8>,
    ) -> (r: Result<Vec<u8>, PasswordStoreError>)
        requires
            self.wf(),
            old_master.wf(),
        ensures
            r matches Ok(nb) ==> (loaded_contents(encrypted@, old_master) matches Some(es)
                && dedup_ok(es) && opened(nb@, vault_key(*self)) == Some(enc_entries(es))
                && nb@.len() >= 24),
            (loaded_contents(encrypted@, old_master) matches Some(es) && dedup_ok(es)) || r is Err,
    {
        let mut storage = PasswordStore::load(encrypted, old_master)?;
        storage.change_master(self.duplicate());
        storage.dump()
    }
}

} // verus!

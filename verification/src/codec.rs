//! Byte framing for the vault blob: entries are serialized into a single
//! self-describing byte sequence (length-prefixed fields, UTF-8 strings),
//! and parsed back. Encoding and decoding are proved inverse.

use crate::entry::{opt_str_view, EntryView, Password, PasswordEntry};
use vstd::prelude::*;
use vstd::string::StringSliceAdditionalSpecFns;
use vstd::utf8::{
    decode_utf8, encode_utf8, encode_utf8_decode_utf8, encode_utf8_valid_utf8, valid_utf8,
};

verus! {

/// The views of a sequence of entries.
pub open spec fn views_of(s: Seq<PasswordEntry>) -> Seq<EntryView> {
    s.map_values(|e: PasswordEntry| e@)
}

/// The eight little-endian bytes of a 64-bit length.
pub open spec fn u64_le(n: u64) -> Seq<u8> {
    seq![
        (n & 0xff) as u8,
        ((n >> 8) & 0xff) as u8,
        ((n >> 16) & 0xff) as u8,
        ((n >> 24) & 0xff) as u8,
        ((n >> 32) & 0xff) as u8,
        ((n >> 40) & 0xff) as u8,
        ((n >> 48) & 0xff) as u8,
        ((n >> 56) & 0xff) as u8,
    ]
}

/// The 64-bit value read back from eight little-endian bytes.
pub open spec fn u64_from_le(b: Seq<u8>) -> u64
    recommends
        b.len() == 8,
{
    (b[0] as u64) | ((b[1] as u64) << 8) | ((b[2] as u64) << 16) | ((b[3] as u64) << 24) | ((
    b[4] as u64) << 32) | ((b[5] as u64) << 40) | ((b[6] as u64) << 48) | ((b[7] as u64) << 56)
}

/// Parse a 64-bit length: eight bytes and the rest.
pub open spec fn dec_u64(b: Seq<u8>) -> Option<(u64, Seq<u8>)> {
    if b.len() >= 8 {
        Some((u64_from_le(b.take(8)), b.skip(8)))
    } else {
        None
    }
}

/// A byte field: its length, then its bytes.
pub open spec fn enc_lp_bytes(p: Seq<u8>) -> Seq<u8>
    recommends
        p.len() <= u64::MAX,
{
    u64_le(p.len() as u64) + p
}

/// Parse a byte field.
pub open spec fn dec_lp_bytes(b: Seq<u8>) -> Option<(Seq<u8>, Seq<u8>)> {
    match dec_u64(b) {
        Some((n, r)) => if n <= r.len() {
            Some((r.take(n as int), r.skip(n as int)))
        } else {
            None
        },
        None => None,
    }
}

/// Reading back the eight little-endian bytes of `n` yields `n`.
proof fn lemma_u64_le_round_trip(n: u64)
    ensures
        u64_le(n).len() == 8,
        u64_from_le(u64_le(n)) == n,
{
    assert((((n & 0xff) as u8) as u64) | (((((n >> 8) & 0xff) as u8) as u64) << 8) | (((((n >> 16)
        & 0xff) as u8) as u64) << 16) | (((((n >> 24) & 0xff) as u8) as u64) << 24) | (((((n >> 32)
        & 0xff) as u8) as u64) << 32) | (((((n >> 40) & 0xff) as u8) as u64) << 40) | (((((n >> 48)
        & 0xff) as u8) as u64) << 48) | (((((n >> 56) & 0xff) as u8) as u64) << 56) == n)
        by (bit_vector);
}

/// Parsing an encoded length at the head of a stream yields the length and
/// the rest of the stream.
proof fn lemma_dec_u64(n: u64, rest: Seq<u8>)
    ensures
        dec_u64(u64_le(n) + rest) == Some((n, rest)),
{
    let b = u64_le(n) + rest;
    lemma_u64_le_round_trip(n);
    assert(b.take(8) =~= u64_le(n));
    assert(b.skip(8) =~= rest);
}

/// Parsing an encoded byte field at the head of a stream yields the bytes
/// and the rest of the stream.
proof fn lemma_dec_lp_bytes(p: Seq<u8>, rest: Seq<u8>)
    requires
        p.len() <= u64::MAX,
    ensures
        dec_lp_bytes(enc_lp_bytes(p) + rest) == Some((p, rest)),
{
    let n = p.len() as u64;
    assert(enc_lp_bytes(p) + rest =~= u64_le(n) + (p + rest));
    lemma_dec_u64(n, p + rest);
    assert((p + rest).take(n as int) =~= p);
    assert((p + rest).skip(n as int) =~= rest);
}

/// A decoded entry fits its length prefixes: every field was read through
/// a 64-bit length.
proof fn lemma_dec_entry_fits(b: Seq<u8>)
    requires
        dec_entry(b) is Some,
    ensures
        dec_entry(b) matches Some(p) && entry_fits(p.0),
{
    let (service, r1) = dec_str(b)->0;
    lemma_dec_str_fits(b);
    let (username, r2) = dec_opt_str(r1)->0;
    lemma_dec_opt_str_fits(r1);
    let (password, r3) = dec_lp_bytes(r2)->0;
    let (notes, _r4) = dec_opt_str(r3)->0;
    lemma_dec_opt_str_fits(r3);
}

/// A decoded string field re-encodes to at most a 64-bit length.
proof fn lemma_dec_str_fits(b: Seq<u8>)
    requires
        dec_str(b) is Some,
    ensures
        dec_str(b) matches Some(p) && encode_utf8(p.0).len() <= u64::MAX,
{
    let (p, _r) = dec_lp_bytes(b)->0;
    vstd::utf8::decode_utf8_encode_utf8(p);
}

/// A decoded optional string field re-encodes to at most a 64-bit length.
proof fn lemma_dec_opt_str_fits(b: Seq<u8>)
    requires
        dec_opt_str(b) is Some,
    ensures
        dec_opt_str(b) matches Some(p) && (p.0 matches Some(s) ==> encode_utf8(s).len()
            <= u64::MAX),
{
    if b.len() > 0 && b[0] == 1 {
        lemma_dec_str_fits(b.skip(1));
    }
}

/// Every decoded entry sequence fits the framing's length prefixes.
proof fn lemma_dec_entry_seq_fits(n: nat, b: Seq<u8>)
    requires
        dec_entry_seq(n, b) is Some,
    ensures
        dec_entry_seq(n, b) matches Some(p) && p.0.len() == n && entries_fit(p.0),
    decreases n,
{
    if n == 0 {
    } else {
        let (e, r) = dec_entry(b)->0;
        lemma_dec_entry_fits(b);
        lemma_dec_entry_seq_fits((n - 1) as nat, r);
        let (es, _r2) = dec_entry_seq((n - 1) as nat, r)->0;
        let q = dec_entry_seq(n, b)->0;
        let out = q.0;
        assert(out == seq![e] + es);
        assert(forall|i: int|
            0 <= i < out.len() ==> #[trigger] out[i] == if i == 0 {
                e
            } else {
                es[i - 1]
            });
    }
}

/// Whatever parses as a vault blob fits the framing's length prefixes: the
/// side conditions of the round-trip law hold of every loaded vault.
pub proof fn lemma_dec_entries_fit(b: Seq<u8>)
    requires
        dec_entries(b) is Some,
    ensures
        entries_fit(dec_entries(b)->0),
        dec_entries(b)->0.len() <= u64::MAX,
{
    let (n, r) = dec_u64(b)->0;
    lemma_dec_entry_seq_fits(n as nat, r);
}

/// Round trip of one entry: parsing its encoding yields it back, with
/// nothing left over.
pub proof fn lemma_entry_codec_round_trip(e: EntryView)
    requires
        entry_fits(e),
    ensures
        dec_entry(enc_entry(e)) == Some((e, Seq::<u8>::empty())),
{
    assert(enc_entry(e) + Seq::<u8>::empty() =~= enc_entry(e));
    lemma_dec_entry(e, Seq::empty());
}

/// Append the eight little-endian bytes of `n` to `out`.
fn push_u64(n: u64, out: &mut Vec<u8>)
    ensures
        final(out)@ == old(out)@ + u64_le(n),
{
    out.push((n & 0xff) as u8);
    out.push(((n >> 8) & 0xff) as u8);
    out.push(((n >> 16) & 0xff) as u8);
    out.push(((n >> 24) & 0xff) as u8);
    out.push(((n >> 32) & 0xff) as u8);
    out.push(((n >> 40) & 0xff) as u8);
    out.push(((n >> 48) & 0xff) as u8);
    out.push(((n >> 56) & 0xff) as u8);
    proof {
        assert(final(out)@ =~= old(out)@ + u64_le(n));
    }
}

/// Append a length-prefixed byte field to `out`.
fn push_lp_bytes(p: &Vec<u8>, out: &mut Vec<u8>)
    ensures
        final(out)@ == old(out)@ + enc_lp_bytes(p@),
        p@.len() <= u64::MAX,
{
    let n = p.len();
    push_u64(n as u64, out);
    let mut i: usize = 0;
    while i < p.len()
        invariant
            i <= p@.len(),
            out@ == old(out)@ + u64_le(p@.len() as u64) + p@.subrange(0, i as int),
        decreases p@.len() - i,
    {
        out.push(p[i]);
        proof {
            assert(out@ =~= old(out)@ + u64_le(p@.len() as u64) + p@.subrange(0, i + 1 as int));
        }
        i = i + 1;
    }
    proof {
        assert(out@ =~= old(out)@ + enc_lp_bytes(p@));
    }
}

/// Read a 64-bit length at position `i`.
fn read_u64(buf: &Vec<u8>, i: usize) -> (r: Option<(u64, usize)>)
    requires
        i <= buf@.len(),
    ensures
        match dec_u64(buf@.skip(i as int)) {
            Some((v, rest)) => {
                &&& r matches Some((w, j))
                &&& w == v
                &&& i <= j <= buf@.len()
                &&& buf@.skip(j as int) == rest
            },
            None => r is None,
        },
{
    if buf.len() - i >= 8 {
        let v = (buf[i] as u64) | ((buf[i + 1] as u64) << 8) | ((buf[i + 2] as u64) << 16) | ((
        buf[i + 3] as u64) << 24) | ((buf[i + 4] as u64) << 32) | ((buf[i + 5] as u64) << 40) | ((
        buf[i + 6] as u64) << 48) | ((buf[i + 7] as u64) << 56);
        proof {
            let s = buf@.skip(i as int);
            assert(s.take(8)[0] == buf@[i as int]);
            assert(s.take(8)[1] == buf@[i + 1]);
            assert(s.take(8)[2] == buf@[i + 2]);
            assert(s.take(8)[3] == buf@[i + 3]);
            assert(s.take(8)[4] == buf@[i + 4]);
            assert(s.take(8)[5] == buf@[i + 5]);
            assert(s.take(8)[6] == buf@[i + 6]);
            assert(s.take(8)[7] == buf@[i + 7]);
            assert(buf@.skip(i + 8) =~= s.skip(8));
        }
        Some((v, i + 8))
    } else {
        None
    }
}

/// Read a length-prefixed byte field at position `i`.
fn read_lp_bytes(buf: &Vec<u8>, i: usize) -> (r: Option<(Vec<u8>, usize)>)
    requires
        i <= buf@.len(),
    ensures
        match dec_lp_bytes(buf@.skip(i as int)) {
            Some((p, rest)) => {
                &&& r matches Some((v, j))
                &&& v@ == p
                &&& i <= j <= buf@.len()
                &&& buf@.skip(j as int) == rest
            },
            None => r is None,
        },
{
    match read_u64(buf, i) {
        Some((n, j)) => {
            if n <= (buf.len() - j) as u64 {
                let len = n as usize;
                let mut v: Vec<u8> = Vec::new();
                let mut k: usize = 0;
                while k < len
                    invariant
                        k <= len,
                        j + len <= buf@.len() <= usize::MAX,
                        v@ == buf@.subrange(j as int, j + k as int),
                    decreases len - k,
                {
                    v.push(buf[j + k]);
                    proof {
                        assert(v@ =~= buf@.subrange(j as int, j + (k + 1) as int));
                    }
                    k = k + 1;
                }
                proof {
                    let s = buf@.skip(i as int);
                    let rest1 = buf@.skip(j as int);
                    assert(v@ =~= rest1.take(n as int));
                    assert(buf@.skip(j + n as int) =~= rest1.skip(n as int));
                }
                Some((v, j + len))
            } else {
                None
            }
        },
        None => None,
    }
}

/// A string field: its UTF-8 bytes as a byte field.
pub open spec fn enc_str(s: Seq<char>) -> Seq<u8> {
    enc_lp_bytes(encode_utf8(s))
}

/// Parse a string field.
pub open spec fn dec_str(b: Seq<u8>) -> Option<(Seq<char>, Seq<u8>)> {
    match dec_lp_bytes(b) {
        Some((p, r)) => if valid_utf8(p) {
            Some((decode_utf8(p), r))
        } else {
            None
        },
        None => None,
    }
}

/// An optional string field: a presence byte, then the string if present.
pub open spec fn enc_opt_str(o: Option<Seq<char>>) -> Seq<u8> {
    match o {
        None => seq![0u8],
        Some(s) => seq![1u8] + enc_str(s),
    }
}

/// Parse an optional string field.
pub open spec fn dec_opt_str(b: Seq<u8>) -> Option<(Option<Seq<char>>, Seq<u8>)> {
    if b.len() == 0 {
        None
    } else if b[0] == 0 {
        Some((None, b.skip(1)))
    } else if b[0] == 1 {
        match dec_str(b.skip(1)) {
            Some((s, r)) => Some((Some(s), r)),
            None => None,
        }
    } else {
        None
    }
}

/// Parsing an encoded string field at the head of a stream yields the
/// string and the rest of the stream.
proof fn lemma_dec_str(s: Seq<char>, rest: Seq<u8>)
    requires
        encode_utf8(s).len() <= u64::MAX,
    ensures
        dec_str(enc_str(s) + rest) == Some((s, rest)),
{
    lemma_dec_lp_bytes(encode_utf8(s), rest);
    encode_utf8_valid_utf8(s);
    encode_utf8_decode_utf8(s);
}

/// Parsing an encoded optional string field at the head of a stream yields
/// the option and the rest of the stream.
proof fn lemma_dec_opt_str(o: Option<Seq<char>>, rest: Seq<u8>)
    requires
        o matches Some(s) ==> encode_utf8(s).len() <= u64::MAX,
    ensures
        dec_opt_str(enc_opt_str(o) + rest) == Some((o, rest)),
{
    match o {
        None => {
            assert((seq![0u8] + rest).skip(1) =~= rest);
        },
        Some(s) => {
            let b = enc_opt_str(o) + rest;
            assert(b[0] == 1);
            assert(b.skip(1) =~= enc_str(s) + rest);
            lemma_dec_str(s, rest);
        },
    }
}

/// Append a string field to `out`.
fn push_str_field(s: &String, out: &mut Vec<u8>)
    ensures
        final(out)@ == old(out)@ + enc_str(s@),
        encode_utf8(s@).len() <= u64::MAX,
{
    let bv = s.as_str().as_bytes_vec();
    push_lp_bytes(&bv, out);
}

/// Append an optional string field to `out`.
fn push_opt_str_field(o: &Option<String>, out: &mut Vec<u8>)
    ensures
        final(out)@ == old(out)@ + enc_opt_str(opt_str_view(*o)),
        opt_str_view(*o) matches Some(s) ==> encode_utf8(s).len() <= u64::MAX,
{
    match o {
        None => {
            out.push(0u8);
            proof {
                assert(out@ =~= old(out)@ + enc_opt_str(opt_str_view(*o)));
            }
        },
        Some(s) => {
            out.push(1u8);
            push_str_field(s, out);
            proof {
                assert(out@ =~= old(out)@ + enc_opt_str(opt_str_view(*o)));
            }
        },
    }
}

/// Read a string field at position `i`.
fn read_str_field(buf: &Vec<u8>, i: usize) -> (r: Option<(String, usize)>)
    requires
        i <= buf@.len(),
    ensures
        match dec_str(buf@.skip(i as int)) {
            Some((s, rest)) => {
                &&& r matches Some((v, j))
                &&& v@ == s
                &&& i <= j <= buf@.len()
                &&& buf@.skip(j as int) == rest
            },
            None => r is None,
        },
{
    match read_lp_bytes(buf, i) {
        Some((p, j)) => {
            match crate::util::string_from_utf8(p) {
                Some(s) => {
                    proof {
                        encode_utf8_decode_utf8(s@);
                    }
                    Some((s, j))
                },
                None => None,
            }
        },
        None => None,
    }
}

/// Read an optional string field at position `i`.
fn read_opt_str_field(buf: &Vec<u8>, i: usize) -> (r: Option<(Option<String>, usize)>)
    requires
        i <= buf@.len(),
    ensures
        match dec_opt_str(buf@.skip(i as int)) {
            Some((o, rest)) => {
                &&& r matches Some((v, j))
                &&& opt_str_view(v) == o
                &&& i <= j <= buf@.len()
                &&& buf@.skip(j as int) == rest
            },
            None => r is None,
        },
{
    if i < buf.len() {
        let tag = buf[i];
        proof {
            assert(buf@.skip(i as int)[0] == buf@[i as int]);
            assert(buf@.skip(i + 1 as int) =~= buf@.skip(i as int).skip(1));
        }
        if tag == 0 {
            Some((None, i + 1))
        } else if tag == 1 {
            match read_str_field(buf, i + 1) {
                Some((s, j)) => Some((Some(s), j)),
                None => None,
            }
        } else {
            None
        }
    } else {
        None
    }
}

/// One encoded entry: service, identifier, secret, notes.
pub open spec fn enc_entry(e: EntryView) -> Seq<u8> {
    enc_str(e.service) + enc_opt_str(e.username) + enc_lp_bytes(e.password) + enc_opt_str(e.notes)
}

/// Parse one entry.
pub open spec fn dec_entry(b: Seq<u8>) -> Option<(EntryView, Seq<u8>)> {
    match dec_str(b) {
        Some((service, r1)) => match dec_opt_str(r1) {
            Some((username, r2)) => match dec_lp_bytes(r2) {
                Some((password, r3)) => match dec_opt_str(r3) {
                    Some((notes, r4)) => Some(
                        (EntryView { service, username, password, notes }, r4),
                    ),
                    None => None,
                },
                None => None,
            },
            None => None,
        },
        None => None,
    }
}

/// The field lengths of an entry fit in the 64-bit length prefixes. Always
/// true of an entry held in memory.
pub open spec fn entry_fits(e: EntryView) -> bool {
    &&& encode_utf8(e.service).len() <= u64::MAX
    &&& (e.username matches Some(u) ==> encode_utf8(u).len() <= u64::MAX)
    &&& e.password.len() <= u64::MAX
    &&& (e.notes matches Some(n) ==> encode_utf8(n).len() <= u64::MAX)
}

/// Every entry of the sequence fits its length prefixes.
pub open spec fn entries_fit(es: Seq<EntryView>) -> bool {
    forall|i: int| 0 <= i < es.len() ==> entry_fits(#[trigger] es[i])
}

/// Parsing an encoded entry at the head of a stream yields the entry and
/// the rest of the stream.
proof fn lemma_dec_entry(e: EntryView, rest: Seq<u8>)
    requires
        entry_fits(e),
    ensures
        dec_entry(enc_entry(e) + rest) == Some((e, rest)),
{
    let t_pw = enc_opt_str(e.notes) + rest;
    let t_user = enc_lp_bytes(e.password) + t_pw;
    let t_serv = enc_opt_str(e.username) + t_user;
    assert(enc_entry(e) + rest =~= enc_str(e.service) + t_serv);
    lemma_dec_str(e.service, t_serv);
    lemma_dec_opt_str(e.username, t_user);
    lemma_dec_lp_bytes(e.password, t_pw);
    lemma_dec_opt_str(e.notes, rest);
    assert(EntryView {
        service: e.service,
        username: e.username,
        password: e.password,
        notes: e.notes,
    } =~= e);
}

/// The concatenation of the encodings of a sequence of entries.
pub open spec fn enc_entry_seq(es: Seq<EntryView>) -> Seq<u8>
    decreases es.len(),
{
    if es.len() == 0 {
        Seq::empty()
    } else {
        enc_entry(es[0]) + enc_entry_seq(es.drop_first())
    }
}

/// Parse exactly `n` entries.
pub open spec fn dec_entry_seq(n: nat, b: Seq<u8>) -> Option<(Seq<EntryView>, Seq<u8>)>
    decreases n,
{
    if n == 0 {
        Some((Seq::empty(), b))
    } else {
        match dec_entry(b) {
            Some((e, r)) => match dec_entry_seq((n - 1) as nat, r) {
                Some((es, r2)) => Some((seq![e] + es, r2)),
                None => None,
            },
            None => None,
        }
    }
}

/// Encoding distributes over concatenation of entry sequences.
proof fn lemma_enc_entry_seq_app(a: Seq<EntryView>, b: Seq<EntryView>)
    ensures
        enc_entry_seq(a + b) == enc_entry_seq(a) + enc_entry_seq(b),
    decreases a.len(),
{
    if a.len() == 0 {
        assert(a + b =~= b);
        assert(enc_entry_seq(a) + enc_entry_seq(b) =~= enc_entry_seq(b));
    } else {
        assert((a + b).len() != 0);
        assert((a + b)[0] == a[0]);
        assert((a + b).drop_first() =~= a.drop_first() + b);
        lemma_enc_entry_seq_app(a.drop_first(), b);
        assert(enc_entry(a[0]) + (enc_entry_seq(a.drop_first()) + enc_entry_seq(b)) =~= (enc_entry(
            a[0],
        ) + enc_entry_seq(a.drop_first())) + enc_entry_seq(b));
    }
}

/// Parsing the encoding of `es` at the head of a stream yields `es` and the
/// rest of the stream.
#[verifier::rlimit(100)]
#[verifier::spinoff_prover]
proof fn lemma_dec_entry_seq(es: Seq<EntryView>, rest: Seq<u8>)
    requires
        entries_fit(es),
    ensures
        dec_entry_seq(es.len(), enc_entry_seq(es) + rest) == Some((es, rest)),
    decreases es.len(),
{
    if es.len() == 0 {
        assert(enc_entry_seq(es) + rest =~= rest);
    } else {
        let tail = es.drop_first();
        let tb = enc_entry_seq(tail) + rest;
        let b = enc_entry_seq(es) + rest;
        assert(entries_fit(tail)) by {
            assert(forall|i: int|
                0 <= i < tail.len() ==> #[trigger] tail[i] == es[i + 1] && entry_fits(es[i + 1]));
        }
        assert(enc_entry_seq(es) == enc_entry(es[0]) + enc_entry_seq(tail));
        vstd::seq_lib::lemma_concat_associative(enc_entry(es[0]), enc_entry_seq(tail), rest);
        assert(b == enc_entry(es[0]) + tb);
        lemma_dec_entry(es[0], tb);
        assert(dec_entry(b) == Some((es[0], tb)));
        lemma_dec_entry_seq(tail, rest);
        assert(dec_entry_seq(tail.len(), tb) == Some((tail, rest)));
        assert((es.len() - 1) as nat == tail.len());
        assert(seq![es[0]] + tail =~= es);
        assert(dec_entry_seq(es.len(), b) == Some((seq![es[0]] + tail, rest)));
    }
}

/// The whole vault blob: the entry count, then each entry in order.
pub open spec fn enc_entries(es: Seq<EntryView>) -> Seq<u8>
    recommends
        es.len() <= u64::MAX,
{
    u64_le(es.len() as u64) + enc_entry_seq(es)
}

/// Parse a whole vault blob; every byte must be consumed.
pub open spec fn dec_entries(b: Seq<u8>) -> Option<Seq<EntryView>> {
    match dec_u64(b) {
        Some((n, r)) => match dec_entry_seq(n as nat, r) {
            Some((es, r2)) => if r2.len() == 0 {
                Some(es)
            } else {
                None
            },
            None => None,
        },
        None => None,
    }
}

/// Parsing an encoded entry sequence yields that sequence: the byte framing
/// loses nothing.
pub proof fn lemma_codec_round_trip(es: Seq<EntryView>)
    requires
        es.len() <= u64::MAX,
        entries_fit(es),
    ensures
        dec_entries(enc_entries(es)) == Some(es),
{
    let n = es.len() as u64;
    lemma_dec_u64(n, enc_entry_seq(es));
    assert(enc_entry_seq(es) + Seq::<u8>::empty() =~= enc_entry_seq(es));
    lemma_dec_entry_seq(es, Seq::empty());
}

/// Append one encoded entry to `out`.
fn push_entry_into(e: &PasswordEntry, out: &mut Vec<u8>)
    ensures
        final(out)@ == old(out)@ + enc_entry(e@),
        entry_fits(e@),
{
    push_str_field(&e.service, out);
    push_opt_str_field(&e.username, out);
    push_lp_bytes(&e.password.password, out);
    push_opt_str_field(&e.other, out);
    proof {
        assert(out@ =~= old(out)@ + enc_entry(e@));
    }
}

/// Serialize the entries into one blob. Everything held in memory fits the
/// 64-bit length prefixes of the framing.
pub fn encode_entries(entries: &Vec<PasswordEntry>) -> (r: Vec<u8>)
    ensures
        r@ == enc_entries(views_of(entries@)),
        entries_fit(views_of(entries@)),
        views_of(entries@).len() <= u64::MAX,
{
    let mut out: Vec<u8> = Vec::new();
    let n = entries.len();
    push_u64(n as u64, &mut out);
    let mut i: usize = 0;
    while i < n
        invariant
            i <= n,
            n == entries@.len(),
            out@ == u64_le(entries@.len() as u64) + enc_entry_seq(views_of(entries@).take(i as int)),
            forall|k: int| 0 <= k < i ==> entry_fits(#[trigger] views_of(entries@)[k]),
        decreases n - i,
    {
        push_entry_into(&entries[i], &mut out);
        proof {
            let vs = views_of(entries@);
            assert(vs.take(i + 1) =~= vs.take(i as int) + seq![vs[i as int]]);
            lemma_enc_entry_seq_app(vs.take(i as int), seq![vs[i as int]]);
            assert(seq![vs[i as int]].drop_first() =~= Seq::<EntryView>::empty());
            assert(seq![vs[i as int]].len() == 1);
            assert(seq![vs[i as int]][0] == vs[i as int]);
            assert(enc_entry_seq(Seq::<EntryView>::empty()) =~= Seq::<u8>::empty());
            assert(enc_entry(vs[i as int]) + Seq::<u8>::empty() =~= enc_entry(vs[i as int]));
            assert(enc_entry_seq(seq![vs[i as int]]) =~= enc_entry(vs[i as int]));
            assert(out@ =~= u64_le(entries@.len() as u64) + enc_entry_seq(vs.take(i + 1)));
        }
        i = i + 1;
    }
    proof {
        assert(views_of(entries@).take(n as int) =~= views_of(entries@));
    }
    out
}

/// Read one entry at position `i`.
fn read_entry(buf: &Vec<u8>, i: usize) -> (r: Option<(PasswordEntry, usize)>)
    requires
        i <= buf@.len(),
    ensures
        match dec_entry(buf@.skip(i as int)) {
            Some((ev, rest)) => {
                &&& r matches Some((e, j))
                &&& e@ == ev
                &&& i <= j <= buf@.len()
                &&& buf@.skip(j as int) == rest
            },
            None => r is None,
        },
{
    match read_str_field(buf, i) {
        Some((service, j1)) => match read_opt_str_field(buf, j1) {
            Some((username, j2)) => match read_lp_bytes(buf, j2) {
                Some((pw, j3)) => match read_opt_str_field(buf, j3) {
                    Some((other, j4)) => {
                        let e = PasswordEntry {
                            service,
                            username,
                            password: Password { password: pw },
                            other,
                        };
                        proof {
                            let (ev, _rest) = dec_entry(buf@.skip(i as int))->0;
                            assert(e@ =~= ev);
                        }
                        Some((e, j4))
                    },
                    None => None,
                },
                None => None,
            },
            None => None,
        },
        None => None,
    }
}

/// Serialize one entry alone.
pub fn encode_one_entry(e: &PasswordEntry) -> (r: Vec<u8>)
    ensures
        r@ == enc_entry(e@),
        entry_fits(e@),
{
    let mut out: Vec<u8> = Vec::new();
    push_entry_into(e, &mut out);
    proof {
        assert(out@ =~= enc_entry(e@));
    }
    out
}

/// Parse one entry that fills the whole buffer.
pub fn decode_one_entry(buf: &Vec<u8>) -> (r: Option<PasswordEntry>)
    ensures
        match dec_entry(buf@) {
            Some((ev, rest)) => if rest.len() == 0 {
                r matches Some(e) && e@ == ev
            } else {
                r is None
            },
            None => r is None,
        },
{
    proof {
        assert(buf@.skip(0) =~= buf@);
    }
    match read_entry(buf, 0) {
        Some((e, j)) => {
            proof {
                assert(buf@.skip(j as int).len() == buf@.len() - j);
            }
            if j == buf.len() {
                Some(e)
            } else {
                None
            }
        },
        None => None,
    }
}

/// Parse a whole blob back into entries; `None` when the bytes are not a
/// well-formed vault blob.
#[verifier::rlimit(100)]
pub fn decode_entries(buf: &Vec<u8>) -> (r: Option<Vec<PasswordEntry>>)
    ensures
        match dec_entries(buf@) {
            Some(es) => r matches Some(v) && views_of(v@) == es,
            None => r is None,
        },
{
    proof {
        assert(buf@.skip(0) =~= buf@);
    }
    match read_u64(buf, 0) {
        Some((n, j0)) => {
            let mut out: Vec<PasswordEntry> = Vec::new();
            let mut j = j0;
            let mut k: u64 = 0;
            proof {
                match dec_entry_seq(n as nat, buf@.skip(j0 as int)) {
                    Some((tail, r2)) => {
                        assert(views_of(out@) + tail =~= tail);
                    },
                    None => {},
                }
            }
            while k < n
                invariant
                    k <= n,
                    j <= buf@.len(),
                    dec_u64(buf@) == Some((n, buf@.skip(j0 as int))),
                    match dec_entry_seq((n - k) as nat, buf@.skip(j as int)) {
                        Some((tail, r2)) => dec_entry_seq(n as nat, buf@.skip(j0 as int)) == Some(
                            (views_of(out@) + tail, r2),
                        ),
                        None => dec_entry_seq(n as nat, buf@.skip(j0 as int)) is None,
                    },
                decreases n - k,
            {
                match read_entry(buf, j) {
                    Some((e, j2)) => {
                        proof {
                            let (ev, rest) = dec_entry(buf@.skip(j as int))->0;
                            match dec_entry_seq((n - (k + 1)) as nat, rest) {
                                Some((tail2, r2)) => {
                                    assert(views_of(out@.push(e)) =~= views_of(out@) + seq![e@]);
                                    assert(views_of(out@) + (seq![ev] + tail2) =~= (views_of(out@)
                                        + seq![e@]) + tail2);
                                },
                                None => {},
                            }
                        }
                        out.push(e);
                        j = j2;
                        k = k + 1;
                    },
                    None => {
                        proof {
                            assert((n - k) as nat != 0);
                            assert(dec_entry_seq((n - k) as nat, buf@.skip(j as int)) is None);
                        }
                        return None;
                    },
                }
            }
            proof {
                assert(views_of(out@) + Seq::<EntryView>::empty() =~= views_of(out@));
            }
            if j == buf.len() {
                proof {
                    assert(buf@.skip(j as int) =~= Seq::<u8>::empty());
                }
                Some(out)
            } else {
                proof {
                    assert(buf@.skip(j as int).len() != 0);
                }
                None
            }
        },
        None => None,
    }
}

} // verus!

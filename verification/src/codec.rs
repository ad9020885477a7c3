//! The vault's serialization format, down at the byte level.
//!
//! Every persisted value is laid out with little-endian integers and
//! length-prefixed byte strings; text is stored as UTF-8.  For each shape
//! there is a spec-level encoder and decoder, executable counterparts
//! proved against them, and a lemma that decoding undoes encoding.

use vstd::bytes::{
    spec_u128_from_le_bytes, spec_u128_to_le_bytes, spec_u64_from_le_bytes, spec_u64_to_le_bytes,
    u128_from_le_bytes, u128_to_le_bytes, u64_from_le_bytes, u64_to_le_bytes,
    lemma_auto_spec_u128_to_from_le_bytes, lemma_auto_spec_u64_to_from_le_bytes,
};
use vstd::prelude::*;
use vstd::slice::{slice_subrange, slice_to_vec};
use vstd::utf8::{decode_utf8, encode_utf8, valid_utf8};

use crate::models::{Server, ServerView, VaultData, VaultDataView, ids_unique, server_wf, vault_data_wf, views_of};

verus! {

/// Whether a length fits the 64-bit prefix the format uses.
pub open spec fn fits_u64(n: nat) -> bool {
    n < 0x10000000000000000
}

/// Relies on `String::from_utf8`: it succeeds exactly on valid UTF-8 and
/// returns the string those bytes encode.
#[verifier::external_body]
fn string_from_utf8(v: Vec<u8>) -> (r: Option<String>)
    ensures
        r is Some <==> valid_utf8(v@),
        r matches Some(s) ==> s@ == decode_utf8(v@),
{
    String::from_utf8(v).ok()
}

// ---------------------------------------------------------------------
// Splitting a byte string that is known to hold a concatenation.
// ---------------------------------------------------------------------
/// If the bytes of `b` from `pos` on hold `s1 + s2`, then they hold `s1`
/// and then `s2`.
pub(crate) proof fn lemma_split_concat(b: Seq<u8>, pos: int, s1: Seq<u8>, s2: Seq<u8>)
    requires
        0 <= pos,
        pos + s1.len() + s2.len() <= b.len(),
        b.subrange(pos, pos + s1.len() + s2.len()) == s1 + s2,
    ensures
        b.subrange(pos, pos + s1.len()) == s1,
        b.subrange(pos + s1.len(), pos + s1.len() + s2.len()) == s2,
{
    let whole = b.subrange(pos, pos + s1.len() + s2.len());
    assert forall|i: int| 0 <= i < s1.len() implies b[pos + i] == s1[i] by {
        assert(whole[i] == (s1 + s2)[i]);
    }
    assert forall|i: int| 0 <= i < s2.len() implies b[pos + s1.len() + i] == s2[i] by {
        assert(whole[s1.len() + i] == (s1 + s2)[s1.len() + i]);
    }
    assert(b.subrange(pos, pos + s1.len()) =~= s1);
    assert(b.subrange(pos + s1.len(), pos + s1.len() + s2.len()) =~= s2);
}

// ---------------------------------------------------------------------
// Single bytes.
// ---------------------------------------------------------------------
/// The encoding of one byte.
pub open spec fn spec_enc_u8(x: u8) -> Seq<u8> {
    seq![x]
}

/// Reads one byte.
pub open spec fn spec_dec_u8(b: Seq<u8>, pos: int) -> Option<(u8, int)> {
    if 0 <= pos && pos + 1 <= b.len() {
        Some((b[pos], pos + 1))
    } else {
        None
    }
}

pub(crate) fn enc_u8(out: &mut Vec<u8>, x: u8)
    ensures
        final(out)@ == old(out)@ + spec_enc_u8(x),
{
    out.push(x);
    proof {
        assert(out@ =~= old(out)@ + spec_enc_u8(x));
    }
}

pub(crate) fn dec_u8(b: &Vec<u8>, pos: usize) -> (r: Option<(u8, usize)>)
    requires
        pos <= b@.len(),
    ensures
        r is Some <==> spec_dec_u8(b@, pos as int) is Some,
        r matches Some((x, p)) ==> spec_dec_u8(b@, pos as int) == Some((x, p as int)) && p
            <= b@.len(),
{
    if b.len() - pos < 1 {
        None
    } else {
        Some((b[pos], pos + 1))
    }
}

// ---------------------------------------------------------------------
// 64-bit integers, little endian.
// ---------------------------------------------------------------------
/// The encoding of a 64-bit integer: eight bytes, little endian.
pub open spec fn spec_enc_u64(x: u64) -> Seq<u8> {
    spec_u64_to_le_bytes(x)
}

/// Reads a 64-bit integer.
pub open spec fn spec_dec_u64(b: Seq<u8>, pos: int) -> Option<(u64, int)> {
    if 0 <= pos && pos + 8 <= b.len() {
        Some((spec_u64_from_le_bytes(b.subrange(pos, pos + 8)), pos + 8))
    } else {
        None
    }
}

/// Decoding undoes encoding for 64-bit integers.
pub(crate) proof fn lemma_dec_enc_u64(b: Seq<u8>, pos: int, x: u64)
    requires
        0 <= pos,
        pos + 8 <= b.len(),
        b.subrange(pos, pos + 8) == spec_enc_u64(x),
    ensures
        spec_dec_u64(b, pos) == Some((x, pos + 8)),
{
    lemma_auto_spec_u64_to_from_le_bytes();
}

pub(crate) fn enc_u64(out: &mut Vec<u8>, x: u64)
    ensures
        final(out)@ == old(out)@ + spec_enc_u64(x),
{
    let mut v = u64_to_le_bytes(x);
    out.append(&mut v);
}

pub(crate) fn dec_u64(b: &Vec<u8>, pos: usize) -> (r: Option<(u64, usize)>)
    requires
        pos <= b@.len(),
    ensures
        r is Some <==> spec_dec_u64(b@, pos as int) is Some,
        r matches Some((x, p)) ==> spec_dec_u64(b@, pos as int) == Some((x, p as int)) && p
            <= b@.len(),
{
    if b.len() - pos < 8 {
        None
    } else {
        let s = slice_subrange(b.as_slice(), pos, pos + 8);
        Some((u64_from_le_bytes(s), pos + 8))
    }
}

// ---------------------------------------------------------------------
// 128-bit integers, little endian (record identities).
// ---------------------------------------------------------------------
/// The encoding of a 128-bit integer: sixteen bytes, little endian.
pub open spec fn spec_enc_u128(x: u128) -> Seq<u8> {
    spec_u128_to_le_bytes(x)
}

/// Reads a 128-bit integer.
pub open spec fn spec_dec_u128(b: Seq<u8>, pos: int) -> Option<(u128, int)> {
    if 0 <= pos && pos + 16 <= b.len() {
        Some((spec_u128_from_le_bytes(b.subrange(pos, pos + 16)), pos + 16))
    } else {
        None
    }
}

/// Decoding undoes encoding for 128-bit integers.
proof fn lemma_dec_enc_u128(b: Seq<u8>, pos: int, x: u128)
    requires
        0 <= pos,
        pos + 16 <= b.len(),
        b.subrange(pos, pos + 16) == spec_enc_u128(x),
    ensures
        spec_dec_u128(b, pos) == Some((x, pos + 16)),
{
    lemma_auto_spec_u128_to_from_le_bytes();
    assert(spec_u128_to_le_bytes(x).len() == 16);
}

fn enc_u128(out: &mut Vec<u8>, x: u128)
    ensures
        final(out)@ == old(out)@ + spec_enc_u128(x),
{
    let mut v = u128_to_le_bytes(x);
    out.append(&mut v);
}

fn dec_u128(b: &Vec<u8>, pos: usize) -> (r: Option<(u128, usize)>)
    requires
        pos <= b@.len(),
    ensures
        r is Some <==> spec_dec_u128(b@, pos as int) is Some,
        r matches Some((x, p)) ==> spec_dec_u128(b@, pos as int) == Some((x, p as int)) && p
            <= b@.len(),
{
    if b.len() - pos < 16 {
        None
    } else {
        let s = slice_subrange(b.as_slice(), pos, pos + 16);
        Some((u128_from_le_bytes(s), pos + 16))
    }
}

// ---------------------------------------------------------------------
// Length-prefixed byte strings.
// ---------------------------------------------------------------------
/// The encoding of a byte string: its length as a 64-bit integer, then
/// the bytes themselves.
pub open spec fn spec_enc_bytes(p: Seq<u8>) -> Seq<u8> {
    spec_enc_u64(p.len() as u64) + p
}

/// Reads a length-prefixed byte string.
pub open spec fn spec_dec_bytes(b: Seq<u8>, pos: int) -> Option<(Seq<u8>, int)> {
    match spec_dec_u64(b, pos) {
        None => None,
        Some((n, p)) => if p + n <= b.len() {
            Some((b.subrange(p, p + n), p + n))
        } else {
            None
        },
    }
}

/// Decoding undoes encoding for byte strings.
pub(crate) proof fn lemma_dec_enc_bytes(b: Seq<u8>, pos: int, p: Seq<u8>)
    requires
        0 <= pos,
        fits_u64(p.len()),
        pos + spec_enc_bytes(p).len() <= b.len(),
        b.subrange(pos, pos + spec_enc_bytes(p).len()) == spec_enc_bytes(p),
    ensures
        spec_dec_bytes(b, pos) == Some((p, pos + spec_enc_bytes(p).len())),
{
    lemma_auto_spec_u64_to_from_le_bytes();
    let n = p.len() as u64;
    lemma_split_concat(b, pos, spec_enc_u64(n), p);
    lemma_dec_enc_u64(b, pos, n);
}

pub(crate) fn enc_bytes(out: &mut Vec<u8>, p: &Vec<u8>)
    ensures
        final(out)@ == old(out)@ + spec_enc_bytes(p@),
{
    enc_u64(out, p.len() as u64);
    let ghost mid = out@;
    let mut i: usize = 0;
    while i < p.len()
        invariant
            i <= p@.len(),
            out@ == mid + p@.take(i as int),
        decreases p@.len() - i,
    {
        out.push(p[i]);
        proof {
            assert(out@ =~= mid + p@.take(i + 1));
        }
        i = i + 1;
    }
    proof {
        assert(out@ =~= old(out)@ + spec_enc_bytes(p@));
    }
}

pub(crate) fn dec_bytes(b: &Vec<u8>, pos: usize) -> (r: Option<(Vec<u8>, usize)>)
    requires
        pos <= b@.len(),
    ensures
        r is Some <==> spec_dec_bytes(b@, pos as int) is Some,
        r matches Some(t) ==> spec_dec_bytes(b@, pos as int) == Some((t.0@, t.1 as int)) && t.1
            <= b@.len(),
{
    match dec_u64(b, pos) {
        None => None,
        Some((n, p)) => {
            if ((b.len() - p) as u64) < n {
                None
            } else {
                let n = n as usize;
                let v = slice_to_vec(slice_subrange(b.as_slice(), p, p + n));
                Some((v, p + n))
            }
        },
    }
}

// ---------------------------------------------------------------------
// Text, as length-prefixed UTF-8.
// ---------------------------------------------------------------------
/// The encoding of a string: its UTF-8 bytes, length-prefixed.
pub open spec fn spec_enc_string(s: Seq<char>) -> Seq<u8> {
    spec_enc_bytes(encode_utf8(s))
}

/// Whether a string's UTF-8 form fits the format's length prefix.  Any
/// string held in memory does.
pub open spec fn str_encodable(s: Seq<char>) -> bool {
    fits_u64(encode_utf8(s).len())
}

/// Reads a string: a byte string that must be valid UTF-8.
pub open spec fn spec_dec_string(b: Seq<u8>, pos: int) -> Option<(Seq<char>, int)> {
    match spec_dec_bytes(b, pos) {
        None => None,
        Some((p, q)) => if valid_utf8(p) {
            Some((decode_utf8(p), q))
        } else {
            None
        },
    }
}

/// Decoding undoes encoding for strings.
proof fn lemma_dec_enc_string(b: Seq<u8>, pos: int, s: Seq<char>)
    requires
        0 <= pos,
        str_encodable(s),
        pos + spec_enc_string(s).len() <= b.len(),
        b.subrange(pos, pos + spec_enc_string(s).len()) == spec_enc_string(s),
    ensures
        spec_dec_string(b, pos) == Some((s, pos + spec_enc_string(s).len())),
{
    broadcast use vstd::utf8::encode_utf8_valid_utf8, vstd::utf8::encode_utf8_decode_utf8;

    lemma_dec_enc_bytes(b, pos, encode_utf8(s));
}

fn enc_string(out: &mut Vec<u8>, s: &String)
    ensures
        final(out)@ == old(out)@ + spec_enc_string(s@),
        str_encodable(s@),
{
    let bytes = s.as_str().as_bytes_vec();
    let n: usize = bytes.len();
    proof {
        assert(encode_utf8(s@).len() == n);
    }
    enc_bytes(out, &bytes);
}

fn dec_string(b: &Vec<u8>, pos: usize) -> (r: Option<(String, usize)>)
    requires
        pos <= b@.len(),
    ensures
        r is Some <==> spec_dec_string(b@, pos as int) is Some,
        r matches Some(t) ==> spec_dec_string(b@, pos as int) == Some((t.0@, t.1 as int)) && t.1
            <= b@.len(),
{
    match dec_bytes(b, pos) {
        None => None,
        Some((v, p)) => match string_from_utf8(v) {
            None => None,
            Some(s) => Some((s, p)),
        },
    }
}

// ---------------------------------------------------------------------
// Optional text.
// ---------------------------------------------------------------------
/// The encoding of optional text: a presence byte, then the string if
/// one is there.
pub open spec fn spec_enc_opt_string(o: Option<Seq<char>>) -> Seq<u8> {
    match o {
        None => spec_enc_u8(0),
        Some(s) => spec_enc_u8(1) + spec_enc_string(s),
    }
}

/// Reads optional text.
pub open spec fn spec_dec_opt_string(b: Seq<u8>, pos: int) -> Option<(Option<Seq<char>>, int)> {
    match spec_dec_u8(b, pos) {
        None => None,
        Some((tag, p)) => if tag == 0 {
            Some((None, p))
        } else if tag == 1 {
            match spec_dec_string(b, p) {
                None => None,
                Some((s, q)) => Some((Some(s), q)),
            }
        } else {
            None
        },
    }
}

/// Whether optional text fits the format's length prefixes.
pub open spec fn opt_str_encodable(o: Option<Seq<char>>) -> bool {
    match o {
        None => true,
        Some(s) => str_encodable(s),
    }
}

/// Decoding undoes encoding for optional text.
proof fn lemma_dec_enc_opt_string(b: Seq<u8>, pos: int, o: Option<Seq<char>>)
    requires
        0 <= pos,
        opt_str_encodable(o),
        pos + spec_enc_opt_string(o).len() <= b.len(),
        b.subrange(pos, pos + spec_enc_opt_string(o).len()) == spec_enc_opt_string(o),
    ensures
        spec_dec_opt_string(b, pos) == Some((o, pos + spec_enc_opt_string(o).len())),
{
    match o {
        None => {
            assert(b.subrange(pos, pos + 1)[0] == spec_enc_u8(0)[0]);
        },
        Some(s) => {
            lemma_split_concat(b, pos, spec_enc_u8(1), spec_enc_string(s));
            assert(b.subrange(pos, pos + 1)[0] == spec_enc_u8(1)[0]);
            lemma_dec_enc_string(b, pos + 1, s);
        },
    }
}

fn enc_opt_string(out: &mut Vec<u8>, o: &Option<String>)
    ensures
        final(out)@ == old(out)@ + spec_enc_opt_string(o.deep_view()),
        opt_str_encodable(o.deep_view()),
{
    match o {
        None => {
            enc_u8(out, 0);
        },
        Some(s) => {
            enc_u8(out, 1);
            enc_string(out, s);
            proof {
                assert(out@ =~= old(out)@ + spec_enc_opt_string(o.deep_view()));
            }
        },
    }
}

fn dec_opt_string(b: &Vec<u8>, pos: usize) -> (r: Option<(Option<String>, usize)>)
    requires
        pos <= b@.len(),
    ensures
        r is Some <==> spec_dec_opt_string(b@, pos as int) is Some,
        r matches Some(t) ==> spec_dec_opt_string(b@, pos as int) == Some(
            (t.0.deep_view(), t.1 as int),
        ) && t.1 <= b@.len(),
{
    match dec_u8(b, pos) {
        None => None,
        Some((tag, p)) => {
            if tag == 0 {
                Some((None, p))
            } else if tag == 1 {
                match dec_string(b, p) {
                    None => None,
                    Some((s, q)) => Some((Some(s), q)),
                }
            } else {
                None
            }
        },
    }
}

// ---------------------------------------------------------------------
// Lists of strings (tag sets).
// ---------------------------------------------------------------------
/// The encodings of a sequence of strings, one after the other.
pub open spec fn spec_enc_string_items(ss: Seq<Seq<char>>) -> Seq<u8>
    decreases ss.len(),
{
    if ss.len() == 0 {
        Seq::empty()
    } else {
        spec_enc_string(ss[0]) + spec_enc_string_items(ss.drop_first())
    }
}

/// The encoding of a string list: a count, then the strings.
pub open spec fn spec_enc_strings(ss: Seq<Seq<char>>) -> Seq<u8> {
    spec_enc_u64(ss.len() as u64) + spec_enc_string_items(ss)
}

/// Reads `count` strings, one after the other.
pub open spec fn spec_dec_string_items(b: Seq<u8>, pos: int, count: nat) -> Option<
    (Seq<Seq<char>>, int),
>
    decreases count,
{
    if count == 0 {
        Some((Seq::empty(), pos))
    } else {
        match spec_dec_string(b, pos) {
            None => None,
            Some((s, p)) => match spec_dec_string_items(b, p, (count - 1) as nat) {
                None => None,
                Some((rest, q)) => Some((seq![s] + rest, q)),
            },
        }
    }
}

/// Reads a string list.
pub open spec fn spec_dec_strings(b: Seq<u8>, pos: int) -> Option<(Seq<Seq<char>>, int)> {
    match spec_dec_u64(b, pos) {
        None => None,
        Some((n, p)) => spec_dec_string_items(b, p, n as nat),
    }
}

/// Whether a string list fits the format's length prefixes.
pub open spec fn strings_encodable(ss: Seq<Seq<char>>) -> bool {
    &&& fits_u64(ss.len())
    &&& forall|i: int| 0 <= i < ss.len() ==> str_encodable(#[trigger] ss[i])
}

/// Appending one more string to a list extends its item encoding.
proof fn lemma_enc_string_items_snoc(ss: Seq<Seq<char>>, s: Seq<char>)
    ensures
        spec_enc_string_items(ss.push(s)) == spec_enc_string_items(ss) + spec_enc_string(s),
    decreases ss.len(),
{
    if ss.len() == 0 {
        assert(ss.push(s)[0] == s);
        assert(ss.push(s).drop_first() =~= Seq::<Seq<char>>::empty());
        assert(spec_enc_string_items(ss.push(s).drop_first()) == Seq::<u8>::empty());
        assert(spec_enc_string_items(ss.push(s)) == spec_enc_string(s) + Seq::<u8>::empty());
        assert(spec_enc_string(s) + Seq::<u8>::empty() =~= Seq::<u8>::empty()
            + spec_enc_string(s));
    } else {
        assert(ss.push(s).drop_first() =~= ss.drop_first().push(s));
        lemma_enc_string_items_snoc(ss.drop_first(), s);
        assert(ss.push(s)[0] == ss[0]);
        let a = spec_enc_string(ss[0]);
        let b = spec_enc_string_items(ss.drop_first());
        let c = spec_enc_string(s);
        assert(spec_enc_string_items(ss.push(s)) == a + (b + c));
        assert(a + (b + c) =~= (a + b) + c);
    }
}

/// Decoding undoes encoding for the items of a string list.
proof fn lemma_dec_enc_string_items(b: Seq<u8>, pos: int, ss: Seq<Seq<char>>)
    requires
        0 <= pos,
        forall|i: int| 0 <= i < ss.len() ==> str_encodable(#[trigger] ss[i]),
        pos + spec_enc_string_items(ss).len() <= b.len(),
        b.subrange(pos, pos + spec_enc_string_items(ss).len()) == spec_enc_string_items(ss),
    ensures
        spec_dec_string_items(b, pos, ss.len()) == Some(
            (ss, pos + spec_enc_string_items(ss).len()),
        ),
    decreases ss.len(),
{
    if ss.len() == 0 {
    } else {
        let head = spec_enc_string(ss[0]);
        let tail = spec_enc_string_items(ss.drop_first());
        lemma_split_concat(b, pos, head, tail);
        lemma_dec_enc_string(b, pos, ss[0]);
        lemma_dec_enc_string_items(b, pos + head.len(), ss.drop_first());
        assert(seq![ss[0]] + ss.drop_first() =~= ss);
    }
}

/// Decoding undoes encoding for string lists.
proof fn lemma_dec_enc_strings(b: Seq<u8>, pos: int, ss: Seq<Seq<char>>)
    requires
        0 <= pos,
        strings_encodable(ss),
        pos + spec_enc_strings(ss).len() <= b.len(),
        b.subrange(pos, pos + spec_enc_strings(ss).len()) == spec_enc_strings(ss),
    ensures
        spec_dec_strings(b, pos) == Some((ss, pos + spec_enc_strings(ss).len())),
{
    lemma_auto_spec_u64_to_from_le_bytes();
    let n = ss.len() as u64;
    lemma_split_concat(b, pos, spec_enc_u64(n), spec_enc_string_items(ss));
    lemma_dec_enc_u64(b, pos, n);
    lemma_dec_enc_string_items(b, pos + 8, ss);
}

fn enc_strings(out: &mut Vec<u8>, v: &Vec<String>)
    ensures
        final(out)@ == old(out)@ + spec_enc_strings(v.deep_view()),
        strings_encodable(v.deep_view()),
{
    let ghost ss = v.deep_view();
    enc_u64(out, v.len() as u64);
    let ghost mid = out@;
    let mut i: usize = 0;
    while i < v.len()
        invariant
            i <= v@.len(),
            ss == v.deep_view(),
            ss.len() == v@.len(),
            out@ == mid + spec_enc_string_items(ss.take(i as int)),
            forall|j: int| 0 <= j < i ==> str_encodable(#[trigger] ss[j]),
        decreases v@.len() - i,
    {
        enc_string(out, &v[i]);
        proof {
            assert(ss[i as int] == v@[i as int]@);
            lemma_enc_string_items_snoc(ss.take(i as int), ss[i as int]);
            assert(ss.take(i as int).push(ss[i as int]) =~= ss.take(i + 1));
            assert(out@ =~= mid + spec_enc_string_items(ss.take(i + 1)));
        }
        i = i + 1;
    }
    proof {
        assert(ss.take(ss.len() as int) =~= ss);
        assert(out@ =~= old(out)@ + spec_enc_strings(ss));
    }
}

fn dec_string_items(b: &Vec<u8>, pos: usize, count: u64) -> (r: Option<(Vec<String>, usize)>)
    requires
        pos <= b@.len(),
    ensures
        r is Some <==> spec_dec_string_items(b@, pos as int, count as nat) is Some,
        r matches Some(t) ==> spec_dec_string_items(b@, pos as int, count as nat) == Some(
            (t.0.deep_view(), t.1 as int),
        ) && t.1 <= b@.len(),
    decreases count,
{
    if count == 0 {
        let empty: Vec<String> = Vec::new();
        proof {
            assert(empty.deep_view() =~= Seq::<Seq<char>>::empty());
        }
        Some((empty, pos))
    } else {
        match dec_string(b, pos) {
            None => None,
            Some((s, p)) => {
                match dec_string_items(b, p, count - 1) {
                    None => None,
                    Some((rest, q)) => {
                        let ghost rest_view = rest.deep_view();
                        let mut rest = rest;
                        rest.insert(0, s);
                        proof {
                            assert(rest.deep_view() =~= seq![s@] + rest_view);
                        }
                        Some((rest, q))
                    },
                }
            },
        }
    }
}

fn dec_strings(b: &Vec<u8>, pos: usize) -> (r: Option<(Vec<String>, usize)>)
    requires
        pos <= b@.len(),
    ensures
        r is Some <==> spec_dec_strings(b@, pos as int) is Some,
        r matches Some(t) ==> spec_dec_strings(b@, pos as int) == Some(
            (t.0.deep_view(), t.1 as int),
        ) && t.1 <= b@.len(),
{
    match dec_u64(b, pos) {
        None => None,
        Some((n, p)) => dec_string_items(b, p, n),
    }
}

// ---------------------------------------------------------------------
// Credential records.
// ---------------------------------------------------------------------
/// The encoding of one record: identity, name, host, port, username,
/// password, optional description, both timestamps, then the tag list.
pub open spec fn spec_enc_server(v: ServerView) -> Seq<u8> {
    spec_enc_u128(v.id) + (spec_enc_string(v.name) + (spec_enc_string(v.host) + (spec_enc_u64(
        v.port as u64,
    ) + (spec_enc_string(v.username) + (spec_enc_string(v.password) + (spec_enc_opt_string(
        v.description,
    ) + (spec_enc_u64(v.created_at) + (spec_enc_u64(v.updated_at) + spec_enc_strings(
        v.tags,
    )))))))))
}

/// Reads one record.  A record whose port is out of range or whose
/// timestamps run backwards is malformed.
pub open spec fn spec_dec_server(b: Seq<u8>, pos: int) -> Option<(ServerView, int)> {
    match spec_dec_u128(b, pos) {
        None => None,
        Some((id, p1)) => match spec_dec_string(b, p1) {
            None => None,
            Some((name, p2)) => match spec_dec_string(b, p2) {
                None => None,
                Some((host, p3)) => match spec_dec_u64(b, p3) {
                    None => None,
                    Some((port, p4)) => if port < 1 || port > 65535 {
                        None
                    } else {
                        match spec_dec_string(b, p4) {
                            None => None,
                            Some((username, p5)) => match spec_dec_string(b, p5) {
                                None => None,
                                Some((password, p6)) => match spec_dec_opt_string(b, p6) {
                                    None => None,
                                    Some((description, p7)) => match spec_dec_u64(b, p7) {
                                        None => None,
                                        Some((created, p8)) => match spec_dec_u64(b, p8) {
                                            None => None,
                                            Some((updated, p9)) => if created > updated {
                                                None
                                            } else {
                                                match spec_dec_strings(b, p9) {
                                                    None => None,
                                                    Some((tags, p10)) => Some(
                                                        (
                                                            ServerView {
                                                                id,
                                                                name,
                                                                host,
                                                                port: port as u16,
                                                                username,
                                                                password,
                                                                description,
                                                                created_at: created,
                                                                updated_at: updated,
                                                                tags,
                                                            },
                                                            p10,
                                                        ),
                                                    ),
                                                }
                                            },
                                        },
                                    },
                                },
                            },
                        }
                    },
                },
            },
        },
    }
}

/// Whether a record fits the format's length prefixes.
pub open spec fn server_encodable(v: ServerView) -> bool {
    &&& str_encodable(v.name)
    &&& str_encodable(v.host)
    &&& str_encodable(v.username)
    &&& str_encodable(v.password)
    &&& opt_str_encodable(v.description)
    &&& strings_encodable(v.tags)
}

/// Decoding undoes encoding for records.
#[verifier::rlimit(50)]
proof fn lemma_dec_enc_server(b: Seq<u8>, pos: int, v: ServerView)
    requires
        0 <= pos,
        server_encodable(v),
        server_wf(v),
        pos + spec_enc_server(v).len() <= b.len(),
        b.subrange(pos, pos + spec_enc_server(v).len()) == spec_enc_server(v),
    ensures
        spec_dec_server(b, pos) == Some((v, pos + spec_enc_server(v).len())),
{
    let e1 = spec_enc_u128(v.id);
    let e2 = spec_enc_string(v.name);
    let e3 = spec_enc_string(v.host);
    let e4 = spec_enc_u64(v.port as u64);
    let e5 = spec_enc_string(v.username);
    let e6 = spec_enc_string(v.password);
    let e7 = spec_enc_opt_string(v.description);
    let e8 = spec_enc_u64(v.created_at);
    let e9 = spec_enc_u64(v.updated_at);
    let e10 = spec_enc_strings(v.tags);
    let s9 = e9 + e10;
    let s8 = e8 + s9;
    let s7 = e7 + s8;
    let s6 = e6 + s7;
    let s5 = e5 + s6;
    let s4 = e4 + s5;
    let s3 = e3 + s4;
    let s2 = e2 + s3;
    let p1 = pos + e1.len();
    let p2 = p1 + e2.len();
    let p3 = p2 + e3.len();
    let p4 = p3 + e4.len();
    let p5 = p4 + e5.len();
    let p6 = p5 + e6.len();
    let p7 = p6 + e7.len();
    let p8 = p7 + e8.len();
    let p9 = p8 + e9.len();
    lemma_auto_spec_u64_to_from_le_bytes();
    lemma_auto_spec_u128_to_from_le_bytes();
    assert(e1.len() == 16);
    assert(e4.len() == 8);
    assert(e8.len() == 8);
    assert(e9.len() == 8);
    lemma_split_concat(b, pos, e1, s2);
    lemma_dec_enc_u128(b, pos, v.id);
    lemma_split_concat(b, p1, e2, s3);
    lemma_dec_enc_string(b, p1, v.name);
    lemma_split_concat(b, p2, e3, s4);
    lemma_dec_enc_string(b, p2, v.host);
    lemma_split_concat(b, p3, e4, s5);
    lemma_dec_enc_u64(b, p3, v.port as u64);
    lemma_split_concat(b, p4, e5, s6);
    lemma_dec_enc_string(b, p4, v.username);
    lemma_split_concat(b, p5, e6, s7);
    lemma_dec_enc_string(b, p5, v.password);
    lemma_split_concat(b, p6, e7, s8);
    lemma_dec_enc_opt_string(b, p6, v.description);
    lemma_split_concat(b, p7, e8, s9);
    lemma_dec_enc_u64(b, p7, v.created_at);
    lemma_split_concat(b, p8, e9, e10);
    lemma_dec_enc_u64(b, p8, v.updated_at);
    lemma_dec_enc_strings(b, p9, v.tags);
}

#[verifier::rlimit(50)]
fn enc_server(out: &mut Vec<u8>, s: &Server)
    ensures
        final(out)@ == old(out)@ + spec_enc_server(s@),
        server_encodable(s@),
{
    enc_u128(out, s.id);
    enc_string(out, &s.name);
    enc_string(out, &s.host);
    enc_u64(out, s.port as u64);
    enc_string(out, &s.username);
    enc_string(out, &s.password);
    enc_opt_string(out, &s.description);
    enc_u64(out, s.created_at);
    enc_u64(out, s.updated_at);
    enc_strings(out, &s.tags);
    proof {
        assert(out@ =~= old(out)@ + spec_enc_server(s@));
    }
}

#[verifier::rlimit(50)]
fn dec_server(b: &Vec<u8>, pos: usize) -> (r: Option<(Server, usize)>)
    requires
        pos <= b@.len(),
    ensures
        r is Some <==> spec_dec_server(b@, pos as int) is Some,
        r matches Some(t) ==> spec_dec_server(b@, pos as int) == Some((t.0@, t.1 as int)) && t.1
            <= b@.len() && server_wf(t.0@),
{
    match dec_u128(b, pos) {
        None => None,
        Some((id, p1)) => match dec_string(b, p1) {
            None => None,
            Some((name, p2)) => match dec_string(b, p2) {
                None => None,
                Some((host, p3)) => match dec_u64(b, p3) {
                    None => None,
                    Some((port, p4)) => {
                        if port < 1 || port > 65535 {
                            None
                        } else {
                            match dec_string(b, p4) {
                                None => None,
                                Some((username, p5)) => match dec_string(b, p5) {
                                    None => None,
                                    Some((password, p6)) => match dec_opt_string(b, p6) {
                                        None => None,
                                        Some((description, p7)) => match dec_u64(b, p7) {
                                            None => None,
                                            Some((created, p8)) => match dec_u64(b, p8) {
                                                None => None,
                                                Some((updated, p9)) => {
                                                    if created > updated {
                                                        None
                                                    } else {
                                                        match dec_strings(b, p9) {
                                                            None => None,
                                                            Some((tags, p10)) => {
                                                                let srv = Server {
                                                                    id,
                                                                    name,
                                                                    host,
                                                                    port: port as u16,
                                                                    username,
                                                                    password,
                                                                    description,
                                                                    created_at: created,
                                                                    updated_at: updated,
                                                                    tags,
                                                                };
                                                                Some((srv, p10))
                                                            },
                                                        }
                                                    }
                                                },
                                            },
                                        },
                                    },
                                },
                            }
                        }
                    },
                },
            },
        },
    }
}

// ---------------------------------------------------------------------
// Lists of records.
// ---------------------------------------------------------------------
/// The encodings of a sequence of records, one after the other.
pub open spec fn spec_enc_server_items(ss: Seq<ServerView>) -> Seq<u8>
    decreases ss.len(),
{
    if ss.len() == 0 {
        Seq::empty()
    } else {
        spec_enc_server(ss[0]) + spec_enc_server_items(ss.drop_first())
    }
}

/// Reads `count` records, one after the other.
pub open spec fn spec_dec_server_items(b: Seq<u8>, pos: int, count: nat) -> Option<
    (Seq<ServerView>, int),
>
    decreases count,
{
    if count == 0 {
        Some((Seq::empty(), pos))
    } else {
        match spec_dec_server(b, pos) {
            None => None,
            Some((s, p)) => match spec_dec_server_items(b, p, (count - 1) as nat) {
                None => None,
                Some((rest, q)) => Some((seq![s] + rest, q)),
            },
        }
    }
}

/// Whether a record list fits the format's length prefixes.
pub open spec fn servers_encodable(ss: Seq<ServerView>) -> bool {
    &&& fits_u64(ss.len())
    &&& forall|i: int| 0 <= i < ss.len() ==> server_encodable(#[trigger] ss[i])
}

/// Appending one more record to a list extends its item encoding.
proof fn lemma_enc_server_items_snoc(ss: Seq<ServerView>, s: ServerView)
    ensures
        spec_enc_server_items(ss.push(s)) == spec_enc_server_items(ss) + spec_enc_server(s),
    decreases ss.len(),
{
    if ss.len() == 0 {
        assert(ss.push(s)[0] == s);
        assert(ss.push(s).drop_first() =~= Seq::<ServerView>::empty());
        assert(spec_enc_server_items(ss.push(s).drop_first()) == Seq::<u8>::empty());
        assert(spec_enc_server_items(ss.push(s)) == spec_enc_server(s) + Seq::<u8>::empty());
        assert(spec_enc_server(s) + Seq::<u8>::empty() =~= Seq::<u8>::empty()
            + spec_enc_server(s));
    } else {
        assert(ss.push(s).drop_first() =~= ss.drop_first().push(s));
        lemma_enc_server_items_snoc(ss.drop_first(), s);
        assert(ss.push(s)[0] == ss[0]);
        let a = spec_enc_server(ss[0]);
        let b = spec_enc_server_items(ss.drop_first());
        let c = spec_enc_server(s);
        assert(spec_enc_server_items(ss.push(s)) == a + (b + c));
        assert(a + (b + c) =~= (a + b) + c);
    }
}

/// Decoding undoes encoding for the items of a record list.
proof fn lemma_dec_enc_server_items(b: Seq<u8>, pos: int, ss: Seq<ServerView>)
    requires
        0 <= pos,
        forall|i: int| 0 <= i < ss.len() ==> server_encodable(#[trigger] ss[i]),
        forall|i: int| 0 <= i < ss.len() ==> server_wf(#[trigger] ss[i]),
        pos + spec_enc_server_items(ss).len() <= b.len(),
        b.subrange(pos, pos + spec_enc_server_items(ss).len()) == spec_enc_server_items(ss),
    ensures
        spec_dec_server_items(b, pos, ss.len()) == Some(
            (ss, pos + spec_enc_server_items(ss).len()),
        ),
    decreases ss.len(),
{
    if ss.len() == 0 {
    } else {
        let head = spec_enc_server(ss[0]);
        let tail = spec_enc_server_items(ss.drop_first());
        lemma_split_concat(b, pos, head, tail);
        lemma_dec_enc_server(b, pos, ss[0]);
        lemma_dec_enc_server_items(b, pos + head.len(), ss.drop_first());
        assert(seq![ss[0]] + ss.drop_first() =~= ss);
    }
}

fn dec_server_items(b: &Vec<u8>, pos: usize, count: u64) -> (r: Option<(Vec<Server>, usize)>)
    requires
        pos <= b@.len(),
    ensures
        r is Some <==> spec_dec_server_items(b@, pos as int, count as nat) is Some,
        r matches Some(t) ==> spec_dec_server_items(b@, pos as int, count as nat) == Some(
            (views_of(t.0@), t.1 as int),
        ) && t.1 <= b@.len() && forall|i: int|
            0 <= i < t.0@.len() ==> server_wf(#[trigger] views_of(t.0@)[i]),
    decreases count,
{
    if count == 0 {
        let empty: Vec<Server> = Vec::new();
        proof {
            assert(views_of(empty@) =~= Seq::<ServerView>::empty());
        }
        Some((empty, pos))
    } else {
        match dec_server(b, pos) {
            None => None,
            Some((s, p)) => {
                match dec_server_items(b, p, count - 1) {
                    None => None,
                    Some((rest, q)) => {
                        let ghost rest_view = views_of(rest@);
                        let mut rest = rest;
                        rest.insert(0, s);
                        proof {
                            assert(views_of(rest@) =~= seq![s@] + rest_view);
                        }
                        Some((rest, q))
                    },
                }
            },
        }
    }
}

// ---------------------------------------------------------------------
// The credential set as a whole.
// ---------------------------------------------------------------------
/// The encoding of the credential set: the version label, then the
/// record count, then the records.
pub open spec fn spec_enc_vault_data(v: VaultDataView) -> Seq<u8> {
    spec_enc_string(v.version) + (spec_enc_u64(v.servers.len() as u64) + spec_enc_server_items(
        v.servers,
    ))
}

/// Reads the credential set's fields, without the set-level checks.
pub open spec fn spec_dec_vault_data_at(b: Seq<u8>, pos: int) -> Option<(VaultDataView, int)> {
    match spec_dec_string(b, pos) {
        None => None,
        Some((version, p1)) => match spec_dec_u64(b, p1) {
            None => None,
            Some((n, p2)) => match spec_dec_server_items(b, p2, n as nat) {
                None => None,
                Some((servers, p3)) => Some((VaultDataView { servers, version }, p3)),
            },
        },
    }
}

/// Reads a whole credential set from a payload: every byte must be
/// consumed and the identities must be unique, else the payload is
/// malformed.
pub open spec fn spec_decode_vault_data(b: Seq<u8>) -> Option<VaultDataView> {
    match spec_dec_vault_data_at(b, 0) {
        None => None,
        Some((v, p)) => if p == b.len() && ids_unique(v.servers) {
            Some(v)
        } else {
            None
        },
    }
}

/// Whether a credential set fits the format's length prefixes.  Any set
/// held in memory does, and `encode_vault_data` establishes it.
pub open spec fn vault_data_encodable(v: VaultDataView) -> bool {
    &&& str_encodable(v.version)
    &&& servers_encodable(v.servers)
}

/// Decoding undoes encoding: the round trip through the byte format
/// gives back exactly the credential set that went in.
pub proof fn lemma_decode_encode_vault_data(v: VaultDataView)
    requires
        vault_data_encodable(v),
        vault_data_wf(v),
    ensures
        spec_decode_vault_data(spec_enc_vault_data(v)) == Some(v),
{
    let b = spec_enc_vault_data(v);
    let e1 = spec_enc_string(v.version);
    let e2 = spec_enc_u64(v.servers.len() as u64);
    let e3 = spec_enc_server_items(v.servers);
    let s2 = e2 + e3;
    lemma_auto_spec_u64_to_from_le_bytes();
    assert(e2.len() == 8);
    assert(b.subrange(0, b.len() as int) =~= b);
    lemma_split_concat(b, 0, e1, s2);
    lemma_dec_enc_string(b, 0, v.version);
    let p1 = e1.len() as int;
    lemma_split_concat(b, p1, e2, e3);
    lemma_dec_enc_u64(b, p1, v.servers.len() as u64);
    lemma_dec_enc_server_items(b, p1 + 8, v.servers);
}

/// Turns the credential set into payload bytes.
pub fn encode_vault_data(data: &VaultData) -> (r: Vec<u8>)
    ensures
        r@ == spec_enc_vault_data(data@),
        vault_data_encodable(data@),
{
    let ghost vs = views_of(data.servers@);
    let mut out: Vec<u8> = Vec::new();
    enc_string(&mut out, &data.version);
    enc_u64(&mut out, data.servers.len() as u64);
    let ghost mid = out@;
    let mut i: usize = 0;
    while i < data.servers.len()
        invariant
            i <= data.servers@.len(),
            vs == views_of(data.servers@),
            vs.len() == data.servers@.len(),
            out@ == mid + spec_enc_server_items(vs.take(i as int)),
            forall|j: int| 0 <= j < i ==> server_encodable(#[trigger] vs[j]),
        decreases data.servers@.len() - i,
    {
        enc_server(&mut out, &data.servers[i]);
        proof {
            assert(vs[i as int] == data.servers@[i as int]@);
            lemma_enc_server_items_snoc(vs.take(i as int), vs[i as int]);
            assert(vs.take(i as int).push(vs[i as int]) =~= vs.take(i + 1));
            assert(out@ =~= mid + spec_enc_server_items(vs.take(i + 1)));
        }
        i = i + 1;
    }
    proof {
        assert(vs.take(vs.len() as int) =~= vs);
        assert(out@ =~= spec_enc_vault_data(data@));
    }
    out
}

/// Whether no two records in the list share an identity.
fn check_ids_unique(servers: &Vec<Server>) -> (r: bool)
    ensures
        r == ids_unique(views_of(servers@)),
{
    let ghost vs = views_of(servers@);
    let n = servers.len();
    let mut i: usize = 0;
    while i < n
        invariant
            i <= n,
            n == servers@.len(),
            vs == views_of(servers@),
            vs.len() == n,
            forall|a: int, c: int| 0 <= a < c < n && a < i ==> vs[a].id != vs[c].id,
        decreases n - i,
    {
        let mut j: usize = i + 1;
        while j < n
            invariant
                i < j <= n || (i + 1 == j && j > n),
                i < n,
                n == servers@.len(),
                vs == views_of(servers@),
                vs.len() == n,
                forall|c: int| i < c < j ==> vs[i as int].id != vs[c].id,
            decreases n - j,
        {
            if servers[i].id == servers[j].id {
                proof {
                    assert(vs[i as int].id == vs[j as int].id);
                    assert(!ids_unique(vs));
                }
                return false;
            }
            j = j + 1;
        }
        i = i + 1;
    }
    true
}

/// Reads a whole credential set back from payload bytes.  Succeeds
/// exactly when the bytes are a well-formed encoding; the result then
/// satisfies the set's invariant.
pub fn decode_vault_data(b: &Vec<u8>) -> (r: Option<VaultData>)
    ensures
        r is Some <==> spec_decode_vault_data(b@) is Some,
        r matches Some(d) ==> spec_decode_vault_data(b@) == Some(d@) && vault_data_wf(d@),
{
    match dec_string(b, 0) {
        None => None,
        Some((version, p1)) => match dec_u64(b, p1) {
            None => None,
            Some((n, p2)) => match dec_server_items(b, p2, n) {
                None => None,
                Some((servers, p3)) => {
                    if p3 != b.len() {
                        None
                    } else if !check_ids_unique(&servers) {
                        None
                    } else {
                        Some(VaultData { servers, version })
                    }
                },
            },
        },
    }
}

} // verus!

//! Fuzzy search over the credential records.
//!
//! The scoring itself comes from the fuzzy-matcher crate; what this
//! module verifies is everything around it: which text is scored, which
//! records make the cut, and that the results come back ordered by score
//! with ties kept in insertion order.

use vstd::prelude::*;

use crate::models::{views_of, Server, ServerView};
use vstd::string::StrSliceExecFns;
use crate::text::spec_dec_str;

verus! {

/// The score that fuzzy-matcher's Skim algorithm (default configuration)
/// gives a candidate string against a search pattern, or `None` when the
/// candidate does not match.  The score is a function of the two strings
/// alone.
pub uninterp spec fn fuzzy_score_of(choice: Seq<char>, pattern: Seq<char>) -> Option<i64>;

/// Relies on fuzzy-matcher's `SkimMatcherV2::fuzzy_match` with the
/// default configuration: a deterministic score for a candidate against
/// a pattern, `None` when the candidate does not match.
#[verifier::external_body]
fn fuzzy_score(choice: &str, pattern: &str) -> (r: Option<i64>)
    ensures
        r == fuzzy_score_of(choice@, pattern@),
{
    fuzzy_matcher::FuzzyMatcher::fuzzy_match(
        &fuzzy_matcher::skim::SkimMatcherV2::default(),
        choice,
        pattern,
    )
}

/// The text a record is searched by: name, host, username, port and
/// description, separated by single spaces (an absent description
/// contributes nothing after the last space).
pub open spec fn spec_haystack(v: ServerView) -> Seq<char> {
    v.name + " "@ + v.host + " "@ + v.username + " "@ + spec_dec_str(v.port as int) + " "@
        + match v.description {
        Some(d) => d,
        None => Seq::empty(),
    }
}

/// Renders the text a record is searched by.
fn haystack(s: &Server) -> (r: String)
    ensures
        r@ == spec_haystack(s@),
{
    let mut out = String::new();
    out.append(s.name.as_str());
    out.append(" ");
    out.append(s.host.as_str());
    out.append(" ");
    out.append(s.username.as_str());
    out.append(" ");
    crate::text::push_dec(&mut out, s.port as u64);
    out.append(" ");
    match &s.description {
        Some(d) => out.append(d.as_str()),
        None => {},
    }
    proof {
        assert(out@ =~= spec_haystack(s@));
    }
    out
}

/// One search result stands before another when its score is higher, or
/// equal with an earlier record.
pub open spec fn match_before(a: (i64, usize), b: (i64, usize)) -> bool {
    a.0 > b.0 || (a.0 == b.0 && a.1 <= b.1)
}

/// Results ordered by descending score, ties in record order.
pub open spec fn matches_sorted(s: Seq<(i64, usize)>) -> bool {
    forall|k1: int, k2: int| 0 <= k1 < k2 < s.len() ==> match_before(s[k1], s[k2])
}

/// Every result names a record that scores exactly so against the query.
pub open spec fn matches_valid(s: Seq<(i64, usize)>, servers: Seq<ServerView>, query: Seq<char>) -> bool {
    forall|k: int| 0 <= k < s.len() ==> {
        &&& 0 <= (#[trigger] s[k]).1 < servers.len()
        &&& fuzzy_score_of(spec_haystack(servers[s[k].1 as int]), query) == Some(s[k].0)
    }
}

/// No record appears twice among the results.
pub open spec fn matches_distinct(s: Seq<(i64, usize)>) -> bool {
    forall|k1: int, k2: int| 0 <= k1 < k2 < s.len() ==> (#[trigger] s[k1]).1 != (#[trigger] s[k2]).1
}

/// Every record that scores against the query is among the results.
pub open spec fn matches_complete(s: Seq<(i64, usize)>, servers: Seq<ServerView>, query: Seq<char>) -> bool {
    forall|i: int| 0 <= i < servers.len() && (#[trigger] fuzzy_score_of(
        spec_haystack(servers[i]),
        query,
    )) is Some ==> exists|k: int| 0 <= k < s.len() && (#[trigger] s[k]).1 == i
}

/// Scores every record against `query` and returns the `(score, index)`
/// pairs of those that match, best score first, ties in record order.
/// Records that do not match are left out.
pub fn search_servers(servers: &Vec<Server>, query: &str) -> (r: Vec<(i64, usize)>)
    ensures
        matches_sorted(r@),
        matches_distinct(r@),
        matches_valid(r@, views_of(servers@), query@),
        matches_complete(r@, views_of(servers@), query@),
{
    let ghost vs = views_of(servers@);
    let mut out: Vec<(i64, usize)> = Vec::new();
    let mut i: usize = 0;
    while i < servers.len()
        invariant
            i <= servers@.len(),
            vs == views_of(servers@),
            vs.len() == servers@.len(),
            matches_sorted(out@),
            matches_distinct(out@),
            matches_valid(out@, vs, query@),
            forall|k: int| 0 <= k < out@.len() ==> (#[trigger] out@[k]).1 < i,
            forall|j: int| 0 <= j < i && (#[trigger] fuzzy_score_of(spec_haystack(vs[j]), query@))
                is Some ==> exists|k: int| 0 <= k < out@.len() && (#[trigger] out@[k]).1 == j,
        decreases servers@.len() - i,
    {
        let hay = haystack(&servers[i]);
        proof {
            assert(vs[i as int] == servers@[i as int]@);
        }
        match fuzzy_score(hay.as_str(), query) {
            None => {},
            Some(score) => {
                insert_match(&mut out, score, i);
            },
        }
        i = i + 1;
    }
    out
}

/// Inserts `(score, index)` where it keeps the results ordered; every
/// present result names an earlier record than `index`.
fn insert_match(out: &mut Vec<(i64, usize)>, score: i64, index: usize)
    requires
        matches_sorted(old(out)@),
        matches_distinct(old(out)@),
        forall|k: int| 0 <= k < old(out)@.len() ==> (#[trigger] old(out)@[k]).1 < index,
    ensures
        final(out)@.len() == old(out)@.len() + 1,
        matches_sorted(final(out)@),
        matches_distinct(final(out)@),
        exists|k: int| 0 <= k < final(out)@.len() && final(out)@[k] == (score, index),
        forall|k: int| 0 <= k < old(out)@.len() ==> exists|k2: int|
            0 <= k2 < final(out)@.len() && final(out)@[k2] == (#[trigger] old(out)@[k]),
        forall|k: int| 0 <= k < final(out)@.len() ==> (#[trigger] final(out)@[k]) == (
        score,
        index,
        ) || exists|k2: int| 0 <= k2 < old(out)@.len() && old(out)@[k2] == final(out)@[k],
{
    let n = out.len();
    let mut pos: usize = 0;
    while pos < n && out[pos].0 >= score
        invariant
            pos <= n,
            n == out@.len(),
            forall|k: int| 0 <= k < pos ==> (#[trigger] out@[k]).0 >= score,
        decreases n - pos,
    {
        pos = pos + 1;
    }
    let ghost before = out@;
    out.insert(pos, (score, index));
    proof {
        assert forall|k1: int, k2: int| 0 <= k1 < k2 < out@.len() implies match_before(
            out@[k1],
            out@[k2],
        ) by {
            if k1 < pos && k2 < pos {
                assert(out@[k1] == before[k1] && out@[k2] == before[k2]);
            } else if k1 < pos && k2 == pos {
                assert(out@[k1] == before[k1]);
            } else if k1 < pos && k2 > pos {
                assert(out@[k1] == before[k1] && out@[k2] == before[k2 - 1]);
            } else if k1 == pos {
                assert(out@[k2] == before[k2 - 1]);
                assert(pos < n);
                if k2 - 1 > pos {
                    assert(match_before(before[pos as int], before[k2 - 1]));
                }
                assert(before[k2 - 1].0 < score);
            } else {
                assert(out@[k1] == before[k1 - 1] && out@[k2] == before[k2 - 1]);
            }
        }
        assert(out@[pos as int] == (score, index));
        assert forall|k1: int, k2: int| 0 <= k1 < k2 < out@.len() implies (#[trigger] out@[k1]).1
            != (#[trigger] out@[k2]).1 by {
            if k1 < pos && k2 < pos {
                assert(out@[k1] == before[k1] && out@[k2] == before[k2]);
            } else if k1 < pos && k2 == pos {
                assert(out@[k1] == before[k1]);
            } else if k1 < pos && k2 > pos {
                assert(out@[k1] == before[k1] && out@[k2] == before[k2 - 1]);
            } else if k1 == pos {
                assert(out@[k2] == before[k2 - 1]);
            } else {
                assert(out@[k1] == before[k1 - 1] && out@[k2] == before[k2 - 1]);
            }
        }
        assert forall|k: int| 0 <= k < before.len() implies exists|k2: int|
            0 <= k2 < out@.len() && out@[k2] == (#[trigger] before[k]) by {
            if k < pos {
                assert(out@[k] == before[k]);
            } else {
                assert(out@[k + 1] == before[k]);
            }
        }
        assert forall|k: int| 0 <= k < out@.len() implies (#[trigger] out@[k]) == (score, index)
            || exists|k2: int| 0 <= k2 < before.len() && before[k2] == out@[k] by {
            if k < pos {
                assert(before[k] == out@[k]);
            } else if k > pos {
                assert(before[k - 1] == out@[k]);
            }
        }
    }
}

// ---------------------------------------------------------------------
// Looking a record up by name or identity.
// ---------------------------------------------------------------------
/// The lowercase hexadecimal digit characters.
pub open spec fn spec_hex_digit(d: int) -> char {
    if d == 0 {
        '0'
    } else if d == 1 {
        '1'
    } else if d == 2 {
        '2'
    } else if d == 3 {
        '3'
    } else if d == 4 {
        '4'
    } else if d == 5 {
        '5'
    } else if d == 6 {
        '6'
    } else if d == 7 {
        '7'
    } else if d == 8 {
        '8'
    } else if d == 9 {
        '9'
    } else if d == 10 {
        'a'
    } else if d == 11 {
        'b'
    } else if d == 12 {
        'c'
    } else if d == 13 {
        'd'
    } else if d == 14 {
        'e'
    } else {
        'f'
    }
}

/// The fixed-width lowercase hexadecimal rendering of a non-negative
/// number, most significant digit first, zero-padded.
pub open spec fn spec_hex_fixed(n: int, width: nat) -> Seq<char>
    decreases width,
{
    if width == 0 {
        Seq::empty()
    } else {
        spec_hex_fixed(n / 16, (width - 1) as nat).push(spec_hex_digit(n % 16))
    }
}

/// The hyphenated lowercase rendering of a 128-bit identity, as uuid
/// prints it: five hexadecimal groups of 8, 4, 4, 4 and 12 digits.
pub open spec fn spec_uuid_str(v: u128) -> Seq<char> {
    spec_hex_fixed((v >> 96) as int, 8) + "-"@ + spec_hex_fixed(((v >> 80) & 0xffff) as int, 4)
        + "-"@ + spec_hex_fixed(((v >> 64) & 0xffff) as int, 4) + "-"@ + spec_hex_fixed(
        ((v >> 48) & 0xffff) as int,
        4,
    ) + "-"@ + spec_hex_fixed((v & 0xffffffffffff) as int, 12)
}

/// One lowercase hexadecimal digit as text.
fn hex_digit_str(d: u128) -> (r: &'static str)
    requires
        d < 16,
    ensures
        r@ == seq![spec_hex_digit(d as int)],
{
    let r = match d {
        0 => "0",
        1 => "1",
        2 => "2",
        3 => "3",
        4 => "4",
        5 => "5",
        6 => "6",
        7 => "7",
        8 => "8",
        9 => "9",
        10 => "a",
        11 => "b",
        12 => "c",
        13 => "d",
        14 => "e",
        _ => "f",
    };
    proof {
        reveal_strlit("0");
        reveal_strlit("1");
        reveal_strlit("2");
        reveal_strlit("3");
        reveal_strlit("4");
        reveal_strlit("5");
        reveal_strlit("6");
        reveal_strlit("7");
        reveal_strlit("8");
        reveal_strlit("9");
        reveal_strlit("a");
        reveal_strlit("b");
        reveal_strlit("c");
        reveal_strlit("d");
        reveal_strlit("e");
        reveal_strlit("f");
        assert(r@ =~= seq![spec_hex_digit(d as int)]);
    }
    r
}

/// Appends the fixed-width hexadecimal rendering of `n`.
fn push_hex(out: &mut String, n: u128, width: u64)
    ensures
        final(out)@ == old(out)@ + spec_hex_fixed(n as int, width as nat),
    decreases width,
{
    if width == 0 {
        proof {
            assert(out@ =~= old(out)@ + spec_hex_fixed(n as int, 0));
        }
    } else {
        push_hex(out, n / 16, width - 1);
        out.append(hex_digit_str(n % 16));
        proof {
            assert(out@ =~= old(out)@ + spec_hex_fixed(n as int, width as nat));
        }
    }
}

/// Renders a record identity the way uuid prints it: lowercase
/// hexadecimal, hyphenated 8-4-4-4-12.
pub fn uuid_string(v: u128) -> (r: String)
    ensures
        r@ == spec_uuid_str(v),
{
    let mut out = String::new();
    push_hex(&mut out, v >> 96, 8);
    out.append("-");
    push_hex(&mut out, (v >> 80) & 0xffff, 4);
    out.append("-");
    push_hex(&mut out, (v >> 64) & 0xffff, 4);
    out.append("-");
    push_hex(&mut out, (v >> 48) & 0xffff, 4);
    out.append("-");
    push_hex(&mut out, v & 0xffffffffffff, 12);
    proof {
        assert(out@ =~= spec_uuid_str(v));
    }
    out
}

/// Whether two characters are the same letter up to ASCII case.
pub open spec fn chars_match_nocase(x: char, y: char) -> bool {
    ||| x == y
    ||| ('A' as u32) <= x as u32 <= ('Z' as u32) && y as u32 == x as u32 + 32
    ||| ('A' as u32) <= y as u32 <= ('Z' as u32) && x as u32 == y as u32 + 32
}

/// Whether two strings are equal up to ASCII case.
pub open spec fn spec_eq_nocase(a: Seq<char>, b: Seq<char>) -> bool {
    a.len() == b.len() && forall|i: int|
        0 <= i < a.len() ==> chars_match_nocase(#[trigger] a[i], b[i])
}

/// Compares two strings for equality up to ASCII case.
fn eq_ignore_ascii_case_str(a: &str, b: &str) -> (r: bool)
    ensures
        r == spec_eq_nocase(a@, b@),
{
    let n = a.unicode_len();
    if n != b.unicode_len() {
        return false;
    }
    let mut i: usize = 0;
    while i < n
        invariant
            n == a@.len(),
            n == b@.len(),
            i <= n,
            forall|j: int| 0 <= j < i ==> chars_match_nocase(#[trigger] a@[j], b@[j]),
        decreases n - i,
    {
        let ca = a.get_char(i) as u32;
        let cb = b.get_char(i) as u32;
        let same = ca == cb || (65 <= ca && ca <= 90 && cb == ca + 32) || (65 <= cb && cb <= 90
            && ca == cb + 32);
        if !same {
            return false;
        }
        i = i + 1;
    }
    true
}

/// Whether `prefix` starts the string `s`.
fn str_starts_with(s: &str, prefix: &str) -> (r: bool)
    ensures
        r == prefix@.is_prefix_of(s@),
{
    let np = prefix.unicode_len();
    if np > s.unicode_len() {
        return false;
    }
    let mut i: usize = 0;
    while i < np
        invariant
            np == prefix@.len(),
            np <= s@.len(),
            i <= np,
            forall|j: int| 0 <= j < i ==> #[trigger] prefix@[j] == s@[j],
        decreases np - i,
    {
        if s.get_char(i) != prefix.get_char(i) {
            return false;
        }
        i = i + 1;
    }
    proof {
        assert(prefix@ =~= s@.subrange(0, np as int));
    }
    true
}

/// Whether `needle` picks a record out: its name matches up to ASCII
/// case, or the needle starts the record's rendered identity.
pub open spec fn name_or_id_matches(v: ServerView, needle: Seq<char>) -> bool {
    spec_eq_nocase(v.name, needle) || needle.is_prefix_of(spec_uuid_str(v.id))
}

/// Finds the first record whose name matches `needle` up to ASCII case,
/// or whose rendered identity starts with `needle`.
pub fn find_server_by_name_or_id(servers: &Vec<Server>, needle: &str) -> (r: Option<usize>)
    ensures
        r matches Some(i) ==> 0 <= i < servers@.len() && name_or_id_matches(
            views_of(servers@)[i as int],
            needle@,
        ) && forall|j: int| 0 <= j < i ==> !name_or_id_matches(views_of(servers@)[j], needle@),
        r is None ==> forall|j: int|
            0 <= j < servers@.len() ==> !name_or_id_matches(views_of(servers@)[j], needle@),
{
    let ghost vs = views_of(servers@);
    let mut i: usize = 0;
    while i < servers.len()
        invariant
            i <= servers@.len(),
            vs == views_of(servers@),
            vs.len() == servers@.len(),
            forall|j: int| 0 <= j < i ==> !name_or_id_matches(vs[j], needle@),
        decreases servers@.len() - i,
    {
        proof {
            assert(vs[i as int] == servers@[i as int]@);
        }
        if eq_ignore_ascii_case_str(servers[i].name.as_str(), needle) {
            return Some(i);
        }
        let rendered = uuid_string(servers[i].id);
        if str_starts_with(rendered.as_str(), needle) {
            return Some(i);
        }
        i = i + 1;
    }
    None
}

} // verus!

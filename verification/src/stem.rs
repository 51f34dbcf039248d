//! The normalizer: maps a display name to its canonical stem.
//!
//! The stem of a name is obtained by lowercasing, dropping every character
//! that is not an ASCII letter, digit or space, removing every occurrence
//! of the recognized platform/edition noise phrases, and trimming the
//! surrounding whitespace. Re-running the normalizer on a stem returns the
//! stem unchanged (see [`lemma_stem_idempotent`]).

use vstd::prelude::*;

use crate::text::all_kept;
use crate::text::canon_chars;
use crate::text::lemma_canon_all_kept;
use crate::text::lemma_canon_identity_on_kept;
use crate::text::lemma_canon_of_lower;
use crate::text::lower_all;
use crate::text::canon_chars_exec;
use crate::text::occurs_at;
use crate::text::occurs_at_exec;
use crate::text::string_from_chars;
use crate::text::to_chars;

verus! {

/// The recognized noise phrases, in priority order. The leading space of
/// the last phrase stands for the separator that precedes it in a name.
pub open spec fn phrase(k: int) -> Seq<char> {
    if k == 0 {
        seq![
            'n', 'i', 'n', 't', 'e', 'n', 'd', 'o', ' ', 's', 'w', 'i', 't', 'c', 'h', ' ', 'e',
            'd', 'i', 't', 'i', 'o', 'n',
        ]
    } else if k == 1 {
        seq!['s', 'w', 'i', 't', 'c', 'h', ' ', 'e', 'd', 'i', 't', 'i', 'o', 'n']
    } else if k == 2 {
        seq!['f', 'o', 'r', ' ', 'n', 'i', 'n', 't', 'e', 'n', 'd', 'o', ' ', 's', 'w', 'i', 't',
            'c', 'h']
    } else {
        seq![' ', 'd', 'i', 'g', 'i', 't', 'a', 'l', ' ', 'v', 'e', 'r', 's', 'i', 'o', 'n']
    }
}

/// The first phrase, by priority, that occurs at position `i` of `s`.
pub open spec fn match_at(s: Seq<char>, i: int) -> Option<int> {
    if occurs_at(s, phrase(0), i) {
        Some(0int)
    } else if occurs_at(s, phrase(1), i) {
        Some(1int)
    } else if occurs_at(s, phrase(2), i) {
        Some(2int)
    } else if occurs_at(s, phrase(3), i) {
        Some(3int)
    } else {
        None
    }
}

/// The leftmost phrase occurrence at or after position `i`: the position
/// and the phrase index.
pub open spec fn first_match_from(s: Seq<char>, i: int) -> Option<(int, int)>
    decreases s.len() - i,
        when 0 <= i <= s.len()
{
    if i >= s.len() {
        None
    } else if match_at(s, i) is Some {
        Some((i, match_at(s, i)->Some_0))
    } else {
        first_match_from(s, i + 1)
    }
}

/// No noise phrase occurs anywhere in `s`.
pub open spec fn noise_free(s: Seq<char>) -> bool {
    forall|i: int, k: int| 0 <= k < 4 ==> !occurs_at(s, phrase(k), i)
}

proof fn lemma_phrase_len(k: int)
    requires
        0 <= k < 4,
    ensures
        phrase(k).len() > 0,
{
}

/// What a `Some`/`None` answer of `first_match_from` says about `s`.
proof fn lemma_fmf_props(s: Seq<char>, j: int)
    requires
        0 <= j <= s.len(),
    ensures
        match first_match_from(s, j) {
            Some((i, k)) => j <= i < s.len() && 0 <= k < 4 && match_at(s, i) == Some(k)
                && occurs_at(s, phrase(k), i) && (forall|m: int|
                j <= m < i ==> match_at(s, m) is None),
            None => forall|m: int| j <= m ==> match_at(s, m) is None,
        },
    decreases s.len() - j,
{
    if j >= s.len() {
        assert forall|m: int| j <= m implies match_at(s, m) is None by {
            assert(forall|k: int| 0 <= k < 4 ==> phrase(k).len() > 0);
        }
    } else if match_at(s, j) is Some {
    } else {
        lemma_fmf_props(s, j + 1);
    }
}

/// `first_match_from(s, 0)` is `None` exactly when `s` is noise-free.
proof fn lemma_fmf_none_iff_noise_free(s: Seq<char>)
    ensures
        (first_match_from(s, 0) is None) <==> noise_free(s),
{
    lemma_fmf_props(s, 0);
    if first_match_from(s, 0) is None {
        assert forall|i: int, k: int| 0 <= k < 4 implies !occurs_at(s, phrase(k), i) by {
            if 0 <= i {
                assert(match_at(s, i) is None);
            }
        }
    } else {
        let (i, k) = first_match_from(s, 0)->Some_0;
        assert(occurs_at(s, phrase(k), i));
    }
}

/// `s` with every noise-phrase occurrence removed, leftmost first.
pub open spec fn remove_noise(s: Seq<char>) -> Seq<char>
    decreases s.len(),
        via remove_noise_decreases
{
    match first_match_from(s, 0) {
        None => s,
        Some((i, k)) => remove_noise(
            s.subrange(0, i) + s.subrange(i + phrase(k).len(), s.len() as int),
        ),
    }
}

#[via_fn]
proof fn remove_noise_decreases(s: Seq<char>) {
    lemma_fmf_props(s, 0);
    if first_match_from(s, 0) is Some {
        let (i, k) = first_match_from(s, 0)->Some_0;
        lemma_phrase_len(k);
    }
}

/// The result of `remove_noise` is noise-free.
proof fn lemma_remove_noise_noise_free(s: Seq<char>)
    ensures
        noise_free(remove_noise(s)),
    decreases s.len(),
{
    lemma_fmf_props(s, 0);
    match first_match_from(s, 0) {
        None => {
            lemma_fmf_none_iff_noise_free(s);
        },
        Some((i, k)) => {
            lemma_phrase_len(k);
            lemma_remove_noise_noise_free(
                s.subrange(0, i) + s.subrange(i + phrase(k).len(), s.len() as int),
            );
        },
    }
}

/// On a noise-free string, `remove_noise` is the identity.
proof fn lemma_remove_noise_identity(s: Seq<char>)
    requires
        noise_free(s),
    ensures
        remove_noise(s) == s,
{
    lemma_fmf_none_iff_noise_free(s);
}

/// Removal keeps only characters that were already present.
proof fn lemma_remove_noise_all_kept(s: Seq<char>)
    requires
        all_kept(s),
    ensures
        all_kept(remove_noise(s)),
    decreases s.len(),
{
    lemma_fmf_props(s, 0);
    match first_match_from(s, 0) {
        None => {},
        Some((i, k)) => {
            lemma_phrase_len(k);
            let t = s.subrange(0, i) + s.subrange(i + phrase(k).len(), s.len() as int);
            assert(all_kept(t));
            lemma_remove_noise_all_kept(t);
        },
    }
}

/// A contiguous slice of a noise-free string is noise-free.
proof fn lemma_noise_free_subrange(s: Seq<char>, lo: int, hi: int)
    requires
        noise_free(s),
        0 <= lo <= hi <= s.len(),
    ensures
        noise_free(s.subrange(lo, hi)),
{
    let t = s.subrange(lo, hi);
    assert forall|i: int, k: int| 0 <= k < 4 implies !occurs_at(t, phrase(k), i) by {
        if 0 <= i && i + phrase(k).len() <= t.len() {
            assert(!occurs_at(s, phrase(k), lo + i));
            if t.subrange(i, i + phrase(k).len()) == phrase(k) {
                assert(s.subrange(lo + i, lo + i + phrase(k).len()) =~= t.subrange(
                    i,
                    i + phrase(k).len(),
                ));
                assert(false);
            }
        }
    }
}

/// Index of the first non-space character at or after `i`, or `s.len()`.
pub open spec fn scan_nonspace(s: Seq<char>, i: int) -> int
    decreases s.len() - i,
        when 0 <= i <= s.len()
{
    if i >= s.len() {
        s.len() as int
    } else if s[i] != ' ' {
        i
    } else {
        scan_nonspace(s, i + 1)
    }
}

/// Index of the last non-space character at or before `i`, or `-1`.
pub open spec fn scan_nonspace_back(s: Seq<char>, i: int) -> int
    decreases i + 1,
        when -1 <= i < s.len()
{
    if i < 0 {
        -1
    } else if s[i] != ' ' {
        i
    } else {
        scan_nonspace_back(s, i - 1)
    }
}

/// `s` without leading and trailing spaces.
pub open spec fn trim_spec(s: Seq<char>) -> Seq<char> {
    let lo = scan_nonspace(s, 0);
    let hi = scan_nonspace_back(s, s.len() - 1);
    if lo >= s.len() {
        Seq::empty()
    } else {
        s.subrange(lo, hi + 1)
    }
}

proof fn lemma_scan_nonspace_props(s: Seq<char>, j: int)
    requires
        0 <= j <= s.len(),
    ensures
        j <= scan_nonspace(s, j) <= s.len(),
        scan_nonspace(s, j) < s.len() ==> s[scan_nonspace(s, j)] != ' ',
        forall|m: int| j <= m < scan_nonspace(s, j) ==> s[m] == ' ',
    decreases s.len() - j,
{
    if j < s.len() && s[j] == ' ' {
        lemma_scan_nonspace_props(s, j + 1);
    }
}

proof fn lemma_scan_nonspace_back_props(s: Seq<char>, j: int)
    requires
        -1 <= j < s.len(),
    ensures
        -1 <= scan_nonspace_back(s, j) <= j,
        scan_nonspace_back(s, j) >= 0 ==> s[scan_nonspace_back(s, j)] != ' ',
        forall|m: int| scan_nonspace_back(s, j) < m <= j ==> s[m] == ' ',
    decreases j + 1,
{
    if j >= 0 && s[j] == ' ' {
        lemma_scan_nonspace_back_props(s, j - 1);
    }
}

/// What `trim_spec` produces: a slice of `s` with non-space characters at
/// both ends, and only spaces outside of it.
proof fn lemma_trim_props(s: Seq<char>)
    ensures
        trim_spec(s).len() <= s.len(),
        trim_spec(s).len() > 0 ==> trim_spec(s)[0] != ' ',
        trim_spec(s).len() > 0 ==> trim_spec(s).last() != ' ',
        exists|lo: int|
            0 <= lo && lo + trim_spec(s).len() <= s.len() && trim_spec(s) == #[trigger] s.subrange(
                lo,
                lo + trim_spec(s).len(),
            ),
{
    lemma_scan_nonspace_props(s, 0);
    if s.len() > 0 {
        lemma_scan_nonspace_back_props(s, s.len() - 1);
    }
    let lo = scan_nonspace(s, 0);
    let hi = scan_nonspace_back(s, s.len() - 1);
    if lo >= s.len() {
        assert(trim_spec(s) == Seq::<char>::empty());
        assert(trim_spec(s) =~= s.subrange(0, 0 + trim_spec(s).len() as int));
    } else {
        assert(0 <= lo < s.len());
        assert(s[lo] != ' ');
        assert(lo <= hi) by {
            if hi < lo {
                assert(s[lo] == ' ');
            }
        }
        assert(trim_spec(s) == s.subrange(lo, hi + 1));
        assert(trim_spec(s).len() == hi + 1 - lo);
        assert(trim_spec(s) == s.subrange(lo, lo + trim_spec(s).len() as int));
    }
}

/// Trimming an already-trimmed string changes nothing.
proof fn lemma_trim_identity(t: Seq<char>)
    requires
        t.len() > 0 ==> t[0] != ' ',
        t.len() > 0 ==> t.last() != ' ',
    ensures
        trim_spec(t) == t,
{
    if t.len() == 0 {
        assert(scan_nonspace(t, 0) == 0);
        assert(trim_spec(t) =~= t);
    } else {
        assert(scan_nonspace(t, 0) == 0);
        assert(scan_nonspace_back(t, t.len() - 1) == t.len() - 1);
        assert(trim_spec(t) =~= t);
    }
}

/// The canonical stem of a display name.
pub open spec fn stem_spec(s: Seq<char>) -> Seq<char> {
    trim_spec(remove_noise(canon_chars(s)))
}

/// A stem holds only kept characters: lowercase letters, digits, spaces.
pub proof fn lemma_stem_all_kept(s: Seq<char>)
    ensures
        all_kept(stem_spec(s)),
{
    let c = canon_chars(s);
    let r = remove_noise(c);
    lemma_canon_all_kept(s);
    lemma_remove_noise_all_kept(c);
    lemma_trim_props(r);
    let t = trim_spec(r);
    let lo = choose|lo: int|
        0 <= lo && lo + t.len() <= r.len() && t == #[trigger] r.subrange(lo, lo + t.len());
    assert forall|i: int| 0 <= i < t.len() implies crate::text::is_kept(#[trigger] t[i]) by {
        assert(t[i] == r[lo + i]);
    }
}

/// The normalizer is idempotent: the stem of a stem is the stem itself.
///
/// Re-running normalization on an already-normalized string is a no-op.
pub proof fn lemma_stem_idempotent(s: Seq<char>)
    ensures
        stem_spec(stem_spec(s)) == stem_spec(s),
{
    let c = canon_chars(s);
    let r = remove_noise(c);
    let t = trim_spec(r);
    lemma_canon_all_kept(s);
    lemma_remove_noise_all_kept(c);
    lemma_remove_noise_noise_free(c);
    lemma_trim_props(r);
    let lo = choose|lo: int|
        0 <= lo && lo + t.len() <= r.len() && t == #[trigger] r.subrange(lo, lo + t.len());
    // `t` holds only kept characters, so canonicalization leaves it alone.
    assert forall|i: int| 0 <= i < t.len() implies crate::text::is_kept(#[trigger] t[i]) by {
        assert(t[i] == r[lo + i]);
    }
    lemma_canon_identity_on_kept(t);
    // `t` is a slice of a noise-free string, so removal leaves it alone.
    lemma_noise_free_subrange(r, lo, lo + t.len());
    assert(noise_free(t));
    lemma_remove_noise_identity(t);
    // `t` is already trimmed.
    lemma_trim_identity(t);
}

/// Names that differ only by letter case have the same stem.
pub proof fn lemma_stem_case_insensitive(s: Seq<char>)
    ensures
        stem_spec(lower_all(s)) == stem_spec(s),
{
    lemma_canon_of_lower(s);
}

/// `first_match_from` starting at zero skips positions without a match.
proof fn lemma_fmf_skip(s: Seq<char>, i: int)
    requires
        0 <= i <= s.len(),
        forall|m: int| 0 <= m < i ==> match_at(s, m) is None,
    ensures
        first_match_from(s, 0) == first_match_from(s, i),
    decreases i,
{
    if i > 0 {
        lemma_fmf_skip(s, i - 1);
        assert(first_match_from(s, i - 1) == first_match_from(s, i));
    }
}

fn phrase_vec(k: usize) -> (v: Vec<char>)
    requires
        k < 4,
    ensures
        v@ == phrase(k as int),
{
    if k == 0 {
        let v = to_chars("nintendo switch edition");
        proof {
            reveal_strlit("nintendo switch edition");
            assert(v@ =~= phrase(0));
        }
        v
    } else if k == 1 {
        let v = to_chars("switch edition");
        proof {
            reveal_strlit("switch edition");
            assert(v@ =~= phrase(1));
        }
        v
    } else if k == 2 {
        let v = to_chars("for nintendo switch");
        proof {
            reveal_strlit("for nintendo switch");
            assert(v@ =~= phrase(2));
        }
        v
    } else {
        let v = to_chars(" digital version");
        proof {
            reveal_strlit(" digital version");
            assert(v@ =~= phrase(3));
        }
        v
    }
}

fn phrase_len(k: usize) -> (n: usize)
    requires
        k < 4,
    ensures
        n == phrase(k as int).len(),
{
    if k == 0 {
        23
    } else if k == 1 {
        14
    } else if k == 2 {
        19
    } else {
        16
    }
}

/// Position and phrase index of the leftmost noise occurrence, if any.
fn find_noise(v: &Vec<char>) -> (r: Option<(usize, usize)>)
    ensures
        match r {
            None => first_match_from(v@, 0) is None,
            Some((i, k)) => k < 4 && i + phrase(k as int).len() <= v@.len()
                && first_match_from(v@, 0) == Some((i as int, k as int)) && occurs_at(
                v@,
                phrase(k as int),
                i as int,
            ),
        },
{
    let p0 = phrase_vec(0);
    let p1 = phrase_vec(1);
    let p2 = phrase_vec(2);
    let p3 = phrase_vec(3);
    let n: usize = v.len();
    let mut i: usize = 0;
    while i < n
        invariant
            n == v@.len(),
            i <= n,
            p0@ == phrase(0),
            p1@ == phrase(1),
            p2@ == phrase(2),
            p3@ == phrase(3),
            forall|m: int| 0 <= m < i ==> match_at(v@, m) is None,
        decreases n - i,
    {
        let hit: Option<usize> = if occurs_at_exec(v, &p0, i) {
            Some(0)
        } else if occurs_at_exec(v, &p1, i) {
            Some(1)
        } else if occurs_at_exec(v, &p2, i) {
            Some(2)
        } else if occurs_at_exec(v, &p3, i) {
            Some(3)
        } else {
            None
        };
        match hit {
            Some(k) => {
                proof {
                    assert(match_at(v@, i as int) == Some(k as int));
                    lemma_fmf_skip(v@, i as int);
                }
                return Some((i, k));
            },
            None => {
                proof {
                    assert(match_at(v@, i as int) is None);
                }
            },
        }
        i = i + 1;
    }
    proof {
        lemma_fmf_skip(v@, n as int);
    }
    None
}

/// Copy of `v` without the index range `lo..hi`.
fn remove_range(v: &Vec<char>, lo: usize, hi: usize) -> (r: Vec<char>)
    requires
        lo <= hi <= v@.len(),
    ensures
        r@ == v@.subrange(0, lo as int) + v@.subrange(hi as int, v@.len() as int),
{
    let n: usize = v.len();
    let mut r: Vec<char> = Vec::new();
    let mut i: usize = 0;
    while i < lo
        invariant
            n == v@.len(),
            i <= lo <= hi <= n,
            r@ == v@.subrange(0, i as int),
        decreases lo - i,
    {
        r.push(v[i]);
        proof {
            assert(r@ =~= v@.subrange(0, i + 1 as int));
        }
        i = i + 1;
    }
    proof {
        assert(r@ =~= v@.subrange(0, lo as int) + v@.subrange(hi as int, hi as int));
    }
    let mut j: usize = hi;
    while j < n
        invariant
            n == v@.len(),
            lo <= hi <= j <= n,
            r@ == v@.subrange(0, lo as int) + v@.subrange(hi as int, j as int),
        decreases n - j,
    {
        r.push(v[j]);
        proof {
            assert(r@ =~= v@.subrange(0, lo as int) + v@.subrange(hi as int, j + 1 as int));
        }
        j = j + 1;
    }
    r
}

/// Remove noise-phrase occurrences until none is left (executable mirror
/// of [`remove_noise`]).
fn remove_noise_exec(v: Vec<char>) -> (r: Vec<char>)
    ensures
        r@ == remove_noise(v@),
{
    let mut w = v;
    loop
        invariant
            remove_noise(w@) == remove_noise(v@),
        decreases w@.len(),
    {
        match find_noise(&w) {
            None => {
                proof {
                    assert(remove_noise(w@) == w@);
                }
                return w;
            },
            Some((i, k)) => {
                let pl = phrase_len(k);
                let wl: usize = w.len();
                proof {
                    assert(i + pl <= wl);
                }
                let ghost before: Seq<char> = w@;
                w = remove_range(&w, i, i + pl);
                proof {
                    assert(remove_noise(before) == remove_noise(w@));
                }
            },
        }
    }
}

/// Copy of the index range `lo..hi` of `v`.
fn subvec(v: &Vec<char>, lo: usize, hi: usize) -> (r: Vec<char>)
    requires
        lo <= hi <= v@.len(),
    ensures
        r@ == v@.subrange(lo as int, hi as int),
{
    let mut r: Vec<char> = Vec::new();
    let mut i: usize = lo;
    while i < hi
        invariant
            lo <= i <= hi <= v@.len(),
            r@ == v@.subrange(lo as int, i as int),
        decreases hi - i,
    {
        r.push(v[i]);
        proof {
            assert(r@ =~= v@.subrange(lo as int, i + 1 as int));
        }
        i = i + 1;
    }
    r
}

/// Drop leading and trailing spaces (executable mirror of [`trim_spec`]).
fn trim_exec(v: &Vec<char>) -> (r: Vec<char>)
    ensures
        r@ == trim_spec(v@),
{
    let n: usize = v.len();
    let mut lo: usize = 0;
    while lo < n && v[lo] == ' '
        invariant
            n == v@.len(),
            lo <= n,
            scan_nonspace(v@, 0) == scan_nonspace(v@, lo as int),
        decreases n - lo,
    {
        lo = lo + 1;
    }
    proof {
        assert(scan_nonspace(v@, 0) == lo as int);
    }
    if lo == n {
        let r: Vec<char> = Vec::new();
        proof {
            assert(r@ =~= trim_spec(v@));
        }
        return r;
    }
    let mut hi: usize = n - 1;
    while v[hi] == ' '
        invariant
            n == v@.len(),
            lo <= hi < n,
            lo < n && v@[lo as int] != ' ',
            scan_nonspace_back(v@, n - 1) == scan_nonspace_back(v@, hi as int),
        decreases hi,
    {
        hi = hi - 1;
    }
    proof {
        assert(scan_nonspace_back(v@, n - 1) == hi as int);
        assert(trim_spec(v@) == v@.subrange(lo as int, hi + 1 as int));
    }
    subvec(v, lo, hi + 1)
}

/// Compute the canonical stem of a display name: lowercase it, keep only
/// ASCII letters, digits and spaces, remove the recognized noise phrases,
/// and trim surrounding whitespace.
pub fn create_stem(name: &str) -> (r: String)
    ensures
        r@ == stem_spec(name@),
{
    let cv = to_chars(name);
    let canon = canon_chars_exec(&cv);
    let cleaned = remove_noise_exec(canon);
    let trimmed = trim_exec(&cleaned);
    string_from_chars(trimmed)
}

} // verus!

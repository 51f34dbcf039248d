//! Character-level utilities shared by the normalizer and the record
//! parsers: ASCII lowercasing, the kept-character predicate, substring
//! occurrence, and executable helpers over `Vec<char>`.

use vstd::prelude::*;

verus! {

/// ASCII lowercasing of a single character; everything outside `'A'..='Z'`
/// is left unchanged.
pub open spec fn lower_char(c: char) -> char {
    if 65 <= c as u32 && c as u32 <= 90 {
        (((c as u32) + 32) as u8) as char
    } else {
        c
    }
}

/// A character the normalizer keeps: an ASCII lowercase letter, an ASCII
/// digit, or a space. (Uppercase letters are lowered before this test.)
pub open spec fn is_kept(c: char) -> bool {
    let u = c as u32;
    (97 <= u && u <= 122) || (48 <= u && u <= 57) || u == 32
}

/// Every character of `s` lowered, nothing removed.
pub open spec fn lower_all(s: Seq<char>) -> Seq<char>
    decreases s.len(),
{
    if s.len() == 0 {
        Seq::empty()
    } else {
        lower_all(s.drop_last()).push(lower_char(s.last()))
    }
}

/// `s` lowered and restricted to kept characters, in order.
pub open spec fn canon_chars(s: Seq<char>) -> Seq<char>
    decreases s.len(),
{
    if s.len() == 0 {
        Seq::empty()
    } else if is_kept(lower_char(s.last())) {
        canon_chars(s.drop_last()).push(lower_char(s.last()))
    } else {
        canon_chars(s.drop_last())
    }
}

/// `p` occurs in `s` starting at position `i`.
pub open spec fn occurs_at(s: Seq<char>, p: Seq<char>, i: int) -> bool {
    0 <= i && i + p.len() <= s.len() && s.subrange(i, i + p.len()) == p
}

/// `p` occurs somewhere in `s`.
pub open spec fn contains_seq(s: Seq<char>, p: Seq<char>) -> bool {
    exists|i: int| occurs_at(s, p, i)
}

/// All characters of `s` are kept characters.
pub open spec fn all_kept(s: Seq<char>) -> bool {
    forall|i: int| 0 <= i < s.len() ==> is_kept(#[trigger] s[i])
}

pub proof fn lemma_lower_all_len(s: Seq<char>)
    ensures
        lower_all(s).len() == s.len(),
        forall|i: int| 0 <= i < s.len() ==> lower_all(s)[i] == lower_char(#[trigger] s[i]),
    decreases s.len(),
{
    if s.len() > 0 {
        lemma_lower_all_len(s.drop_last());
        assert forall|i: int| 0 <= i < s.len() implies lower_all(s)[i] == lower_char(
            #[trigger] s[i],
        ) by {
            if i < s.len() - 1 {
                assert(lower_all(s)[i] == lower_all(s.drop_last())[i]);
                assert(s.drop_last()[i] == s[i]);
            } else {
                assert(s.last() == s[i]);
            }
        }
    }
}

/// Lowering twice is the same as lowering once.
pub proof fn lemma_lower_char_idempotent(c: char)
    ensures
        lower_char(lower_char(c)) == lower_char(c),
{
    if 65 <= c as u32 && c as u32 <= 90 {
        let u: u32 = (c as u32 + 32) as u32;
        let b: u8 = u as u8;
        assert(b as u32 == u) by (bit_vector)
            requires
                97 <= u && u <= 122 && b == u as u8,
        ;
        assert(lower_char(c) == b as char);
        assert((b as char) as u32 == b as u32);
    }
}

/// A kept character is unchanged by lowering.
pub proof fn lemma_kept_lower_identity(c: char)
    ensures
        is_kept(c) ==> lower_char(c) == c,
{
}

/// Canonicalization yields only kept characters.
pub proof fn lemma_canon_all_kept(s: Seq<char>)
    ensures
        all_kept(canon_chars(s)),
    decreases s.len(),
{
    if s.len() > 0 {
        lemma_canon_all_kept(s.drop_last());
        let r = canon_chars(s);
        let rp = canon_chars(s.drop_last());
        if is_kept(lower_char(s.last())) {
            assert(forall|i: int| 0 <= i < r.len() - 1 ==> r[i] == rp[i]);
        }
    }
}

/// On a string of kept characters, canonicalization is a no-op.
pub proof fn lemma_canon_identity_on_kept(s: Seq<char>)
    requires
        all_kept(s),
    ensures
        canon_chars(s) == s,
    decreases s.len(),
{
    if s.len() > 0 {
        assert(is_kept(s.last()));
        assert(all_kept(s.drop_last()));
        lemma_canon_identity_on_kept(s.drop_last());
        lemma_kept_lower_identity(s.last());
        assert(canon_chars(s) =~= s);
    }
}

/// Lowering first and then canonicalizing equals canonicalizing directly.
pub proof fn lemma_canon_of_lower(s: Seq<char>)
    ensures
        canon_chars(lower_all(s)) == canon_chars(s),
    decreases s.len(),
{
    if s.len() > 0 {
        lemma_canon_of_lower(s.drop_last());
        lemma_lower_all_len(s);
        lemma_lower_all_len(s.drop_last());
        assert(lower_all(s).drop_last() =~= lower_all(s.drop_last()));
        assert(lower_all(s).last() == lower_char(s.last()));
        lemma_lower_char_idempotent(s.last());
    }
}

/// Relies on `core::iter::Iterator::collect` (through `String`'s
/// `FromIterator<char>` impl): collecting a vector of characters yields
/// the string whose characters are exactly those of the vector, in order.
#[verifier::external_body]
pub fn string_from_chars(v: Vec<char>) -> (r: String)
    ensures
        r@ == v@,
{
    v.into_iter().collect()
}

/// Collect the characters of a string slice into a vector.
pub fn to_chars(s: &str) -> (v: Vec<char>)
    ensures
        v@ == s@,
{
    let n: usize = s.unicode_len();
    let mut v: Vec<char> = Vec::new();
    let mut i: usize = 0;
    while i < n
        invariant
            n == s@.len(),
            i <= n,
            v@ == s@.take(i as int),
        decreases n - i,
    {
        let c = s.get_char(i);
        v.push(c);
        proof {
            assert(v@ =~= s@.take(i + 1 as int));
        }
        i = i + 1;
    }
    proof {
        assert(v@ =~= s@);
    }
    v
}

/// Lower one character (executable mirror of [`lower_char`]).
pub fn lower_char_exec(c: char) -> (r: char)
    ensures
        r == lower_char(c),
{
    let u = c as u32;
    if 65 <= u && u <= 90 {
        ((u + 32) as u8) as char
    } else {
        c
    }
}

/// Does `is_kept` hold of `c`?
pub fn is_kept_exec(c: char) -> (r: bool)
    ensures
        r == is_kept(c),
{
    let u = c as u32;
    (97 <= u && u <= 122) || (48 <= u && u <= 57) || u == 32
}

/// Lower and filter the characters of `v` (executable mirror of
/// [`canon_chars`]).
pub fn canon_chars_exec(v: &Vec<char>) -> (r: Vec<char>)
    ensures
        r@ == canon_chars(v@),
{
    let mut r: Vec<char> = Vec::new();
    let mut i: usize = 0;
    while i < v.len()
        invariant
            i <= v@.len(),
            r@ == canon_chars(v@.take(i as int)),
        decreases v@.len() - i,
    {
        let c = lower_char_exec(v[i]);
        proof {
            assert(v@.take(i + 1 as int).drop_last() =~= v@.take(i as int));
            assert(v@.take(i + 1 as int).last() == v@[i as int]);
        }
        if is_kept_exec(c) {
            r.push(c);
        }
        i = i + 1;
    }
    proof {
        assert(v@.take(v@.len() as int) =~= v@);
    }
    r
}

/// Does `p` occur in `v` at position `i`?
pub fn occurs_at_exec(v: &Vec<char>, p: &Vec<char>, i: usize) -> (r: bool)
    requires
        i <= v@.len(),
    ensures
        r == occurs_at(v@, p@, i as int),
{
    if p.len() > v.len() - i {
        proof {
            assert(!occurs_at(v@, p@, i as int));
        }
        return false;
    }
    let vn: usize = v.len();
    let mut j: usize = 0;
    while j < p.len()
        invariant
            vn == v@.len(),
            j <= p@.len(),
            i + p@.len() <= v@.len(),
            forall|k: int| 0 <= k < j ==> v@[i + k] == p@[k],
        decreases p@.len() - j,
    {
        proof {
            assert(i + j < vn);
        }
        if v[i + j] != p[j] {
            proof {
                assert(v@.subrange(i as int, i + p@.len())[j as int] == v@[i + j]);
                assert(v@.subrange(i as int, i + p@.len()) != p@);
            }
            return false;
        }
        j = j + 1;
    }
    proof {
        assert(v@.subrange(i as int, i + p@.len()) =~= p@);
    }
    true
}

/// Does `p` occur anywhere in `v`?
pub fn contains_exec(v: &Vec<char>, p: &Vec<char>) -> (r: bool)
    ensures
        r == contains_seq(v@, p@),
{
    if p.len() > v.len() {
        proof {
            assert(forall|i: int| !occurs_at(v@, p@, i));
        }
        return false;
    }
    let last_start: usize = v.len() - p.len();
    let mut i: usize = 0;
    while i <= last_start
        invariant
            last_start == v@.len() - p@.len(),
            i <= last_start + 1,
            forall|k: int| 0 <= k < i ==> !occurs_at(v@, p@, k),
        decreases last_start + 1 - i,
    {
        if occurs_at_exec(v, p, i) {
            proof {
                assert(occurs_at(v@, p@, i as int));
            }
            return true;
        }
        if i == last_start {
            proof {
                assert(forall|k: int| occurs_at(v@, p@, k) ==> 0 <= k <= last_start);
            }
            return false;
        }
        i = i + 1;
    }
    proof {
        assert(forall|k: int| occurs_at(v@, p@, k) ==> 0 <= k <= last_start);
    }
    false
}

} // verus!

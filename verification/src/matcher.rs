//! The matcher: normalize a query, try the exact stem index, and fall
//! back to a similarity scan with a strict threshold and a
//! last-of-the-maxima tie-break.
//!
//! Similarity scores are Jaro similarities computed by an outside
//! routine. The score is carried as the IEEE-754 bit pattern of its
//! floating-point value: Jaro similarities are non-negative, and on
//! non-negative values the bit patterns order exactly as the values do,
//! so the threshold test and the maximum are taken over plain `u64`s.

use vstd::prelude::*;

use crate::record::GameView;
use crate::record::MetacriticGame;
use crate::snapshot::Snapshot;
use crate::snapshot::SnapshotView;
use crate::stem::create_stem;
use crate::stem::stem_spec;

verus! {

/// The Jaro similarity of two character sequences, as the bit pattern
/// of its floating-point value. Jaro similarity is a pure function of
/// the two sequences alone.
pub uninterp spec fn jaro_sim(a: Seq<char>, b: Seq<char>) -> u64;

/// Relies on `strsim::jaro`: the similarity depends only on the two
/// strings' characters, and is between 0.0 and 1.0, never negative and
/// never a NaN, so `to_bits` preserves the ordering of the scores.
#[verifier::external_body]
fn jaro_bits(a: &str, b: &str) -> (r: u64)
    ensures
        r == jaro_sim(a@, b@),
{
    strsim::jaro(a, b).to_bits()
}

/// The bit pattern of the similarity threshold 0.85. A candidate is
/// retained only if its similarity strictly exceeds this value.
pub const SIMILARITY_THRESHOLD_BITS: u64 = 0x3FEB333333333333;

/// Does a similarity strictly exceed the 0.85 threshold?
pub open spec fn above_threshold(sim: u64) -> bool {
    sim > SIMILARITY_THRESHOLD_BITS
}

/// Executable mirror of [`above_threshold`]: strict comparison, so a
/// candidate exactly at the threshold is excluded.
pub fn similarity_exceeds_threshold(sim: u64) -> (r: bool)
    ensures
        r == above_threshold(sim),
{
    sim > SIMILARITY_THRESHOLD_BITS
}

/// The fuzzy winner: among the records whose stem's similarity to `qs`
/// strictly exceeds the threshold, the index of the one with the
/// maximum similarity; when several tie at the maximum, the last of
/// them in record order.
pub open spec fn best_fuzzy_idx(records: Seq<GameView>, qs: Seq<char>) -> Option<int>
    decreases records.len(),
{
    if records.len() == 0 {
        None
    } else {
        let prev = best_fuzzy_idx(records.drop_last(), qs);
        let last = records.len() - 1;
        let sim = jaro_sim(records[last as int].stem, qs);
        if above_threshold(sim) && (prev is None || sim >= jaro_sim(
            records[prev->Some_0].stem,
            qs,
        )) {
            Some(last as int)
        } else {
            prev
        }
    }
}

/// What a lookup returns: the record at the query's stem if the index
/// holds that key, else the fuzzy winner, else nothing.
pub open spec fn lookup_spec(s: SnapshotView, q: Seq<char>) -> Option<GameView> {
    let qs = stem_spec(q);
    if s.index.contains_key(qs) {
        Some(s.index[qs])
    } else {
        match best_fuzzy_idx(s.records, qs) {
            Some(i) => Some(s.records[i]),
            None => None,
        }
    }
}

/// The view of an optional record.
pub open spec fn opt_game_view(r: Option<MetacriticGame>) -> Option<GameView> {
    match r {
        Some(g) => Some(g@),
        None => None,
    }
}

/// Exact-match precedence law: when the query's stem is a key of the
/// index, the lookup returns that record, whatever the fuzzy scan over
/// the records would have scored.
pub proof fn lemma_exact_match_precedence(s: SnapshotView, q: Seq<char>)
    requires
        s.index.contains_key(stem_spec(q)),
    ensures
        lookup_spec(s, q) == Some(s.index[stem_spec(q)]),
{
}

/// Alias-lookup law at the query level: in a well-formed snapshot, a
/// record with a subtitled name is retrievable through any query whose
/// stem equals the stem of the part before the colon, as well as
/// through any query whose stem equals the stem of the full name.
pub proof fn lemma_alias_lookup(s: SnapshotView, i: int, q: Seq<char>)
    requires
        s.wf(),
        0 <= i < s.records.len(),
        stem_spec(q) == stem_spec(s.records[i].name) || (crate::snapshot::has_colon(
            s.records[i].name,
        ) && stem_spec(q) == stem_spec(crate::snapshot::colon_prefix(s.records[i].name))),
    ensures
        lookup_spec(s, q) is Some,
{
    crate::snapshot::lemma_alias_registered(s.records, i);
}

/// Threshold and tie-break law for the fuzzy scan: a winner strictly
/// exceeds the threshold (a candidate at exactly the threshold is never
/// returned), carries the maximum similarity, and is the last of the
/// maxima; and when some record strictly exceeds the threshold, there
/// is a winner.
pub proof fn lemma_fuzzy_threshold(records: Seq<GameView>, qs: Seq<char>)
    ensures
        match best_fuzzy_idx(records, qs) {
            Some(i) => 0 <= i < records.len() && above_threshold(jaro_sim(records[i].stem, qs))
                && (forall|j: int|
                0 <= j < records.len() ==> #[trigger] jaro_sim(records[j].stem, qs) <= jaro_sim(
                    records[i].stem,
                    qs,
                )) && (forall|j: int|
                i < j < records.len() ==> #[trigger] jaro_sim(records[j].stem, qs) < jaro_sim(
                    records[i].stem,
                    qs,
                )),
            None => forall|j: int|
                0 <= j < records.len() ==> !above_threshold(
                    #[trigger] jaro_sim(records[j].stem, qs),
                ),
        },
    decreases records.len(),
{
    if records.len() > 0 {
        lemma_fuzzy_threshold(records.drop_last(), qs);
        assert(forall|j: int|
            0 <= j < records.len() - 1 ==> records.drop_last()[j] == records[j]);
    }
}

/// Look a query up in one snapshot: exact stem-index hit first, then
/// the fuzzy fallback; an absent result is a normal outcome, not an
/// error.
pub fn lookup_in_snapshot(snap: &Snapshot, query: &str) -> (r: Option<MetacriticGame>)
    ensures
        opt_game_view(r) == lookup_spec(snap@, query@),
{
    let qs = create_stem(query);
    match index_lookup(&snap.index, &qs) {
        Some(g) => {
            let found = g.duplicate();
            return Some(found);
        },
        None => {},
    }
    let n: usize = snap.records.len();
    let mut best: Option<(usize, u64)> = None;
    let mut i: usize = 0;
    while i < n
        invariant
            n == snap.records@.len(),
            i <= n,
            qs@ == stem_spec(query@),
            snap@.records.len() == n,
            match best {
                None => best_fuzzy_idx(snap@.records.take(i as int), qs@) is None,
                Some((bi, bs)) => bi < i && best_fuzzy_idx(snap@.records.take(i as int), qs@)
                    == Some(bi as int) && bs == jaro_sim(snap@.records[bi as int].stem, qs@),
            },
        decreases n - i,
    {
        let sim = jaro_bits(snap.records[i].stem.as_str(), qs.as_str());
        proof {
            assert(snap@.records[i as int] == snap.records@[i as int]@);
            assert(snap@.records.take(i + 1 as int).drop_last() =~= snap@.records.take(i as int));
            assert(snap@.records.take(i + 1 as int).last() == snap@.records[i as int]);
        }
        let take_it: bool = match best {
            None => similarity_exceeds_threshold(sim),
            Some((_, bs)) => similarity_exceeds_threshold(sim) && sim >= bs,
        };
        if take_it {
            best = Some((i, sim));
        }
        i = i + 1;
    }
    proof {
        assert(snap@.records.take(n as int) =~= snap@.records);
    }
    match best {
        Some((bi, _)) => {
            let found = snap.records[bi].duplicate();
            Some(found)
        },
        None => None,
    }
}

/// Find the record stored under `key`, scanning so that a later entry
/// overwrites an earlier one under the same key.
fn index_lookup<'a>(index: &'a Vec<(String, MetacriticGame)>, key: &String) -> (r: Option<
    &'a MetacriticGame,
>)
    ensures
        match r {
            Some(g) => crate::snapshot::assoc_map(index@).contains_key(key@) && g@
                == crate::snapshot::assoc_map(index@)[key@],
            None => !crate::snapshot::assoc_map(index@).contains_key(key@),
        },
{
    let mut i: usize = index.len();
    while i > 0
        invariant
            i <= index@.len(),
            forall|m: int| i <= m < index@.len() ==> (#[trigger] index@[m]).0@ != key@,
        decreases i,
    {
        i = i - 1;
        if index[i].0 == *key {
            proof {
                lemma_assoc_skip(index@, key@, i + 1);
                assert(index@.take(i + 1 as int).drop_last() =~= index@.take(i as int));
                assert(index@.take(i + 1 as int).last() == index@[i as int]);
            }
            return Some(&index[i].1);
        }
    }
    proof {
        lemma_assoc_skip(index@, key@, 0);
        assert(index@.take(0) =~= Seq::<(String, MetacriticGame)>::empty());
        assert(!crate::snapshot::assoc_map(index@.take(0)).contains_key(key@));
    }
    None
}

/// Entries at or after position `j` whose key differs from `key` do not
/// affect what the index holds under `key`.
proof fn lemma_assoc_skip(s: Seq<(String, MetacriticGame)>, key: Seq<char>, j: int)
    requires
        0 <= j <= s.len(),
        forall|m: int| j <= m < s.len() ==> (#[trigger] s[m]).0@ != key,
    ensures
        crate::snapshot::assoc_map(s).contains_key(key) == crate::snapshot::assoc_map(
            s.take(j),
        ).contains_key(key),
        crate::snapshot::assoc_map(s).contains_key(key) ==> crate::snapshot::assoc_map(s)[key]
            == crate::snapshot::assoc_map(s.take(j))[key],
    decreases s.len() - j,
{
    if j < s.len() {
        lemma_assoc_skip(s, key, j + 1);
        assert(s.take(j + 1).drop_last() =~= s.take(j));
        assert(s.take(j + 1).last() == s[j]);
    } else {
        assert(s.take(j) =~= s);
    }
}

} // verus!

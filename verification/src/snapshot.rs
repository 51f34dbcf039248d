//! The catalog snapshot and the ingestion adapter: raw entries become
//! records, the stem index is built with alias expansion for subtitled
//! titles, and paginated page results are accumulated until the source
//! is exhausted or a page fails.

use vstd::prelude::*;

use crate::record::GameView;
use crate::record::MetacriticGame;
use crate::record::RawEntry;
use crate::record::RawEntryView;
use crate::record::game_from_raw;
use crate::record::game_of_raw;
use crate::stem::create_stem;
use crate::stem::stem_spec;
use crate::text::string_from_chars;
use crate::text::to_chars;

verus! {

/// Index of the first colon at or after `i`, or `s.len()`.
pub open spec fn scan_colon(s: Seq<char>, i: int) -> int
    decreases s.len() - i,
        when 0 <= i <= s.len()
{
    if i >= s.len() {
        s.len() as int
    } else if s[i] == ':' {
        i
    } else {
        scan_colon(s, i + 1)
    }
}

/// Does the name carry a subtitle after a colon?
pub open spec fn has_colon(s: Seq<char>) -> bool {
    scan_colon(s, 0) < s.len()
}

/// The part of the name before its first colon.
pub open spec fn colon_prefix(s: Seq<char>) -> Seq<char> {
    s.take(scan_colon(s, 0))
}

/// The views of a sequence of raw entries.
pub open spec fn views_of(entries: Seq<RawEntry>) -> Seq<RawEntryView> {
    entries.map_values(|e: RawEntry| e@)
}

/// The records a sequence of raw entries constructs, in order.
pub open spec fn records_of(entries: Seq<RawEntryView>) -> Seq<GameView> {
    entries.map_values(|e: RawEntryView| game_of_raw(e))
}

/// The stem index a sequence of records builds: each record is keyed by
/// the stem of its name, and a record whose name carries a colon is also
/// keyed by the stem of the part before the colon. A later record
/// overwrites an earlier one under the same key.
pub open spec fn index_of_records(records: Seq<GameView>) -> Map<Seq<char>, GameView>
    decreases records.len(),
{
    if records.len() == 0 {
        Map::empty()
    } else {
        let m = index_of_records(records.drop_last());
        let g = records.last();
        let m1 = m.insert(stem_spec(g.name), g);
        if has_colon(g.name) {
            m1.insert(stem_spec(colon_prefix(g.name)), g)
        } else {
            m1
        }
    }
}

/// The index an association list denotes: a later pair overwrites an
/// earlier one under the same key.
pub open spec fn assoc_map(s: Seq<(String, MetacriticGame)>) -> Map<Seq<char>, GameView>
    decreases s.len(),
{
    if s.len() == 0 {
        Map::empty()
    } else {
        assoc_map(s.drop_last()).insert(s.last().0@, s.last().1@)
    }
}

/// One complete, immutable catalog state: the records in ingestion
/// order, and the stem index over them. A snapshot is never changed
/// after construction; a refresh builds a new snapshot and installs it
/// wholesale.
pub struct Snapshot {
    pub records: Vec<MetacriticGame>,
    pub index: Vec<(String, MetacriticGame)>,
}

/// Mathematical model of a snapshot: the record sequence and the index
/// mapping stems to records.
#[verifier::ext_equal]
pub ghost struct SnapshotView {
    pub records: Seq<GameView>,
    pub index: Map<Seq<char>, GameView>,
}

impl View for Snapshot {
    type V = SnapshotView;

    open spec fn view(&self) -> SnapshotView {
        SnapshotView {
            records: self.records@.map_values(|g: MetacriticGame| g@),
            index: assoc_map(self.index@),
        }
    }
}

impl SnapshotView {
    /// Every record's stem is the stem of its name, and the index is
    /// exactly the one its records build.
    pub open spec fn wf(self) -> bool {
        (forall|i: int| 0 <= i < self.records.len() ==> (#[trigger] self.records[i]).wf())
            && self.index == index_of_records(self.records)
    }
}

impl Snapshot {
    /// A well-formed snapshot: see [`SnapshotView::wf`].
    pub open spec fn wf(self) -> bool {
        self@.wf()
    }

    /// An identical copy of the snapshot.
    pub fn duplicate(&self) -> (r: Self)
        ensures
            r@ == self@,
    {
        let mut records: Vec<MetacriticGame> = Vec::new();
        let mut i: usize = 0;
        while i < self.records.len()
            invariant
                i <= self.records@.len(),
                records@.len() == i,
                forall|j: int| 0 <= j < i ==> (#[trigger] records@[j])@ == self.records@[j]@,
            decreases self.records@.len() - i,
        {
            records.push(self.records[i].duplicate());
            i = i + 1;
        }
        let mut index: Vec<(String, MetacriticGame)> = Vec::new();
        let mut j: usize = 0;
        while j < self.index.len()
            invariant
                j <= self.index@.len(),
                index@.len() == j,
                forall|m: int|
                    0 <= m < j ==> (#[trigger] index@[m]).0@ == self.index@[m].0@
                        && index@[m].1@ == self.index@[m].1@,
            decreases self.index@.len() - j,
        {
            let pair = (self.index[j].0.clone(), self.index[j].1.duplicate());
            index.push(pair);
            j = j + 1;
        }
        let r = Snapshot { records, index };
        proof {
            assert(r@.records =~= self@.records);
            lemma_assoc_map_congruence(r.index@, self.index@);
            assert(r@ =~= self@);
        }
        r
    }
}

/// Association lists whose pairs agree in view denote the same index.
proof fn lemma_assoc_map_congruence(
    a: Seq<(String, MetacriticGame)>,
    b: Seq<(String, MetacriticGame)>,
)
    requires
        a.len() == b.len(),
        forall|m: int|
            0 <= m < a.len() ==> (#[trigger] a[m]).0@ == b[m].0@ && a[m].1@ == b[m].1@,
    ensures
        assoc_map(a) == assoc_map(b),
    decreases a.len(),
{
    if a.len() > 0 {
        lemma_assoc_map_congruence(a.drop_last(), b.drop_last());
        assert(assoc_map(a) =~= assoc_map(b));
    }
}

/// Find the position of the first colon of `v`, if any.
fn find_colon(v: &Vec<char>) -> (r: Option<usize>)
    ensures
        match r {
            Some(c) => c == scan_colon(v@, 0) && c < v@.len(),
            None => scan_colon(v@, 0) == v@.len(),
        },
{
    let n: usize = v.len();
    let mut i: usize = 0;
    while i < n && v[i] != ':'
        invariant
            n == v@.len(),
            i <= n,
            scan_colon(v@, 0) == scan_colon(v@, i as int),
        decreases n - i,
    {
        i = i + 1;
    }
    if i < n {
        Some(i)
    } else {
        None
    }
}

/// Build a snapshot from a sequence of raw entries: one record per
/// entry, with the index keyed by each record's stem and, for subtitled
/// names, by the stem of the part before the first colon. An empty input
/// produces an empty snapshot, not a failure.
pub fn build_snapshot(entries: &Vec<RawEntry>) -> (s: Snapshot)
    ensures
        s@.records == records_of(views_of(entries@)),
        s@.index == index_of_records(s@.records),
        s.wf(),
{
    let mut records: Vec<MetacriticGame> = Vec::new();
    let mut index: Vec<(String, MetacriticGame)> = Vec::new();
    let mut i: usize = 0;
    while i < entries.len()
        invariant
            i <= entries@.len(),
            records@.map_values(|g: MetacriticGame| g@) == records_of(
                views_of(entries@.take(i as int)),
            ),
            assoc_map(index@) == index_of_records(
                records@.map_values(|g: MetacriticGame| g@),
            ),
            forall|j: int|
                0 <= j < records@.len() ==> (#[trigger] records@[j]@).wf(),
        decreases entries@.len() - i,
    {
        let ghost old_records: Seq<GameView> = records@.map_values(|g: MetacriticGame| g@);
        let g = game_from_raw(&entries[i]);
        let name_chars = to_chars(g.name.as_str());
        let ghost index_before: Seq<(String, MetacriticGame)> = index@;
        index.push((g.stem.clone(), g.duplicate()));
        proof {
            assert(index@.drop_last() =~= index_before);
            assert(index@.last().0@ == g@.stem);
            assert(index@.last().1@ == g@);
            assert(g@.stem == stem_spec(g@.name));
            assert(assoc_map(index@) =~= index_of_records(old_records).insert(
                stem_spec(g@.name),
                g@,
            ));
        }
        match find_colon(&name_chars) {
            Some(c) => {
                let prefix_chars = subvec_chars(&name_chars, c);
                let prefix_string = string_from_chars(prefix_chars);
                let alias_stem = create_stem(prefix_string.as_str());
                let ghost index_mid: Seq<(String, MetacriticGame)> = index@;
                index.push((alias_stem, g.duplicate()));
                proof {
                    assert(has_colon(g@.name));
                    assert(prefix_string@ == colon_prefix(g@.name));
                    assert(index@.drop_last() =~= index_mid);
                    assert(index@.last().0@ == stem_spec(colon_prefix(g@.name)));
                    assert(index@.last().1@ == g@);
                    assert(assoc_map(index@) =~= index_of_records(old_records).insert(
                        stem_spec(g@.name),
                        g@,
                    ).insert(stem_spec(colon_prefix(g@.name)), g@));
                }
            },
            None => {
                proof {
                    assert(!has_colon(g@.name));
                }
            },
        }
        records.push(g);
        proof {
            let nr = records@.map_values(|g2: MetacriticGame| g2@);
            assert(nr.drop_last() =~= old_records);
            assert(nr.last() == records@.last()@);
            let rhs = records_of(views_of(entries@.take(i + 1 as int)));
            assert(nr =~= rhs) by {
                assert(views_of(entries@.take(i + 1 as int)).drop_last() =~= views_of(
                    entries@.take(i as int),
                ));
                assert(rhs.drop_last() =~= records_of(views_of(entries@.take(i as int))));
                assert(views_of(entries@.take(i + 1 as int)).last() == entries@[i as int]@);
                assert(rhs.last() == game_of_raw(entries@[i as int]@));
                assert(g@ == game_of_raw(entries@[i as int]@));
                assert(nr.len() == i + 1);
                assert(rhs.len() == i + 1);
                assert(nr.drop_last() =~= records_of(views_of(entries@.take(i as int))));
                assert forall|m: int| 0 <= m < nr.len() implies nr[m] == rhs[m] by {
                    if m < i {
                        assert(nr[m] == nr.drop_last()[m]);
                        assert(rhs[m] == rhs.drop_last()[m]);
                    } else {
                        assert(nr[m] == nr.last());
                        assert(rhs[m] == rhs.last());
                    }
                }
            }
            assert(assoc_map(index@) =~= index_of_records(nr));
        }
        i = i + 1;
    }
    proof {
        assert(entries@.take(entries@.len() as int) =~= entries@);
    }
    Snapshot { records, index }
}

/// Copy of the first `c` characters of `v`.
fn subvec_chars(v: &Vec<char>, c: usize) -> (r: Vec<char>)
    requires
        c <= v@.len(),
    ensures
        r@ == v@.take(c as int),
{
    let mut r: Vec<char> = Vec::new();
    let mut i: usize = 0;
    while i < c
        invariant
            i <= c <= v@.len(),
            r@ == v@.take(i as int),
        decreases c - i,
    {
        r.push(v[i]);
        proof {
            assert(r@ =~= v@.take(i + 1 as int));
        }
        i = i + 1;
    }
    r
}

/// One page result handed back by the paginated source: the entries of
/// the page, or the sign that its transport failed.
pub enum PageFetch {
    Entries(Vec<RawEntry>),
    TransportFailure,
}

/// Fold one page result into the accumulated entries and say whether
/// pagination goes on. An empty page means the source is exhausted; a
/// transport failure is treated the same way, so the cycle still yields
/// the (possibly truncated) entries gathered so far.
pub fn ingest_step(acc: &mut Vec<RawEntry>, page: PageFetch) -> (cont: bool)
    ensures
        match page {
            PageFetch::Entries(es) => {
                if es@.len() == 0 {
                    final(acc)@ == old(acc)@ && !cont
                } else {
                    final(acc)@ == old(acc)@ + es@ && cont
                }
            },
            PageFetch::TransportFailure => final(acc)@ == old(acc)@ && !cont,
        },
{
    match page {
        PageFetch::Entries(mut es) => {
            if es.len() == 0 {
                false
            } else {
                acc.append(&mut es);
                true
            }
        },
        PageFetch::TransportFailure => false,
    }
}

/// Alias-lookup law: ingesting a subtitled record registers both the
/// stem of its full name and the stem of the part before the colon; for
/// the record ingested last, both keys retrieve that very record.
pub proof fn lemma_alias_registered(records: Seq<GameView>, i: int)
    requires
        0 <= i < records.len(),
    ensures
        index_of_records(records).contains_key(stem_spec(records[i].name)),
        has_colon(records[i].name) ==> index_of_records(records).contains_key(
            stem_spec(colon_prefix(records[i].name)),
        ),
        i == records.len() - 1 ==> index_of_records(records)[stem_spec(records[i].name)]
            == records[i],
        i == records.len() - 1 && has_colon(records[i].name) ==> index_of_records(records)[
            stem_spec(colon_prefix(records[i].name))] == records[i],
    decreases records.len(),
{
    if i == records.len() - 1 {
        if has_colon(records[i].name) && stem_spec(colon_prefix(records[i].name)) == stem_spec(
            records[i].name,
        ) {
        }
    } else {
        lemma_alias_registered(records.drop_last(), i);
        assert(records.drop_last()[i] == records[i]);
    }
}

} // verus!

use metacritic_lookup::matcher::lookup_in_snapshot;
use metacritic_lookup::matcher::similarity_exceeds_threshold;
use metacritic_lookup::matcher::SIMILARITY_THRESHOLD_BITS;
use metacritic_lookup::record::RawEntry;
use metacritic_lookup::snapshot::build_snapshot;

fn entry(name: &str, href: &str) -> RawEntry {
    RawEntry {
        name: name.to_owned(),
        href: href.to_owned(),
        score_text: String::new(),
        score_label: String::new(),
        user_score_bits: None,
        user_score_label: String::new(),
    }
}

#[test]
fn threshold_constant_is_bits_of_0_85() {
    assert_eq!(SIMILARITY_THRESHOLD_BITS, (0.85f64).to_bits());
}

#[test]
fn threshold_is_strict() {
    // a candidate at exactly 0.85 is excluded; one at 0.86 is included
    assert!(!similarity_exceeds_threshold((0.85f64).to_bits()));
    assert!(similarity_exceeds_threshold((0.86f64).to_bits()));
    assert!(!similarity_exceeds_threshold((0.0f64).to_bits()));
    assert!(similarity_exceeds_threshold((1.0f64).to_bits()));
}

#[test]
fn exact_match_beats_fuzzy() {
    // "zeldaa" scores high fuzzy similarity against "zelda", but the
    // exact index hit on "zelda" must win without running the scan
    let snapshot = build_snapshot(&vec![
        entry("Zeldaa", "http://example.test/a"),
        entry("Zelda", "http://example.test/b"),
    ]);
    let found = lookup_in_snapshot(&snapshot, "zelda").expect("expected a match");
    assert_eq!(found.name, "Zelda");
    assert_eq!(found.href, "http://example.test/b");
}

#[test]
fn fuzzy_match_above_threshold() {
    let snapshot = build_snapshot(&vec![entry("Zelda Breath of the Wild", "http://example.test/a")]);
    // one dropped letter: similarity is high, well above 0.85
    let found = lookup_in_snapshot(&snapshot, "zelda breat of the wild");
    assert!(found.is_some());
    assert_eq!(found.unwrap().name, "Zelda Breath of the Wild");
}

#[test]
fn fuzzy_miss_below_threshold() {
    let snapshot = build_snapshot(&vec![entry("Zelda Breath of the Wild", "http://example.test/a")]);
    assert!(lookup_in_snapshot(&snapshot, "xyzzy").is_none());
}

#[test]
fn fuzzy_tie_resolves_to_last() {
    // both stems are "abcd1"; against "abcd2" they tie above the
    // threshold, and the later record wins
    let snapshot = build_snapshot(&vec![
        entry("Abcd1", "http://example.test/first"),
        entry("Abcd1 ", "http://example.test/second"),
    ]);
    // jaro("abcd1", "abcd2") = (4/5 + 4/5 + 1) / 3 > 0.85 for both
    let found = lookup_in_snapshot(&snapshot, "abcd2").expect("expected a fuzzy match");
    assert_eq!(found.href, "http://example.test/second");
}

#[test]
fn empty_catalog_always_misses() {
    let snapshot = build_snapshot(&vec![]);
    assert!(lookup_in_snapshot(&snapshot, "anything").is_none());
    assert!(lookup_in_snapshot(&snapshot, "").is_none());
}

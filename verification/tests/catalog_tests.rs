use metacritic_lookup::matcher::lookup_in_snapshot;
use metacritic_lookup::record::RawEntry;
use metacritic_lookup::record::ScoreDetail;
use metacritic_lookup::snapshot::build_snapshot;
use metacritic_lookup::snapshot::ingest_step;
use metacritic_lookup::snapshot::PageFetch;
use metacritic_lookup::store::create_lookup_handler;

fn entry(name: &str, href: &str) -> RawEntry {
    RawEntry {
        name: name.to_owned(),
        href: href.to_owned(),
        score_text: String::new(),
        score_label: String::new(),
        user_score_bits: None,
        user_score_label: String::new(),
    }
}

#[test]
fn alias_lookup_for_subtitled_title() {
    let handler = create_lookup_handler(vec![entry(
        "Game Title: Subtitle",
        "http://example.test/g",
    )]);
    let by_full = handler.lookup_game("Game Title: Subtitle").expect("full name must hit");
    assert_eq!(by_full.name, "Game Title: Subtitle");
    let by_alias = handler.lookup_game("Game Title").expect("alias must hit");
    assert_eq!(by_alias.name, "Game Title: Subtitle");
    assert_eq!(by_alias.href, "http://example.test/g");
}

#[test]
fn end_to_end_scenario() {
    let mut e = entry("Zelda: Breath of the Wild", "http://example.test/zelda");
    e.score_text = "97".to_owned();
    e.score_label = "metascore_w positive".to_owned();
    let handler = create_lookup_handler(vec![e]);

    let direct = handler.lookup_game("zelda breath of the wild").expect("stem query must hit");
    assert_eq!(direct.name, "Zelda: Breath of the Wild");
    assert_eq!(direct.score, Some(97));
    assert_eq!(direct.score_detail, ScoreDetail::Positive);

    let by_alias = handler.lookup_game("zelda").expect("alias query must hit");
    assert_eq!(by_alias.name, "Zelda: Breath of the Wild");

    assert!(handler.lookup_game("xyzzy").is_none());
}

#[test]
fn truncated_pagination_keeps_first_pages() {
    let mut acc: Vec<RawEntry> = Vec::new();
    let page0 = PageFetch::Entries(vec![
        entry("First Game", "http://example.test/1"),
        entry("Second Game", "http://example.test/2"),
    ]);
    assert!(ingest_step(&mut acc, page0));
    // page 1 fails transport: pagination stops, entries so far are kept
    assert!(!ingest_step(&mut acc, PageFetch::TransportFailure));
    assert_eq!(acc.len(), 2);

    let snapshot = build_snapshot(&acc);
    assert_eq!(snapshot.records.len(), 2);
    assert!(lookup_in_snapshot(&snapshot, "first game").is_some());
    assert!(lookup_in_snapshot(&snapshot, "second game").is_some());
}

#[test]
fn empty_page_ends_pagination() {
    let mut acc: Vec<RawEntry> = Vec::new();
    assert!(!ingest_step(&mut acc, PageFetch::Entries(Vec::new())));
    assert!(acc.is_empty());
}

#[test]
fn snapshot_held_by_reader_survives_replace() {
    let handler = create_lookup_handler(vec![entry("Old Game", "http://example.test/old")]);
    let held = handler.current_snapshot();

    handler.update(vec![entry("New Game", "http://example.test/new")]);

    // the handler answers from the new snapshot
    assert!(handler.lookup_game("new game").is_some());
    assert!(handler.lookup_game("old game").is_none());

    // the held snapshot is still the old one, records and index paired
    assert_eq!(held.records.len(), 1);
    assert_eq!(held.records[0].name, "Old Game");
    let from_held = lookup_in_snapshot(&held, "old game").expect("held snapshot must answer");
    assert_eq!(from_held.href, "http://example.test/old");
    assert!(lookup_in_snapshot(&held, "new game").is_none());
}

#[test]
fn later_record_overwrites_equal_stem() {
    let handler = create_lookup_handler(vec![
        entry("Same Name", "http://example.test/earlier"),
        entry("Same Name", "http://example.test/later"),
    ]);
    let found = handler.lookup_game("same name").expect("must hit");
    assert_eq!(found.href, "http://example.test/later");
}

#[test]
fn empty_catalog_is_usable() {
    let handler = create_lookup_handler(Vec::new());
    assert!(handler.lookup_game("anything").is_none());
}

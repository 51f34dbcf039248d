use metacritic_lookup::record::game_from_raw;
use metacritic_lookup::record::parse_score_detail;
use metacritic_lookup::record::parse_u32;
use metacritic_lookup::record::parse_user_score_detail;
use metacritic_lookup::record::RawEntry;
use metacritic_lookup::record::ScoreDetail;

fn entry(name: &str, score_text: &str, score_label: &str) -> RawEntry {
    RawEntry {
        name: name.to_owned(),
        href: "http://www.metacritic.com/game/test".to_owned(),
        score_text: score_text.to_owned(),
        score_label: score_label.to_owned(),
        user_score_bits: None,
        user_score_label: String::new(),
    }
}

#[test]
fn score_detail_keywords() {
    assert_eq!(parse_score_detail("metascore_w positive".to_owned()), ScoreDetail::Positive);
    assert_eq!(parse_score_detail("somewhat mixed".to_owned()), ScoreDetail::Mixed);
    assert_eq!(parse_score_detail("negative".to_owned()), ScoreDetail::Negative);
    assert_eq!(parse_score_detail("tbd nothing".to_owned()), ScoreDetail::Unknown);
    assert_eq!(parse_score_detail(String::new()), ScoreDetail::Unknown);
}

#[test]
fn score_detail_priority_positive_first() {
    assert_eq!(
        parse_score_detail("positive and negative".to_owned()),
        ScoreDetail::Positive,
    );
}

#[test]
fn user_score_detail_keywords() {
    assert_eq!(
        parse_user_score_detail("textscore_favorable".to_owned()),
        ScoreDetail::Positive,
    );
    assert_eq!(
        parse_user_score_detail("data textscore_mixed".to_owned()),
        ScoreDetail::Mixed,
    );
    assert_eq!(
        parse_user_score_detail("textscore_unfavorable".to_owned()),
        ScoreDetail::Negative,
    );
    assert_eq!(parse_user_score_detail("favorable".to_owned()), ScoreDetail::Unknown);
}

#[test]
fn parse_u32_accepts_plain_and_plus() {
    assert_eq!(parse_u32("97"), Some(97));
    assert_eq!(parse_u32("+42"), Some(42));
    assert_eq!(parse_u32("0"), Some(0));
    assert_eq!(parse_u32("4294967295"), Some(u32::MAX));
}

#[test]
fn parse_u32_rejects_garbage_and_overflow() {
    assert_eq!(parse_u32(""), None);
    assert_eq!(parse_u32("+"), None);
    assert_eq!(parse_u32("12a"), None);
    assert_eq!(parse_u32("-5"), None);
    assert_eq!(parse_u32("tbd"), None);
    assert_eq!(parse_u32("4294967296"), None);
    assert_eq!(parse_u32("99999999999"), None);
}

#[test]
fn record_construction_carries_fields() {
    let mut e = entry("Zelda: Breath of the Wild", "97", "Positive thing");
    e.user_score_bits = Some((8.4f64).to_bits());
    e.user_score_label = "data textscore_favorable".to_owned();
    let g = game_from_raw(&e);
    assert_eq!(g.name, "Zelda: Breath of the Wild");
    assert_eq!(g.href, "http://www.metacritic.com/game/test");
    assert_eq!(g.score, Some(97));
    assert_eq!(g.score_detail, ScoreDetail::Positive);
    assert_eq!(g.user_score_bits, Some((8.4f64).to_bits()));
    assert_eq!(g.user_score_detail, ScoreDetail::Positive);
    assert_eq!(g.stem, "zelda breath of the wild");
}

#[test]
fn record_construction_tolerates_bad_fields() {
    let g = game_from_raw(&entry("Some Game", "tbd", "no keyword here"));
    assert_eq!(g.score, None);
    assert_eq!(g.score_detail, ScoreDetail::Unknown);
    assert_eq!(g.user_score_bits, None);
    assert_eq!(g.user_score_detail, ScoreDetail::Unknown);
    assert_eq!(g.stem, "some game");
}

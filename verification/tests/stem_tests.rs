use metacritic_lookup::stem::create_stem;

#[test]
fn stem_lowercases_and_strips_punctuation() {
    assert_eq!(create_stem("Zelda: Breath of the Wild"), "zelda breath of the wild");
}

#[test]
fn stem_keeps_digits_and_spaces() {
    assert_eq!(create_stem("Mega Man 10"), "mega man 10");
}

#[test]
fn stem_removes_switch_edition_suffix() {
    assert_eq!(create_stem("Cities Skylines Nintendo Switch Edition"), "cities skylines");
    assert_eq!(create_stem("Doom Switch Edition"), "doom");
}

#[test]
fn stem_removes_for_nintendo_switch_suffix() {
    assert_eq!(create_stem("Foo Bar for Nintendo Switch"), "foo bar");
}

#[test]
fn stem_removes_digital_version_suffix() {
    assert_eq!(create_stem("Octopath Traveler - Digital Version"), "octopath traveler");
}

#[test]
fn stem_of_empty_is_empty() {
    assert_eq!(create_stem(""), "");
    assert_eq!(create_stem("  !!  "), "");
}

#[test]
fn stem_idempotent_on_examples() {
    let names = [
        "Zelda: Breath of the Wild",
        "Cities Skylines Nintendo Switch Edition",
        "Mario + Rabbids Kingdom Battle",
        "  spaced   out  ",
        "switch switch editionedition",
        "",
    ];
    for name in names.iter() {
        let once = create_stem(name);
        let twice = create_stem(&once);
        assert_eq!(twice, once);
    }
}

#[test]
fn stem_case_insensitive_examples() {
    assert_eq!(create_stem("Foo Bar"), create_stem("foo bar"));
    assert_eq!(create_stem("Foo Bar"), create_stem("FOO BAR"));
    assert_eq!(create_stem("Foo Bar"), create_stem("Foo Bar for Nintendo Switch"));
}

use beciarz::casing::CapitalisationMode;
use beciarz::chars::{fold_char, from_chars};
use beciarz::greek::{to_char, utf8_to_greek, TextRepr};
use beciarz::official::parse;
use beciarz::{greek_to_official, official_to_greek};

#[test]
fn plain_words_round_trip() {
    for w in [
        "woda", "szkoła", "dzwon", "mózg", "wóz", "czas", "dżem", "ząb", "bęben", "gospodarka",
        "kto", "trzy", "dom", "zbudowany", "żaba", "rzeka", "chata", "chrzan", "brzeg",
        "przy", "morze", "grzyb", "dach", "radość", "gość", "źdźbło", "koń", "cześć", "brać",
        "mróz", "las", "mleko", "chleb", "pole", "wola", "klasa", "lód", "źle", "myśl", "bułka",
        "jej", "moja", "ojczyzno", "zjem", "jajko", "kraj", "maj", "magia", "miód", "kiedy",
        "mięso", "cieplutko", "dziób", "zima", "nic", "siano", "wiosna", "miodu", "dzień",
    ] {
        assert_eq!(greek_to_official(&official_to_greek(w)), w, "word {w}");
    }
}

#[test]
fn plain_word_renderings() {
    assert_eq!(official_to_greek("woda"), "βοδα");
    assert_eq!(official_to_greek("czas"), "θασ");
    assert_eq!(official_to_greek("dżem"), "δξεμ");
    assert_eq!(official_to_greek("dzwon"), "δζβον");
    assert_eq!(official_to_greek("wóz"), "βουζ");
}

#[test]
fn ambiguous_neighbours_do_not_round_trip() {
    // "mp" and "b" share a rendering
    assert_eq!(official_to_greek("tempo"), "τεμπο");
    assert_eq!(greek_to_official("τεμπο"), "tebo");
    // so do "ou" and "ó"
    assert_eq!(greek_to_official(&official_to_greek("bou")), "bó");
    // a lone "h" comes back as "ch"
    assert_eq!(greek_to_official(&official_to_greek("hak")), "chak");
    // a softened consonant passes its softening on to a vowel after it
    assert_eq!(greek_to_official(&official_to_greek("śa")), "sia");
    // and takes a consonant before it along
    assert_eq!(greek_to_official(&official_to_greek("sć")), "ść");
    // a soft l reaches back to a consonant before it, and "ly" reads as "li"
    assert_eq!(greek_to_official(&official_to_greek("sla")), "śla");
    assert_eq!(greek_to_official(&official_to_greek("ly")), "li");
    // an "i" before a vowel after most consonants comes back as "j"
    assert_eq!(greek_to_official(&official_to_greek("pies")), "pjes");
    // "w" before a glide and a vowel comes back with an "i"
    assert_eq!(greek_to_official(&official_to_greek("wjazd")), "wiazd");
    // of two soft r's in a row the first comes back hard
    assert_eq!(greek_to_official(&official_to_greek("rzrza")), "rrza");
}

#[test]
fn literal_text_passes_through() {
    for s in ["", "123, 456!? ...", " \n\t", "QX-42 #$%", "€ 3,50 — 7"] {
        assert_eq!(official_to_greek(s), s);
        assert_eq!(greek_to_official(s), s);
    }
}

#[test]
fn literal_spans_keep_their_case() {
    assert_eq!(official_to_greek("Q ma X"), "Q μα X");
    assert_eq!(greek_to_official("Q μα X"), "Q ma X");
}

#[test]
fn uppercase_word_renders_in_uppercase() {
    for w in ["woda", "radość", "miód", "diagnostyka", "przyjdzie"] {
        let upper = w.to_uppercase();
        assert_eq!(official_to_greek(&upper), official_to_greek(w).to_uppercase());
    }
    assert_eq!(official_to_greek("MORDO"), "ΜΟΡΔΟ");
    assert_eq!(greek_to_official("ΜΟΡΔΟ"), "MORDO");
}

#[test]
fn titlecase_word_renders_with_capital_first() {
    assert_eq!(official_to_greek("Litwo"), "Λίτβο");
    assert_eq!(official_to_greek("Woda"), "Βοδα");
    let lower = official_to_greek("ile");
    let title = official_to_greek("Ile");
    let mut chars = lower.chars();
    let first: String = chars.next().unwrap().to_uppercase().collect();
    assert_eq!(title, first + chars.as_str());
    assert_eq!(greek_to_official("Κέδι"), "Kiedy");
}

#[test]
fn single_capital_letter_is_uppercase() {
    // one capital letter on its own counts as an all-uppercase word
    assert_eq!(official_to_greek("B"), "ΜΠ");
}

#[test]
fn greek_spans_cover_the_text() {
    let input = "ποζδραβάμ τέπλύτκο! :)";
    let text = utf8_to_greek(input);
    let mut rebuilt = String::new();
    for part in &text.parts {
        match part {
            TextRepr::Arbitrary(a) => rebuilt.push_str(a),
            TextRepr::Word(glyphs, _) => {
                for g in glyphs {
                    rebuilt.push(to_char(*g));
                }
            }
        }
    }
    assert_eq!(rebuilt, input);
}

#[test]
fn polish_spans_alternate() {
    let text = parse("Ala ma 3 koty!");
    assert_eq!(text.parts.len(), 6);
    assert_eq!(
        text.parts[3],
        beciarz::official::TextRepr::Arbitrary(" 3 ".to_string())
    );
    match &text.parts[0] {
        beciarz::official::TextRepr::Word(_, mode) => {
            assert_eq!(*mode, CapitalisationMode::Titlecase)
        }
        other => panic!("expected a word, got {other:?}"),
    }
}

#[test]
fn folding_lowers_capitals() {
    assert_eq!(fold_char('Ł'), 'ł');
    assert_eq!(fold_char('Ś'), 'ś');
    assert_eq!(fold_char('Ω'), 'ω');
    assert_eq!(fold_char('x'), 'x');
    assert_eq!(fold_char('7'), '7');
}

#[test]
fn casing_modes() {
    assert_eq!(CapitalisationMode::Uppercase.apply("μπαρδέ'"), "ΜΠΑΡΔΈ'");
    assert_eq!(CapitalisationMode::Titlecase.apply("ίλέ"), "Ίλέ");
    assert_eq!(CapitalisationMode::Titlecase.apply(""), "");
    assert_eq!(CapitalisationMode::Lowercase.apply("κέδι"), "κέδι");
    let word: Vec<char> = "MORDO".chars().collect();
    assert_eq!(CapitalisationMode::detect(&word), CapitalisationMode::Uppercase);
    let word: Vec<char> = "Mordo".chars().collect();
    assert_eq!(CapitalisationMode::detect(&word), CapitalisationMode::Titlecase);
    let word: Vec<char> = "mOrdo".chars().collect();
    assert_eq!(CapitalisationMode::detect(&word), CapitalisationMode::Lowercase);
    assert_eq!(CapitalisationMode::detect(&[]), CapitalisationMode::Lowercase);
}

#[test]
fn chars_to_string() {
    assert_eq!(from_chars(&['ż', 'ó', 'ł', 'w']), "żółw");
    assert_eq!(from_chars(&[]), "");
}

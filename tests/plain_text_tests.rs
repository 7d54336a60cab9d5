use beciarz::{greek_to_official, official_to_greek};

#[test]
fn beciarz_official_greek_both_ways() {
    assert_both_directions("magia", "μαγά");
    assert_both_directions("radość", "ραδοστ'");
    assert_both_directions(
        "ania siadła przy kominku, a jerzy jeździł na koniu (koniku)",
        "ανά σάδλα πρί κομίνκυ, α έρί έζδίλ να κονύ (κονίκυ)",
    );
    assert_both_directions("nie, ni ma", "νέ, νί μα");
    assert_both_directions("przyjdzie kryska na matyska", "πρί'δέ κρισκα να ματισκα");
        assert_both_directions(
        "tukany mają śmieszne dzioby, a wacek ma sklep z masłem",
        "τυκανι μαώ σ'μέψνε δόμπι, α βατσεκ μα σκλέπ ζ μασλεμ",
    );

    assert_both_directions(
        "na radarze widać już dyskotekową planetę, kapitanie",
        "να ραδαρέ βίδατ' ύξ δισκοτεκοβω πλάνετη, καπίτανέ",
    );

    assert_both_directions(
        "no w końcu, pora się nałebać",
        "νο β κον'τσυ, πορα σή ναλεμπατ'",
    );
    assert_both_directions(
        "oj przestań się mazać, przyjechaliśmy się tu dobrze bawić.",
        "ο' πρέσταν' σή μαζατ', πρίέχαλίσ'μι σή τυ δομπρέ μπαβίτ'.",
    );
    assert_both_directions(
        "gdzie są dziewczęta, gdzie jest kurczę wódka, co to jest za muzyka, gdzie jest dubstep",
        "γδέ σω δέβθητα, γδέ έστ κυρθη βουδκα, τσο το έστ ζα μυζικα, γδέ έστ δυμπστεπ",
    );

    assert_both_directions("bardziej", "μπαρδέ'");

    assert_both_directions(
        "myślę, że nikt nie miał do czynienia z bardziej pożytecznymi przeciwnościami, o ile tylko postanowisz wykorzystać je w dobry sposób.",
        "μισλή, ξε νίκτ νέ μάλ δο θινένά ζ μπαρδέ' ποξιτεθνιμί πρέτίβνοστάμί, ο ίλέ τιλ'κο ποστανοβίψ βικορίστατ' έ β δομπρι σποσουμπ.",
    );

    assert_both_directions("mówi", "μουβί");
    assert_both_directions("miodu", "μόδυ");
    assert_both_directions("miód", "μόυδ");
    assert_both_directions("dziób", "δόυμπ");
}

fn assert_both_directions(official: &str, greek: &str) {
    assert_eq!(official_to_greek(official), greek);
    assert_eq!(greek_to_official(greek), official);
}

#[test]
fn beciarz_test_official_to_greek() {
    let input = "Litwo, ojczyzno moja! Ty jesteś jak zdrowie! Ile cię trzeba cenić, ten tylko się dowie, kto cię stracił.";
    let text = official_to_greek(input);
    assert_eq!(
        text,
        "Λίτβο, ο'θιζνο μοά! Τι έστεσ' άκ ζδροβέ! Ίλέ τή τρέμπα τσενίτ', τεν τιλ'κο σή δοβέ, κτο τή στρατίλ."
    );

    assert_eq!("μέ'", official_to_greek("miej"));
    assert_eq!("έ'", official_to_greek("jej"));
    assert_eq!("δ\\άγνοστικα", official_to_greek("diagnostyka"));

    assert_eq!(official_to_greek("kiedy"), "κέδι");
    assert_eq!(official_to_greek("mięso"), "μήσο");
}

#[test]
fn beciarz_test_greek_to_official() {
    let input = "λίτβο, ο'θιζνο μοά! τι έστεσ' άκ ζδροβέ! ίλέ τή τρέμπα τσενίτ', τεν τιλ'κο σή δοβέ, κτο τή στρατίλ.";
    let expected = "litwo, ojczyzno moja! ty jesteś jak zdrowie! ile cię trzeba cenić, ten tylko się dowie, kto cię stracił.";
    let text = greek_to_official(input);
    assert_eq!(text, expected);

    let input = "ποζδραβάμ τέπλύτκο!";
    let expected = "pozdrawiam cieplutko!";
    let text = greek_to_official(input);
    assert_eq!(text, expected);

    assert_eq!(greek_to_official("Κέδι"), "Kiedy");
    assert_eq!(greek_to_official("μήσο"), "mięso");
}

use beciarz::{greek_to_official, official_to_greek};

#[test]
fn capitalisation() {
    assert_both_ways(
        "Litwo ziomek co tam MORDO elo",
        "Λίτβο ζόμεκ τσο ταμ ΜΟΡΔΟ ελό",
    );
}

#[test]
fn lib_official_greek_both_ways() {
    assert_both_ways("magia", "μαγά");
    assert_both_ways("radość", "ραδοστ'");
    assert_both_ways(
        "ania siadła przy kominku, a jerzy jeździł na koniu (koniku)",
        "ανά σάδλα πρί κομίνκυ, α έρί έζδίλ να κονύ (κονίκυ)",
    );
    assert_both_ways("nie, ni ma", "νέ, νί μα");
    assert_both_ways("przyjdzie kryska na matyska", "πρί'δέ κρισκα να ματισκα");
        assert_both_ways(
        "tukany mają śmieszne dzioby, a wacek ma sklep z masłem",
        "τυκανι μαώ σ'μέψνε δόμπι, α βατσεκ μα σκλέπ ζ μασλεμ",
    );

    assert_both_ways(
        "na radarze widać już dyskotekową planetę, kapitanie",
        "να ραδαρέ βίδατ' ύξ δισκοτεκοβω πλάνετη, καπίτανέ",
    );

    assert_both_ways(
        "no w końcu, pora się nałebać",
        "νο β κον'τσυ, πορα σή ναλεμπατ'",
    );
    assert_both_ways(
        "oj przestań się mazać, przyjechaliśmy się tu dobrze bawić.",
        "ο' πρέσταν' σή μαζατ', πρίέχαλίσ'μι σή τυ δομπρέ μπαβίτ'.",
    );
    assert_both_ways(
        "gdzie są dziewczęta, gdzie jest kurczę wódka, co to jest za muzyka, gdzie jest dubstep",
        "γδέ σω δέβθητα, γδέ έστ κυρθη βουδκα, τσο το έστ ζα μυζικα, γδέ έστ δυμπστεπ",
    );

    assert_both_ways("bardziej", "μπαρδέ'");

    assert_both_ways(
        "myślę, że nikt nie miał do czynienia z bardziej pożytecznymi przeciwnościami, o ile tylko postanowisz wykorzystać je w dobry sposób.",
        "μισλή, ξε νίκτ νέ μάλ δο θινένά ζ μπαρδέ' ποξιτεθνιμί πρέτίβνοστάμί, ο ίλέ τιλ'κο ποστανοβίψ βικορίστατ' έ β δομπρι σποσουμπ.",
    );

    assert_both_ways("mówi", "μουβί");
    assert_both_ways("miodu", "μόδυ");
    assert_both_ways("miód", "μόυδ");
    assert_both_ways("dziób", "δόυμπ");

    assert_both_ways("zjem", "ζ\\έμ");
}

fn assert_both_ways(official: &str, greek: &str) {
    assert_eq!(official_to_greek(official), greek);
    assert_eq!(greek_to_official(greek), official);
}

#[test]
fn lib_test_official_to_greek() {
    let input = "Litwo, ojczyzno moja! Ty jesteś jak zdrowie! Ile cię trzeba cenić, ten tylko się dowie, kto cię stracił.";
    let text = official_to_greek(input);
    assert_eq!(
        text,
        "Λίτβο, ο'θιζνο μοά! Τι έστεσ' άκ ζδροβέ! Ίλέ τή τρέμπα τσενίτ', τεν τιλ'κο σή δοβέ, κτο τή στρατίλ."
    );

    assert_eq!("μέ'", official_to_greek("miej"));
    assert_eq!("έ'", official_to_greek("jej"));
    assert_eq!("δ\\άγνοστικα", official_to_greek("diagnostyka"));

    assert_eq!(official_to_greek("kiedy"), "κέδι");
    assert_eq!(official_to_greek("mięso"), "μήσο");
}

#[test]
fn lib_test_greek_to_official() {
    let input = "λίτβο, ο'θιζνο μοά! τι έστεσ' άκ ζδροβέ! ίλέ τή τρέμπα τσενίτ', τεν τιλ'κο σή δοβέ, κτο τή στρατίλ.";
    let expected = "litwo, ojczyzno moja! ty jesteś jak zdrowie! ile cię trzeba cenić, ten tylko się dowie, kto cię stracił.";
    let text = greek_to_official(input);
    assert_eq!(text, expected);

    let input = "ποζδραβάμ τέπλύτκο!";
    let expected = "pozdrawiam cieplutko!";
    let text = greek_to_official(input);
    assert_eq!(text, expected);

    assert_eq!(greek_to_official("Κέδι"), "Kiedy");
    assert_eq!(greek_to_official("μήσο"), "mięso");
}

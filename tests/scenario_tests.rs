use beciarz::{greek_to_official, official_to_greek};

#[test]
fn scenario_magia() {
    assert_eq!(official_to_greek("magia"), "μαγά");
    assert_eq!(greek_to_official("μαγά"), "magia");
}

#[test]
fn scenario_radosc() {
    assert_eq!(official_to_greek("radość"), "ραδοστ'");
    assert_eq!(greek_to_official("ραδοστ'"), "radość");
}

#[test]
fn scenario_litwo() {
    assert_eq!(official_to_greek("Litwo, ojczyzno moja!"), "Λίτβο, ο'θιζνο μοά!");
}

#[test]
fn scenario_break_mark() {
    assert_eq!(official_to_greek("miej"), "μέ'");
    assert_eq!(official_to_greek("diagnostyka"), "δ\\άγνοστικα");
}

#[test]
fn scenario_pozdrawiam() {
    assert_eq!(greek_to_official("ποζδραβάμ τέπλύτκο!"), "pozdrawiam cieplutko!");
}

#[test]
fn scenario_miod() {
    assert_eq!(official_to_greek("miód"), "μόυδ");
    assert_eq!(greek_to_official("μόυδ"), "miód");
}

#[test]
fn rho_with_accented_iota_is_y() {
    assert_eq!(official_to_greek("przy"), "πρί");
    assert_eq!(greek_to_official("πρί"), "przy");
    assert_eq!(greek_to_official("ρνί"), "rni");
}

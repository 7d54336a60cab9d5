use beciarz::greek::{
    consume_greek, greek_vec_to_sound, to_greek, utf8_to_greek, Greek, ParseOfResult, TextRepr,
};
use beciarz::{CapitalisationMode, Sound};
#[allow(unused_imports)]
use beciarz::Greek::{Acute, Alpha, AlphaAcute, Beta, Break, Chi, Delta, Epsilon, EpsilonAcute, Eta, EtaAcute, Gamma, Iota, IotaAcute, Kappa, Lambda, Mu, Nu, Omega, OmegaAcute, Omicron, OmicronAcute, Phi, Pi, Psi, Rho, Sigma, Tau, Theta, Upsilon, UpsilonAcute, Xi, Zeta};
#[allow(unused_imports)]
use beciarz::Sound::{A, B, C, Ch, D, Dh, Dx, Dz, E, Ex, F, G, H, I, J, K, L, Lx, M, N, Nx, O, Ou, Ox, P, R, Rx, S, Sh, Sx, T, Tx, U, W, Y, Z, Zh, Zx};

#[test]
fn gr_vec_to_sound_vec() {
    let r: ParseOfResult = greek_vec_to_sound(&vec![Delta, Omicron, Mu, Pi, Rho, Omicron]);
    assert_eq!(
        r,
        ParseOfResult {
            result: vec![D, O, B, R, O],
            consumed: 6
        }
    );

    let r = greek_vec_to_sound(&vec![
        Delta, AlphaAcute, Mu, Acute, Rho, IotaAcute, Nu, IotaAcute,
    ]);
    assert_eq!(
        r,
        ParseOfResult {
            result: vec![Dx, A, M, J, Rx, Y, Nx, I],
            consumed: 8
        }
    );

    let r = greek_vec_to_sound(&vec![Mu, Alpha, Tau, Sigma, Kappa, IotaAcute]);
    assert_eq!(
        r,
        ParseOfResult {
            result: vec![M, A, C, K, I],
            consumed: 6
        }
    );

    let q = vec![
        Greek::Tau,
        Greek::EpsilonAcute,
        Greek::Pi,
        Greek::Lambda,
        Greek::UpsilonAcute,
        Greek::Tau,
        Greek::Kappa,
        Greek::Omicron,
    ];
    let r = greek_vec_to_sound(&q);
    assert_eq!(
        r,
        ParseOfResult {
            result: vec![Tx, E, P, L, U, T, K, O],
            consumed: 8
        }
    );

    let q = vec![
        Greek::Rho,
        Greek::Alpha,
        Greek::Delta,
        Greek::Omicron,
        Greek::Sigma,
        Greek::Tau,
        Greek::Acute,
    ];
    let r = greek_vec_to_sound(&q);
    assert_eq!(
        r,
        ParseOfResult {
            result: vec![R, A, D, O, Sx, Tx],
            consumed: 7
        }
    );

    let q = vec![
        Greek::Mu,
        Greek::Pi,
        Greek::Alpha,
        Greek::Rho,
        Greek::Delta,
        Greek::EpsilonAcute,
        Greek::Acute,
    ];
    let r = greek_vec_to_sound(&q);
    assert_eq!(
        r,
        ParseOfResult {
            result: vec![B, A, R, Dx, E, J],
            consumed: 7
        }
    );

    let q = vec![Mu, OmicronAcute, Upsilon, Delta];
    let r = greek_vec_to_sound(&q);
    assert_eq!(
        r,
        ParseOfResult {
            result: vec![M, J, Ou, D],
            consumed: 4
        }
    );
}

#[test]
fn utf8_do_gr() {
    let res = utf8_to_greek("ποζδραβάμ τέπλύτκο! :)");
    assert_eq!(res.parts.len(), 4);
    assert_eq!(
        res.parts[0],
        TextRepr::Word(
            vec![
                Greek::Pi,
                Greek::Omicron,
                Greek::Zeta,
                Greek::Delta,
                Greek::Rho,
                Greek::Alpha,
                Greek::Beta,
                Greek::AlphaAcute,
                Greek::Mu
            ],
            CapitalisationMode::Lowercase
        )
    );
    assert_eq!(res.parts[1], TextRepr::Arbitrary(" ".into()));
    assert_eq!(
        res.parts[2],
        TextRepr::Word(
            vec![
                Greek::Tau,
                Greek::EpsilonAcute,
                Greek::Pi,
                Greek::Lambda,
                Greek::UpsilonAcute,
                Greek::Tau,
                Greek::Kappa,
                Greek::Omicron
            ],
            CapitalisationMode::Lowercase
        )
    );
    assert_eq!(res.parts[3], TextRepr::Arbitrary("! :)".into()));

    let res = utf8_to_greek("ραδοστ'");
    assert_eq!(res.parts.len(), 1);
    assert_eq!(
        res.parts[0],
        TextRepr::Word(
            vec![
                Greek::Rho,
                Greek::Alpha,
                Greek::Delta,
                Greek::Omicron,
                Greek::Sigma,
                Greek::Tau,
                Greek::Acute,
            ],
            CapitalisationMode::Lowercase
        )
    );
}

#[test]
fn test_to_greek() {
    let input = vec![Sound::C];
    let result = consume_greek(&input);
    assert_eq!(result.result, vec![Greek::Tau, Greek::Sigma]);
    assert_eq!(result.consumed, 1);

    let input = vec![Sound::Tx];
    let result = consume_greek(&input);
    assert_eq!(result.result, vec![Greek::Tau, Greek::Acute]);
    assert_eq!(result.consumed, 1);

    let input = vec![Sound::Ox];
    let result = consume_greek(&input);
    assert_eq!(result.result, vec![Greek::Omega]);
    assert_eq!(result.consumed, 1);

    let input = vec![Sound::Sx, Sound::A];
    let result = consume_greek(&input);
    assert_eq!(result.result, vec![Greek::Sigma, Greek::AlphaAcute]);
    assert_eq!(result.consumed, 2);
}

#[test]
fn test_job() {
    let input = vec![C, A, Lx, O, Sx, Tx];
    let result = to_greek(&input);
    assert_eq!(result, "τσαλοστ'");

    let input = vec![R, A, D, O, Sx, Tx, I];
    let result = to_greek(&input);
    assert_eq!(result, "ραδοστί");

    assert_eq!(to_greek(&vec![L, I, T, W, O]), "λίτβο");
    assert_eq!(to_greek(&vec![O, J, Ch, Y, Z, N, O]), "ο'θιζνο");
    assert_eq!(to_greek(&vec![M, O, J, A]), "μοά");
    assert_eq!(to_greek(&vec![T, Y]), "τι");
    assert_eq!(to_greek(&vec![J, E, S, T, E, Sx]), "έστεσ'");
    assert_eq!(to_greek(&vec![J, A, K]), "άκ");
    assert_eq!(to_greek(&vec![Z, D, R, O, W, J, E]), "ζδροβέ");

    assert_eq!(to_greek(&vec![I, L, E]), "ίλέ");
    assert_eq!(to_greek(&vec![Tx, Ex]), "τή");
    assert_eq!(to_greek(&vec![T, Rx, E, B, A]), "τρέμπα");
    assert_eq!(to_greek(&vec![C, E, Nx, I, Tx]), "τσενίτ'");
    assert_eq!(to_greek(&vec![T, E, N]), "τεν");
    assert_eq!(to_greek(&vec![T, Y, L, K, O]), "τιλ'κο");
    assert_eq!(to_greek(&vec![Sx, Ex]), "σή");
    assert_eq!(to_greek(&vec![D, O, W, J, E]), "δοβέ");
    assert_eq!(to_greek(&vec![C, O]), "τσο");
    assert_eq!(to_greek(&vec![Tx, Ex]), "τή");
    assert_eq!(to_greek(&vec![S, T, R, A, Tx, I, Lx]), "στρατίλ");
    assert_eq!(to_greek(&vec![M, J, U, D]), "μύδ");
    assert_eq!(to_greek(&vec![M, J, Ou, D]), "μόυδ");
}

use beciarz::official::{parse, parse_word, to_official_utf8, TextRepr};
use beciarz::{CapitalisationMode, Sound};
#[allow(unused_imports)]
use beciarz::Sound::{A, B, C, Ch, D, Dh, Dx, Dz, E, Ex, F, G, H, I, J, K, L, Lx, M, N, Nx, O, Ou, Ox, P, R, Rx, S, Sh, Sx, T, Tx, U, W, Y, Z, Zh, Zx};

#[test]
fn snd_to_string() {
    let input = vec![K, O, P, Y, T, K, O];
    assert_eq!(to_official_utf8(&input), "kopytko");
    let input = vec![Ch, A, H, A];
    assert_eq!(to_official_utf8(&input), "czacha");
    let input = vec![L, I, T, W, O];
    assert_eq!(to_official_utf8(&input), "litwo");
    let input = vec![Tx, E, P, L, U, T, K, O];
    assert_eq!(to_official_utf8(&input), "cieplutko");
    let input = vec![Z, D, R, O, W, J, E];
    assert_eq!(to_official_utf8(&input), "zdrowie");
    let input = vec![M, J, Ou, D];
    assert_eq!(to_official_utf8(&input), "miód");
}

#[test]
fn wejscie() {
    let input = "test";
    let result = parse_word(input.chars().collect::<Vec<_>>().as_slice());
    assert_eq!(result.result, vec![Sound::T, Sound::E, Sound::S, Sound::T]);
    assert_eq!(result.consumed, 4);

    let input = "działo";
    let result = parse_word(input.chars().collect::<Vec<_>>().as_slice());
    assert_eq!(
        result.result,
        vec![Sound::Dx, Sound::A, Sound::Lx, Sound::O]
    );
    assert_eq!(result.consumed, 6);

    let input = "działało";
    let result = parse_word(input.chars().collect::<Vec<_>>().as_slice());
    assert_eq!(
        result.result,
        vec![
            Sound::Dx,
            Sound::A,
            Sound::Lx,
            Sound::A,
            Sound::Lx,
            Sound::O
        ]
    );
    assert_eq!(result.consumed, 8);

    let input = "ciaksiakizilni";
    let result = parse_word(input.chars().collect::<Vec<_>>().as_slice());
    assert_eq!(result.result, vec![Tx, A, K, Sx, A, K, I, Zx, I, L, Nx, I]);
    assert_eq!(result.consumed, 14);

    let input = "ojczyzno";
    let result = parse_word(input.chars().collect::<Vec<_>>().as_slice());
    assert_eq!(result.result, vec![O, J, Ch, Y, Z, N, O]);
    assert_eq!(result.consumed, 8);

    let input = "chmura";
    let result = parse_word(input.chars().collect::<Vec<_>>().as_slice());
    assert_eq!(result.result, vec![H, M, U, R, A]);
    assert_eq!(result.consumed, 6);

    let input = "dzw";
    let result = parse_word(input.chars().collect::<Vec<_>>().as_slice());
    assert_eq!(result.result, vec![Dz, W]);
    assert_eq!(result.consumed, 3);

    let input = "dzwo";
    let result = parse_word(input.chars().collect::<Vec<_>>().as_slice());
    assert_eq!(result.result, vec![Dz, W, O]);
    assert_eq!(result.consumed, 4);
}

#[test]
fn caly() {
    let input = "ala ma \nkota!";
    let result = parse(input);
    assert_eq!(result.parts.len(), 6);
    assert_eq!(
        result.parts[0],
        TextRepr::Word(vec![Sound::A, Sound::L, Sound::A], CapitalisationMode::Lowercase)
    );
    assert_eq!(result.parts[1], TextRepr::Arbitrary(" ".to_string()));
    assert_eq!(
        result.parts[2],
        TextRepr::Word(vec![Sound::M, Sound::A], CapitalisationMode::Lowercase)
    );
    assert_eq!(result.parts[3], TextRepr::Arbitrary(" \n".to_string()));
    assert_eq!(
        result.parts[4],
        TextRepr::Word(
            vec![Sound::K, Sound::O, Sound::T, Sound::A],
            CapitalisationMode::Lowercase
        )
    );
    assert_eq!(result.parts[5], TextRepr::Arbitrary("!".to_string()));
}

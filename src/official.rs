//! Standard Polish orthography: the parser from letters to sounds and the
//! renderer from sounds back to letters.
use vstd::prelude::*;

use crate::casing::{detect_spec, CapitalisationMode};
use crate::chars::{fold_chars, fold_seq, from_chars, to_chars};
use crate::segment::Segment;
use crate::sound::Sound;

verus! {

// ---------------------------------------------------------------------------
// Letters to sounds
// ---------------------------------------------------------------------------

/// The sound of a single letter, if it is a letter of the alphabet.
pub open spec fn letter_sound(c: char) -> Option<Sound> {
    if c == 'a' { Some(Sound::A) }
    else if c == 'ą' { Some(Sound::Ox) }
    else if c == 'b' { Some(Sound::B) }
    else if c == 'c' { Some(Sound::C) }
    else if c == 'ć' { Some(Sound::Tx) }
    else if c == 'd' { Some(Sound::D) }
    else if c == 'e' { Some(Sound::E) }
    else if c == 'ę' { Some(Sound::Ex) }
    else if c == 'f' { Some(Sound::F) }
    else if c == 'g' { Some(Sound::G) }
    else if c == 'h' { Some(Sound::H) }
    else if c == 'i' { Some(Sound::I) }
    else if c == 'j' { Some(Sound::J) }
    else if c == 'k' { Some(Sound::K) }
    else if c == 'l' { Some(Sound::L) }
    else if c == 'ł' { Some(Sound::Lx) }
    else if c == 'm' { Some(Sound::M) }
    else if c == 'n' { Some(Sound::N) }
    else if c == 'ń' { Some(Sound::Nx) }
    else if c == 'o' { Some(Sound::O) }
    else if c == 'ó' { Some(Sound::Ou) }
    else if c == 'p' { Some(Sound::P) }
    else if c == 'r' { Some(Sound::R) }
    else if c == 's' { Some(Sound::S) }
    else if c == 'ś' { Some(Sound::Sx) }
    else if c == 't' { Some(Sound::T) }
    else if c == 'u' { Some(Sound::U) }
    else if c == 'w' { Some(Sound::W) }
    else if c == 'y' { Some(Sound::Y) }
    else if c == 'z' { Some(Sound::Z) }
    else if c == 'ż' { Some(Sound::Zh) }
    else if c == 'ź' { Some(Sound::Zx) }
    else { None }
}

/// The vowel a letter spells after an iotating `i`.
pub open spec fn iotated_vowel(c: char) -> Option<Sound> {
    if c == 'a' { Some(Sound::A) }
    else if c == 'ą' { Some(Sound::Ox) }
    else if c == 'e' { Some(Sound::E) }
    else if c == 'ę' { Some(Sound::Ex) }
    else if c == 'o' { Some(Sound::O) }
    else if c == 'ó' { Some(Sound::Ou) }
    else if c == 'u' { Some(Sound::U) }
    else { None }
}

/// The softened sound that `c`, `s`, `z` and `n` spell before an `i`.
pub open spec fn softenable_letter(c: char) -> Option<Sound> {
    if c == 'c' { Some(Sound::Tx) }
    else if c == 's' { Some(Sound::Sx) }
    else if c == 'z' { Some(Sound::Zx) }
    else if c == 'n' { Some(Sound::Nx) }
    else { None }
}

/// The sound of a two-letter digraph, if the two letters form one.
pub open spec fn digraph_sound(a: char, b: char) -> Option<Sound> {
    if a == 'c' && b == 'z' { Some(Sound::Ch) }
    else if a == 's' && b == 'z' { Some(Sound::Sh) }
    else if a == 'd' && b == 'z' { Some(Sound::Dz) }
    else if a == 'd' && b == 'ź' { Some(Sound::Dx) }
    else if a == 'r' && b == 'z' { Some(Sound::Rx) }
    else if a == 'l' && b == 'x' { Some(Sound::Lx) }
    else if a == 'c' && b == 'h' { Some(Sound::H) }
    else { None }
}

/// "dzi", before one of the iotated vowels or not.
pub open spec fn dzi_rule(s: Seq<char>) -> Option<(Seq<Sound>, int)> {
    if s.len() >= 3 && s[0] == 'd' && s[1] == 'z' && s[2] == 'i' {
        if s.len() > 3 && iotated_vowel(s[3]) is Some {
            Some((seq![Sound::Dx, iotated_vowel(s[3])->0], 4))
        } else {
            Some((seq![Sound::Dx, Sound::I], 3))
        }
    } else {
        None
    }
}

/// "ci", "si", "zi" and "ni", before one of the iotated vowels or not.
pub open spec fn ci_rule(s: Seq<char>) -> Option<(Seq<Sound>, int)> {
    if s.len() >= 2 && softenable_letter(s[0]) is Some && s[1] == 'i' {
        let c = softenable_letter(s[0])->0;
        if s.len() > 2 && iotated_vowel(s[2]) is Some {
            Some((seq![c, iotated_vowel(s[2])->0], 3))
        } else {
            Some((seq![c, Sound::I], 2))
        }
    } else {
        None
    }
}

/// "i" before one of the iotated vowels: a glide and the vowel.
pub open spec fn i_vowel_rule(s: Seq<char>) -> Option<(Seq<Sound>, int)> {
    if s.len() >= 2 && s[0] == 'i' && iotated_vowel(s[1]) is Some {
        Some((seq![Sound::J, iotated_vowel(s[1])->0], 2))
    } else {
        None
    }
}

/// The first rule of the cascade that matches at the start of `s`: the sounds
/// it reads and the number of letters it takes.
pub open spec fn letter_step(s: Seq<char>) -> Option<(Seq<Sound>, int)> {
    if s.len() == 0 {
        None
    } else if dzi_rule(s) is Some {
        dzi_rule(s)
    } else if s.len() >= 2 && s[0] == 'd' && s[1] == 'ż' {
        Some((seq![Sound::Dh], 2))
    } else if ci_rule(s) is Some {
        ci_rule(s)
    } else if i_vowel_rule(s) is Some {
        i_vowel_rule(s)
    } else if s.len() >= 2 && digraph_sound(s[0], s[1]) is Some {
        Some((seq![digraph_sound(s[0], s[1])->0], 2))
    } else if letter_sound(s[0]) is Some {
        Some((seq![letter_sound(s[0])->0], 1))
    } else {
        None
    }
}

pub proof fn lemma_letter_step_bounds(s: Seq<char>)
    ensures
        letter_step(s) matches Some(st) ==> 1 <= st.1 <= s.len(),
        s.len() > 0 && letter_sound(s[0]) is Some ==> letter_step(s) is Some,
{
}

/// The sounds of the word at the start of `s` by maximal munch, and the number
/// of letters it takes.
pub open spec fn parse_word_spec(s: Seq<char>) -> (Seq<Sound>, int)
    decreases s.len(),
{
    match letter_step(s) {
        None => (seq![], 0),
        Some(st) => {
            proof {
                lemma_letter_step_bounds(s);
            }
            let rest = parse_word_spec(s.skip(st.1));
            (st.0 + rest.0, st.1 + rest.1)
        },
    }
}

pub proof fn lemma_parse_word_bounds(s: Seq<char>)
    ensures
        0 <= parse_word_spec(s).1 <= s.len(),
        s.len() > 0 && letter_sound(s[0]) is Some ==> parse_word_spec(s).1 >= 1,
    decreases s.len(),
{
    lemma_letter_step_bounds(s);
    if let Some(st) = letter_step(s) {
        lemma_parse_word_bounds(s.skip(st.1));
    }
}

/// A rule's outcome as the parser reports it: nothing taken where it does not match.
pub open spec fn taken(o: Option<(Seq<Sound>, int)>) -> (Seq<Sound>, int) {
    match o {
        Some(st) => st,
        None => (seq![], 0),
    }
}

/// The sounds read from letters, and how many letters were read.
pub struct ConsumeResult {
    pub result: Vec<Sound>,
    pub consumed: usize,
}

pub fn single_naive(c: char) -> (r: Option<Sound>)
    ensures
        r == letter_sound(c),
{
    match c {
        'a' => Some(Sound::A),
        'ą' => Some(Sound::Ox),
        'b' => Some(Sound::B),
        'c' => Some(Sound::C),
        'ć' => Some(Sound::Tx),
        'd' => Some(Sound::D),
        'e' => Some(Sound::E),
        'ę' => Some(Sound::Ex),
        'f' => Some(Sound::F),
        'g' => Some(Sound::G),
        'h' => Some(Sound::H),
        'i' => Some(Sound::I),
        'j' => Some(Sound::J),
        'k' => Some(Sound::K),
        'l' => Some(Sound::L),
        'ł' => Some(Sound::Lx),
        'm' => Some(Sound::M),
        'n' => Some(Sound::N),
        'ń' => Some(Sound::Nx),
        'o' => Some(Sound::O),
        'ó' => Some(Sound::Ou),
        'p' => Some(Sound::P),
        'r' => Some(Sound::R),
        's' => Some(Sound::S),
        'ś' => Some(Sound::Sx),
        't' => Some(Sound::T),
        'u' => Some(Sound::U),
        'w' => Some(Sound::W),
        'y' => Some(Sound::Y),
        'z' => Some(Sound::Z),
        'ż' => Some(Sound::Zh),
        'ź' => Some(Sound::Zx),
        _ => None,
    }
}

fn iotated(c: char) -> (r: Option<Sound>)
    ensures
        r == iotated_vowel(c),
{
    match c {
        'a' => Some(Sound::A),
        'ą' => Some(Sound::Ox),
        'e' => Some(Sound::E),
        'ę' => Some(Sound::Ex),
        'o' => Some(Sound::O),
        'ó' => Some(Sound::Ou),
        'u' => Some(Sound::U),
        _ => None,
    }
}

pub fn try_dzx(input: &[char]) -> (r: ConsumeResult)
    ensures
        (r.result@, r.consumed as int) == taken(dzi_rule(input@)),
{
    let len = input.len();
    if len < 3 || input[0] != 'd' || input[1] != 'z' || input[2] != 'i' {
        return ConsumeResult { result: Vec::new(), consumed: 0 };
    }
    if len > 3 {
        if let Some(v) = iotated(input[3]) {
            return ConsumeResult { result: vec![Sound::Dx, v], consumed: 4 };
        }
    }
    ConsumeResult { result: vec![Sound::Dx, Sound::I], consumed: 3 }
}

pub fn try_ci_si_zi(input: &[char]) -> (r: ConsumeResult)
    ensures
        (r.result@, r.consumed as int) == taken(ci_rule(input@)),
{
    let len = input.len();
    if len < 2 || input[1] != 'i' {
        return ConsumeResult { result: Vec::new(), consumed: 0 };
    }
    let init_sound = match input[0] {
        'c' => Sound::Tx,
        's' => Sound::Sx,
        'z' => Sound::Zx,
        'n' => Sound::Nx,
        _ => {
            return ConsumeResult { result: Vec::new(), consumed: 0 };
        },
    };
    if len > 2 {
        if let Some(v) = iotated(input[2]) {
            return ConsumeResult { result: vec![init_sound, v], consumed: 3 };
        }
    }
    ConsumeResult { result: vec![init_sound, Sound::I], consumed: 2 }
}

pub fn try_i_samogl(input: &[char]) -> (r: ConsumeResult)
    ensures
        (r.result@, r.consumed as int) == taken(i_vowel_rule(input@)),
{
    if input.len() < 2 || input[0] != 'i' {
        return ConsumeResult { result: Vec::new(), consumed: 0 };
    }
    match iotated(input[1]) {
        Some(v) => ConsumeResult { result: vec![Sound::J, v], consumed: 2 },
        None => ConsumeResult { result: Vec::new(), consumed: 0 },
    }
}

pub fn try_dwuznak(input: &[char]) -> (r: Option<(Sound, usize)>)
    ensures
        input@.len() < 2 ==> r is None,
        input@.len() >= 2 ==> r == (match digraph_sound(input@[0], input@[1]) {
            Some(d) => Some((d, 2usize)),
            None => None,
        }),
{
    if input.len() < 2 {
        return None;
    }
    match (input[0], input[1]) {
        ('c', 'z') => Some((Sound::Ch, 2)),
        ('s', 'z') => Some((Sound::Sh, 2)),
        ('d', 'z') => Some((Sound::Dz, 2)),
        ('d', 'ź') => Some((Sound::Dx, 2)),
        ('r', 'z') => Some((Sound::Rx, 2)),
        ('l', 'x') => Some((Sound::Lx, 2)),
        ('c', 'h') => Some((Sound::H, 2)),
        _ => None,
    }
}

/// Reads the word at the start of `input`, which holds lowercase letters, by
/// maximal munch; it stops where no rule matches.
pub fn parse_word(input: &[char]) -> (r: ConsumeResult)
    ensures
        (r.result@, r.consumed as int) == parse_word_spec(input@),
{
    let len = input.len();
    let mut result: Vec<Sound> = Vec::new();
    let mut i: usize = 0;
    assert(input@.skip(0) =~= input@);
    assert(result@ + parse_word_spec(input@).0 =~= parse_word_spec(input@).0);
    loop
        invariant
            len == input@.len(),
            i <= len,
            result@ + parse_word_spec(input@.skip(i as int)).0 == parse_word_spec(input@).0,
            i + parse_word_spec(input@.skip(i as int)).1 == parse_word_spec(input@).1,
        ensures
            (result@, i as int) == parse_word_spec(input@),
        decreases len - i,
    {
        let chars = &input[i..len];
        assert(chars@ =~= input@.skip(i as int));
        proof {
            lemma_letter_step_bounds(chars@);
        }
        let mut cr = try_dzx(chars);
        if cr.consumed == 0 {
            if chars.len() >= 2 && chars[0] == 'd' && chars[1] == 'ż' {
                cr = ConsumeResult { result: vec![Sound::Dh], consumed: 2 };
            } else {
                cr = try_ci_si_zi(chars);
                if cr.consumed == 0 {
                    cr = try_i_samogl(chars);
                    if cr.consumed == 0 {
                        if let Some((dwuznak_sound, consumed)) = try_dwuznak(chars) {
                            cr = ConsumeResult { result: vec![dwuznak_sound], consumed };
                        } else if chars.len() > 0 {
                            if let Some(single_sound) = single_naive(chars[0]) {
                                cr = ConsumeResult { result: vec![single_sound], consumed: 1 };
                            }
                        }
                    }
                }
            }
        }
        if cr.consumed == 0 {
            assert(parse_word_spec(chars@) == (Seq::<Sound>::empty(), 0int));
            assert(result@ + Seq::<Sound>::empty() =~= result@);
            break;
        }
        assert(letter_step(chars@) == Some((cr.result@, cr.consumed as int)));
        assert(chars@.skip(cr.consumed as int) =~= input@.skip(i + cr.consumed));
        assert(result@ + cr.result@ + parse_word_spec(input@.skip(i + cr.consumed)).0
            =~= result@ + parse_word_spec(chars@).0);
        result.append(&mut cr.result);
        i += cr.consumed;
    }
    ConsumeResult { result, consumed: i }
}

// ---------------------------------------------------------------------------
// Sounds to letters
// ---------------------------------------------------------------------------

/// The letters of a sound written on its own.
pub open spec fn naive_letters(s: Sound) -> Seq<char> {
    match s {
        Sound::A => seq!['a'],
        Sound::B => seq!['b'],
        Sound::C => seq!['c'],
        Sound::D => seq!['d'],
        Sound::E => seq!['e'],
        Sound::F => seq!['f'],
        Sound::G => seq!['g'],
        Sound::H => seq!['c', 'h'],
        Sound::I => seq!['i'],
        Sound::J => seq!['j'],
        Sound::K => seq!['k'],
        Sound::L => seq!['l'],
        Sound::Lx => seq!['ł'],
        Sound::M => seq!['m'],
        Sound::N => seq!['n'],
        Sound::Nx => seq!['ń'],
        Sound::O => seq!['o'],
        Sound::Ou => seq!['ó'],
        Sound::Ox => seq!['ą'],
        Sound::P => seq!['p'],
        Sound::R => seq!['r'],
        Sound::Rx => seq!['r', 'z'],
        Sound::S => seq!['s'],
        Sound::Sx => seq!['ś'],
        Sound::Sh => seq!['s', 'z'],
        Sound::T => seq!['t'],
        Sound::Tx => seq!['ć'],
        Sound::U => seq!['u'],
        Sound::W => seq!['w'],
        Sound::Y => seq!['y'],
        Sound::Z => seq!['z'],
        Sound::Zx => seq!['ź'],
        Sound::Zh => seq!['ż'],
        Sound::Ch => seq!['c', 'z'],
        Sound::Dz => seq!['d', 'z'],
        Sound::Dx => seq!['d', 'ź'],
        Sound::Dh => seq!['d', 'ż'],
        Sound::Ex => seq!['ę'],
    }
}

/// The letters of a softened consonant whose softening is spelled by the
/// vowel after it.
pub open spec fn softened_letters(s: Sound) -> Seq<char> {
    match s {
        Sound::Sx => seq!['s'],
        Sound::Zx => seq!['z'],
        Sound::Nx => seq!['n'],
        Sound::Tx => seq!['c'],
        _ => seq!['d', 'z'],
    }
}

/// The vowels that an iotating `i` can spell.
pub open spec fn spelled_iotated(s: Sound) -> bool {
    s == Sound::A || s == Sound::Ox || s == Sound::E || s == Sound::Ex || s == Sound::O
        || s == Sound::Ou || s == Sound::U
}

/// What the renderer writes at the start of `s`, and how many sounds that takes.
pub open spec fn write_step(s: Seq<Sound>) -> (Seq<char>, int) {
    if s.len() == 0 {
        (seq![], 0)
    } else if s[0] == Sound::Rx {
        (seq!['r', 'z'], 1)
    } else if s.len() > 1 && s[0].softened() && s[0] != Sound::I && s[0] != Sound::L && (
    spelled_iotated(s[1]) || s[1] == Sound::I) {
        if s[1] != Sound::I {
            (softened_letters(s[0]).push('i'), 1)
        } else {
            (softened_letters(s[0]), 1)
        }
    } else if s.len() > 2 && (s[0] == Sound::W || s[0] == Sound::K || s[0] == Sound::M || s[0]
        == Sound::G) && s[1] == Sound::J && spelled_iotated(s[2]) {
        (naive_letters(s[0]).push('i'), 2)
    } else {
        (naive_letters(s[0]), 1)
    }
}

/// The letters of a whole sound sequence.
pub open spec fn write_official(s: Seq<Sound>) -> Seq<char>
    decreases s.len(),
{
    if s.len() == 0 {
        seq![]
    } else {
        write_step(s).0 + write_official(s.skip(write_step(s).1))
    }
}

pub fn naive_to_string(s: Sound) -> (r: Vec<char>)
    ensures
        r@ == naive_letters(s),
{
    match s {
        Sound::A => vec!['a'],
        Sound::B => vec!['b'],
        Sound::C => vec!['c'],
        Sound::D => vec!['d'],
        Sound::E => vec!['e'],
        Sound::F => vec!['f'],
        Sound::G => vec!['g'],
        Sound::H => vec!['c', 'h'],
        Sound::I => vec!['i'],
        Sound::J => vec!['j'],
        Sound::K => vec!['k'],
        Sound::L => vec!['l'],
        Sound::Lx => vec!['ł'],
        Sound::M => vec!['m'],
        Sound::N => vec!['n'],
        Sound::Nx => vec!['ń'],
        Sound::O => vec!['o'],
        Sound::Ou => vec!['ó'],
        Sound::Ox => vec!['ą'],
        Sound::P => vec!['p'],
        Sound::R => vec!['r'],
        Sound::Rx => vec!['r', 'z'],
        Sound::S => vec!['s'],
        Sound::Sx => vec!['ś'],
        Sound::Sh => vec!['s', 'z'],
        Sound::T => vec!['t'],
        Sound::Tx => vec!['ć'],
        Sound::U => vec!['u'],
        Sound::W => vec!['w'],
        Sound::Y => vec!['y'],
        Sound::Z => vec!['z'],
        Sound::Zx => vec!['ź'],
        Sound::Zh => vec!['ż'],
        Sound::Ch => vec!['c', 'z'],
        Sound::Dz => vec!['d', 'z'],
        Sound::Dx => vec!['d', 'ź'],
        Sound::Dh => vec!['d', 'ż'],
        Sound::Ex => vec!['ę'],
    }
}

/// Writes sounds in standard orthography, lowercase.
pub fn to_official_utf8(input_initial: &[Sound]) -> (r: String)
    ensures
        r@ == write_official(input_initial@),
{
    let mut res: Vec<char> = Vec::new();
    let mut i: usize = 0;
    let len = input_initial.len();
    assert(input_initial@.skip(0) =~= input_initial@);
    assert(res@ + write_official(input_initial@) =~= write_official(input_initial@));
    while i < len
        invariant
            len == input_initial@.len(),
            i <= len,
            res@ + write_official(input_initial@.skip(i as int)) == write_official(
                input_initial@,
            ),
        decreases len - i,
    {
        let ghost rest = input_initial@.skip(i as int);
        let ghost before = res@;
        let c0 = input_initial[i];
        let mut step: usize = 1;
        if c0 == Sound::Rx {
            res.push('r');
            res.push('z');
        } else {
            let mut done = false;
            if len - i > 1 {
                let i1 = input_initial[i + 1];
                if c0.is_softened() && c0 != Sound::I && c0 != Sound::L && (i1 == Sound::A || i1
                    == Sound::Ox || i1 == Sound::E || i1 == Sound::Ex || i1 == Sound::O || i1
                    == Sound::Ou || i1 == Sound::U || i1 == Sound::I) {
                    match c0 {
                        Sound::Sx => res.push('s'),
                        Sound::Zx => res.push('z'),
                        Sound::Nx => res.push('n'),
                        Sound::Tx => res.push('c'),
                        _ => {
                            res.push('d');
                            res.push('z');
                        },
                    }
                    if i1 != Sound::I {
                        res.push('i');
                    }
                    done = true;
                } else if len - i > 2 && (c0 == Sound::W || c0 == Sound::K || c0 == Sound::M
                    || c0 == Sound::G) && i1 == Sound::J {
                    let i2 = input_initial[i + 2];
                    if i2 == Sound::A || i2 == Sound::Ox || i2 == Sound::E || i2 == Sound::Ex
                        || i2 == Sound::O || i2 == Sound::Ou || i2 == Sound::U {
                        let mut letter = naive_to_string(c0);
                        res.append(&mut letter);
                        res.push('i');
                        step = 2;
                        done = true;
                    }
                }
            }
            if !done {
                let mut letters = naive_to_string(c0);
                res.append(&mut letters);
            }
        }
        assert(res@ =~= before + write_step(rest).0);
        assert(step == write_step(rest).1);
        assert(rest.skip(step as int) =~= input_initial@.skip(i + step));
        i += step;
    }
    assert(input_initial@.skip(len as int) =~= Seq::<Sound>::empty());
    crate::chars::from_chars(res.as_slice())
}

// ---------------------------------------------------------------------------
// Text to spans
// ---------------------------------------------------------------------------

/// A span of text: a literal run, or a word read as sounds with its casing.
#[derive(PartialEq, Eq, Debug)]
pub enum TextRepr {
    Arbitrary(String),
    Word(Vec<Sound>, CapitalisationMode),
}

/// A text as its spans, in order.
#[derive(PartialEq, Eq, Debug)]
pub struct Text {
    pub parts: Vec<TextRepr>,
}

/// Whether a span holds what the model's segment says: the same literal text,
/// or the same sounds with the casing of the word's characters as written.
pub open spec fn part_matches(p: TextRepr, s: Segment<Sound>) -> bool {
    match p {
        TextRepr::Arbitrary(a) => s == Segment::<Sound>::Literal(a@),
        TextRepr::Word(v, m) => match s {
            Segment::Word(src, snds) => v@ == snds && m == detect_spec(src),
            Segment::Literal(_) => false,
        },
    }
}

pub open spec fn parts_match(ps: Seq<TextRepr>, ss: Seq<Segment<Sound>>) -> bool {
    &&& ps.len() == ss.len()
    &&& forall|k: int| 0 <= k < ps.len() ==> part_matches(#[trigger] ps[k], ss[k])
}

/// The end of the run of characters from `i` that are not letters.
pub open spec fn literal_run_from(f: Seq<char>, i: int) -> int
    decreases f.len() - i,
{
    if 0 <= i < f.len() && letter_sound(f[i]) is None {
        literal_run_from(f, i + 1)
    } else {
        i
    }
}

pub proof fn lemma_literal_run_bounds(f: Seq<char>, i: int)
    requires
        0 <= i <= f.len(),
    ensures
        i <= literal_run_from(f, i) <= f.len(),
        forall|j: int| i <= j < literal_run_from(f, i) ==> letter_sound(f[j]) is None,
        literal_run_from(f, i) < f.len() ==> letter_sound(f[literal_run_from(f, i)]) is Some,
    decreases f.len() - i,
{
    if i < f.len() && letter_sound(f[i]) is None {
        lemma_literal_run_bounds(f, i + 1);
    }
}

/// The spans of `t` from position `i`: a run of characters that fold to no
/// letter is a literal; at a letter, the word that the parser reads from the
/// folded text.
pub open spec fn official_segments_from(t: Seq<char>, i: int) -> Seq<Segment<Sound>>
    decreases t.len() - i,
{
    if i < 0 || i >= t.len() {
        seq![]
    } else if letter_sound(fold_seq(t)[i]) is None {
        proof {
            lemma_literal_run_bounds(fold_seq(t), i + 1);
        }
        let j = literal_run_from(fold_seq(t), i);
        seq![Segment::Literal(t.subrange(i, j))] + official_segments_from(t, j)
    } else {
        proof {
            lemma_parse_word_bounds(fold_seq(t).skip(i));
        }
        let w = parse_word_spec(fold_seq(t).skip(i));
        seq![Segment::Word(t.subrange(i, i + w.1), w.0)] + official_segments_from(t, i + w.1)
    }
}

pub open spec fn official_segments(t: Seq<char>) -> Seq<Segment<Sound>> {
    official_segments_from(t, 0)
}

/// Splits text into literal spans and word spans; words are read from the
/// text folded to lowercase, and each keeps the casing of its characters as written.
pub fn parse(input_: &str) -> (r: Text)
    ensures
        parts_match(r.parts@, official_segments(input_@)),
{
    let orig = to_chars(input_);
    let folded = fold_chars(orig.as_slice());
    let n = orig.len();
    let mut parts: Vec<TextRepr> = Vec::new();
    let ghost mut done: Seq<Segment<Sound>> = seq![];
    let mut i: usize = 0;
    while i < n
        invariant
            n == orig@.len(),
            orig@ == input_@,
            folded@ == fold_seq(orig@),
            i <= n,
            done + official_segments_from(orig@, i as int) == official_segments(orig@),
            parts_match(parts@, done),
        decreases n - i,
    {
        let mut j: usize = i;
        while j < n && single_naive(folded[j]).is_none()
            invariant
                n == orig@.len(),
                folded@ == fold_seq(orig@),
                i <= j <= n,
                literal_run_from(folded@, i as int) == literal_run_from(folded@, j as int),
            decreases n - j,
        {
            j += 1;
        }
        if j > i {
            let lit = from_chars(&orig[i..j]);
            proof {
                assert(literal_run_from(folded@, i as int) == j);
                assert(seq![Segment::Literal(orig@.subrange(i as int, j as int))]
                    + official_segments_from(orig@, j as int) == official_segments_from(orig@, i as int));
                done = done.push(Segment::Literal(orig@.subrange(i as int, j as int)));
                assert(lit@ =~= orig@.subrange(i as int, j as int));
            }
            parts.push(TextRepr::Arbitrary(lit));
            i = j;
        } else {
            let cr = parse_word(&folded[i..n]);
            proof {
                assert(folded@.subrange(i as int, n as int) =~= fold_seq(orig@).skip(i as int));
                lemma_parse_word_bounds(fold_seq(orig@).skip(i as int));
            }
            let mode = CapitalisationMode::detect(&orig[i..i + cr.consumed]);
            proof {
                let src = orig@.subrange(i as int, i + cr.consumed);
                assert(seq![Segment::Word(src, cr.result@)]
                    + official_segments_from(orig@, i + cr.consumed) == official_segments_from(orig@, i as int));
                done = done.push(Segment::Word(src, cr.result@));
            }
            parts.push(TextRepr::Word(cr.result, mode));
            i = i + cr.consumed;
        }
        assert(done + official_segments_from(orig@, i as int) =~= official_segments(orig@));
    }
    Text { parts }
}

} // verus!

//! The Greek glyph alphabet, the renderer from sounds to Greek text and the
//! parser from Greek text back to sounds.
use vstd::prelude::*;

use crate::casing::{detect_spec, CapitalisationMode};
use crate::chars::{fold_chars, fold_seq, from_chars, to_chars};
use crate::official;
use crate::segment::Segment;
use crate::sound::Sound;

verus! {

/// A Greek glyph: the letters in use, their accented forms, a standalone
/// acute (softening) mark and a break mark that blocks softening.
#[derive(Copy, Clone, PartialEq, Eq, Debug, Structural)]
pub enum Greek {
    Alpha,
    AlphaAcute,
    Beta,
    Gamma,
    Delta,
    Epsilon,
    EpsilonAcute,
    Zeta,
    Eta,
    EtaAcute,
    Theta,
    Iota,
    IotaAcute,
    Kappa,
    Lambda,
    Mu,
    Nu,
    Xi,
    Omicron,
    OmicronAcute,
    Pi,
    Rho,
    Sigma,
    Tau,
    Upsilon,
    UpsilonAcute,
    Phi,
    Chi,
    Psi,
    Omega,
    OmegaAcute,
    Acute,
    Break,
}

impl Greek {
    /// The glyphs that soften the consonants before them: the acute mark and
    /// the accented vowels.
    pub open spec fn softening(self) -> bool {
        match self {
            Greek::Acute | Greek::AlphaAcute | Greek::EpsilonAcute | Greek::EtaAcute
            | Greek::IotaAcute | Greek::OmicronAcute | Greek::UpsilonAcute
            | Greek::OmegaAcute => true,
            _ => false,
        }
    }

    /// The consonants that have a softened counterpart.
    pub open spec fn softenable(self) -> bool {
        match self {
            Greek::Rho | Greek::Nu | Greek::Zeta | Greek::Sigma | Greek::Delta | Greek::Tau
            | Greek::Lambda => true,
            _ => false,
        }
    }

    pub fn is_softening(self) -> (r: bool)
        ensures
            r == self.softening(),
    {
        match self {
            Greek::Acute | Greek::AlphaAcute | Greek::EpsilonAcute | Greek::EtaAcute
            | Greek::IotaAcute | Greek::OmicronAcute | Greek::UpsilonAcute
            | Greek::OmegaAcute => true,
            _ => false,
        }
    }

    pub fn can_be_softened(self) -> (r: bool)
        ensures
            r == self.softenable(),
    {
        match self {
            Greek::Rho | Greek::Nu | Greek::Zeta | Greek::Sigma | Greek::Delta | Greek::Tau
            | Greek::Lambda => true,
            _ => false,
        }
    }
}

// ---------------------------------------------------------------------------
// Sounds to glyphs
// ---------------------------------------------------------------------------

/// The glyphs of a sound rendered on its own.
pub open spec fn naive_glyphs(s: Sound) -> Seq<Greek> {
    match s {
        Sound::A => seq![Greek::Alpha],
        Sound::B => seq![Greek::Mu, Greek::Pi],
        Sound::C => seq![Greek::Tau, Greek::Sigma],
        Sound::Ch => seq![Greek::Theta],
        Sound::D => seq![Greek::Delta],
        Sound::Dx => seq![Greek::Delta, Greek::Acute],
        Sound::E => seq![Greek::Epsilon],
        Sound::Ex => seq![Greek::Eta],
        Sound::F => seq![Greek::Phi],
        Sound::G => seq![Greek::Gamma],
        Sound::H => seq![Greek::Chi],
        Sound::I => seq![Greek::IotaAcute],
        Sound::J => seq![Greek::Acute],
        Sound::K => seq![Greek::Kappa],
        Sound::L => seq![Greek::Lambda, Greek::Acute],
        Sound::Lx => seq![Greek::Lambda],
        Sound::M => seq![Greek::Mu],
        Sound::N => seq![Greek::Nu],
        Sound::Nx => seq![Greek::Nu, Greek::Acute],
        Sound::O => seq![Greek::Omicron],
        Sound::Ox => seq![Greek::Omega],
        Sound::Ou => seq![Greek::Omicron, Greek::Upsilon],
        Sound::P => seq![Greek::Pi],
        Sound::R => seq![Greek::Rho],
        Sound::S => seq![Greek::Sigma],
        Sound::Sx => seq![Greek::Sigma, Greek::Acute],
        Sound::Sh => seq![Greek::Psi],
        Sound::T => seq![Greek::Tau],
        Sound::Tx => seq![Greek::Tau, Greek::Acute],
        Sound::U => seq![Greek::Upsilon],
        Sound::W => seq![Greek::Beta],
        Sound::Y => seq![Greek::Iota],
        Sound::Z => seq![Greek::Zeta],
        Sound::Zx => seq![Greek::Zeta, Greek::Acute],
        Sound::Zh => seq![Greek::Xi],
        Sound::Rx => seq![Greek::Rho, Greek::Acute],
        Sound::Dz => seq![Greek::Delta, Greek::Zeta],
        Sound::Dh => seq![Greek::Delta, Greek::Xi],
    }
}

/// The plain letter of a softened consonant, whose softening is then carried
/// by the glyph that follows it.
pub open spec fn base_glyph(s: Sound) -> Greek
    recommends
        s.softened(),
{
    match s {
        Sound::Sx => Greek::Sigma,
        Sound::Zx => Greek::Zeta,
        Sound::L => Greek::Lambda,
        Sound::Tx => Greek::Tau,
        Sound::Nx => Greek::Nu,
        Sound::I => Greek::Iota,
        Sound::Rx => Greek::Rho,
        Sound::Dx => Greek::Delta,
        _ => arbitrary(),
    }
}

/// The accented glyphs of a vowel that carries the softening of what precedes it.
pub open spec fn softened_vowel_glyphs(s: Sound) -> Seq<Greek>
    recommends
        s.vowel(),
        s != Sound::Y,
{
    match s {
        Sound::A => seq![Greek::AlphaAcute],
        Sound::E => seq![Greek::EpsilonAcute],
        Sound::Ex => seq![Greek::EtaAcute],
        Sound::I => seq![Greek::IotaAcute],
        Sound::O => seq![Greek::OmicronAcute],
        Sound::Ou => seq![Greek::OmicronAcute, Greek::Upsilon],
        Sound::Ox => seq![Greek::OmegaAcute],
        Sound::U => seq![Greek::UpsilonAcute],
        _ => arbitrary(),
    }
}

/// The plain consonants after which a glide or an `i` must be kept apart by a
/// break mark, so that the inverse pass does not read a softening.
pub open spec fn needs_break(s: Sound) -> bool {
    s == Sound::N || s == Sound::Z || s == Sound::S || s == Sound::T || s == Sound::D
        || s == Sound::R
}

/// The end of the run of softened consonants (the sound `I` excluded) that
/// starts at `k`.
pub open spec fn soft_run_from(s: Seq<Sound>, k: int) -> int
    decreases s.len() - k,
{
    if 0 <= k < s.len() && s[k].softened() && s[k] != Sound::I {
        soft_run_from(s, k + 1)
    } else {
        k
    }
}

/// What the renderer emits at the start of `s`, and how many sounds that takes.
#[verifier::opaque]
pub open spec fn render_step(s: Seq<Sound>) -> (Seq<Greek>, int) {
    if s.len() == 0 {
        (seq![], 0)
    } else if s.len() == 1 {
        (naive_glyphs(s[0]), 1)
    } else {
        let n = soft_run_from(s, 0);
        if n > 0 {
            let base = s.take(n).map_values(|x: Sound| base_glyph(x));
            if n < s.len() && s[n].vowel() {
                if s[n] == Sound::Y {
                    (base.push(Greek::IotaAcute), n + 1)
                } else {
                    (base + softened_vowel_glyphs(s[n]), n + 1)
                }
            } else {
                (base.push(Greek::Acute), n)
            }
        } else if s[0] == Sound::J {
            if s[1].vowel() && s[1] != Sound::Y && s[1] != Sound::I {
                (softened_vowel_glyphs(s[1]), 2)
            } else {
                (seq![Greek::Acute], 1)
            }
        } else if (s[1] == Sound::J || s[1] == Sound::I) && needs_break(s[0]) {
            (naive_glyphs(s[0]).push(Greek::Break), 1)
        } else {
            (naive_glyphs(s[0]), 1)
        }
    }
}

pub proof fn lemma_soft_run_bounds(s: Seq<Sound>, k: int)
    requires
        0 <= k <= s.len(),
    ensures
        k <= soft_run_from(s, k) <= s.len(),
        forall|j: int| k <= j < soft_run_from(s, k) ==> s[j].softened() && s[j] != Sound::I,
        soft_run_from(s, k) < s.len() ==> !(s[soft_run_from(s, k)].softened() && s[
            soft_run_from(s, k)
        ] != Sound::I),
    decreases s.len() - k,
{
    if k < s.len() && s[k].softened() && s[k] != Sound::I {
        lemma_soft_run_bounds(s, k + 1);
    }
}

pub proof fn lemma_render_step_bounds(s: Seq<Sound>)
    requires
        s.len() > 0,
    ensures
        1 <= render_step(s).1 <= s.len(),
{
    reveal(render_step);
    lemma_soft_run_bounds(s, 0);
}

/// The glyphs of a whole sound sequence.
pub open spec fn render_greek(s: Seq<Sound>) -> Seq<Greek>
    decreases s.len(),
{
    if s.len() == 0 {
        seq![]
    } else {
        proof {
            lemma_render_step_bounds(s);
        }
        render_step(s).0 + render_greek(s.skip(render_step(s).1))
    }
}

/// The result of one step of the renderer.
pub struct ConsumeResult {
    pub result: Vec<Greek>,
    pub consumed: usize,
}

pub fn consume_naive(input: Sound) -> (r: Vec<Greek>)
    ensures
        r@ == naive_glyphs(input),
{
    match input {
        Sound::A => vec![Greek::Alpha],
        Sound::B => vec![Greek::Mu, Greek::Pi],
        Sound::C => vec![Greek::Tau, Greek::Sigma],
        Sound::Ch => vec![Greek::Theta],
        Sound::D => vec![Greek::Delta],
        Sound::Dx => vec![Greek::Delta, Greek::Acute],
        Sound::E => vec![Greek::Epsilon],
        Sound::Ex => vec![Greek::Eta],
        Sound::F => vec![Greek::Phi],
        Sound::G => vec![Greek::Gamma],
        Sound::H => vec![Greek::Chi],
        Sound::I => vec![Greek::IotaAcute],
        Sound::J => vec![Greek::Acute],
        Sound::K => vec![Greek::Kappa],
        Sound::L => vec![Greek::Lambda, Greek::Acute],
        Sound::Lx => vec![Greek::Lambda],
        Sound::M => vec![Greek::Mu],
        Sound::N => vec![Greek::Nu],
        Sound::Nx => vec![Greek::Nu, Greek::Acute],
        Sound::O => vec![Greek::Omicron],
        Sound::Ox => vec![Greek::Omega],
        Sound::Ou => vec![Greek::Omicron, Greek::Upsilon],
        Sound::P => vec![Greek::Pi],
        Sound::R => vec![Greek::Rho],
        Sound::S => vec![Greek::Sigma],
        Sound::Sx => vec![Greek::Sigma, Greek::Acute],
        Sound::Sh => vec![Greek::Psi],
        Sound::T => vec![Greek::Tau],
        Sound::Tx => vec![Greek::Tau, Greek::Acute],
        Sound::U => vec![Greek::Upsilon],
        Sound::W => vec![Greek::Beta],
        Sound::Y => vec![Greek::Iota],
        Sound::Z => vec![Greek::Zeta],
        Sound::Zx => vec![Greek::Zeta, Greek::Acute],
        Sound::Zh => vec![Greek::Xi],
        Sound::Rx => vec![Greek::Rho, Greek::Acute],
        Sound::Dz => vec![Greek::Delta, Greek::Zeta],
        Sound::Dh => vec![Greek::Delta, Greek::Xi],
    }
}

pub fn softened_sound_to_base_greek(s: Sound) -> (r: Greek)
    requires
        s.softened(),
    ensures
        r == base_glyph(s),
{
    match s {
        Sound::Sx => Greek::Sigma,
        Sound::Zx => Greek::Zeta,
        Sound::L => Greek::Lambda,
        Sound::Tx => Greek::Tau,
        Sound::Nx => Greek::Nu,
        Sound::I => Greek::Iota,
        Sound::Rx => Greek::Rho,
        _ => Greek::Delta,
    }
}

pub fn soften_vowel(sound: Sound) -> (r: Vec<Greek>)
    requires
        sound.vowel(),
        sound != Sound::Y,
    ensures
        r@ == softened_vowel_glyphs(sound),
{
    match sound {
        Sound::A => vec![Greek::AlphaAcute],
        Sound::E => vec![Greek::EpsilonAcute],
        Sound::Ex => vec![Greek::EtaAcute],
        Sound::I => vec![Greek::IotaAcute],
        Sound::O => vec![Greek::OmicronAcute],
        Sound::Ou => vec![Greek::OmicronAcute, Greek::Upsilon],
        Sound::Ox => vec![Greek::OmegaAcute],
        _ => vec![Greek::UpsilonAcute],
    }
}

/// One step of the renderer at the start of `input`.
pub fn consume_greek(input: &[Sound]) -> (r: ConsumeResult)
    ensures
        r.result@ == render_step(input@).0,
        r.consumed == render_step(input@).1,
{
    proof {
        reveal(render_step);
    }
    let len = input.len();
    if len == 0 {
        return ConsumeResult { result: Vec::new(), consumed: 0 };
    }
    let i0 = input[0];
    if len == 1 {
        return ConsumeResult { result: consume_naive(i0), consumed: 1 };
    }
    let mut softened_count: usize = 0;
    while softened_count < len && input[softened_count as usize].is_softened()
        && input[softened_count as usize] != Sound::I
        invariant
            len == input@.len(),
            softened_count <= len,
            soft_run_from(input@, 0) == soft_run_from(input@, softened_count as int),
        decreases len - softened_count,
    {
        softened_count += 1;
    }
    proof {
        lemma_soft_run_bounds(input@, 0);
    }
    if softened_count > 0 {
        let mut result: Vec<Greek> = Vec::new();
        let mut j: usize = 0;
        while j < softened_count
            invariant
                len == input@.len(),
                softened_count == soft_run_from(input@, 0),
                j <= softened_count <= len,
                forall|k: int| 0 <= k < softened_count ==> (#[trigger] input@[k]).softened(),
                result@ == input@.take(j as int).map_values(|x: Sound| base_glyph(x)),
            decreases softened_count - j,
        {
            result.push(softened_sound_to_base_greek(input[j]));
            j += 1;
            assert(result@ =~= input@.take(j as int).map_values(|x: Sound| base_glyph(x)));
        }
        if softened_count < len && input[softened_count].is_vowel() {
            let v = input[softened_count];
            if v == Sound::Y {
                result.push(Greek::IotaAcute);
            } else {
                let mut tail = soften_vowel(v);
                result.append(&mut tail);
            }
            return ConsumeResult { result, consumed: softened_count + 1 };
        } else {
            result.push(Greek::Acute);
            return ConsumeResult { result, consumed: softened_count };
        }
    }
    let i1 = input[1];
    if i0 == Sound::J {
        if i1.is_vowel() && i1 != Sound::Y && i1 != Sound::I {
            return ConsumeResult { result: soften_vowel(i1), consumed: 2 };
        } else {
            return ConsumeResult { result: vec![Greek::Acute], consumed: 1 };
        }
    }
    if i1 == Sound::J || i1 == Sound::I {
        if i0 == Sound::N || i0 == Sound::Z || i0 == Sound::S || i0 == Sound::T || i0 == Sound::D
            || i0 == Sound::R {
            let mut r0 = consume_naive(i0);
            r0.push(Greek::Break);
            return ConsumeResult { result: r0, consumed: 1 };
        }
    }
    ConsumeResult { result: consume_naive(i0), consumed: 1 }
}

/// The glyphs of a whole sound sequence, step by step.
pub fn do_the_job(input: &[Sound]) -> (r: Vec<Greek>)
    ensures
        r@ == render_greek(input@),
{
    let mut result: Vec<Greek> = Vec::new();
    let mut i: usize = 0;
    let len = input.len();
    assert(input@.skip(0) =~= input@);
    assert(result@ + render_greek(input@) =~= render_greek(input@));
    while i < len
        invariant
            len == input@.len(),
            i <= len,
            result@ + render_greek(input@.skip(i as int)) == render_greek(input@),
        decreases len - i,
    {
        let rest = &input[i..len];
        assert(rest@ =~= input@.skip(i as int));
        let mut step = consume_greek(rest);
        proof {
            lemma_render_step_bounds(rest@);
            assert(rest@.skip(step.consumed as int) =~= input@.skip(i + step.consumed));
        }
        result.append(&mut step.result);
        i += step.consumed;
    }
    assert(input@.skip(len as int) =~= Seq::<Sound>::empty());
    result
}

/// The character of a glyph.
pub open spec fn glyph_char(g: Greek) -> char {
    match g {
        Greek::Alpha => 'α',
        Greek::Beta => 'β',
        Greek::Gamma => 'γ',
        Greek::Delta => 'δ',
        Greek::Epsilon => 'ε',
        Greek::Zeta => 'ζ',
        Greek::Eta => 'η',
        Greek::EtaAcute => 'ή',
        Greek::Theta => 'θ',
        Greek::Iota => 'ι',
        Greek::Kappa => 'κ',
        Greek::Lambda => 'λ',
        Greek::Mu => 'μ',
        Greek::Nu => 'ν',
        Greek::Xi => 'ξ',
        Greek::Omicron => 'ο',
        Greek::Pi => 'π',
        Greek::Rho => 'ρ',
        Greek::Sigma => 'σ',
        Greek::Tau => 'τ',
        Greek::Upsilon => 'υ',
        Greek::Phi => 'φ',
        Greek::Chi => 'χ',
        Greek::Psi => 'ψ',
        Greek::Omega => 'ω',
        Greek::AlphaAcute => 'ά',
        Greek::EpsilonAcute => 'έ',
        Greek::IotaAcute => 'ί',
        Greek::OmicronAcute => 'ό',
        Greek::UpsilonAcute => 'ύ',
        Greek::OmegaAcute => 'ώ',
        Greek::Acute => '\'',
        Greek::Break => '\\',
    }
}

/// The characters of a glyph sequence.
pub open spec fn glyph_text(g: Seq<Greek>) -> Seq<char> {
    g.map_values(|x: Greek| glyph_char(x))
}

/// The glyph a character stands for, if any.
pub open spec fn char_glyph(c: char) -> Option<Greek> {
    if c == 'α' { Some(Greek::Alpha) }
    else if c == 'β' { Some(Greek::Beta) }
    else if c == 'γ' { Some(Greek::Gamma) }
    else if c == 'δ' { Some(Greek::Delta) }
    else if c == 'ε' { Some(Greek::Epsilon) }
    else if c == 'ζ' { Some(Greek::Zeta) }
    else if c == 'η' { Some(Greek::Eta) }
    else if c == 'ή' { Some(Greek::EtaAcute) }
    else if c == 'θ' { Some(Greek::Theta) }
    else if c == 'ι' { Some(Greek::Iota) }
    else if c == 'κ' { Some(Greek::Kappa) }
    else if c == 'λ' { Some(Greek::Lambda) }
    else if c == 'μ' { Some(Greek::Mu) }
    else if c == 'ν' { Some(Greek::Nu) }
    else if c == 'ξ' { Some(Greek::Xi) }
    else if c == 'ο' { Some(Greek::Omicron) }
    else if c == 'π' { Some(Greek::Pi) }
    else if c == 'ρ' { Some(Greek::Rho) }
    else if c == 'σ' { Some(Greek::Sigma) }
    else if c == 'τ' { Some(Greek::Tau) }
    else if c == 'υ' { Some(Greek::Upsilon) }
    else if c == 'φ' { Some(Greek::Phi) }
    else if c == 'χ' { Some(Greek::Chi) }
    else if c == 'ψ' { Some(Greek::Psi) }
    else if c == 'ω' { Some(Greek::Omega) }
    else if c == 'ά' { Some(Greek::AlphaAcute) }
    else if c == 'έ' { Some(Greek::EpsilonAcute) }
    else if c == 'ί' { Some(Greek::IotaAcute) }
    else if c == 'ό' { Some(Greek::OmicronAcute) }
    else if c == 'ύ' { Some(Greek::UpsilonAcute) }
    else if c == 'ώ' { Some(Greek::OmegaAcute) }
    else if c == '\'' { Some(Greek::Acute) }
    else if c == '\\' { Some(Greek::Break) }
    else { None }
}

pub fn to_char(greek: Greek) -> (r: char)
    ensures
        r == glyph_char(greek),
        char_glyph(r) == Some(greek),
{
    match greek {
        Greek::Alpha => 'α',
        Greek::Beta => 'β',
        Greek::Gamma => 'γ',
        Greek::Delta => 'δ',
        Greek::Epsilon => 'ε',
        Greek::Zeta => 'ζ',
        Greek::Eta => 'η',
        Greek::EtaAcute => 'ή',
        Greek::Theta => 'θ',
        Greek::Iota => 'ι',
        Greek::Kappa => 'κ',
        Greek::Lambda => 'λ',
        Greek::Mu => 'μ',
        Greek::Nu => 'ν',
        Greek::Xi => 'ξ',
        Greek::Omicron => 'ο',
        Greek::Pi => 'π',
        Greek::Rho => 'ρ',
        Greek::Sigma => 'σ',
        Greek::Tau => 'τ',
        Greek::Upsilon => 'υ',
        Greek::Phi => 'φ',
        Greek::Chi => 'χ',
        Greek::Psi => 'ψ',
        Greek::Omega => 'ω',
        Greek::AlphaAcute => 'ά',
        Greek::EpsilonAcute => 'έ',
        Greek::IotaAcute => 'ί',
        Greek::OmicronAcute => 'ό',
        Greek::UpsilonAcute => 'ύ',
        Greek::OmegaAcute => 'ώ',
        Greek::Acute => '\'',
        Greek::Break => '\\',
    }
}

pub fn char_to_greek(c: char) -> (r: Option<Greek>)
    ensures
        r == char_glyph(c),
        r matches Some(g) ==> glyph_char(g) == c,
{
    match c {
        'α' => Some(Greek::Alpha),
        'β' => Some(Greek::Beta),
        'γ' => Some(Greek::Gamma),
        'δ' => Some(Greek::Delta),
        'ε' => Some(Greek::Epsilon),
        'ζ' => Some(Greek::Zeta),
        'η' => Some(Greek::Eta),
        'ή' => Some(Greek::EtaAcute),
        'θ' => Some(Greek::Theta),
        'ι' => Some(Greek::Iota),
        'κ' => Some(Greek::Kappa),
        'λ' => Some(Greek::Lambda),
        'μ' => Some(Greek::Mu),
        'ν' => Some(Greek::Nu),
        'ξ' => Some(Greek::Xi),
        'ο' => Some(Greek::Omicron),
        'π' => Some(Greek::Pi),
        'ρ' => Some(Greek::Rho),
        'σ' => Some(Greek::Sigma),
        'τ' => Some(Greek::Tau),
        'υ' => Some(Greek::Upsilon),
        'φ' => Some(Greek::Phi),
        'χ' => Some(Greek::Chi),
        'ψ' => Some(Greek::Psi),
        'ω' => Some(Greek::Omega),
        'ά' => Some(Greek::AlphaAcute),
        'έ' => Some(Greek::EpsilonAcute),
        'ί' => Some(Greek::IotaAcute),
        'ό' => Some(Greek::OmicronAcute),
        'ύ' => Some(Greek::UpsilonAcute),
        'ώ' => Some(Greek::OmegaAcute),
        '\'' => Some(Greek::Acute),
        '\\' => Some(Greek::Break),
        _ => None,
    }
}

/// The lowercase Greek text of a sound sequence.
pub fn to_greek(input: &Vec<Sound>) -> (r: String)
    ensures
        r@ == glyph_text(render_greek(input@)),
{
    let glyphs = do_the_job(input.as_slice());
    let mut out: Vec<char> = Vec::new();
    let mut i: usize = 0;
    while i < glyphs.len()
        invariant
            i <= glyphs@.len(),
            glyphs@ == render_greek(input@),
            out@ == glyph_text(glyphs@.take(i as int)),
        decreases glyphs@.len() - i,
    {
        out.push(to_char(glyphs[i]));
        i += 1;
        assert(out@ =~= glyph_text(glyphs@.take(i as int)));
    }
    assert(glyphs@.take(glyphs@.len() as int) =~= glyphs@);
    crate::chars::from_chars(out.as_slice())
}

// ---------------------------------------------------------------------------
// Glyphs to sounds
// ---------------------------------------------------------------------------

/// The sounds of a glyph read on its own.
pub open spec fn naive_sounds(g: Greek) -> Seq<Sound> {
    match g {
        Greek::Alpha => seq![Sound::A],
        Greek::Beta => seq![Sound::W],
        Greek::Gamma => seq![Sound::G],
        Greek::Delta => seq![Sound::D],
        Greek::Epsilon => seq![Sound::E],
        Greek::Zeta => seq![Sound::Z],
        Greek::Eta => seq![Sound::Ex],
        Greek::Theta => seq![Sound::Ch],
        Greek::Iota => seq![Sound::Y],
        Greek::Kappa => seq![Sound::K],
        Greek::Lambda => seq![Sound::Lx],
        Greek::Mu => seq![Sound::M],
        Greek::Nu => seq![Sound::N],
        Greek::Xi => seq![Sound::Zh],
        Greek::Omicron => seq![Sound::O],
        Greek::Pi => seq![Sound::P],
        Greek::Rho => seq![Sound::R],
        Greek::Sigma => seq![Sound::S],
        Greek::Tau => seq![Sound::T],
        Greek::Upsilon => seq![Sound::U],
        Greek::Phi => seq![Sound::F],
        Greek::Chi => seq![Sound::H],
        Greek::Psi => seq![Sound::Sh],
        Greek::Omega => seq![Sound::Ox],
        Greek::AlphaAcute => seq![Sound::J, Sound::A],
        Greek::EpsilonAcute => seq![Sound::J, Sound::E],
        Greek::IotaAcute => seq![Sound::I],
        Greek::OmicronAcute => seq![Sound::J, Sound::O],
        Greek::UpsilonAcute => seq![Sound::J, Sound::U],
        Greek::OmegaAcute => seq![Sound::J, Sound::Ox],
        Greek::Acute => seq![Sound::J],
        Greek::Break => seq![],
        Greek::EtaAcute => seq![Sound::J, Sound::Ex],
    }
}

/// The softened sound of a softenable consonant.
pub open spec fn softened_sound(g: Greek) -> Sound
    recommends
        g.softenable(),
{
    match g {
        Greek::Rho => Sound::Rx,
        Greek::Nu => Sound::Nx,
        Greek::Zeta => Sound::Zx,
        Greek::Sigma => Sound::Sx,
        Greek::Delta => Sound::Dx,
        Greek::Tau => Sound::Tx,
        Greek::Lambda => Sound::L,
        _ => arbitrary(),
    }
}

/// The vowel carried by an accented glyph after a softened run; an accented
/// iota after rho is the vowel `y`.
pub open spec fn accented_vowel(g: Greek, after_rho: bool) -> Sound
    recommends
        g.softening(),
        g != Greek::Acute,
{
    match g {
        Greek::AlphaAcute => Sound::A,
        Greek::EpsilonAcute => Sound::E,
        Greek::EtaAcute => Sound::Ex,
        Greek::IotaAcute => if after_rho {
            Sound::Y
        } else {
            Sound::I
        },
        Greek::OmicronAcute => Sound::O,
        Greek::UpsilonAcute => Sound::U,
        Greek::OmegaAcute => Sound::Ox,
        _ => arbitrary(),
    }
}

/// The sounds of a two-glyph digraph, if the two glyphs form one.
pub open spec fn glyph_pair(a: Greek, b: Greek) -> Option<Seq<Sound>> {
    if a == Greek::Tau && b == Greek::Sigma {
        Some(seq![Sound::C])
    } else if a == Greek::Delta && b == Greek::Zeta {
        Some(seq![Sound::Dz])
    } else if a == Greek::Delta && b == Greek::Xi {
        Some(seq![Sound::Dh])
    } else if a == Greek::Mu && b == Greek::Pi {
        Some(seq![Sound::B])
    } else if a == Greek::Omicron && b == Greek::Upsilon {
        Some(seq![Sound::Ou])
    } else if a == Greek::OmicronAcute && b == Greek::Upsilon {
        Some(seq![Sound::J, Sound::Ou])
    } else {
        None
    }
}

/// The end of the run of softenable consonants other than rho from `k`.
pub open spec fn plain_run_from(s: Seq<Greek>, k: int) -> int
    decreases s.len() - k,
{
    if 0 <= k < s.len() && s[k].softenable() && s[k] != Greek::Rho {
        plain_run_from(s, k + 1)
    } else {
        k
    }
}

/// The length of the softenable run at the start of `s`: a rho stands alone,
/// and a rho followed by another softenable consonant opens no run at all.
pub open spec fn soft_glyph_run(s: Seq<Greek>) -> int {
    if s.len() > 0 && s[0] == Greek::Rho {
        if s.len() > 1 && s[1].softenable() && s[1] != Greek::Rho {
            0
        } else {
            1
        }
    } else {
        plain_run_from(s, 0)
    }
}

/// What the parser reads at the start of `s`, and how many glyphs that takes.
#[verifier::opaque]
pub open spec fn parse_step(s: Seq<Greek>) -> (Seq<Sound>, int) {
    if s.len() == 0 {
        (seq![], 0)
    } else if s[0] == Greek::Break {
        (seq![], 1)
    } else {
        let n = soft_glyph_run(s);
        if 0 < n < s.len() && s[n].softening() {
            let cons = s.take(n).map_values(|g: Greek| softened_sound(g));
            if s[n] == Greek::Acute {
                (cons, n + 1)
            } else {
                let c = accented_vowel(s[n], s[0] == Greek::Rho);
                if c == Sound::O && n + 1 < s.len() && s[n + 1] == Greek::Upsilon {
                    (cons.push(Sound::Ou), n + 2)
                } else {
                    (cons.push(c), n + 1)
                }
            }
        } else if s.len() > 1 && glyph_pair(s[0], s[1]) is Some {
            (glyph_pair(s[0], s[1])->0, 2)
        } else {
            (naive_sounds(s[0]), 1)
        }
    }
}

pub proof fn lemma_plain_run_bounds(s: Seq<Greek>, k: int)
    requires
        0 <= k <= s.len(),
    ensures
        k <= plain_run_from(s, k) <= s.len(),
        forall|j: int|
            k <= j < plain_run_from(s, k) ==> s[j].softenable() && s[j] != Greek::Rho,
    decreases s.len() - k,
{
    if k < s.len() && s[k].softenable() && s[k] != Greek::Rho {
        lemma_plain_run_bounds(s, k + 1);
    }
}

pub proof fn lemma_parse_step_bounds(s: Seq<Greek>)
    requires
        s.len() > 0,
    ensures
        1 <= parse_step(s).1 <= s.len(),
        0 <= soft_glyph_run(s) <= s.len(),
        forall|j: int| 0 <= j < soft_glyph_run(s) ==> s[j].softenable(),
{
    reveal(parse_step);
    lemma_plain_run_bounds(s, 0);
}

/// The sounds of a whole glyph sequence.
pub open spec fn parse_greek(s: Seq<Greek>) -> Seq<Sound>
    decreases s.len(),
{
    if s.len() == 0 {
        seq![]
    } else {
        proof {
            lemma_parse_step_bounds(s);
        }
        parse_step(s).0 + parse_greek(s.skip(parse_step(s).1))
    }
}

pub fn naive_greek_to_sound(g: Greek) -> (r: Vec<Sound>)
    ensures
        r@ == naive_sounds(g),
{
    match g {
        Greek::Alpha => vec![Sound::A],
        Greek::Beta => vec![Sound::W],
        Greek::Gamma => vec![Sound::G],
        Greek::Delta => vec![Sound::D],
        Greek::Epsilon => vec![Sound::E],
        Greek::Zeta => vec![Sound::Z],
        Greek::Eta => vec![Sound::Ex],
        Greek::Theta => vec![Sound::Ch],
        Greek::Iota => vec![Sound::Y],
        Greek::Kappa => vec![Sound::K],
        Greek::Lambda => vec![Sound::Lx],
        Greek::Mu => vec![Sound::M],
        Greek::Nu => vec![Sound::N],
        Greek::Xi => vec![Sound::Zh],
        Greek::Omicron => vec![Sound::O],
        Greek::Pi => vec![Sound::P],
        Greek::Rho => vec![Sound::R],
        Greek::Sigma => vec![Sound::S],
        Greek::Tau => vec![Sound::T],
        Greek::Upsilon => vec![Sound::U],
        Greek::Phi => vec![Sound::F],
        Greek::Chi => vec![Sound::H],
        Greek::Psi => vec![Sound::Sh],
        Greek::Omega => vec![Sound::Ox],
        Greek::AlphaAcute => vec![Sound::J, Sound::A],
        Greek::EpsilonAcute => vec![Sound::J, Sound::E],
        Greek::IotaAcute => vec![Sound::I],
        Greek::OmicronAcute => vec![Sound::J, Sound::O],
        Greek::UpsilonAcute => vec![Sound::J, Sound::U],
        Greek::OmegaAcute => vec![Sound::J, Sound::Ox],
        Greek::Acute => vec![Sound::J],
        Greek::Break => vec![],
        Greek::EtaAcute => vec![Sound::J, Sound::Ex],
    }
}

/// The sounds read from glyphs, and how many glyphs were read.
#[derive(Debug, PartialEq, Eq)]
pub struct ParseOfResult {
    pub result: Vec<Sound>,
    pub consumed: usize,
}

/// One step of the parser at the start of `input`.
fn parse_greek_step(input: &[Greek]) -> (r: ParseOfResult)
    requires
        input@.len() > 0,
    ensures
        r.result@ == parse_step(input@).0,
        r.consumed == parse_step(input@).1,
{
    proof {
        reveal(parse_step);
    }
    let len = input.len();
    let c0 = input[0];
    if c0 == Greek::Break {
        return ParseOfResult { result: Vec::new(), consumed: 1 };
    }
    proof {
        lemma_parse_step_bounds(input@);
    }
    let mut n: usize = 0;
    if c0 == Greek::Rho {
        if len > 1 && input[1].can_be_softened() && input[1] != Greek::Rho {
            n = 0;
        } else {
            n = 1;
        }
    } else {
        while n < len && input[n].can_be_softened() && input[n] != Greek::Rho
            invariant
                len == input@.len(),
                n <= len,
                plain_run_from(input@, 0) == plain_run_from(input@, n as int),
            decreases len - n,
        {
            n += 1;
        }
    }
    if n > 0 && n < len && input[n].is_softening() {
        let mut result: Vec<Sound> = Vec::new();
        let mut j: usize = 0;
        while j < n
            invariant
                len == input@.len(),
                n == soft_glyph_run(input@),
                j <= n < len,
                forall|k: int| 0 <= k < n ==> (#[trigger] input@[k]).softenable(),
                result@ == input@.take(j as int).map_values(|g: Greek| softened_sound(g)),
            decreases n - j,
        {
            let q = match input[j] {
                Greek::Rho => Sound::Rx,
                Greek::Nu => Sound::Nx,
                Greek::Zeta => Sound::Zx,
                Greek::Sigma => Sound::Sx,
                Greek::Delta => Sound::Dx,
                Greek::Tau => Sound::Tx,
                _ => Sound::L,
            };
            result.push(q);
            j += 1;
            assert(result@ =~= input@.take(j as int).map_values(|g: Greek| softened_sound(g)));
        }
        let soft = input[n];
        if soft == Greek::Acute {
            return ParseOfResult { result, consumed: n + 1 };
        }
        let c = match soft {
            Greek::AlphaAcute => Sound::A,
            Greek::EpsilonAcute => Sound::E,
            Greek::EtaAcute => Sound::Ex,
            Greek::IotaAcute => if c0 == Greek::Rho {
                Sound::Y
            } else {
                Sound::I
            },
            Greek::OmicronAcute => Sound::O,
            Greek::UpsilonAcute => Sound::U,
            _ => Sound::Ox,
        };
        if c == Sound::O && n + 1 < len && input[n + 1] == Greek::Upsilon {
            result.push(Sound::Ou);
            return ParseOfResult { result, consumed: n + 2 };
        }
        result.push(c);
        return ParseOfResult { result, consumed: n + 1 };
    }
    if len > 1 {
        let c1 = input[1];
        if c0 == Greek::Tau && c1 == Greek::Sigma {
            return ParseOfResult { result: vec![Sound::C], consumed: 2 };
        }
        if c0 == Greek::Delta && c1 == Greek::Zeta {
            return ParseOfResult { result: vec![Sound::Dz], consumed: 2 };
        }
        if c0 == Greek::Delta && c1 == Greek::Xi {
            return ParseOfResult { result: vec![Sound::Dh], consumed: 2 };
        }
        if c0 == Greek::Mu && c1 == Greek::Pi {
            return ParseOfResult { result: vec![Sound::B], consumed: 2 };
        }
        if c0 == Greek::Omicron && c1 == Greek::Upsilon {
            return ParseOfResult { result: vec![Sound::Ou], consumed: 2 };
        }
        if c0 == Greek::OmicronAcute && c1 == Greek::Upsilon {
            return ParseOfResult { result: vec![Sound::J, Sound::Ou], consumed: 2 };
        }
    }
    ParseOfResult { result: naive_greek_to_sound(c0), consumed: 1 }
}

/// The sounds of a whole glyph sequence; every glyph is read.
pub fn greek_vec_to_sound(input_initial: &[Greek]) -> (r: ParseOfResult)
    ensures
        r.result@ == parse_greek(input_initial@),
        r.consumed == input_initial@.len(),
{
    let mut result: Vec<Sound> = Vec::new();
    let mut i: usize = 0;
    let len = input_initial.len();
    assert(input_initial@.skip(0) =~= input_initial@);
    assert(result@ + parse_greek(input_initial@) =~= parse_greek(input_initial@));
    while i < len
        invariant
            len == input_initial@.len(),
            i <= len,
            result@ + parse_greek(input_initial@.skip(i as int)) == parse_greek(input_initial@),
        decreases len - i,
    {
        let rest = &input_initial[i..len];
        assert(rest@ =~= input_initial@.skip(i as int));
        let mut step = parse_greek_step(rest);
        proof {
            lemma_parse_step_bounds(rest@);
            assert(rest@.skip(step.consumed as int) =~= input_initial@.skip(i + step.consumed));
        }
        result.append(&mut step.result);
        i += step.consumed;
    }
    assert(input_initial@.skip(len as int) =~= Seq::<Greek>::empty());
    ParseOfResult { result, consumed: i }
}

// ---------------------------------------------------------------------------
// Text to spans
// ---------------------------------------------------------------------------

/// A span of Greek text: a literal run, or a word as glyphs with its casing.
#[derive(PartialEq, Eq, Debug)]
pub enum TextRepr {
    Arbitrary(String),
    Word(Vec<Greek>, CapitalisationMode),
}

/// A Greek text as its spans, in order.
#[derive(PartialEq, Eq, Debug)]
pub struct GreekText {
    pub parts: Vec<TextRepr>,
}

pub open spec fn part_matches(p: TextRepr, s: Segment<Greek>) -> bool {
    match p {
        TextRepr::Arbitrary(a) => s == Segment::<Greek>::Literal(a@),
        TextRepr::Word(v, m) => match s {
            Segment::Word(src, gs) => v@ == gs && m == detect_spec(src),
            Segment::Literal(_) => false,
        },
    }
}

pub open spec fn parts_match(ps: Seq<TextRepr>, ss: Seq<Segment<Greek>>) -> bool {
    &&& ps.len() == ss.len()
    &&& forall|k: int| 0 <= k < ps.len() ==> part_matches(#[trigger] ps[k], ss[k])
}

/// The end of the run from `i` of characters that are glyphs, where `glyphs`
/// holds, or that are not, where it does not.
pub open spec fn glyph_run_from(f: Seq<char>, i: int, glyphs: bool) -> int
    decreases f.len() - i,
{
    if 0 <= i < f.len() && (char_glyph(f[i]) is Some) == glyphs {
        glyph_run_from(f, i + 1, glyphs)
    } else {
        i
    }
}

pub proof fn lemma_glyph_run_bounds(f: Seq<char>, i: int, glyphs: bool)
    requires
        0 <= i <= f.len(),
    ensures
        i <= glyph_run_from(f, i, glyphs) <= f.len(),
        forall|j: int|
            i <= j < glyph_run_from(f, i, glyphs) ==> (char_glyph(f[j]) is Some) == glyphs,
        glyph_run_from(f, i, glyphs) < f.len() ==> (char_glyph(f[glyph_run_from(f, i, glyphs)]) is Some)
            != glyphs,
    decreases f.len() - i,
{
    if i < f.len() && (char_glyph(f[i]) is Some) == glyphs {
        lemma_glyph_run_bounds(f, i + 1, glyphs);
    }
}

/// The glyphs of characters that all stand for one.
pub open spec fn glyphs_of(f: Seq<char>) -> Seq<Greek> {
    f.map_values(|c: char| char_glyph(c)->0)
}

/// The spans of `t` from position `i`: a maximal run of characters that fold
/// to glyphs is a word, a maximal run of others is a literal.
pub open spec fn greek_segments_from(t: Seq<char>, i: int) -> Seq<Segment<Greek>>
    decreases t.len() - i,
{
    if i < 0 || i >= t.len() {
        seq![]
    } else {
        let is_word = char_glyph(fold_seq(t)[i]) is Some;
        proof {
            lemma_glyph_run_bounds(fold_seq(t), i + 1, is_word);
        }
        let j = glyph_run_from(fold_seq(t), i, is_word);
        let seg = if is_word {
            Segment::Word(t.subrange(i, j), glyphs_of(fold_seq(t).subrange(i, j)))
        } else {
            Segment::Literal(t.subrange(i, j))
        };
        seq![seg] + greek_segments_from(t, j)
    }
}

pub open spec fn greek_segments(t: Seq<char>) -> Seq<Segment<Greek>> {
    greek_segments_from(t, 0)
}

/// The glyphs read from characters, and how many characters were read.
pub struct ParseGrResult {
    pub result: Vec<Greek>,
    pub consumed: usize,
}

/// Reads the run of glyph characters at the start of `input`.
pub fn consume_utf8_word(input: &[char]) -> (r: ParseGrResult)
    ensures
        r.consumed == glyph_run_from(input@, 0, true),
        r.result@ == glyphs_of(input@.take(r.consumed as int)),
{
    let mut i: usize = 0;
    let mut result: Vec<Greek> = Vec::new();
    while i < input.len()
        invariant
            i <= input@.len(),
            glyph_run_from(input@, 0, true) == glyph_run_from(input@, i as int, true),
            result@ == glyphs_of(input@.take(i as int)),
        ensures
            glyph_run_from(input@, 0, true) == i,
            result@ == glyphs_of(input@.take(i as int)),
        decreases input@.len() - i,
    {
        match char_to_greek(input[i]) {
            Some(g) => {
                result.push(g);
                i += 1;
                assert(result@ =~= glyphs_of(input@.take(i as int)));
            },
            None => {
                break;
            },
        }
    }
    ParseGrResult { result, consumed: i }
}

/// Splits Greek text into word spans of glyphs and literal spans; glyphs are
/// read from the text folded to lowercase, and each word keeps the casing of
/// its characters as written.
pub fn utf8_to_greek(input: &str) -> (r: GreekText)
    ensures
        parts_match(r.parts@, greek_segments(input@)),
{
    let orig = to_chars(input);
    let folded = fold_chars(orig.as_slice());
    let n = orig.len();
    let mut parts: Vec<TextRepr> = Vec::new();
    let ghost mut done: Seq<Segment<Greek>> = seq![];
    let mut i: usize = 0;
    while i < n
        invariant
            n == orig@.len(),
            orig@ == input@,
            folded@ == fold_seq(orig@),
            i <= n,
            done + greek_segments_from(orig@, i as int) == greek_segments(orig@),
            parts_match(parts@, done),
        decreases n - i,
    {
        let ghost t = orig@;
        proof {
            lemma_glyph_run_bounds(folded@, i as int, true);
            lemma_glyph_run_bounds(folded@, i as int, false);
        }
        let cr = consume_utf8_word(&folded[i..n]);
        proof {
            let rest = folded@.subrange(i as int, n as int);
            assert forall|k: int| 0 <= k <= rest.len() implies glyph_run_from(rest, k, true) + i
                == glyph_run_from(folded@, k + i, true) by {
                lemma_shifted_run(folded@, i as int, k, true);
            }
        }
        if cr.consumed > 0 {
            let mode = CapitalisationMode::detect(&orig[i..i + cr.consumed]);
            proof {
                let j = i + cr.consumed;
                assert(folded@.subrange(i as int, n as int).take(cr.consumed as int)
                    =~= fold_seq(t).subrange(i as int, j));
                let seg = Segment::Word(t.subrange(i as int, j), glyphs_of(fold_seq(t).subrange(i as int, j)));
                assert(seq![seg] + greek_segments_from(t, j) == greek_segments_from(t, i as int));
                done = done.push(seg);
            }
            parts.push(TextRepr::Word(cr.result, mode));
            i = i + cr.consumed;
        } else {
            let mut j: usize = i;
            while j < n && char_to_greek(folded[j]).is_none()
                invariant
                    n == orig@.len(),
                    folded@ == fold_seq(orig@),
                    i <= j <= n,
                    glyph_run_from(folded@, i as int, false) == glyph_run_from(folded@, j as int, false),
                decreases n - j,
            {
                j += 1;
            }
            let lit = from_chars(&orig[i..j]);
            proof {
                assert(lit@ =~= t.subrange(i as int, j as int));
                let seg = Segment::<Greek>::Literal(t.subrange(i as int, j as int));
                assert(seq![seg] + greek_segments_from(t, j as int) == greek_segments_from(t, i as int));
                done = done.push(seg);
            }
            parts.push(TextRepr::Arbitrary(lit));
            i = j;
        }
        assert(done + greek_segments_from(orig@, i as int) =~= greek_segments(orig@));
    }
    GreekText { parts }
}

pub proof fn lemma_shifted_run(f: Seq<char>, i: int, k: int, glyphs: bool)
    requires
        0 <= i <= f.len(),
        0 <= k <= f.len() - i,
    ensures
        glyph_run_from(f.subrange(i, f.len() as int), k, glyphs) + i == glyph_run_from(f, k + i, glyphs),
    decreases f.len() - i - k,
{
    if k < f.len() - i {
        lemma_shifted_run(f, i, k + 1, glyphs);
    }
}

/// A Greek span as the sounds it is read as.
pub open spec fn read_segment(s: Segment<Greek>) -> Segment<Sound> {
    match s {
        Segment::Literal(l) => Segment::Literal(l),
        Segment::Word(src, gs) => Segment::Word(src, parse_greek(gs)),
    }
}

pub open spec fn read_segments(ss: Seq<Segment<Greek>>) -> Seq<Segment<Sound>> {
    ss.map_values(|s: Segment<Greek>| read_segment(s))
}

/// Splits Greek text into spans and reads each word as sounds; every glyph of
/// a word is read.
pub fn utf8_greek_to_text(input: &str) -> (r: official::Text)
    ensures
        official::parts_match(r.parts@, read_segments(greek_segments(input@))),
{
    let greek_text = utf8_to_greek(input);
    let ghost segs = greek_segments(input@);
    let mut prepared: Vec<official::TextRepr> = Vec::new();
    let n = greek_text.parts.len();
    for k in 0..n
        invariant
            n == greek_text.parts@.len(),
            parts_match(greek_text.parts@, segs),
            prepared@.len() == k,
            forall|m: int| 0 <= m < k ==> official::part_matches(#[trigger] prepared@[m], read_segment(segs[m])),
    {
        let part = &greek_text.parts[k];
        assert(part_matches(greek_text.parts@[k as int], segs[k as int]));
        match part {
            TextRepr::Arbitrary(arbitrary) => {
                prepared.push(official::TextRepr::Arbitrary(arbitrary.clone()));
            },
            TextRepr::Word(word, orig) => {
                let parse_result = greek_vec_to_sound(word.as_slice());
                prepared.push(official::TextRepr::Word(parse_result.result, *orig));
            },
        }
    }
    official::Text { parts: prepared }
}

} // verus!

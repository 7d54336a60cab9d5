//! Properties that relate the library's functions to each other.
use vstd::prelude::*;

use crate::casing::{apply_spec, detect_spec, upper_text, CapitalisationMode};
use crate::chars::{fold, fold_seq, is_upper};
use crate::greek::{
    base_glyph, char_glyph, glyph_run_from, glyph_text, glyphs_of, greek_segments,
    greek_segments_from, lemma_glyph_run_bounds, lemma_parse_step_bounds, lemma_plain_run_bounds,
    lemma_render_step_bounds, lemma_soft_run_bounds, naive_glyphs, needs_break, parse_greek,
    parse_step,
    plain_run_from,
    read_segments, render_greek, render_step, soft_glyph_run, soft_run_from, softened_sound,
    softened_vowel_glyphs, Greek,
};
use crate::official::{
    ci_rule, digraph_sound, dzi_rule, i_vowel_rule, iotated_vowel, lemma_letter_step_bounds, lemma_literal_run_bounds, lemma_parse_word_bounds,
    letter_sound,
    letter_step, literal_run_from, naive_letters, official_segments, official_segments_from,
    parse_word_spec, softenable_letter, softened_letters, spelled_iotated, write_official, write_step,
};
use crate::segment::{joined, lemma_joined_prepend, Segment};
use crate::sound::Sound;
use crate::{
    greek_of_segment, greek_texts, greek_to_official_spec, official_texts, official_to_greek_spec,
};

verus! {

/// The characters of each span as written.
pub open spec fn sources<T>(ss: Seq<Segment<T>>) -> Seq<Seq<char>> {
    ss.map_values(|s: Segment<T>| s.source())
}

proof fn lemma_official_cover_from(t: Seq<char>, i: int)
    requires
        0 <= i <= t.len(),
    ensures
        joined(sources(official_segments_from(t, i))) == t.subrange(i, t.len() as int),
    decreases t.len() - i,
{
    let f = fold_seq(t);
    if i == t.len() {
        assert(sources(official_segments_from(t, i)) =~= Seq::<Seq<char>>::empty());
        assert(t.subrange(i, t.len() as int) =~= Seq::<char>::empty());
    } else {
        let (seg, j) = if letter_sound(f[i]) is None {
            lemma_literal_run_bounds(f, i + 1);
            let j = literal_run_from(f, i);
            (Segment::<Sound>::Literal(t.subrange(i, j)), j)
        } else {
            lemma_parse_word_bounds(f.skip(i));
            let w = parse_word_spec(f.skip(i));
            (Segment::Word(t.subrange(i, i + w.1), w.0), i + w.1)
        };
        assert(official_segments_from(t, i) == seq![seg] + official_segments_from(t, j));
        lemma_official_cover_from(t, j);
        assert(sources(seq![seg] + official_segments_from(t, j)) =~= seq![seg.source()] + sources(
            official_segments_from(t, j),
        ));
        lemma_joined_prepend(seg.source(), sources(official_segments_from(t, j)));
        assert(t.subrange(i, j) + t.subrange(j, t.len() as int) =~= t.subrange(i, t.len() as int));
    }
}

/// The spans that the Polish segmenter makes of a text, joined in order, are
/// the text itself.
pub proof fn law_official_segments_cover(t: Seq<char>)
    ensures
        joined(sources(official_segments(t))) == t,
{
    lemma_official_cover_from(t, 0);
    assert(t.subrange(0, t.len() as int) =~= t);
}

proof fn lemma_greek_cover_from(t: Seq<char>, i: int)
    requires
        0 <= i <= t.len(),
    ensures
        joined(sources(greek_segments_from(t, i))) == t.subrange(i, t.len() as int),
    decreases t.len() - i,
{
    let f = fold_seq(t);
    if i == t.len() {
        assert(sources(greek_segments_from(t, i)) =~= Seq::<Seq<char>>::empty());
        assert(t.subrange(i, t.len() as int) =~= Seq::<char>::empty());
    } else {
        let is_word = char_glyph(f[i]) is Some;
        lemma_glyph_run_bounds(f, i + 1, is_word);
        let j = glyph_run_from(f, i, is_word);
        let rest = greek_segments_from(t, j);
        let seg = if is_word {
            Segment::Word(t.subrange(i, j), glyphs_of(f.subrange(i, j)))
        } else {
            Segment::<Greek>::Literal(t.subrange(i, j))
        };
        assert(greek_segments_from(t, i) == seq![seg] + rest);
        lemma_greek_cover_from(t, j);
        assert(sources(seq![seg] + rest) =~= seq![seg.source()] + sources(rest));
        lemma_joined_prepend(seg.source(), sources(rest));
        assert(t.subrange(i, j) + t.subrange(j, t.len() as int) =~= t.subrange(i, t.len() as int));
    }
}

/// The spans that the Greek segmenter makes of a text, joined in order, are
/// the text itself.
pub proof fn law_greek_segments_cover(t: Seq<char>)
    ensures
        joined(sources(greek_segments(t))) == t,
{
    lemma_greek_cover_from(t, 0);
    assert(t.subrange(0, t.len() as int) =~= t);
}

/// Text in which no character folds to a Polish letter or a Greek glyph
/// passes through both directions unchanged.
pub proof fn law_literal_text_passes_through(s: Seq<char>)
    requires
        forall|i: int| 0 <= i < s.len() ==> letter_sound(fold(#[trigger] s[i])) is None,
        forall|i: int| 0 <= i < s.len() ==> char_glyph(fold(#[trigger] s[i])) is None,
    ensures
        official_to_greek_spec(s) == s,
        greek_to_official_spec(s) == s,
{
    let f = fold_seq(s);
    let e = Seq::<Seq<char>>::empty();
    assert(joined(e) == Seq::<char>::empty());
    if s.len() == 0 {
        assert(official_segments(s) =~= Seq::<Segment<Sound>>::empty());
        assert(greek_segments(s) =~= Seq::<Segment<Greek>>::empty());
        assert(greek_texts(official_segments(s)) =~= e);
        assert(official_texts(read_segments(greek_segments(s))) =~= e);
    } else {
        assert(forall|i: int| 0 <= i < s.len() ==> f[i] == fold(s[i]));
        lemma_literal_run_bounds(f, 0);
        lemma_literal_run_bounds(f, 1);
        lemma_glyph_run_bounds(f, 0, false);
        lemma_glyph_run_bounds(f, 1, false);
        assert(s.subrange(0, s.len() as int) =~= s);
        assert(official_segments_from(s, s.len() as int) =~= Seq::<Segment<Sound>>::empty());
        assert(greek_segments_from(s, s.len() as int) =~= Seq::<Segment<Greek>>::empty());
        assert(official_segments(s) =~= seq![Segment::<Sound>::Literal(s)]);
        assert(greek_segments(s) =~= seq![Segment::<Greek>::Literal(s)]);
        assert(greek_texts(official_segments(s)) =~= seq![s]);
        assert(official_texts(read_segments(greek_segments(s))) =~= seq![s]);
        lemma_joined_prepend(s, e);
        assert(seq![s] =~= seq![s] + e);
        assert(s + Seq::<char>::empty() =~= s);
    }
}

proof fn lemma_word_read_whole(f: Seq<char>)
    requires
        forall|i: int| 0 <= i < f.len() ==> letter_sound(#[trigger] f[i]) is Some,
    ensures
        parse_word_spec(f).1 == f.len(),
    decreases f.len(),
{
    lemma_letter_step_bounds(f);
    if f.len() > 0 {
        let st = letter_step(f)->0;
        let rest = f.skip(st.1);
        assert(forall|i: int| 0 <= i < rest.len() ==> rest[i] == f[i + st.1]);
        lemma_word_read_whole(rest);
    }
}

/// A text whose characters all fold to letters is one word.
proof fn lemma_single_word(w: Seq<char>)
    requires
        w.len() > 0,
        forall|i: int| 0 <= i < w.len() ==> letter_sound(fold(#[trigger] w[i])) is Some,
    ensures
        official_to_greek_spec(w) == apply_spec(
            detect_spec(w),
            glyph_text(render_greek(parse_word_spec(fold_seq(w)).0)),
        ),
{
    let f = fold_seq(w);
    assert(forall|i: int| 0 <= i < f.len() ==> f[i] == fold(w[i]));
    lemma_word_read_whole(f);
    assert(f.skip(0) =~= f);
    assert(w.subrange(0, w.len() as int) =~= w);
    let seg = Segment::Word(w, parse_word_spec(f).0);
    assert(official_segments_from(w, w.len() as int) =~= Seq::<Segment<Sound>>::empty());
    assert(official_segments(w) =~= seq![seg]);
    let e = Seq::<Seq<char>>::empty();
    assert(greek_texts(official_segments(w)) =~= seq![greek_of_segment(seg)] + e);
    lemma_joined_prepend(greek_of_segment(seg), e);
    assert(greek_of_segment(seg) + joined(e) =~= greek_of_segment(seg));
}

/// A word written in uppercase renders as the uppercase of the word's
/// lowercase rendering.
pub proof fn law_uppercase_word(w: Seq<char>, u: Seq<char>)
    requires
        w.len() > 0,
        u.len() == w.len(),
        fold_seq(u) == fold_seq(w),
        forall|i: int| 0 <= i < w.len() ==> letter_sound(fold(#[trigger] w[i])) is Some,
        forall|i: int| 0 <= i < u.len() ==> is_upper(#[trigger] u[i]),
        !is_upper(w[0]),
    ensures
        official_to_greek_spec(u) == upper_text(official_to_greek_spec(w)),
{
    assert forall|i: int| 0 <= i < u.len() implies letter_sound(fold(#[trigger] u[i])) is Some by {
        assert(fold_seq(u)[i] == fold(u[i]));
        assert(fold_seq(w)[i] == fold(w[i]));
        assert(letter_sound(fold(w[i])) is Some);
        assert(fold_seq(u)[i] == fold_seq(w)[i]);
    }
    lemma_single_word(w);
    lemma_single_word(u);
}

/// A word written with a capital first letter, and not all in capitals,
/// renders as the word's lowercase rendering with its first character in
/// uppercase.
pub proof fn law_titlecase_word(w: Seq<char>, t: Seq<char>)
    requires
        w.len() > 0,
        t.len() == w.len(),
        fold_seq(t) == fold_seq(w),
        forall|i: int| 0 <= i < w.len() ==> letter_sound(fold(#[trigger] w[i])) is Some,
        is_upper(t[0]),
        exists|i: int| 0 < i < t.len() && !is_upper(#[trigger] t[i]),
        !is_upper(w[0]),
    ensures
        official_to_greek_spec(t) == apply_spec(
            CapitalisationMode::Titlecase,
            official_to_greek_spec(w),
        ),
{
    assert forall|i: int| 0 <= i < t.len() implies letter_sound(fold(#[trigger] t[i])) is Some by {
        assert(fold_seq(t)[i] == fold(t[i]));
        assert(fold_seq(w)[i] == fold(w[i]));
        assert(letter_sound(fold(w[i])) is Some);
        assert(fold_seq(t)[i] == fold_seq(w)[i]);
    }
    lemma_single_word(w);
    lemma_single_word(t);
}

// ---------------------------------------------------------------------------
// Round trip
// ---------------------------------------------------------------------------

/// The letters of the words on which the round trip is proved: every letter
/// of the alphabet.
pub open spec fn plain_letter(c: char) -> bool {
    letter_sound(c) is Some
}

/// The letters of softened consonants.
pub open spec fn soft_letter(c: char) -> bool {
    c == 'ć' || c == 'ś' || c == 'ź' || c == 'ń'
}

/// The vowel letters and `i`.
pub open spec fn vowel_letter(c: char) -> bool {
    c == 'a' || c == 'ą' || c == 'e' || c == 'ę' || c == 'o' || c == 'ó' || c == 'u' || c == 'y'
        || c == 'i'
}

/// The letters that end a consonant whose Greek letter would be softened
/// along with a softened consonant right after it.
pub open spec fn hardening_letter(c: char) -> bool {
    c == 's' || c == 'z' || c == 'n' || c == 't' || c == 'd' || c == 'ł' || c == 'c'
}

/// The consonants spelled with an `i` before a glide and a vowel.
pub open spec fn iotating_letter(c: char) -> bool {
    c == 'w' || c == 'k' || c == 'm' || c == 'g'
}

/// A softened consonant or a soft l starts at `i`: one of their letters, the
/// `d` of "dź" or "dzi", or the `c`, `s`, `z`, `n` of "ci", "si", "zi", "ni".
pub open spec fn soft_start(w: Seq<char>, i: int) -> bool {
    ||| soft_letter(w[i]) && !(w[i] == 'ź' && i > 0 && w[i - 1] == 'd')
    ||| w[i] == 'l'
    ||| w[i] == 'd' && i + 1 < w.len() && w[i + 1] == 'ź'
    ||| w[i] == 'd' && i + 2 < w.len() && w[i + 1] == 'z' && w[i + 2] == 'i'
    ||| (w[i] == 'c' || w[i] == 's' || w[i] == 'n') && i + 1 < w.len() && w[i + 1] == 'i'
    ||| w[i] == 'z' && i + 1 < w.len() && w[i + 1] == 'i' && !(i > 0 && w[i - 1] == 'd')
}

/// An `i` at `i` before a vowel that it iotates is spelled after a consonant
/// that keeps it: `w`, `k`, `m`, `g`, or the `c`, `s`, `n`, `z` that it
/// softens (a `z` of "cz", "sz" or "rz" excluded).
pub open spec fn iotation_kept(w: Seq<char>, i: int) -> bool {
    i > 0 && (iotating_letter(w[i - 1]) || w[i - 1] == 'c' || w[i - 1] == 's' || w[i - 1] == 'n'
        || (w[i - 1] == 'z' && !(i > 1 && (w[i - 2] == 'c' || w[i - 2] == 's' || w[i - 2]
        == 'r'))))
}

/// Neighbouring letters that the Greek rendering cannot keep apart: "mp" and
/// "b", "ts" and "c", "ou" and "ó" come out alike.
pub open spec fn ambiguous_pair(a: char, b: char) -> bool {
    (a == 'm' && b == 'p') || (a == 't' && b == 's') || (a == 'o' && b == 'u')
}

/// A lowercase word in which every position is plain.
pub open spec fn plain_word(w: Seq<char>) -> bool {
    &&& forall|i: int| 0 <= i < w.len() ==> plain_letter(#[trigger] w[i])
    &&& forall|i: int| 0 <= i < w.len() ==> #[trigger] plain_at(w, i)
}

/// What the round trip needs at position `i`: no ambiguous pair starts
/// there; an `h` follows a `c` (alone it reads back as "ch"); no "rzrz"
/// starts there (the first would read back as "r"); a softened consonant is
/// followed by no vowel or `i` (which would carry the softening and read back
/// with an `i`), an `l` by no `y` (it would read back as `i`), and either by
/// no "rz"; neither is preceded by a consonant that its softening would
/// reach; a `j` follows none of `ł`, `c`, "dz" (which it would soften) and
/// `w`, `k`, `m`, `g` (which would read back with an `i`); an `i` follows
/// neither `ł` nor "rz"; and an `i` before a vowel is kept by the consonant
/// before it (else it reads back as `j`).
pub open spec fn plain_at(w: Seq<char>, i: int) -> bool {
    &&& i + 1 < w.len() ==> !ambiguous_pair(w[i], w[i + 1])
    &&& w[i] == 'h' ==> i > 0 && w[i - 1] == 'c'
    &&& i + 3 < w.len() ==> !(w[i] == 'r' && w[i + 1] == 'z' && w[i + 2] == 'r' && w[i + 3] == 'z')
    &&& soft_letter(w[i]) && i + 1 < w.len() ==> !vowel_letter(w[i + 1])
    &&& w[i] == 'l' && i + 1 < w.len() ==> w[i + 1] != 'y'
    &&& (soft_letter(w[i]) || w[i] == 'l') && i + 2 < w.len() ==> !(w[i + 1] == 'r' && w[i + 2]
        == 'z')
    &&& soft_start(w, i) && i > 0 ==> !hardening_letter(w[i - 1])
    &&& w[i] == 'j' && i > 0 ==> !glide_blocking_letter(w[i - 1]) && !(i > 1 && w[i - 2] == 'd'
        && w[i - 1] == 'z')
    &&& w[i] == 'i' && i > 0 ==> w[i - 1] != 'ł' && !(i > 1 && w[i - 2] == 'r' && w[i - 1] == 'z')
    &&& w[i] == 'i' && i + 1 < w.len() && iotated_vowel(w[i + 1]) is Some ==> iotation_kept(w, i)
}

/// The letters that a `j` may not follow.
pub open spec fn glide_blocking_letter(c: char) -> bool {
    c == 'ł' || c == 'c' || iotating_letter(c)
}

/// The softened consonants that a standalone acute mark closes: ś, ć, ź, ń, dź.
pub open spec fn soft_consonant(s: Sound) -> bool {
    s == Sound::Sx || s == Sound::Tx || s == Sound::Zx || s == Sound::Nx || s == Sound::Dx
}

/// The sounds that make up a run softened by the glyph after it: the
/// softened consonants and the soft l.
pub open spec fn run_sound(s: Sound) -> bool {
    soft_consonant(s) || s == Sound::L
}

/// The sounds whose glyphs end in a consonant that can be softened.
pub open spec fn ends_softenable(s: Sound) -> bool {
    s == Sound::S || s == Sound::Z || s == Sound::N || s == Sound::T || s == Sound::D || s
        == Sound::Lx || s == Sound::C || s == Sound::Dz
}

/// Neighbouring sounds whose glyphs would read back otherwise: pairs that
/// form one digraph, a softened consonant next to a soft r or before a vowel
/// (which would carry the softening), a soft l next to a soft r or before
/// `y`, a consonant that would be softened along with a softened one after
/// it or by a glide after it, and `w`, `k`, `m`, `g` before a glide (they are
/// spelled with an `i` before a glide and a vowel).
pub open spec fn merging_pair(a: Sound, b: Sound) -> bool {
    ||| (a == Sound::M && b == Sound::P)
    ||| (a == Sound::T && b == Sound::S)
    ||| (a == Sound::O && b == Sound::U)
    ||| (a == Sound::D && b == Sound::Z)
    ||| (a == Sound::D && b == Sound::Zh)
    ||| (a == Sound::Rx && b == Sound::Rx)
    ||| (soft_consonant(a) && (b == Sound::Y || b == Sound::Rx))
    ||| (a == Sound::L && (b == Sound::Y || b == Sound::Rx))
    ||| (run_sound(b) && (ends_softenable(a) || a == Sound::Rx))
    ||| ((b == Sound::J || b == Sound::I) && (a == Sound::Lx || a == Sound::C || a == Sound::Dz))
    ||| (a == Sound::Rx && b == Sound::I)
}

pub open spec fn plain_sounds(p: Seq<Sound>) -> bool {
    &&& forall|i: int| 0 <= i < p.len() - 1 ==> #[trigger] apart_at(p, i)
}

/// The sound at `i` and the one after it are no merging pair.
pub open spec fn apart_at(p: Seq<Sound>, i: int) -> bool {
    !merging_pair(p[i], p[i + 1])
}

/// The glyphs from the start that the parser would take as a softenable run
/// are not followed by a softening glyph.
pub open spec fn no_soft_lead(g: Seq<Greek>) -> bool {
    plain_run_from(g, 0) < g.len() ==> !g[plain_run_from(g, 0)].softening()
}

/// What follows a token in the glyphs of plain sounds: nothing where no sound
/// follows, else the glyphs of the next sound, which open no false softening
/// unless that sound is softened itself.
pub open spec fn continues_with(gr: Seq<Greek>, next: Option<Sound>) -> bool {
    match next {
        None => gr.len() == 0,
        Some(y) => {
            &&& gr.len() > 0
            &&& y != Sound::J ==> gr[0] == naive_glyphs(y)[0]
            &&& y == Sound::J ==> gr[0].softening()
            &&& !run_sound(y) && y != Sound::J && y != Sound::I ==> no_soft_lead(gr)
        },
    }
}

proof fn lemma_plain_run_shift(h: Seq<Greek>, gr: Seq<Greek>, t: int)
    requires
        0 <= t <= gr.len(),
    ensures
        plain_run_from(h + gr, h.len() + t) == h.len() + plain_run_from(gr, t),
    decreases gr.len() - t,
{
    let g = h + gr;
    if t < gr.len() {
        assert(g[h.len() + t] == gr[t]);
        lemma_plain_run_shift(h, gr, t + 1);
    }
}

/// A run of softenable consonants other than rho at the end of `h` goes on
/// into what follows.
proof fn lemma_plain_run_concat(h: Seq<Greek>, gr: Seq<Greek>, j: int)
    requires
        0 <= j <= h.len(),
        forall|i: int| j <= i < h.len() ==> (#[trigger] h[i]).softenable() && h[i] != Greek::Rho,
    ensures
        plain_run_from(h + gr, j) == h.len() + plain_run_from(gr, 0),
    decreases h.len() - j,
{
    if j < h.len() {
        assert((h + gr)[j] == h[j]);
        lemma_plain_run_concat(h, gr, j + 1);
    } else {
        lemma_plain_run_shift(h, gr, 0);
    }
}

/// A run that meets a glyph outside it ends there.
proof fn lemma_plain_run_exact(g: Seq<Greek>, j: int, m: int)
    requires
        0 <= j <= m < g.len(),
        forall|i: int| j <= i < m ==> (#[trigger] g[i]).softenable() && g[i] != Greek::Rho,
        !(g[m].softenable() && g[m] != Greek::Rho),
    ensures
        plain_run_from(g, j) == m,
    decreases m - j,
{
    if j < m {
        lemma_plain_run_exact(g, j + 1, m);
    }
}

/// No plain sound's glyphs begin with a softening glyph; only those of a soft
/// r or of a softened consonant hold one.
proof fn lemma_naive_plain_glyphs(x: Sound)
    requires
    ensures
        x != Sound::J && x != Sound::I ==> !naive_glyphs(x)[0].softening(),
        x != Sound::Rx && !run_sound(x) && x != Sound::J && x != Sound::I ==> forall|j: int|
            0 <= j < naive_glyphs(x).len() ==> !(#[trigger] naive_glyphs(x)[j]).softening(),
        naive_glyphs(x)[0] == Greek::Upsilon ==> x == Sound::U,
        1 <= naive_glyphs(x).len() <= 2,
        run_sound(x) ==> naive_glyphs(x) == seq![base_glyph(x), Greek::Acute],
        run_sound(x) ==> base_glyph(x).softenable() && base_glyph(x) != Greek::Rho
            && softened_sound(base_glyph(x)) == x,
        ends_softenable(x) ==> forall|j: int|
            0 <= j < naive_glyphs(x).len() ==> (#[trigger] naive_glyphs(x)[j]).softenable()
                && naive_glyphs(x)[j] != Greek::Rho,
        naive_glyphs(x)[0].softenable() && naive_glyphs(x)[0] != Greek::Rho && !ends_softenable(x)
            ==> x == Sound::Dh || run_sound(x),
{
}

/// The glyphs of a glide, with the vowel it carries if one follows.
pub open spec fn j_glyphs(v: Option<Sound>) -> Seq<Greek> {
    match v {
        None => seq![Greek::Acute],
        Some(v) => softened_vowel_glyphs(v),
    }
}

pub open spec fn j_sounds(v: Option<Sound>) -> Seq<Sound> {
    match v {
        None => seq![Sound::J],
        Some(v) => seq![Sound::J, v],
    }
}

/// A plain consonant kept apart by a break mark from a glide after it.
pub open spec fn breaks_before(p: Seq<Sound>) -> bool {
    p.len() > 1 && needs_break(p[0]) && (p[1] == Sound::J || p[1] == Sound::I)
}

/// The first step of the renderer on plain sounds.
proof fn lemma_render_token(p: Seq<Sound>)
    requires
        plain_sounds(p),
        p.len() > 0,
    ensures
        1 <= render_step(p).1 <= p.len(),
        p[0] != Sound::Rx && !run_sound(p[0]) && p[0] != Sound::J && !breaks_before(p)
            ==> render_step(p) == (naive_glyphs(p[0]), 1int),
        breaks_before(p) ==> render_step(p) == (naive_glyphs(p[0]).push(Greek::Break), 1int),
        p[0] == Sound::J ==> render_step(p) == (if p.len() > 1 && p[1].vowel() && p[1] != Sound::Y
            && p[1] != Sound::I {
            (j_glyphs(Some(p[1])), 2int)
        } else {
            (j_glyphs(None), 1int)
        }),
        !run_sound(p[0]) ==> render_step(p).1 <= 2,
        render_step(p).1 == 2 && !run_sound(p[0]) ==> p[0] == Sound::Rx || p[0] == Sound::J,
        render_step(p).0.len() > 0,
        p[0] != Sound::J ==> render_step(p).0[0] == naive_glyphs(p[0])[0],
        p[0] == Sound::J ==> render_step(p).0[0].softening(),
{
    reveal(render_step);
    if p.len() > 1 {
        assert(apart_at(p, 0));
    }
    lemma_soft_run_bounds(p, 0);
    if p[0] != Sound::Rx && !run_sound(p[0]) {
        assert(soft_run_from(p, 0) == 0);
    } else if p[0] == Sound::Rx && p.len() > 1 {
        assert(soft_run_from(p, 1) == 1);
        assert(p.take(1).map_values(|x: Sound| base_glyph(x)) =~= seq![Greek::Rho]);
    } else if p.len() > 1 {
        assert(p.take(soft_run_from(p, 0)).map_values(|x: Sound| base_glyph(x))[0] == base_glyph(
            p[0],
        ));
    }
}

/// The first step of the renderer on plain sounds that begin with a soft r.
proof fn lemma_render_rx_token(p: Seq<Sound>)
    requires
        plain_sounds(p),
        p.len() > 0,
        p[0] == Sound::Rx,
    ensures
        render_step(p).1 == 1 ==> render_step(p).0 == rx_glyphs(None),
        render_step(p).1 == 2 ==> p.len() > 1 && p[1].vowel() && render_step(p).0 == rx_glyphs(
            Some(p[1]),
        ),
{
    reveal(render_step);
    if p.len() > 1 {
        let v = p[1];
        assert(apart_at(p, 0));
        assert(!(v.softened() && v != Sound::I));
        assert(soft_run_from(p, 1) == 1);
        assert(soft_run_from(p, 0) == 1);
        let base = p.take(1).map_values(|x: Sound| base_glyph(x));
        assert(base =~= seq![Greek::Rho]);
        if !v.vowel() {
            assert(render_step(p) == (base.push(Greek::Acute), 1int));
            assert(base.push(Greek::Acute) =~= rx_glyphs(None));
        } else if v == Sound::Y {
            assert(render_step(p) == (base.push(Greek::IotaAcute), 2int));
            assert(base.push(Greek::IotaAcute) =~= rx_glyphs(Some(v)));
        } else {
            assert(render_step(p) == (base + softened_vowel_glyphs(v), 2int));
            assert(base + softened_vowel_glyphs(v) =~= rx_glyphs(Some(v)));
        }
    }
}

/// Every sound of a run of softened sounds that starts with a softened
/// consonant or a soft l is one of those.
proof fn lemma_soft_prefix(p: Seq<Sound>, j: int)
    requires
        plain_sounds(p),
        0 <= j < soft_run_from(p, 0),
        soft_run_from(p, 0) <= p.len(),
        run_sound(p[0]),
        forall|i: int| 0 <= i < soft_run_from(p, 0) ==> (#[trigger] p[i]).softened() && p[i] != Sound::I,
    ensures
        run_sound(p[j]),
    decreases j,
{
    if j > 0 {
        lemma_soft_prefix(p, j - 1);
        assert(apart_at(p, j - 1));
    }
}

/// The glyphs of a run of softened sounds: their plain letters, closed by an
/// acute mark or by the accented vowel that carries the softening.
pub open spec fn soft_run_glyphs(q: Seq<Sound>, v: Option<Sound>) -> Seq<Greek> {
    q.map_values(|x: Sound| base_glyph(x)) + match v {
        None => seq![Greek::Acute],
        Some(v) => softened_vowel_glyphs(v),
    }
}

pub open spec fn soft_run_sounds(q: Seq<Sound>, v: Option<Sound>) -> Seq<Sound> {
    match v {
        None => q,
        Some(v) => q.push(v),
    }
}

/// The first step of the renderer on plain sounds that begin with a softened
/// consonant or a soft l: the whole run, closed by an acute mark, or after a
/// soft l by the vowel that follows.
proof fn lemma_render_soft_token(p: Seq<Sound>)
    requires
        plain_sounds(p),
        p.len() > 0,
        run_sound(p[0]),
    ensures
        ({
            let m = soft_run_from(p, 0);
            &&& 1 <= m <= p.len()
            &&& forall|i: int| 0 <= i < m ==> run_sound(#[trigger] p[i])
            &&& m < p.len() ==> !run_sound(p[m]) && p[m] != Sound::Rx
            &&& (render_step(p) == (soft_run_glyphs(p.take(m), None), m) || (m < p.len()
                && p[m].vowel() && p[m] != Sound::Y && render_step(p) == (
                soft_run_glyphs(p.take(m), Some(p[m])),
                m + 1,
            )))
        }),
{
    reveal(render_step);
    lemma_soft_run_bounds(p, 0);
    let m = soft_run_from(p, 0);
    assert(m >= 1);
    assert forall|i: int| 0 <= i < m implies run_sound(#[trigger] p[i]) by {
        lemma_soft_prefix(p, i);
    }
    let base = p.take(m).map_values(|x: Sound| base_glyph(x));
    if m < p.len() {
        assert(apart_at(p, m - 1));
        assert(run_sound(p[m - 1]));
        if p[m].vowel() {
            assert(p[m] != Sound::Y);
            assert(render_step(p) == (base + softened_vowel_glyphs(p[m]), m + 1));
        } else {
            assert(render_step(p) == (base.push(Greek::Acute), m));
            assert(base.push(Greek::Acute) =~= soft_run_glyphs(p.take(m), None));
        }
    } else if p.len() == 1 {
        assert(p.take(1) =~= seq![p[0]]);
        assert(soft_run_glyphs(p.take(1), None) =~= seq![base_glyph(p[0]), Greek::Acute]);
    } else {
        assert(render_step(p) == (base.push(Greek::Acute), m));
        assert(base.push(Greek::Acute) =~= soft_run_glyphs(p.take(m), None));
    }
}

proof fn lemma_plain_tail(p: Seq<Sound>, k: int)
    requires
        plain_sounds(p),
        0 <= k <= p.len(),
    ensures
        plain_sounds(p.skip(k)),
        forall|i: int| 0 <= i < p.len() - k ==> #[trigger] p.skip(k)[i] == p[i + k],
{
    let rest = p.skip(k);
    assert forall|i: int| 0 <= i < rest.len() - 1 implies #[trigger] apart_at(rest, i) by {
        assert(apart_at(p, i + k));
        assert(rest[i] == p[i + k]);
        assert(rest[i + 1] == p[i + k + 1]);
    }
}

/// The glyphs of plain sounds: the first token's glyphs, then those of the
/// rest; and unless the first sound is a softened consonant, no false
/// softening at the start.
#[verifier::rlimit(100)]
proof fn lemma_render_plain(p: Seq<Sound>)
    requires
        plain_sounds(p),
    ensures
        p.len() > 0 ==> render_greek(p) == render_step(p).0 + render_greek(p.skip(render_step(p).1)),
        p.len() > 0 ==> render_greek(p).len() > 0,
        p.len() > 0 && p[0] != Sound::J ==> render_greek(p)[0] == naive_glyphs(p[0])[0],
        p.len() > 0 && p[0] == Sound::J ==> render_greek(p)[0].softening(),
        p.len() == 0 ==> render_greek(p).len() == 0,
        p.len() > 0 && !run_sound(p[0]) && p[0] != Sound::J && p[0] != Sound::I ==> no_soft_lead(
            render_greek(p),
        ),
    decreases p.len(),
{
    if p.len() > 0 {
        lemma_render_token(p);
        lemma_render_step_bounds(p);
        let st = render_step(p);
        let k = st.1;
        let rest = p.skip(k);
        lemma_plain_tail(p, k);
        lemma_render_plain(rest);
        let g = render_greek(p);
        let h = st.0;
        let gr = render_greek(rest);
        assert(g == h + gr);
        assert(g[0] == h[0]);
        let x = p[0];
        lemma_naive_plain_glyphs(x);
        if !run_sound(x) && x != Sound::J && x != Sound::I {
            if x == Sound::Rx {
                lemma_plain_run_exact(g, 0, 0);
            } else if !(h[0].softenable() && h[0] != Greek::Rho) {
                lemma_plain_run_exact(g, 0, 0);
            } else if breaks_before(p) {
                let n = naive_glyphs(x).len() as int;
                assert(h[n] == Greek::Break);
                assert(g[n] == h[n]);
                assert forall|i: int| 0 <= i < n implies (#[trigger] g[i]).softenable() && g[i]
                    != Greek::Rho by {
                    assert(g[i] == h[i]);
                }
                lemma_plain_run_exact(g, 0, n);
            } else if x == Sound::Dh {
                assert(g[1] == h[1]);
                lemma_plain_run_exact(g, 0, 1);
            } else {
                assert(ends_softenable(x));
                lemma_plain_run_concat(h, gr, 0);
                if rest.len() > 0 {
                    assert(apart_at(p, 0));
                    assert(rest[0] == p[1]);
                    assert(!run_sound(rest[0]));
                    assert(rest[0] != Sound::J && rest[0] != Sound::I);
                    lemma_plain_run_bounds(gr, 0);
                    let r = plain_run_from(gr, 0);
                    if r < gr.len() {
                        assert(g[h.len() + r] == gr[r]);
                    }
                }
            }
        }
    } else {
        assert(render_greek(p) =~= Seq::<Greek>::empty());
    }
}

/// A plain sound that is neither soft r nor a softened sound, rendered on its
/// own, reads back alone.
#[verifier::rlimit(50)]
proof fn lemma_parse_plain_token(x: Sound, next: Option<Sound>, gr: Seq<Greek>)
    requires
        x != Sound::Rx,
        x != Sound::J,
        !run_sound(x),
        continues_with(gr, next),
        next matches Some(y) ==> !merging_pair(x, y),
        needs_break(x) ==> next != Some(Sound::J) && next != Some(Sound::I),
    ensures
        parse_step(naive_glyphs(x) + gr) == (seq![x], naive_glyphs(x).len() as int),
{
    reveal(parse_step);
    let h = naive_glyphs(x);
    let g = h + gr;
    lemma_naive_plain_glyphs(x);
    if let Some(y) = next {
        if y != Sound::J {
            lemma_naive_plain_glyphs(y);
        }
    }
    assert(g[0] == h[0]);
    if h.len() > 1 {
        assert(g[1] == h[1]);
    } else if gr.len() > 0 {
        assert(g[1] == gr[0]);
    }
    lemma_parse_step_bounds(g);
    let n = soft_glyph_run(g);
    assert(!(0 < n < g.len() && g[n].softening())) by {
        if g[0] == Greek::Rho {
        } else if !(h[0].softenable() && h[0] != Greek::Rho) {
            lemma_plain_run_exact(g, 0, 0);
        } else if x == Sound::Dh {
            lemma_plain_run_exact(g, 0, 1);
        } else {
            lemma_plain_run_concat(h, gr, 0);
            lemma_plain_run_bounds(gr, 0);
            if 0 < n < g.len() {
                assert(g[n] == gr[n - h.len()]);
            }
        }
    }
}

/// The glyphs of a soft r, with the vowel that carries its softening if one
/// follows.
pub open spec fn rx_glyphs(v: Option<Sound>) -> Seq<Greek> {
    match v {
        None => seq![Greek::Rho, Greek::Acute],
        Some(v) => if v == Sound::Y {
            seq![Greek::Rho, Greek::IotaAcute]
        } else {
            seq![Greek::Rho] + softened_vowel_glyphs(v)
        },
    }
}

pub open spec fn rx_sounds(v: Option<Sound>) -> Seq<Sound> {
    match v {
        None => seq![Sound::Rx],
        Some(v) => seq![Sound::Rx, v],
    }
}

/// A soft r, with the vowel its rendering took, reads back as the same sounds.
#[verifier::rlimit(50)]
proof fn lemma_parse_rx_token(v: Option<Sound>, next: Option<Sound>, gr: Seq<Greek>)
    requires
        v matches Some(v) ==> v.vowel() && v != Sound::I && (next matches Some(y)
            ==> !merging_pair(v, y)),
        continues_with(gr, next),
    ensures
        parse_step(rx_glyphs(v) + gr) == (rx_sounds(v), rx_glyphs(v).len() as int),
{
    reveal(parse_step);
    let h = rx_glyphs(v);
    let g = h + gr;
    assert(g[0] == Greek::Rho);
    assert(g[1] == h[1]);
    assert(!g[1].softenable());
    assert(g[1].softening());
    assert(soft_glyph_run(g) == 1);
    assert(g.take(1) =~= seq![Greek::Rho]);
    assert(g.take(1).map_values(|x: Greek| softened_sound(x)) =~= seq![Sound::Rx]);
    match v {
        None => {},
        Some(v) => {
            if v == Sound::Ou {
                assert(g[2] == Greek::Upsilon);
            } else if v == Sound::O {
                if let Some(y) = next {
                    lemma_naive_plain_glyphs(y);
                    assert(g[2] == gr[0]);
                    assert(g[2] != Greek::Upsilon);
                } else {
                    assert(g.len() == 2);
                }
            }
        },
    }
}

/// A run of softened sounds, closed by its acute mark or by the vowel that
/// carries its softening, reads back as the same sounds.
#[verifier::rlimit(50)]
proof fn lemma_parse_soft_token(q: Seq<Sound>, v: Option<Sound>, next: Option<Sound>, gr: Seq<Greek>)
    requires
        q.len() > 0,
        forall|i: int| 0 <= i < q.len() ==> run_sound(#[trigger] q[i]),
        v matches Some(v) ==> v.vowel() && v != Sound::Y && (next matches Some(y)
            ==> !merging_pair(v, y)),
        continues_with(gr, next),
    ensures
        parse_step(soft_run_glyphs(q, v) + gr) == (soft_run_sounds(q, v), soft_run_glyphs(
            q,
            v,
        ).len() as int),
{
    reveal(parse_step);
    let h = soft_run_glyphs(q, v);
    let g = h + gr;
    let m = q.len() as int;
    assert forall|i: int| 0 <= i < m implies (#[trigger] g[i]).softenable() && g[i] != Greek::Rho by {
        assert(g[i] == h[i]);
        assert(h[i] == base_glyph(q[i]));
        lemma_naive_plain_glyphs(q[i]);
    }
    assert(g[m] == h[m]);
    assert(!g[m].softenable() && g[m].softening());
    assert(g[0] != Greek::Rho);
    lemma_plain_run_exact(g, 0, m);
    assert(soft_glyph_run(g) == m);
    assert forall|i: int| 0 <= i < m implies #[trigger] softened_sound(g.take(m)[i]) == q[i] by {
        assert(g[i] == base_glyph(q[i]));
        lemma_naive_plain_glyphs(q[i]);
    }
    assert(g.take(m).map_values(|x: Greek| softened_sound(x)) =~= q);
    if let Some(v) = v {
        if v == Sound::Ou {
            assert(g[m + 1] == h[m + 1]);
        } else if v == Sound::O {
            if let Some(y) = next {
                lemma_naive_plain_glyphs(y);
                assert(g[m + 1] == gr[0]);
            } else {
                assert(g.len() == m + 1);
            }
        }
    }
}

/// A consonant kept apart from a glide by a break mark reads back alone, and
/// the break mark reads as nothing.
#[verifier::rlimit(50)]
proof fn lemma_parse_break_token(x: Sound, gr: Seq<Greek>)
    requires
        needs_break(x),
        continues_with(gr, Some(Sound::J)) || continues_with(gr, Some(Sound::I)),
    ensures
        parse_greek(naive_glyphs(x).push(Greek::Break) + gr) == seq![x] + parse_greek(gr),
{
    reveal(parse_step);
    let h = naive_glyphs(x).push(Greek::Break);
    let g = h + gr;
    assert(h.len() == 2);
    assert(g[0] == h[0]);
    assert(g[1] == Greek::Break);
    if x != Sound::R {
        lemma_plain_run_exact(g, 0, 1);
    }
    lemma_parse_step_bounds(g);
    assert(parse_step(g) == (seq![x], 1int));
    let g1 = g.skip(1);
    assert(g1[0] == Greek::Break);
    lemma_parse_step_bounds(g1);
    assert(parse_step(g1) == (Seq::<Sound>::empty(), 1int));
    assert(g1.skip(1) =~= gr);
    assert(parse_greek(g1) =~= parse_greek(gr));
}

/// A glide, with the vowel it carries if one follows, reads back as the same
/// sounds.
#[verifier::rlimit(50)]
proof fn lemma_parse_j_token(v: Option<Sound>, next: Option<Sound>, gr: Seq<Greek>)
    requires
        v matches Some(v) ==> v.vowel() && v != Sound::Y && v != Sound::I && (
        next matches Some(y) ==> !merging_pair(v, y)),
        continues_with(gr, next),
    ensures
        parse_step(j_glyphs(v) + gr) == (j_sounds(v), j_glyphs(v).len() as int),
{
    reveal(parse_step);
    let h = j_glyphs(v);
    let g = h + gr;
    assert(g[0] == h[0]);
    assert(!g[0].softenable());
    lemma_plain_run_exact(g, 0, 0);
    if let Some(v) = v {
        if v == Sound::Ou {
            assert(g[1] == h[1]);
        } else if v == Sound::O {
            if let Some(y) = next {
                if y != Sound::J {
                    lemma_naive_plain_glyphs(y);
                }
                assert(g[1] == gr[0]);
            } else {
                assert(g.len() == 1);
            }
        }
    } else if let Some(y) = next {
        assert(g[1] == gr[0]);
    }
}

/// The first token of plain sounds, followed by the glyphs of the rest, reads
/// back as the sounds it was rendered from.
#[verifier::rlimit(50)]
proof fn lemma_parse_first_token(p: Seq<Sound>, gr: Seq<Greek>)
    requires
        plain_sounds(p),
        p.len() > 0,
        continues_with(gr, if p.len() > render_step(p).1 { Some(p[render_step(p).1]) } else { None }),
    ensures
        parse_greek(render_step(p).0 + gr) == p.take(render_step(p).1) + parse_greek(gr),
{
    lemma_render_token(p);
    let k = render_step(p).1;
    let h = render_step(p).0;
    let next = if p.len() > k { Some(p[k]) } else { None };
    if p.len() > 1 {
        assert(apart_at(p, 0));
    }
    if breaks_before(p) {
        lemma_parse_break_token(p[0], gr);
        assert(p.take(1) =~= seq![p[0]]);
    } else {
        if run_sound(p[0]) {
            lemma_render_soft_token(p);
            let m = soft_run_from(p, 0);
            let q = p.take(m);
            assert forall|i: int| 0 <= i < q.len() implies run_sound(#[trigger] q[i]) by {
                assert(q[i] == p[i]);
            }
            if k == m {
                lemma_parse_soft_token(q, None, next, gr);
            } else {
                if p.len() > m + 1 {
                    assert(apart_at(p, m));
                }
                lemma_parse_soft_token(q, Some(p[m]), next, gr);
                assert(p.take(m + 1) =~= q.push(p[m]));
            }
        } else if p[0] == Sound::J {
            if k == 1 {
                lemma_parse_j_token(None, next, gr);
                assert(p.take(1) =~= j_sounds(None));
            } else {
                if p.len() > 2 {
                    assert(apart_at(p, 1));
                }
                lemma_parse_j_token(Some(p[1]), next, gr);
                assert(p.take(2) =~= j_sounds(Some(p[1])));
            }
        } else if p[0] != Sound::Rx {
            lemma_parse_plain_token(p[0], next, gr);
            assert(p.take(1) =~= seq![p[0]]);
        } else {
            lemma_render_rx_token(p);
            if k == 1 {
                lemma_parse_rx_token(None, next, gr);
                assert(p.take(1) =~= rx_sounds(None));
            } else {
                if p.len() > 2 {
                    assert(apart_at(p, 1));
                }
                lemma_parse_rx_token(Some(p[1]), next, gr);
                assert(p.take(2) =~= rx_sounds(Some(p[1])));
            }
        }
        let g = h + gr;
        lemma_parse_step_bounds(g);
        assert(g.skip(h.len() as int) =~= gr);
    }
}

/// The glyphs of what the first token of plain sounds leaves continue as the
/// next sound's glyphs do.
proof fn lemma_rest_continues(p: Seq<Sound>)
    requires
        plain_sounds(p),
        p.len() > 0,
    ensures
        1 <= render_step(p).1 <= p.len(),
        plain_sounds(p.skip(render_step(p).1)),
        continues_with(
            render_greek(p.skip(render_step(p).1)),
            if p.len() > render_step(p).1 { Some(p[render_step(p).1]) } else { None },
        ),
{
    lemma_render_step_bounds(p);
    let k = render_step(p).1;
    let rest = p.skip(k);
    lemma_plain_tail(p, k);
    lemma_render_plain(rest);
    if p.len() > k {
        assert(rest[0] == p[k]);
    }
}

/// Plain sounds rendered as glyphs read back as the same sounds.
#[verifier::rlimit(50)]
proof fn lemma_greek_round_trip(p: Seq<Sound>)
    requires
        plain_sounds(p),
    ensures
        parse_greek(render_greek(p)) == p,
    decreases p.len(),
{
    if p.len() == 0 {
        assert(render_greek(p) =~= Seq::<Greek>::empty());
        assert(parse_greek(render_greek(p)) =~= p);
    } else {
        let g = render_greek(p);
        let k = render_step(p).1;
        let h = render_step(p).0;
        let rest = p.skip(k);
        let gr = render_greek(rest);
        lemma_rest_continues(p);
        lemma_parse_first_token(p, gr);
        assert(g == h + gr) by {
            lemma_render_plain(p);
        }
        lemma_greek_round_trip(rest);
        assert(p.take(k) + rest =~= p);
    }
}

proof fn lemma_plain_word_tail(w: Seq<char>, k: int)
    requires
        plain_word(w),
        0 <= k <= w.len(),
        k < w.len() ==> w[k] != 'h',
        k + 1 < w.len() && w[k] == 'i' ==> iotated_vowel(w[k + 1]) is None,
    ensures
        plain_word(w.skip(k)),
{
    let r = w.skip(k);
    assert forall|i: int| 0 <= i < r.len() implies plain_letter(#[trigger] r[i]) by {
        assert(r[i] == w[i + k]);
    }
    assert forall|i: int| 0 <= i < r.len() implies #[trigger] plain_at(r, i) by {
        assert(plain_at(w, i + k));
        assert(r[i] == w[i + k]);
        if i + 1 < r.len() {
            assert(r[i + 1] == w[i + k + 1]);
        }
        if i + 2 < r.len() {
            assert(r[i + 2] == w[i + k + 2]);
        }
        if i + 3 < r.len() {
            assert(r[i + 3] == w[i + k + 3]);
        }
        if i > 0 {
            assert(r[i - 1] == w[i + k - 1]);
        }
        if i > 1 {
            assert(r[i - 2] == w[i + k - 2]);
        }
    }
}

/// The sounds and letters of the pieces of a plain word: "w", "k", "m" or
/// "g" with an iotating "i" and its vowel.
pub open spec fn iotated_start(w: Seq<char>) -> bool {
    w.len() >= 3 && iotating_letter(w[0]) && w[1] == 'i' && iotated_vowel(w[2]) is Some
}

proof fn lemma_plain_letters(w: Seq<char>, n: int)
    requires
        plain_word(w),
        0 <= n,
    ensures
        forall|i: int|
            #![trigger w[i]]
            #![trigger plain_at(w, i)]
            0 <= i < n && i < w.len() ==> plain_letter(w[i]) && plain_at(w, i),
{
    assert forall|i: int| 0 <= i < n && i < w.len() implies plain_letter(w[i]) && plain_at(w, i) by {
        assert(plain_letter(w[i]));
        assert(plain_at(w, i));
    }
}

/// Plain sounds joined: those of a first piece, then plain sounds that
/// begin apart from its last.
proof fn lemma_plain_sounds_join(a: Seq<Sound>, q: Seq<Sound>)
    requires
        a.len() > 0,
        forall|i: int| 0 <= i < a.len() - 1 ==> #[trigger] apart_at(a, i),
        plain_sounds(q),
        q.len() > 0 ==> !merging_pair(a.last(), q[0]),
    ensures
        plain_sounds(a + q),
{
    let p = a + q;
    assert forall|i: int| 0 <= i < p.len() - 1 implies #[trigger] apart_at(p, i) by {
        if i < a.len() - 1 {
            assert(apart_at(a, i));
            assert(p[i] == a[i]);
            assert(p[i + 1] == a[i + 1]);
        } else if i == a.len() - 1 {
            assert(p[i] == a.last());
            assert(p[i + 1] == q[0]);
        } else {
            assert(apart_at(q, i - a.len()));
            assert(p[i] == q[i - a.len()]);
            assert(p[i + 1] == q[i + 1 - a.len()]);
        }
    }
}

/// The letters written for the sounds of a piece of two sounds: a softened
/// consonant spelled with the `i` of the vowel after it.
pub open spec fn softened_piece_letters(a: Seq<Sound>) -> Seq<char> {
    if a[1] == Sound::I {
        softened_letters(a[0]) + naive_letters(a[1])
    } else {
        softened_letters(a[0]).push('i') + naive_letters(a[1])
    }
}

/// A letter other than `h`, and an iotated vowel, are written back as
/// themselves.
proof fn lemma_letter_spelling(c: char)
    ensures
        letter_sound(c) is Some && c != 'h' ==> naive_letters(letter_sound(c)->0) == seq![c],
        iotated_vowel(c) is Some ==> naive_letters(iotated_vowel(c)->0) == seq![c],
        softenable_letter(c) is Some ==> softened_letters(softenable_letter(c)->0) == seq![c]
            && soft_consonant(softenable_letter(c)->0),
{
}

/// A two-letter digraph is written back as itself.
proof fn lemma_digraph_spelling(a: char, b: char)
    ensures
        digraph_sound(a, b) is Some && b != 'x' ==> naive_letters(digraph_sound(a, b)->0) == seq![
            a,
            b,
        ],
{
}

/// The first piece of a plain word that does not start with an iotated
/// glide: one sound spelled as on its own, or a softened consonant with the
/// vowel or `i` after it; what follows starts neither with `h` nor with an
/// iotating `i`.
#[verifier::rlimit(100)]
proof fn lemma_piece(w: Seq<char>)
    requires
        plain_word(w),
        w.len() > 0,
        !iotated_start(w),
    ensures
        letter_step(w) is Some,
        ({
            let a = (letter_step(w)->0).0;
            let k = (letter_step(w)->0).1;
            &&& 1 <= a.len() <= 2
            &&& 1 <= k <= w.len()
            &&& a.len() == 1 ==> naive_letters(a[0]) == w.take(k)
            &&& a.len() == 2 ==> soft_consonant(a[0]) && (spelled_iotated(a[1]) || a[1] == Sound::I)
                && softened_piece_letters(a) == w.take(k)
            &&& k < w.len() ==> w[k] != 'h'
            &&& k + 1 < w.len() && w[k] == 'i' ==> iotated_vowel(w[k + 1]) is None
        }),
{
    lemma_plain_letters(w, 5);
    lemma_letter_step_bounds(w);
    let a = (letter_step(w)->0).0;
    let k = (letter_step(w)->0).1;
    assert(w[0] != 'h');
    if dzi_rule(w) is Some {
        assert(softenable_letter('d') is None);
        if k == 4 {
            lemma_letter_spelling(w[3]);
            assert(softened_piece_letters(a) =~= w.take(4));
        } else {
            assert(softened_piece_letters(a) =~= w.take(3));
        }
    } else if w.len() >= 2 && w[0] == 'd' && w[1] == 'ż' {
        assert(naive_letters(a[0]) =~= w.take(2));
    } else if ci_rule(w) is Some {
        lemma_letter_spelling(w[0]);
        if k == 3 {
            lemma_letter_spelling(w[2]);
            assert(softened_piece_letters(a) =~= w.take(3));
        } else {
            assert(softened_piece_letters(a) =~= w.take(2));
        }
    } else if i_vowel_rule(w) is Some {
        assert(plain_at(w, 0));
    } else if w.len() >= 2 && digraph_sound(w[0], w[1]) is Some {
        lemma_digraph_spelling(w[0], w[1]);
        assert(plain_letter(w[1]));
        assert(w.take(2) =~= seq![w[0], w[1]]);
    } else {
        lemma_letter_spelling(w[0]);
        assert(w.take(1) =~= seq![w[0]]);
    }
}

/// Where a piece of a plain word ends, its last sound and the first sound of
/// the next piece are apart, and the writer spells the last sound on its own.
#[verifier::rlimit(100)]
proof fn lemma_piece_boundary(w: Seq<char>)
    requires
        plain_word(w),
        w.len() > 0,
        !iotated_start(w),
        (letter_step(w)->0).1 < w.len(),
    ensures
        ({
            let a = (letter_step(w)->0).0;
            let r = w.skip((letter_step(w)->0).1);
            let y = (letter_step(r)->0).0[0];
            &&& letter_step(r) is Some
            &&& !merging_pair(a.last(), y)
            &&& a.len() == 1 ==> !(a[0].softened() && a[0] != Sound::I && a[0] != Sound::L && a[0]
                != Sound::Rx && (
            spelled_iotated(y) || y == Sound::I))
            &&& a.len() == 1 && iotating_letter(w[0]) ==> y != Sound::J
        }),
{
    lemma_plain_letters(w, 8);
    lemma_letter_step_bounds(w);
    let k = (letter_step(w)->0).1;
    let r = w.skip(k);
    assert(forall|j: int| 0 <= j < r.len() ==> r[j] == w[k + j]);
    assert(r[0] == w[k]);
    if r.len() > 1 {
        assert(r[1] == w[k + 1]);
    }
    if r.len() > 2 {
        assert(r[2] == w[k + 2]);
    }
    if r.len() > 3 {
        assert(r[3] == w[k + 3]);
    }
    lemma_letter_step_bounds(r);
}

/// A plain word is read whole, as plain sounds that are written back as the
/// same word.
#[verifier::rlimit(100)]
proof fn lemma_official_round_trip(w: Seq<char>)
    requires
        plain_word(w),
    ensures
        parse_word_spec(w).1 == w.len(),
        plain_sounds(parse_word_spec(w).0),
        write_official(parse_word_spec(w).0) == w,
        w.len() > 0 ==> parse_word_spec(w).0.len() > 0 && parse_word_spec(w).0[0] == (letter_step(
            w,
        )->0).0[0],
    decreases w.len(),
{
    let p = parse_word_spec(w);
    if w.len() == 0 {
        assert(p.0 =~= Seq::<Sound>::empty());
        assert(write_official(p.0) =~= w);
    } else if iotated_start(w) {
        lemma_iotated_round_trip(w);
    } else {
        lemma_piece(w);
        lemma_letter_step_bounds(w);
        let st = letter_step(w)->0;
        let k = st.1;
        let a = st.0;
        let r = w.skip(k);
        lemma_plain_word_tail(w, k);
        lemma_official_round_trip(r);
        let q = parse_word_spec(r).0;
        assert(p.0 == a + q);
        if r.len() > 0 {
            lemma_piece_boundary(w);
        }
        if a.len() > 1 {
            assert(apart_at(a, 0));
        }
        lemma_plain_sounds_join(a, q);
        if a.len() == 1 {
            let x = a[0];
            assert(write_step(p.0) == (naive_letters(x), 1int));
            assert(p.0.skip(1) =~= q);
            assert(write_official(p.0) == naive_letters(x) + write_official(q));
        } else {
            let v = a[1];
            let head = if v == Sound::I {
                softened_letters(a[0])
            } else {
                softened_letters(a[0]).push('i')
            };
            assert(write_step(p.0) == (head, 1int));
            assert(p.0.skip(1) =~= seq![v] + q);
            assert(write_step(seq![v] + q) == (naive_letters(v), 1int));
            assert((seq![v] + q).skip(1) =~= q);
            assert(write_official(seq![v] + q) == naive_letters(v) + write_official(q));
            assert(write_official(p.0) == head + (naive_letters(v) + write_official(q)));
            assert(head + naive_letters(v) =~= softened_piece_letters(a));
        }
        assert(w.take(k) + r =~= w);
    }
}

/// A plain word that starts with `w`, `k`, `m` or `g`, an iotating `i` and
/// its vowel is read whole and written back as itself.
#[verifier::rlimit(100)]
proof fn lemma_iotated_round_trip(w: Seq<char>)
    requires
        plain_word(w),
        iotated_start(w),
    ensures
        parse_word_spec(w).1 == w.len(),
        plain_sounds(parse_word_spec(w).0),
        write_official(parse_word_spec(w).0) == w,
        parse_word_spec(w).0.len() > 0 && parse_word_spec(w).0[0] == (letter_step(w)->0).0[0],
    decreases w.len(), 0int,
{
    lemma_plain_letters(w, 6);
    let p = parse_word_spec(w);
    lemma_letter_step_bounds(w);
    let x = letter_sound(w[0])->0;
    let v = iotated_vowel(w[2])->0;
    assert(letter_step(w) == Some((seq![x], 1int)));
    let w1 = w.skip(1);
    assert(w1[0] == 'i' && w1[1] == w[2]);
    assert(letter_step(w1) == Some((seq![Sound::J, v], 2int)));
    let r = w.skip(3);
    assert(w1.skip(2) =~= r);
    lemma_plain_word_tail(w, 3);
    lemma_official_round_trip(r);
    let q = parse_word_spec(r).0;
    assert(parse_word_spec(w1).0 == seq![Sound::J, v] + q);
    assert(p.0 == seq![x] + (seq![Sound::J, v] + q));
    let a = seq![x, Sound::J, v];
    assert(p.0 =~= a + q);
    if r.len() > 0 {
        assert(r[0] == w[3]);
        if r.len() > 1 {
            assert(r[1] == w[4]);
        }
        if r.len() > 2 {
            assert(r[2] == w[5]);
        }
        lemma_letter_step_bounds(r);
        assert(!merging_pair(v, q[0]));
    }
    assert(apart_at(a, 0) && apart_at(a, 1));
    lemma_plain_sounds_join(a, q);
    assert(write_step(p.0) == (naive_letters(x).push('i'), 2int));
    assert(p.0.skip(2) =~= seq![v] + q);
    assert(write_step(seq![v] + q) == (naive_letters(v), 1int));
    assert((seq![v] + q).skip(1) =~= q);
    assert(write_official(seq![v] + q) == naive_letters(v) + write_official(q));
    assert(write_official(p.0) == naive_letters(x).push('i') + (naive_letters(v) + write_official(
        q,
    )));
    assert(naive_letters(x).push('i') + naive_letters(v) =~= w.take(3));
    assert(w.take(3) + r =~= w);
}

/// Round trip: a lowercase word whose every position is plain is read whole
/// as one word, and its Greek text, read back and written again in Polish
/// orthography, is the word itself.
pub proof fn law_round_trip(w: Seq<char>)
    requires
        plain_word(w),
    ensures
        parse_word_spec(w).1 == w.len(),
        write_official(parse_greek(glyphs_of(glyph_text(render_greek(parse_word_spec(w).0)))))
            == w,
{
    lemma_official_round_trip(w);
    let g = render_greek(parse_word_spec(w).0);
    assert(glyphs_of(glyph_text(g)) =~= g);
    lemma_greek_round_trip(parse_word_spec(w).0);
}

} // verus!

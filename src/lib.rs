//! Transliteration between Polish orthography and a Greek-alphabet phonetic
//! rendering of Polish, in both directions.
use vstd::prelude::*;

pub mod sound;
pub mod chars;
pub mod greek;
pub mod official;
pub mod casing;
pub mod segment;
pub mod laws;

pub use casing::CapitalisationMode;
pub use greek::{Greek, GreekText};
pub use official::Text;
pub use sound::Sound;

use casing::{apply_spec, detect_spec};
use chars::{from_chars, to_chars};
use greek::{glyph_text, greek_segments, read_segments, render_greek, to_greek, utf8_greek_to_text};
use official::{official_segments, parse, to_official_utf8, write_official};
use segment::{joined, lemma_joined_push, Segment};

verus! {

/// The Greek text of a span: a literal stays as it is, a word is rendered
/// and cased as it was written.
pub open spec fn greek_of_segment(s: Segment<Sound>) -> Seq<char> {
    match s {
        Segment::Literal(l) => l,
        Segment::Word(src, snds) => apply_spec(detect_spec(src), glyph_text(render_greek(snds))),
    }
}

pub open spec fn greek_texts(ss: Seq<Segment<Sound>>) -> Seq<Seq<char>> {
    ss.map_values(|s: Segment<Sound>| greek_of_segment(s))
}

/// The Polish text of a span: a literal stays as it is, a word is written
/// and cased as it was written.
pub open spec fn official_of_segment(s: Segment<Sound>) -> Seq<char> {
    match s {
        Segment::Literal(l) => l,
        Segment::Word(src, snds) => apply_spec(detect_spec(src), write_official(snds)),
    }
}

pub open spec fn official_texts(ss: Seq<Segment<Sound>>) -> Seq<Seq<char>> {
    ss.map_values(|s: Segment<Sound>| official_of_segment(s))
}

pub open spec fn official_to_greek_spec(t: Seq<char>) -> Seq<char> {
    joined(greek_texts(official_segments(t)))
}

pub open spec fn greek_to_official_spec(t: Seq<char>) -> Seq<char> {
    joined(official_texts(read_segments(greek_segments(t))))
}

/// Polish orthography to its Greek rendering; what is not a word passes
/// through unchanged, and each word keeps its casing.
pub fn official_to_greek(input: &str) -> (r: String)
    ensures
        r@ == official_to_greek_spec(input@),
{
    let text = parse(input);
    let ghost segs = official_segments(input@);
    let mut out: Vec<char> = Vec::new();
    let n = text.parts.len();
    for k in 0..n
        invariant
            n == text.parts@.len(),
            official::parts_match(text.parts@, segs),
            out@ == joined(greek_texts(segs.take(k as int))),
    {
        let part = &text.parts[k];
        assert(official::part_matches(text.parts@[k as int], segs[k as int]));
        let mut piece = match part {
            official::TextRepr::Word(sounds, capitalisation_mode) => {
                let lowercase_result = to_greek(sounds);
                let cased = capitalisation_mode.apply(lowercase_result.as_str());
                to_chars(cased.as_str())
            },
            official::TextRepr::Arbitrary(text) => to_chars(text.as_str()),
        };
        proof {
            assert(greek_texts(segs.take(k + 1)) =~= greek_texts(segs.take(k as int)).push(
                greek_of_segment(segs[k as int]),
            ));
            lemma_joined_push(greek_texts(segs.take(k as int)), greek_of_segment(segs[k as int]));
        }
        out.append(&mut piece);
    }
    assert(segs.take(n as int) =~= segs);
    from_chars(out.as_slice())
}

/// Greek rendering back to Polish orthography; what is not a word passes
/// through unchanged, and each word keeps its casing.
pub fn greek_to_official(input: &str) -> (r: String)
    ensures
        r@ == greek_to_official_spec(input@),
{
    let text = utf8_greek_to_text(input);
    let ghost segs = read_segments(greek_segments(input@));
    let mut out: Vec<char> = Vec::new();
    let n = text.parts.len();
    for k in 0..n
        invariant
            n == text.parts@.len(),
            official::parts_match(text.parts@, segs),
            out@ == joined(official_texts(segs.take(k as int))),
    {
        let part = &text.parts[k];
        assert(official::part_matches(text.parts@[k as int], segs[k as int]));
        let mut piece = match part {
            official::TextRepr::Word(sounds, capitalisation_mode) => {
                let lowercase_result = to_official_utf8(sounds.as_slice());
                let cased = capitalisation_mode.apply(lowercase_result.as_str());
                to_chars(cased.as_str())
            },
            official::TextRepr::Arbitrary(text) => to_chars(text.as_str()),
        };
        proof {
            assert(official_texts(segs.take(k + 1)) =~= official_texts(segs.take(k as int)).push(
                official_of_segment(segs[k as int]),
            ));
            lemma_joined_push(official_texts(segs.take(k as int)), official_of_segment(segs[k as int]));
        }
        out.append(&mut piece);
    }
    assert(segs.take(n as int) =~= segs);
    from_chars(out.as_slice())
}

} // verus!

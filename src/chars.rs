//! Conversions between strings and character vectors, and the case mappings
//! of the standard library that the segmenters rely on.
use vstd::prelude::*;

verus! {

/// What `char::to_lowercase` yields for a character.
pub uninterp spec fn lower_of(c: char) -> Seq<char>;

/// What `char::to_uppercase` yields for a character.
pub uninterp spec fn upper_of(c: char) -> Seq<char>;

/// Whether a character has the Unicode `Uppercase` property.
pub uninterp spec fn is_upper(c: char) -> bool;

/// Relies on `char::to_lowercase`: the characters of the lowercase mapping of `c`.
#[verifier::external_body]
fn lowercase_of(c: char) -> (r: Vec<char>)
    ensures
        r@ == lower_of(c),
{
    c.to_lowercase().collect()
}

/// Relies on `char::to_uppercase`: the characters of the uppercase mapping of `c`.
#[verifier::external_body]
pub(crate) fn uppercase_of(c: char) -> (r: Vec<char>)
    ensures
        r@ == upper_of(c),
{
    c.to_uppercase().collect()
}

/// Relies on `char::is_uppercase`: whether `c` has the Unicode `Uppercase`
/// property.
#[verifier::external_body]
pub(crate) fn is_uppercase(c: char) -> (r: bool)
    ensures
        r == is_upper(c),
{
    c.is_uppercase()
}

/// Relies on `String::push`: appends one character.
#[verifier::external_body]
fn push_char(s: &mut String, c: char)
    ensures
        final(s)@ == old(s)@.push(c),
{
    s.push(c)
}

/// A character folded to lowercase, where its lowercase form is a single
/// character; any other character stands for itself.
pub open spec fn fold(c: char) -> char {
    if lower_of(c).len() == 1 {
        lower_of(c)[0]
    } else {
        c
    }
}

pub open spec fn fold_seq(s: Seq<char>) -> Seq<char> {
    s.map_values(|c: char| fold(c))
}

pub fn fold_char(c: char) -> (r: char)
    ensures
        r == fold(c),
{
    let l = lowercase_of(c);
    if l.len() == 1 {
        l[0]
    } else {
        c
    }
}

pub fn fold_chars(s: &[char]) -> (r: Vec<char>)
    ensures
        r@ == fold_seq(s@),
{
    let mut r: Vec<char> = Vec::new();
    let mut i: usize = 0;
    while i < s.len()
        invariant
            i <= s@.len(),
            r@ == fold_seq(s@.take(i as int)),
        decreases s@.len() - i,
    {
        let c = fold_char(s[i]);
        r.push(c);
        i += 1;
        assert(s@.take(i as int) == s@.take(i - 1).push(s@[i - 1]));
        assert(r@ =~= fold_seq(s@.take(i as int)));
    }
    assert(s@.take(s@.len() as int) == s@);
    r
}

/// The characters of a string slice.
pub fn to_chars(s: &str) -> (r: Vec<char>)
    ensures
        r@ == s@,
{
    let mut r: Vec<char> = Vec::new();
    for c in it: s.chars()
        invariant
            r@ == it.seq().take(it.index() as int),
    {
        r.push(c);
    }
    r
}

/// A string made of the given characters.
pub fn from_chars(s: &[char]) -> (r: String)
    ensures
        r@ == s@,
{
    let mut r = String::new();
    let mut i: usize = 0;
    while i < s.len()
        invariant
            i <= s@.len(),
            r@ == s@.take(i as int),
        decreases s@.len() - i,
    {
        push_char(&mut r, s[i]);
        i += 1;
        assert(r@ =~= s@.take(i as int));
    }
    assert(s@.take(s@.len() as int) == s@);
    r
}

} // verus!

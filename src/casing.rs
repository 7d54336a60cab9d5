//! Per-word casing: detected from a word's characters as written and applied
//! again to its lowercase rendering.
use vstd::prelude::*;

use crate::chars::{is_upper, is_uppercase, to_chars, from_chars, upper_of, uppercase_of};

verus! {

/// How a word was cased.
#[derive(PartialEq, Eq, Debug, Clone, Copy, Structural)]
pub enum CapitalisationMode {
    Lowercase,
    Uppercase,
    Titlecase,
}

/// The casing of a word: all characters uppercase, else the first one
/// uppercase, else lowercase.
pub open spec fn detect_spec(s: Seq<char>) -> CapitalisationMode {
    if s.len() == 0 {
        CapitalisationMode::Lowercase
    } else if forall|i: int| 0 <= i < s.len() ==> is_upper(#[trigger] s[i]) {
        CapitalisationMode::Uppercase
    } else if is_upper(s[0]) {
        CapitalisationMode::Titlecase
    } else {
        CapitalisationMode::Lowercase
    }
}

/// The uppercase mapping of every character of `s`, in order.
pub open spec fn upper_text(s: Seq<char>) -> Seq<char>
    decreases s.len(),
{
    if s.len() == 0 {
        seq![]
    } else {
        upper_text(s.drop_last()) + upper_of(s.last())
    }
}

/// A lowercase rendering with a casing applied to it.
pub open spec fn apply_spec(mode: CapitalisationMode, s: Seq<char>) -> Seq<char> {
    match mode {
        CapitalisationMode::Lowercase => s,
        CapitalisationMode::Uppercase => upper_text(s),
        CapitalisationMode::Titlecase => if s.len() == 0 {
            s
        } else {
            upper_of(s[0]) + s.drop_first()
        },
    }
}

fn uppercase_all(s: &[char]) -> (r: Vec<char>)
    ensures
        r@ == upper_text(s@),
{
    let mut r: Vec<char> = Vec::new();
    let mut i: usize = 0;
    while i < s.len()
        invariant
            i <= s@.len(),
            r@ == upper_text(s@.take(i as int)),
        decreases s@.len() - i,
    {
        let mut u = uppercase_of(s[i]);
        r.append(&mut u);
        i += 1;
        assert(s@.take(i as int).drop_last() =~= s@.take(i - 1));
    }
    assert(s@.take(s@.len() as int) =~= s@);
    r
}

impl CapitalisationMode {
    /// Applies the casing to a lowercase rendering.
    pub fn apply(self, lowercase_input: &str) -> (r: String)
        ensures
            r@ == apply_spec(self, lowercase_input@),
    {
        let chars = to_chars(lowercase_input);
        match self {
            CapitalisationMode::Lowercase => from_chars(chars.as_slice()),
            CapitalisationMode::Uppercase => from_chars(uppercase_all(chars.as_slice()).as_slice()),
            CapitalisationMode::Titlecase => {
                if chars.len() == 0 {
                    return String::new();
                }
                let mut out = uppercase_of(chars[0]);
                let mut i: usize = 1;
                while i < chars.len()
                    invariant
                        1 <= i <= chars@.len(),
                        out@ == upper_of(chars@[0]) + chars@.subrange(1, i as int),
                    decreases chars@.len() - i,
                {
                    out.push(chars[i]);
                    i += 1;
                    assert(out@ =~= upper_of(chars@[0]) + chars@.subrange(1, i as int));
                }
                assert(chars@.subrange(1, chars@.len() as int) =~= chars@.drop_first());
                from_chars(out.as_slice())
            },
        }
    }

    /// The casing of a word, from its characters as written.
    pub fn detect(input: &[char]) -> (r: Self)
        ensures
            r == detect_spec(input@),
    {
        if input.len() == 0 {
            return CapitalisationMode::Lowercase;
        }
        let mut all_upper = true;
        let mut i: usize = 0;
        while i < input.len()
            invariant
                i <= input@.len(),
                all_upper <==> forall|j: int| 0 <= j < i ==> is_upper(#[trigger] input@[j]),
            decreases input@.len() - i,
        {
            if !is_uppercase(input[i]) {
                all_upper = false;
            }
            i += 1;
        }
        if all_upper {
            return CapitalisationMode::Uppercase;
        }
        if is_uppercase(input[0]) {
            return CapitalisationMode::Titlecase;
        }
        CapitalisationMode::Lowercase
    }
}

} // verus!

//! The segmentation of text into literal spans and word spans, as a model
//! over the characters of the input as written.
use vstd::prelude::*;

verus! {

/// A span of the input: a literal run, copied as it stands, or a word with
/// its characters as written and what the word was read as.
pub enum Segment<T> {
    Literal(Seq<char>),
    Word(Seq<char>, Seq<T>),
}

impl<T> Segment<T> {
    /// The span's characters as written.
    pub open spec fn source(self) -> Seq<char> {
        match self {
            Segment::Literal(l) => l,
            Segment::Word(src, _) => src,
        }
    }
}

/// The spans' texts joined in order.
pub open spec fn joined(ss: Seq<Seq<char>>) -> Seq<char>
    decreases ss.len(),
{
    if ss.len() == 0 {
        seq![]
    } else {
        ss[0] + joined(ss.drop_first())
    }
}

pub proof fn lemma_joined_push(ss: Seq<Seq<char>>, x: Seq<char>)
    ensures
        joined(ss.push(x)) == joined(ss) + x,
    decreases ss.len(),
{
    if ss.len() == 0 {
        let e = Seq::<Seq<char>>::empty();
        assert(ss.push(x).drop_first() =~= e);
        assert(joined(e) == Seq::<char>::empty());
        assert(ss.push(x)[0] == x);
        assert(joined(ss.push(x)) =~= x);
    } else {
        assert(ss.push(x).drop_first() =~= ss.drop_first().push(x));
        lemma_joined_push(ss.drop_first(), x);
        assert(joined(ss.push(x)) =~= joined(ss) + x);
    }
}

pub proof fn lemma_joined_prepend(x: Seq<char>, ss: Seq<Seq<char>>)
    ensures
        joined(seq![x] + ss) == x + joined(ss),
{
    assert((seq![x] + ss).drop_first() =~= ss);
}

} // verus!

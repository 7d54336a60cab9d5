//! The phoneme alphabet shared by all four transducers.
use vstd::prelude::*;

verus! {

/// One Polish sound unit.
#[derive(Copy, Clone, PartialEq, Eq, Debug, Structural)]
pub enum Sound {
    A,
    B,
    C,
    Ch,
    D,
    Dx,
    Dz,
    Dh,
    E,
    Ex,
    F,
    G,
    H,
    I,
    J,
    K,
    L,
    Lx,
    M,
    N,
    Nx,
    O,
    Ox,
    Ou,
    P,
    R,
    Rx,
    S,
    Sx,
    Sh,
    T,
    Tx,
    U,
    W,
    Y,
    Z,
    Zx,
    Zh,
}

impl Sound {
    /// The sounds that carry softening: ć, ś, ź, ń, the soft l, r and d, and i.
    pub open spec fn softened(self) -> bool {
        match self {
            Sound::I | Sound::Sx | Sound::Zx | Sound::L | Sound::Nx | Sound::Tx | Sound::Rx
            | Sound::Dx => true,
            _ => false,
        }
    }

    pub open spec fn vowel(self) -> bool {
        match self {
            Sound::A | Sound::E | Sound::Ex | Sound::I | Sound::Y | Sound::O | Sound::Ox
            | Sound::U | Sound::Ou => true,
            _ => false,
        }
    }

    pub fn is_softened(self) -> (r: bool)
        ensures
            r == self.softened(),
    {
        match self {
            Sound::I | Sound::Sx | Sound::Zx | Sound::L | Sound::Nx | Sound::Tx | Sound::Rx
            | Sound::Dx => true,
            _ => false,
        }
    }

    pub fn is_vowel(self) -> (r: bool)
        ensures
            r == self.vowel(),
    {
        match self {
            Sound::A | Sound::E | Sound::Ex | Sound::I | Sound::Y | Sound::O | Sound::Ox
            | Sound::U | Sound::Ou => true,
            _ => false,
        }
    }
}

} // verus!

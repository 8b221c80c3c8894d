//! The two-finger transistor tile: its parameters and the nets on its ports.

use vstd::prelude::*;

verus! {

/// The polarity of the transistors of a tile.
#[derive(Clone, Copy, Debug, Hash, PartialEq, Eq, Structural)]
pub enum MosTileKind {
    Pmos,
    Nmos,
}

/// The channel lengths that a tile can be drawn with.
#[derive(Clone, Copy, Debug, Hash, PartialEq, Eq, Structural)]
pub enum MosLength {
    /// 150 nm.
    L150,
}

impl MosLength {
    /// The channel length in nanometres.
    pub open spec fn spec_nm(&self) -> int {
        match self {
            MosLength::L150 => 150,
        }
    }

    pub fn nm(&self) -> (n: i64)
        ensures
            n == self.spec_nm(),
    {
        match self {
            MosLength::L150 => 150,
        }
    }
}

/// The number of gate fingers of a two-finger tile.
pub const FINGERS: i64 = 2;

/// The parameters of a tile of two transistor fingers that share the middle
/// diffusion: channel width, channel length and polarity.
#[derive(Clone, Copy, Debug, Hash, PartialEq, Eq, Structural)]
pub struct TwoFingerMosTile {
    pub w: i64,
    pub l: MosLength,
    pub kind: MosTileKind,
}

impl TwoFingerMosTile {
    pub fn new(w: i64, l: MosLength, kind: MosTileKind) -> (t: Self)
        ensures
            t == (TwoFingerMosTile { w, l, kind }),
    {
        Self { w, l, kind }
    }

    /// The p-channel tile of the given channel width and length.
    pub fn pmos(w: i64, l: MosLength) -> (t: Self)
        ensures
            t == (TwoFingerMosTile { w, l, kind: MosTileKind::Pmos }),
    {
        Self::new(w, l, MosTileKind::Pmos)
    }

    /// The n-channel tile of the given channel width and length.
    pub fn nmos(w: i64, l: MosLength) -> (t: Self)
        ensures
            t == (TwoFingerMosTile { w, l, kind: MosTileKind::Nmos }),
    {
        Self::new(w, l, MosTileKind::Nmos)
    }
}

/// The nets of the comparator: those of its ports, and the three that stay
/// inside it.
#[derive(Clone, Copy, Debug, Hash, PartialEq, Eq, Structural)]
pub enum Net {
    Clock,
    InputP,
    InputN,
    OutputP,
    OutputN,
    Vdd,
    Vss,
    /// The common source of the input pair.
    Tail,
    /// The drain of the input transistor on the positive input.
    Intn,
    /// The drain of the input transistor on the negative input.
    Intp,
}

/// The net on each port of a two-finger tile: the three diffusions from left
/// to right, its gate and its body.
#[derive(Clone, Copy, Debug, PartialEq, Eq, Structural)]
pub struct TwoFingerMosTileIo {
    pub sd0: Net,
    pub sd1: Net,
    pub sd2: Net,
    pub g: Net,
    pub b: Net,
}

impl TwoFingerMosTileIo {
    /// The nets of a tile used as one transistor with drain `d`, gate `g`,
    /// source `s` and body `b`: the drain is the middle diffusion, and the
    /// source is both outer diffusions.
    pub fn dgsb(d: Net, g: Net, s: Net, b: Net) -> (io: Self)
        ensures
            io == (TwoFingerMosTileIo { sd0: s, sd1: d, sd2: s, g, b }),
    {
        TwoFingerMosTileIo { sd0: s, sd1: d, sd2: s, g, b }
    }
}

} // verus!

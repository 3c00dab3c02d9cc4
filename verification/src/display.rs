//! Graphics.
use vstd::prelude::*;

pub mod tiled;
pub mod tiled0;
pub mod utils;
pub mod window;

verus! {

/// The order in which backgrounds and objects are drawn: `P0` on top.
#[derive(Clone, Copy, Debug, PartialEq, Eq, Structural)]
pub enum Priority {
    /// Drawn above the others.
    P0,
    /// Drawn below `P0`.
    P1,
    /// Drawn below `P1`.
    P2,
    /// Drawn below the others.
    P3,
}

impl Priority {
    /// The two bits that stand for the priority in a control register.
    pub open spec fn bits_spec(self) -> u16 {
        match self {
            Priority::P0 => 0,
            Priority::P1 => 1,
            Priority::P2 => 2,
            Priority::P3 => 3,
        }
    }

    /// The two bits that stand for the priority in a control register.
    pub fn bits(self) -> (r: u16)
        ensures
            r == self.bits_spec(),
    {
        match self {
            Priority::P0 => 0,
            Priority::P1 => 1,
            Priority::P2 => 2,
            Priority::P3 => 3,
        }
    }
}

/// Sixteen colours, one palette of a four bit per pixel tile.
#[derive(Clone, Copy, Debug)]
pub struct Palette16 {
    /// The colours, in the console's fifteen bit format.
    pub colours: [u16; 16],
}

} // verus!

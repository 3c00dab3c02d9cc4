//! Sound.
pub mod dmg;
pub mod mixer;

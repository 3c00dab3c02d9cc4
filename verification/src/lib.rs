pub mod bits;
pub mod number;
pub mod input;
pub mod executor;
pub mod display;
pub mod sound;
pub mod rng;
pub mod save;
pub mod memory_mapped;
pub mod mgba;
pub mod interrupt;
pub mod dma;
pub mod hash_map;
pub mod rc;

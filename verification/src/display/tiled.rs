//! Tiled backgrounds: which background, and how one tile is drawn.
use vstd::prelude::*;

pub mod background_size;
pub mod infinite_scrolled_map;
pub mod vram_manager;

verus! {

/// Names one of the four backgrounds.
#[derive(Clone, Copy, Debug, PartialEq, Eq, Structural)]
pub struct BackgroundId(pub u8);

/// The tile index that stands for a transparent tile.
pub const TRANSPARENT_TILE_INDEX: u16 = 0xffff;

/// Which tile to draw and how: flipped horizontally or vertically, and with
/// which palette.
#[derive(Clone, Copy, Debug, PartialEq, Eq, Structural)]
pub struct TileSetting {
    tile_id: u16,
    effect_bits: u16,
}

/// The bit of a flag: `1 << shift` when set, 0 otherwise.
pub open spec fn flag_bits(flag: bool, shift: u16) -> u16 {
    if flag {
        1u16 << shift
    } else {
        0
    }
}

impl TileSetting {
    /// The index of the tile drawn.
    pub closed spec fn tile_id_spec(self) -> u16 {
        self.tile_id
    }

    /// The flip and palette bits of a screen entry.
    pub closed spec fn effect_bits_spec(self) -> u16 {
        self.effect_bits
    }

    /// The setting that draws nothing.
    pub fn blank() -> (r: Self)
        ensures
            r.tile_id_spec() == TRANSPARENT_TILE_INDEX,
            r.effect_bits_spec() == 0,
    {
        let r = Self::new(TRANSPARENT_TILE_INDEX, false, false, 0);
        proof {
            crate::bits::lemma_u16_constants();
        }
        r
    }

    /// Draws tile `tile_id`, flipped as asked, with palette `palette_id`.
    pub fn new(tile_id: u16, hflip: bool, vflip: bool, palette_id: u8) -> (r: Self)
        ensures
            r.tile_id_spec() == tile_id,
            r.effect_bits_spec() == (flag_bits(hflip, 10) | flag_bits(vflip, 11) | ((
            palette_id as u16) << 12u16)),
    {
        let h: u16 = if hflip {
            1
        } else {
            0
        };
        let v: u16 = if vflip {
            1
        } else {
            0
        };
        proof {
            crate::bits::lemma_u16_constants();
        }
        TileSetting { tile_id, effect_bits: (h << 10u16) | (v << 11u16) | ((palette_id as u16) << 12u16) }
    }

    /// Toggles the horizontal flip when `should_flip` is set.
    pub fn hflip(self, should_flip: bool) -> (r: Self)
        ensures
            r.tile_id_spec() == self.tile_id_spec(),
            r.effect_bits_spec() == self.effect_bits_spec() ^ flag_bits(should_flip, 10),
    {
        let f: u16 = if should_flip {
            1
        } else {
            0
        };
        proof {
            crate::bits::lemma_u16_constants();
        }
        TileSetting { effect_bits: self.effect_bits ^ (f << 10u16), ..self }
    }

    /// Toggles the vertical flip when `should_flip` is set.
    pub fn vflip(self, should_flip: bool) -> (r: Self)
        ensures
            r.tile_id_spec() == self.tile_id_spec(),
            r.effect_bits_spec() == self.effect_bits_spec() ^ flag_bits(should_flip, 11),
    {
        let f: u16 = if should_flip {
            1
        } else {
            0
        };
        proof {
            crate::bits::lemma_u16_constants();
        }
        TileSetting { effect_bits: self.effect_bits ^ (f << 11u16), ..self }
    }

    /// Toggles the palette bits by `palette_id`, which selects palette
    /// `palette_id` when applied to a setting with palette 0.
    pub fn palette(self, palette_id: u8) -> (r: Self)
        ensures
            r.tile_id_spec() == self.tile_id_spec(),
            r.effect_bits_spec() == self.effect_bits_spec() ^ ((palette_id as u16) << 12u16),
    {
        TileSetting { effect_bits: self.effect_bits ^ ((palette_id as u16) << 12u16), ..self }
    }

    /// The index of the tile drawn.
    pub fn index(self) -> (r: u16)
        ensures
            r == self.tile_id_spec(),
    {
        self.tile_id
    }

    /// The flip and palette bits.
    pub fn setting(self) -> (r: u16)
        ensures
            r == self.effect_bits_spec(),
    {
        self.effect_bits
    }
}

/// Flipping twice gives back the setting flipped: `hflip` and `vflip` undo
/// themselves.
pub proof fn lemma_flip_twice(t: TileSetting, b: bool)
    ensures
        (t.effect_bits_spec() ^ flag_bits(b, 10)) ^ flag_bits(b, 10) == t.effect_bits_spec(),
        (t.effect_bits_spec() ^ flag_bits(b, 11)) ^ flag_bits(b, 11) == t.effect_bits_spec(),
{
    let e = t.effect_bits_spec();
    let x = flag_bits(b, 10);
    let y = flag_bits(b, 11);
    assert((e ^ x) ^ x == e && (e ^ y) ^ y == e) by (bit_vector);
}

/// A setting made with a palette below 16 and no flips reads back its flags
/// and palette from the screen entry bits.
pub proof fn lemma_new_fields(hflip: bool, vflip: bool, palette_id: u8)
    requires
        palette_id < 16,
    ensures
        ({
            let bits = flag_bits(hflip, 10) | flag_bits(vflip, 11) | ((palette_id as u16) << 12u16);
            &&& (bits & (1u16 << 10u16) != 0) == hflip
            &&& (bits & (1u16 << 11u16) != 0) == vflip
            &&& bits >> 12u16 == palette_id as u16
        }),
{
    let h = flag_bits(hflip, 10);
    let v = flag_bits(vflip, 11);
    let p = palette_id as u16;
    assert(((h | v | (p << 12u16)) & (1u16 << 10u16) != 0) == (h != 0) && ((h | v | (p << 12u16))
        & (1u16 << 11u16) != 0) == (v != 0) && (h | v | (p << 12u16)) >> 12u16 == p) by (bit_vector)
        requires
            h == 0 || h == 1u16 << 10u16,
            v == 0 || v == 1u16 << 11u16,
            p < 16,
    ;
    crate::bits::lemma_u16_constants();
}

} // verus!

//! The sizes of regular and affine backgrounds, where a tile position lands
//! in a background's screenblocks, and the control register value that
//! shows a background.
use vstd::prelude::*;

use super::vram_manager::TileFormat;
use crate::display::Priority;
use crate::number::{i32_rem, lemma_rem_trunc_euclid, Vector2D};

verus! {

/// How many tiles across and down a regular background is before it wraps.
#[derive(Clone, Copy, Debug, PartialEq, Eq, Structural)]
pub enum RegularBackgroundSize {
    /// 32x32 tiles (256x256 pixels)
    Background32x32,
    /// 64x32 tiles (512x256 pixels)
    Background64x32,
    /// 32x64 tiles (256x512 pixels)
    Background32x64,
    /// 64x64 tiles (512x512 pixels)
    Background64x64,
}

/// How many tiles across and down an affine background is.
#[derive(Clone, Copy, Debug, PartialEq, Eq, Structural)]
pub enum AffineBackgroundSize {
    /// 16x16 tiles or 128x128px
    Background16x16,
    /// 32x32 tiles or 256x256px
    Background32x32,
    /// 64x64 tiles or 512x512px
    Background64x64,
    /// 128x128 tiles or 1024x1024px
    Background128x128,
}

/// Whether an affine background wraps at its edges.
#[derive(Clone, Copy, Debug, PartialEq, Eq, Structural)]
pub enum AffineBackgroundWrapBehaviour {
    /// Don't wrap and instead show the default background colour.
    NoWrap,
    /// Wrap at the edges similar to the behaviour for regular backgrounds.
    Wrap,
}

/// The index of a tile at `(x, y)` in a regular background `w` tiles
/// across and `h` down: the position wraps into the background, which is
/// laid out as 32x32 screenblocks in rows, each of them row by row.
pub open spec fn regular_offset(w: int, h: int, x: int, y: int) -> int {
    let xm = x % w;
    let ym = y % h;
    ((xm / 32) + (ym / 32) * (w / 32)) * 1024 + (xm % 32 + 32 * (ym % 32))
}

/// The index of a tile at `(x, y)` in an affine background `w` tiles
/// square: the position wraps into the background, laid out row by row.
pub open spec fn affine_offset(w: int, x: int, y: int) -> int {
    x % w + w * (y % w)
}

/// `a` wrapped into `0 .. n`, with `n` one of the background widths.
fn wrap_into(a: i32, n: i32) -> (r: i32)
    requires
        0 < n <= 128,
    ensures
        r == a as int % n as int,
        0 <= r < n,
{
    proof {
        lemma_rem_trunc_euclid(a as int, n as int);
    }
    let r = i32_rem(a, n);
    if r < 0 {
        r + n
    } else {
        r
    }
}

/// The index `regular_offset` gives lies inside the background.
proof fn lemma_regular_offset_bound(w: int, h: int, xm: int, ym: int)
    requires
        w == 32 || w == 64,
        h == 32 || h == 64,
        0 <= xm < w,
        0 <= ym < h,
    ensures
        xm / 32 <= 1,
        ym / 32 <= 1,
        w / 32 <= 2,
        0 <= ((xm / 32) + (ym / 32) * (w / 32)) * 1024 + (xm % 32 + 32 * (ym % 32)) < w * h,
{
    let a = xm / 32;
    let b = ym / 32;
    assert(xm == 32 * a + xm % 32);
    assert(ym == 32 * b + ym % 32);
    if w == 32 {
        assert(a == 0);
        if h == 32 {
            assert(b == 0);
        }
    } else {
        if h == 32 {
            assert(b == 0);
        }
    }
}

impl RegularBackgroundSize {
    /// The width in tiles.
    pub open spec fn width_spec(self) -> int {
        match self {
            RegularBackgroundSize::Background32x32 => 32,
            RegularBackgroundSize::Background64x32 => 64,
            RegularBackgroundSize::Background32x64 => 32,
            RegularBackgroundSize::Background64x64 => 64,
        }
    }

    /// The height in tiles.
    pub open spec fn height_spec(self) -> int {
        match self {
            RegularBackgroundSize::Background32x32 => 32,
            RegularBackgroundSize::Background64x32 => 32,
            RegularBackgroundSize::Background32x64 => 64,
            RegularBackgroundSize::Background64x64 => 64,
        }
    }

    /// The width in tiles.
    pub fn width(self) -> (r: usize)
        ensures
            r == self.width_spec(),
    {
        match self {
            RegularBackgroundSize::Background32x32 => 32,
            RegularBackgroundSize::Background64x32 => 64,
            RegularBackgroundSize::Background32x64 => 32,
            RegularBackgroundSize::Background64x64 => 64,
        }
    }

    /// The height in tiles.
    pub fn height(self) -> (r: usize)
        ensures
            r == self.height_spec(),
    {
        match self {
            RegularBackgroundSize::Background32x32 => 32,
            RegularBackgroundSize::Background64x32 => 32,
            RegularBackgroundSize::Background32x64 => 64,
            RegularBackgroundSize::Background64x64 => 64,
        }
    }

    /// The number of tiles.
    pub fn num_tiles(self) -> (r: usize)
        ensures
            r == self.width_spec() * self.height_spec(),
    {
        self.width() * self.height()
    }

    /// The two bits that stand for this size in a control register, in the
    /// order of the variants.
    pub open spec fn bits_spec(self) -> u16 {
        match self {
            RegularBackgroundSize::Background32x32 => 0,
            RegularBackgroundSize::Background64x32 => 1,
            RegularBackgroundSize::Background32x64 => 2,
            RegularBackgroundSize::Background64x64 => 3,
        }
    }

    /// The two bits that stand for this size in a control register.
    pub fn bits(self) -> (r: u16)
        ensures
            r == self.bits_spec(),
    {
        match self {
            RegularBackgroundSize::Background32x32 => 0,
            RegularBackgroundSize::Background64x32 => 1,
            RegularBackgroundSize::Background32x64 => 2,
            RegularBackgroundSize::Background64x64 => 3,
        }
    }

    /// Where the tile at `pos` is stored: the position wraps around the
    /// background, and each 32x32 block of tiles is a screenblock of its
    /// own.
    pub fn gba_offset(self, pos: Vector2D<i32>) -> (r: usize)
        ensures
            r == regular_offset(
                self.width_spec(),
                self.height_spec(),
                pos.x as int,
                pos.y as int,
            ),
            r < self.width_spec() * self.height_spec(),
    {
        let w = self.width() as i32;
        let h = self.height() as i32;
        let x_mod = wrap_into(pos.x, w) as u32;
        let y_mod = wrap_into(pos.y, h) as u32;
        proof {
            lemma_regular_offset_bound(w as int, h as int, x_mod as int, y_mod as int);
        }
        let screenblock = (x_mod / 32) + (y_mod / 32) * (w as u32 / 32);
        let r = screenblock * 32 * 32 + (x_mod % 32 + 32 * (y_mod % 32));
        r as usize
    }
}

impl AffineBackgroundSize {
    /// The width, and height, in tiles.
    pub open spec fn width_spec(self) -> int {
        match self {
            AffineBackgroundSize::Background16x16 => 16,
            AffineBackgroundSize::Background32x32 => 32,
            AffineBackgroundSize::Background64x64 => 64,
            AffineBackgroundSize::Background128x128 => 128,
        }
    }

    /// The width, and height, in tiles.
    pub fn width(self) -> (r: usize)
        ensures
            r == self.width_spec(),
    {
        match self {
            AffineBackgroundSize::Background16x16 => 16,
            AffineBackgroundSize::Background32x32 => 32,
            AffineBackgroundSize::Background64x64 => 64,
            AffineBackgroundSize::Background128x128 => 128,
        }
    }

    /// The number of tiles.
    pub fn num_tiles(self) -> (r: usize)
        ensures
            r == self.width_spec() * self.width_spec(),
    {
        self.width() * self.width()
    }

    /// The two bits that stand for this size in a control register, in the
    /// order of the variants.
    pub open spec fn bits_spec(self) -> u16 {
        match self {
            AffineBackgroundSize::Background16x16 => 0,
            AffineBackgroundSize::Background32x32 => 1,
            AffineBackgroundSize::Background64x64 => 2,
            AffineBackgroundSize::Background128x128 => 3,
        }
    }

    /// The two bits that stand for this size in a control register.
    pub fn bits(self) -> (r: u16)
        ensures
            r == self.bits_spec(),
    {
        match self {
            AffineBackgroundSize::Background16x16 => 0,
            AffineBackgroundSize::Background32x32 => 1,
            AffineBackgroundSize::Background64x64 => 2,
            AffineBackgroundSize::Background128x128 => 3,
        }
    }

    /// Where the tile at `pos` is stored: the position wraps around the
    /// background, which is laid out row by row.
    pub fn gba_offset(self, pos: Vector2D<i32>) -> (r: usize)
        ensures
            r == affine_offset(self.width_spec(), pos.x as int, pos.y as int),
            r < self.width_spec() * self.width_spec(),
    {
        let w = self.width() as i32;
        let x_mod = wrap_into(pos.x, w);
        let y_mod = wrap_into(pos.y, w);
        proof {
            assert(w * y_mod <= w * (w - 1)) by (nonlinear_arith)
                requires
                    0 <= y_mod < w,
                    0 < w,
            ;
        }
        let r = x_mod + w * y_mod;
        r as usize
    }
}

/// The bit of the control register that stands for the tile format.
pub open spec fn format_bit(format: TileFormat) -> u16 {
    match format {
        TileFormat::FourBpp => 0,
        TileFormat::EightBpp => 1,
    }
}

/// The bit of the control register that stands for wrapping.
pub open spec fn wrap_bit(wrap: AffineBackgroundWrapBehaviour) -> u16 {
    match wrap {
        AffineBackgroundWrapBehaviour::NoWrap => 0,
        AffineBackgroundWrapBehaviour::Wrap => 1,
    }
}

/// A background control register: the priority in bits 0 and 1, the
/// tile format in bit 7, the screen base block in bits 8 to 12, wrapping
/// in bit 13 and the size in bits 14 and 15.
pub open spec fn control_value(
    priority: u16,
    format: u16,
    screen_base_block: u16,
    wrap: u16,
    size: u16,
) -> int {
    priority + 128 * format + 256 * screen_base_block + 8192 * wrap + 16384 * size
}

/// The control register value that shows a regular background with the
/// given priority, tile format and size, whose tiles start at screen base
/// block `screen_base_block`.
pub fn regular_background_control(
    priority: Priority,
    format: TileFormat,
    screen_base_block: u16,
    size: RegularBackgroundSize,
) -> (r: u16)
    requires
        screen_base_block < 32,
    ensures
        r == control_value(
            priority.bits_spec(),
            format_bit(format),
            screen_base_block,
            0,
            size.bits_spec(),
        ),
{
    let format_bit: u16 = match format {
        TileFormat::FourBpp => 0,
        TileFormat::EightBpp => 1,
    };
    priority.bits() + 128 * format_bit + 256 * screen_base_block + 16384 * size.bits()
}

/// The control register value that shows an affine background with the
/// given priority, size and wrapping, whose tiles start at screen base
/// block `screen_base_block`. The tile format bit is left clear.
pub fn affine_background_control(
    priority: Priority,
    screen_base_block: u16,
    size: AffineBackgroundSize,
    wrap: AffineBackgroundWrapBehaviour,
) -> (r: u16)
    requires
        screen_base_block < 32,
    ensures
        r == control_value(
            priority.bits_spec(),
            0,
            screen_base_block,
            wrap_bit(wrap),
            size.bits_spec(),
        ),
{
    let wrap_bit: u16 = match wrap {
        AffineBackgroundWrapBehaviour::NoWrap => 0,
        AffineBackgroundWrapBehaviour::Wrap => 1,
    };
    priority.bits() + 256 * screen_base_block + 8192 * wrap_bit + 16384 * size.bits()
}

} // verus!

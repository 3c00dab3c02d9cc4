//! Map backgrounds in tiled mode 0: a map larger than the hardware block is
//! copied into the block piece by piece as the background moves.
use vstd::prelude::*;
use crate::display::{Palette16, Priority};
use crate::number::{abs_int, div_trunc, fits_i32, i32_div, i32_rem, max_int, min_int, rem_trunc, Rect, Vector2D};

verus! {

/// How many bits each pixel of a tile takes.
#[derive(Clone, Copy, Debug, PartialEq, Eq, Structural)]
pub enum ColourMode {
    /// Sixteen colours from one of sixteen palettes.
    FourBitPerPixel,
    /// 256 colours from one palette.
    EightBitPerPixel,
}

impl ColourMode {
    /// The bit that stands for the mode in the control register.
    pub open spec fn bits_spec(self) -> u16 {
        match self {
            ColourMode::FourBitPerPixel => 0,
            ColourMode::EightBitPerPixel => 1,
        }
    }

    /// The bit that stands for the mode in the control register.
    pub fn bits(self) -> (r: u16)
        ensures
            r == self.bits_spec(),
    {
        match self {
            ColourMode::FourBitPerPixel => 0,
            ColourMode::EightBitPerPixel => 1,
        }
    }
}

/// The size of a background in tiles.
#[derive(Clone, Copy, Debug, PartialEq, Eq, Structural)]
pub enum BackgroundSize {
    /// 32 by 32 tiles.
    S32x32,
    /// 64 by 32 tiles.
    S64x32,
    /// 32 by 64 tiles.
    S32x64,
    /// 64 by 64 tiles.
    S64x64,
}

impl BackgroundSize {
    /// The two bits that stand for the size in the control register.
    pub open spec fn bits_spec(self) -> u16 {
        match self {
            BackgroundSize::S32x32 => 0,
            BackgroundSize::S64x32 => 1,
            BackgroundSize::S32x64 => 2,
            BackgroundSize::S64x64 => 3,
        }
    }

    /// The two bits that stand for the size in the control register.
    pub fn bits(self) -> (r: u16)
        ensures
            r == self.bits_spec(),
    {
        match self {
            BackgroundSize::S32x32 => 0,
            BackgroundSize::S64x32 => 1,
            BackgroundSize::S32x64 => 2,
            BackgroundSize::S64x64 => 3,
        }
    }
}

/// Where the entries of a map are kept.
pub trait MapStorage {
    /// The entries.
    spec fn tiles(&self) -> Seq<u16>;

    /// The number of entries.
    fn tile_count(&self) -> (r: usize)
        ensures
            r == self.tiles().len(),
    ;

    /// Entry `i`.
    fn tile_at(&self, i: usize) -> (r: u16)
        requires
            i < self.tiles().len(),
        ensures
            r == self.tiles()[i as int],
    ;
}

impl MapStorage for Vec<u16> {
    open spec fn tiles(&self) -> Seq<u16> {
        self@
    }

    fn tile_count(&self) -> (r: usize) {
        self.len()
    }

    fn tile_at(&self, i: usize) -> (r: u16) {
        self[i]
    }
}

/// A map of `dimensions.x` by `dimensions.y` entries, stored row by row, and
/// the entry shown outside it.
pub struct BackgroundMap<S: MapStorage> {
    /// The entries, row by row.
    pub store: S,
    /// Width and height, in tiles.
    pub dimensions: Vector2D<u32>,
    /// The entry shown outside the map.
    pub default: u16,
}

impl<S: MapStorage> BackgroundMap<S> {
    /// Whether `(x, y)` lies inside the map.
    pub open spec fn inside(self, x: int, y: int) -> bool {
        0 <= x < self.dimensions.x && 0 <= y < self.dimensions.y
    }

    /// The entry at `(x, y)`: from the store inside the map, the default
    /// outside.
    pub open spec fn position_spec(self, x: int, y: int) -> u16 {
        if self.inside(x, y) {
            self.store.tiles()[y * self.dimensions.x + x]
        } else {
            self.default
        }
    }

    /// Whether the store holds the entry for `(x, y)` when it is inside.
    pub open spec fn reads_ok(self, x: int, y: int) -> bool {
        self.inside(x, y) ==> y * self.dimensions.x + x < self.store.tiles().len()
    }

    fn get_position(&self, x: i32, y: i32) -> (r: u16)
        requires
            self.reads_ok(x as int, y as int),
        ensures
            r == self.position_spec(x as int, y as int),
    {
        if x < 0 || x as u32 >= self.dimensions.x {
            self.default
        } else if y < 0 || y as u32 >= self.dimensions.y {
            self.default
        } else {
            proof {
                assert(y * self.dimensions.x + x >= 0) by (nonlinear_arith)
                    requires y >= 0, x >= 0, self.dimensions.x >= 0;
            }
            let n = self.store.tile_count();
            proof {
                assert(y * self.dimensions.x <= y * self.dimensions.x + x);
            }
            let index = y as usize * self.dimensions.x as usize + x as usize;
            self.store.tile_at(index)
        }
    }
}

/// The control register `reg` with `length` bits from bit `shift` cleared
/// and `value << shift` put in.
pub open spec fn register_with(reg: u16, value: u16, length: u16, shift: u16) -> u16 {
    (reg & !((((1u16 << length) - 1) as u16) << shift)) | (value << shift)
}

/// The rectangle with the given corner and size, as a value.
pub open spec fn rect_at(px: int, py: int, sx: int, sy: int) -> Rect<i32> {
    Rect {
        position: Vector2D { x: px as i32, y: py as i32 },
        size: Vector2D { x: sx as i32, y: sy as i32 },
    }
}

/// The columns of the block to refresh when the background moved `d` tiles
/// horizontally.
pub open spec fn columns_moved(d: int) -> Rect<i32> {
    if d == 0 {
        rect_at(0, 0, 0, 0)
    } else if d > 0 {
        rect_at(0, 0, d, 0)
    } else {
        rect_at(32 + d, 0, -d, 0)
    }
}

/// The rows of the block to refresh when the background moved `d` tiles
/// vertically.
pub open spec fn rows_moved(d: int) -> Rect<i32> {
    if d == 0 {
        rect_at(0, 0, 0, 0)
    } else if d > 0 {
        rect_at(0, 0, 0, d)
    } else {
        rect_at(0, 32 + d, 0, -d)
    }
}

/// The index of the entry for tile `(x, y)` of block `block`, both wrapped
/// round the 32 by 32 block.
pub open spec fn map_index(block: int, x: int, y: int) -> int {
    (block * 32 + y % 32) * 32 + x % 32
}

/// What a commit writes: the control register, the entries of the map
/// blocks (by index into the 32 blocks of 32 by 32 entries), and the two
/// scroll registers.
pub struct CommitPlan {
    /// The control register.
    pub register: u16,
    /// The entries to write, in order.
    pub writes: Vec<(usize, u16)>,
    /// The horizontal scroll register.
    pub scroll_x: u16,
    /// The vertical scroll register.
    pub scroll_y: u16,
}

/// A map background: draws game maps to the screen, copying the part of the
/// map that shows at the current position into its block.
pub struct Background<S: MapStorage> {
    background: u8,
    block: u8,
    commited_position: Vector2D<i32>,
    shadowed_position: Vector2D<i32>,
    poisoned: bool,
    shadowed_register: u16,
    map: Option<BackgroundMap<S>>,
}

/// Whether the points of `r` can be listed.
pub open spec fn cells_ok(r: Rect<i32>) -> bool {
    (r.size.x >= 0 && r.size.y >= 0) ==> {
        &&& r.position.x + r.size.x < i32::MAX
        &&& r.position.y + r.size.y < i32::MAX
        &&& (r.size.x + 1) * (r.size.y + 1) <= usize::MAX
    }
}

fn rect_cells(r: Rect<i32>) -> (out: Vec<(i32, i32)>)
    requires
        cells_ok(r),
        r.ends_fit(),
    ensures
        out@ == r.cells(),
{
    if r.size.x < 0 || r.size.y < 0 {
        let out: Vec<(i32, i32)> = Vec::new();
        assert(out@ =~= r.cells());
        out
    } else {
        r.iter()
    }
}

impl<S: MapStorage> Background<S> {
    /// Which of the four backgrounds this is.
    pub closed spec fn background_spec(self) -> u8 {
        self.background
    }

    /// The block the map is copied into.
    pub closed spec fn block_spec(self) -> u8 {
        self.block
    }

    /// The position last committed.
    pub closed spec fn committed(self) -> Vector2D<i32> {
        self.commited_position
    }

    /// The position set, to be committed.
    pub closed spec fn shadowed(self) -> Vector2D<i32> {
        self.shadowed_position
    }

    /// Whether the whole area must be copied at the next commit.
    pub closed spec fn poisoned_spec(self) -> bool {
        self.poisoned
    }

    /// The control register, to be written at the next commit.
    pub closed spec fn register(self) -> u16 {
        self.shadowed_register
    }

    /// The map, if one is set.
    pub closed spec fn map_spec(self) -> Option<BackgroundMap<S>> {
        self.map
    }

    fn set_shadowed_register_bits(&mut self, value: u16, length: u16, shift: u16)
        requires
            length < 16,
            shift < 16,
        ensures
            final(self).register() == register_with(old(self).register(), value, length, shift),
            final(self).background_spec() == old(self).background_spec(),
            final(self).block_spec() == old(self).block_spec(),
            final(self).committed() == old(self).committed(),
            final(self).shadowed() == old(self).shadowed(),
            final(self).poisoned_spec() == old(self).poisoned_spec(),
            final(self).map_spec() == old(self).map_spec(),
    {
        proof {
            crate::bits::lemma_low_mask_u16(length);
        }
        let mask = !(((1u16 << length) - 1) << shift);
        self.shadowed_register = (self.shadowed_register & mask) | (value << shift);
    }

    /// Background `background` drawing from block `block`: nothing
    /// committed yet, four bits per pixel, 32 by 32 tiles.
    fn new(background: u8, block: u8) -> (r: Self)
        ensures
            r.background_spec() == background,
            r.block_spec() == block,
            r.committed() == (Vector2D { x: 0i32, y: 0i32 }),
            r.shadowed() == (Vector2D { x: 0i32, y: 0i32 }),
            r.poisoned_spec(),
            r.map_spec() is None,
            r.register() == register_with(
                register_with(register_with(0, block as u16, 5, 8), 0, 1, 7),
                0,
                2,
                14,
            ),
            block < 32 ==> r.register() == (block as u16) << 8u16,
    {
        let mut b = Background {
            background,
            block,
            commited_position: Vector2D { x: 0, y: 0 },
            shadowed_position: Vector2D { x: 0, y: 0 },
            shadowed_register: 0,
            poisoned: true,
            map: None,
        };
        b.set_shadowed_register_bits(block as u16, 5, 8);
        b.set_shadowed_register_bits(ColourMode::FourBitPerPixel.bits(), 1, 7);
        b.set_shadowed_register_bits(BackgroundSize::S32x32.bits(), 2, 14);
        proof {
            let v = block as u16;
            assert(v < 32u16 ==> ((((0u16 & !((((1u16 << 5u16) - 1) as u16) << 8u16)) | (v << 8u16))
                & !((((1u16 << 1u16) - 1) as u16) << 7u16)) | (0u16 << 7u16)) & !((((1u16 << 2u16)
                - 1) as u16) << 14u16) | (0u16 << 14u16) == v << 8u16) by (bit_vector);
        }
        b
    }

    /// The display control register with this background shown; the
    /// background must have a map.
    pub fn show(&mut self, display_control: u16) -> (r: u16)
        requires
            old(self).map_spec() is Some,
            old(self).background_spec() < 8,
        ensures
            r == display_control | (1u16 << (old(self).background_spec() + 8) as u16),
            *final(self) == *old(self),
    {
        display_control | (1u16 << (self.background + 8) as u16)
    }

    /// The display control register with this background hidden.
    pub fn hide_background(&mut self, display_control: u16) -> (r: u16)
        requires
            old(self).background_spec() < 8,
        ensures
            r == display_control & !(1u16 << (old(self).background_spec() + 8) as u16),
            *final(self) == *old(self),
    {
        display_control & !(1u16 << (self.background + 8) as u16)
    }

    /// Sets the priority bits of the control register.
    pub fn set_priority(&mut self, p: Priority)
        ensures
            final(self).register() == register_with(old(self).register(), p.bits_spec(), 2, 0),
            final(self).background_spec() == old(self).background_spec(),
            final(self).block_spec() == old(self).block_spec(),
            final(self).committed() == old(self).committed(),
            final(self).shadowed() == old(self).shadowed(),
            final(self).poisoned_spec() == old(self).poisoned_spec(),
            final(self).map_spec() == old(self).map_spec(),
    {
        self.set_shadowed_register_bits(p.bits(), 2, 0);
    }

    /// Sets the position, to take effect at the next commit.
    pub fn set_position(&mut self, position: Vector2D<i32>)
        ensures
            final(self).shadowed() == position,
            final(self).register() == old(self).register(),
            final(self).background_spec() == old(self).background_spec(),
            final(self).block_spec() == old(self).block_spec(),
            final(self).committed() == old(self).committed(),
            final(self).poisoned_spec() == old(self).poisoned_spec(),
            final(self).map_spec() == old(self).map_spec(),
    {
        self.shadowed_position = position;
    }

    /// The map, for changing; the whole area is copied at the next commit.
    pub fn get_map(&mut self) -> (r: Option<&mut BackgroundMap<S>>)
        ensures
            r is Some <==> old(self).map_spec() is Some,
            r is Some ==> *r->Some_0 == old(self).map_spec()->Some_0 && final(self).map_spec()
                == Some(*final(r->Some_0)),
            r is None ==> final(self).map_spec() is None,
            final(self).poisoned_spec(),
            final(self).register() == old(self).register(),
            final(self).background_spec() == old(self).background_spec(),
            final(self).block_spec() == old(self).block_spec(),
            final(self).committed() == old(self).committed(),
            final(self).shadowed() == old(self).shadowed(),
    {
        self.poisoned = true;
        match &mut self.map {
            Some(m) => Some(m),
            None => None,
        }
    }

    /// Sets the map; the whole area is copied at the next commit.
    pub fn set_map(&mut self, map: BackgroundMap<S>)
        ensures
            final(self).map_spec() == Some(map),
            final(self).poisoned_spec(),
            final(self).register() == old(self).register(),
            final(self).background_spec() == old(self).background_spec(),
            final(self).block_spec() == old(self).block_spec(),
            final(self).committed() == old(self).committed(),
            final(self).shadowed() == old(self).shadowed(),
    {
        self.poisoned = true;
        self.map = Some(map);
    }

    /// How far the background moved since the last commit, in whole tiles.
    pub open spec fn tiles_moved(self) -> (int, int) {
        (
            div_trunc(self.shadowed().x - self.committed().x, 8),
            div_trunc(self.shadowed().y - self.committed().y, 8),
        )
    }

    /// The rectangle of `area` that a commit copies from: all of it after
    /// the map changed, else the rows that came in, then the columns.
    pub open spec fn commit_rects(self, area: Rect<i32>) -> (Rect<i32>, Rect<i32>) {
        if self.poisoned_spec() {
            (area, rect_at(0, 0, 0, 0))
        } else {
            (
                area.overlapping_rect_spec(rows_moved(self.tiles_moved().1)),
                area.overlapping_rect_spec(columns_moved(self.tiles_moved().0)),
            )
        }
    }

    /// The tile positions a commit of `area` copies, in order.
    pub open spec fn commit_positions(self, area: Rect<i32>) -> Seq<(i32, i32)> {
        let (a, b) = self.commit_rects(area);
        a.cells() + b.cells()
    }

    /// The write a commit makes for tile position `p` of the block.
    pub open spec fn write_for(self, map: BackgroundMap<S>, p: (i32, i32)) -> (usize, u16) {
        let tx = div_trunc(self.shadowed().x as int, 8);
        let ty = div_trunc(self.shadowed().y as int, 8);
        (
            map_index(self.block_spec() as int, p.0 as int, p.1 as int) as usize,
            map.position_spec(p.0 + tx, p.1 + ty),
        )
    }

    /// The inputs on which a commit of `area` computes without overflow and
    /// reads only entries the store holds.
    pub open spec fn commit_ok(self, area: Rect<i32>) -> bool {
        let (a, b) = self.commit_rects(area);
        let tx = div_trunc(self.shadowed().x as int, 8);
        let ty = div_trunc(self.shadowed().y as int, 8);
        &&& !self.poisoned_spec() ==> {
            &&& fits_i32(self.shadowed().x - self.committed().x)
            &&& fits_i32(self.shadowed().y - self.committed().y)
        }
        &&& area.ends_fit()
        &&& !self.poisoned_spec() ==> {
            &&& overlap_fits(area, rows_moved(self.tiles_moved().1))
            &&& overlap_fits(area, columns_moved(self.tiles_moved().0))
        }
        &&& cells_ok(a)
        &&& cells_ok(b)
        &&& a.ends_fit()
        &&& b.ends_fit()
        &&& (a.cells().len() + b.cells().len() <= usize::MAX)
        &&& forall|k: int|
            0 <= k < self.commit_positions(area).len() ==> {
                let p = #[trigger] self.commit_positions(area)[k];
                &&& fits_i32(p.0 + tx)
                &&& fits_i32(p.1 + ty)
                &&& (self.map_spec() is Some ==> self.map_spec()->Some_0.reads_ok(p.0 + tx, p.1 + ty))
            }
    }

    /// Copies the part of the map that came into `area` of the block since
    /// the last commit (all of `area`, and the tile at the origin, after the
    /// map changed), and commits the position and the control register.
    /// Returns what to write: the control register, the entries, and the
    /// scroll registers, the committed position wrapped round 256 pixels.
    pub fn commit_area(&mut self, area: Rect<i32>) -> (r: CommitPlan)
        requires
            old(self).commit_ok(area),
            old(self).block_spec() < 32,
        ensures
            r.register == old(self).register(),
            r.writes@ == (match old(self).map_spec() {
                Some(map) => Seq::new(
                    old(self).commit_positions(area).len(),
                    |k: int| old(self).write_for(map, old(self).commit_positions(area)[k]),
                ),
                None => Seq::empty(),
            }),
            r.scroll_x == rem_trunc(old(self).shadowed().x as int, 256) as u16,
            r.scroll_y == rem_trunc(old(self).shadowed().y as int, 256) as u16,
            final(self).committed() == old(self).shadowed(),
            final(self).shadowed() == old(self).shadowed(),
            final(self).register() == old(self).register(),
            final(self).background_spec() == old(self).background_spec(),
            final(self).block_spec() == old(self).block_spec(),
            final(self).poisoned_spec() == old(self).poisoned_spec(),
            final(self).map_spec() == old(self).map_spec(),
    {
        let ghost rects = self.commit_rects(area);
        let mut positions: Vec<(i32, i32)> = if self.poisoned {
            let mut p = rect_cells(area);
            let mut origin = rect_cells(Rect::new(Vector2D { x: 0, y: 0 }, Vector2D { x: 0, y: 0 }));
            p.append(&mut origin);
            p
        } else {
            let dx = self.shadowed_position.x - self.commited_position.x;
            let dy = self.shadowed_position.y - self.commited_position.y;
            let tdx = i32_div(dx, 8);
            let tdy = i32_div(dy, 8);
            proof {
                lemma_div8_bounds(dx);
                lemma_div8_bounds(dy);
            }
            let difference_x = if tdx == 0 {
                Rect::new(Vector2D { x: 0, y: 0 }, Vector2D { x: 0, y: 0 })
            } else if tdx > 0 {
                Rect::new(Vector2D { x: 0, y: 0 }, Vector2D { x: tdx, y: 0 })
            } else {
                Rect::new(Vector2D { x: 32 + tdx, y: 0 }, Vector2D { x: -tdx, y: 0 })
            };
            let difference_y = if tdy == 0 {
                Rect::new(Vector2D { x: 0, y: 0 }, Vector2D { x: 0, y: 0 })
            } else if tdy > 0 {
                Rect::new(Vector2D { x: 0, y: 0 }, Vector2D { x: 0, y: tdy })
            } else {
                Rect::new(Vector2D { x: 0, y: 32 + tdy }, Vector2D { x: 0, y: -tdy })
            };
            proof {
                assert(difference_x == columns_moved(tdx as int));
                assert(difference_y == rows_moved(tdy as int));
            }
            let y_update = area.overlapping_rect(difference_y);
            let x_update = area.overlapping_rect(difference_x);
            let mut p = rect_cells(y_update);
            let mut q = rect_cells(x_update);
            p.append(&mut q);
            p
        };
        proof {
            assert(positions@ =~= self.commit_positions(area));
        }
        let ghost all = positions@;
        let tx = i32_div(self.shadowed_position.x, 8);
        let ty = i32_div(self.shadowed_position.y, 8);
        let mut writes: Vec<(usize, u16)> = Vec::new();
        match &self.map {
            Some(map) => {
                let mut k: usize = 0;
                while k < positions.len()
                    invariant
                        k <= positions@.len(),
                        positions@ == all,
                        all == old(self).commit_positions(area),
                        *self == *old(self),
                        self.map == Some(*map),
                        old(self).commit_ok(area),
                        old(self).block_spec() < 32,
                        tx == div_trunc(self.shadowed_position.x as int, 8),
                        ty == div_trunc(self.shadowed_position.y as int, 8),
                        writes@.len() == k,
                        forall|i: int|
                            0 <= i < k ==> #[trigger] writes@[i] == old(self).write_for(*map, all[i]),
                    decreases positions@.len() - k,
                {
                    let (x, y) = positions[k];
                    proof {
                        let p = old(self).commit_positions(area)[k as int];
                        assert(p == (x, y));
                    }
                    let col = i32_rem(x, 32);
                    let col = if col < 0 {
                        col + 32
                    } else {
                        col
                    };
                    let row = i32_rem(y, 32);
                    let row = if row < 0 {
                        row + 32
                    } else {
                        row
                    };
                    proof {
                        lemma_rem_euclid_32(x as int);
                        lemma_rem_euclid_32(y as int);
                    }
                    let index = (self.block as usize * 32 + row as usize) * 32 + col as usize;
                    let value = map.get_position(x + tx, y + ty);
                    writes.push((index, value));
                    k = k + 1;
                }
                proof {
                    assert(writes@ =~= Seq::new(
                        old(self).commit_positions(area).len(),
                        |k: int| old(self).write_for(*map, old(self).commit_positions(area)[k]),
                    ));
                }
            },
            None => {
                proof {
                    assert(writes@ =~= Seq::<(usize, u16)>::empty());
                }
            },
        }
        self.commited_position = self.shadowed_position;
        let scroll_x = i32_rem(self.commited_position.x, 256) as u16;
        let scroll_y = i32_rem(self.commited_position.y, 256) as u16;
        CommitPlan { register: self.shadowed_register, writes, scroll_x, scroll_y }
    }

    /// Commits the 32 by 22 tiles from one tile above and to the left of
    /// the origin: the part of the block that shows on screen.
    pub fn commit(&mut self) -> (r: CommitPlan)
        requires
            old(self).commit_ok(screen_area()),
            old(self).block_spec() < 32,
        ensures
            r.register == old(self).register(),
            r.writes@ == (match old(self).map_spec() {
                Some(map) => Seq::new(
                    old(self).commit_positions(screen_area()).len(),
                    |k: int| old(self).write_for(map, old(self).commit_positions(screen_area())[k]),
                ),
                None => Seq::empty(),
            }),
            r.scroll_x == rem_trunc(old(self).shadowed().x as int, 256) as u16,
            r.scroll_y == rem_trunc(old(self).shadowed().y as int, 256) as u16,
            final(self).committed() == old(self).shadowed(),
            final(self).shadowed() == old(self).shadowed(),
            final(self).register() == old(self).register(),
            final(self).background_spec() == old(self).background_spec(),
            final(self).block_spec() == old(self).block_spec(),
            final(self).poisoned_spec() == old(self).poisoned_spec(),
            final(self).map_spec() == old(self).map_spec(),
    {
        let area = Rect::new(Vector2D { x: -1, y: -1 }, Vector2D { x: 32, y: 22 });
        self.commit_area(area)
    }
}

/// The area `commit` copies.
pub open spec fn screen_area() -> Rect<i32> {
    rect_at(-1, -1, 32, 22)
}

/// Whether the size of the overlap of `a` and `b` fits in an `i32`.
pub open spec fn overlap_fits(a: Rect<i32>, b: Rect<i32>) -> bool {
    &&& fits_i32(min_int(a.position.x + a.size.x, b.position.x + b.size.x) - max_int(
        a.position.x as int,
        b.position.x as int,
    ))
    &&& fits_i32(min_int(a.position.y + a.size.y, b.position.y + b.size.y) - max_int(
        a.position.y as int,
        b.position.y as int,
    ))
}

proof fn lemma_div8_bounds(a: i32)
    ensures
        -0x1000_0000 <= div_trunc(a as int, 8) <= 0x1000_0000,
{
    vstd::arithmetic::div_mod::lemma_div_is_ordered(abs_int(a as int), 0x8000_0000, 8);
}

proof fn lemma_rem_euclid_32(x: int)
    ensures
        (if rem_trunc(x, 32) < 0 {
            rem_trunc(x, 32) + 32
        } else {
            rem_trunc(x, 32)
        }) == x % 32,
        0 <= x % 32 < 32,
{
    crate::number::lemma_rem_trunc_euclid(x, 32);
}

/// The lowest clear bit of `u` at or above bit `from`; 32 when there is none.
pub open spec fn first_clear_bit(u: u32, from: int) -> int
    decreases 32 - from,
{
    if from >= 32 {
        32
    } else if bit_clear(u, from) {
        from
    } else {
        first_clear_bit(u, from + 1)
    }
}

/// Whether bit `i` of `u` is clear.
pub open spec fn bit_clear(u: u32, i: int) -> bool {
    (u >> (i as u32)) & 1 == 0
}

/// The mask of the blocks that `len` words written from tile `start_tile`
/// take, 512 words a block.
pub open spec fn blocks_for(start_tile: int, len: int) -> (int, int) {
    (start_tile * 8 / 512, (start_tile * 8 + len + 511) / 512)
}

/// Tiled mode 0: which of the 32 blocks of video memory are in use, and how
/// many of the four backgrounds have been handed out.
pub struct Tiled0 {
    used_blocks: u32,
    num_backgrounds: u8,
}

impl Tiled0 {
    /// The blocks in use, one bit each.
    pub closed spec fn used(self) -> u32 {
        self.used_blocks
    }

    /// The number of backgrounds handed out.
    pub closed spec fn backgrounds(self) -> u8 {
        self.num_backgrounds
    }

    /// No block used and no background handed out.
    pub fn new() -> (r: Self)
        ensures
            r.used() == 0,
            r.backgrounds() == 0,
    {
        Tiled0 { used_blocks: 0, num_backgrounds: 0 }
    }

    /// The writes that copy `palette` to the background palette as it is:
    /// colour `i` to entry `i`.
    pub fn set_background_palette_raw(&mut self, palette: &[u16]) -> (r: Vec<(usize, u16)>)
        ensures
            r@.len() == palette@.len(),
            forall|i: int| 0 <= i < palette@.len() ==> #[trigger] r@[i] == (i as usize, palette@[i]),
            *final(self) == *old(self),
    {
        let mut out: Vec<(usize, u16)> = Vec::new();
        let mut i: usize = 0;
        while i < palette.len()
            invariant
                i <= palette@.len(),
                out@.len() == i,
                forall|j: int| 0 <= j < i ==> #[trigger] out@[j] == (j as usize, palette@[j]),
            decreases palette@.len() - i,
        {
            out.push((i, palette[i]));
            i = i + 1;
        }
        out
    }

    /// The writes that copy each palette to its place: colour `c` of palette
    /// `p` to entry `16 * p + c`, the palette number taken modulo 256.
    pub fn set_background_palettes(&mut self, palettes: &[Palette16]) -> (r: Vec<(usize, u16)>)
        requires
            palettes@.len() * 16 <= usize::MAX,
        ensures
            r@.len() == palettes@.len() * 16,
            forall|p: int, c: int|
                0 <= p < palettes@.len() && 0 <= c < 16 ==> #[trigger] r@[p * 16 + c] == (
                (p % 256 * 16 + c) as usize,
                palettes@[p].colours@[c],
            ),
            *final(self) == *old(self),
    {
        let mut out: Vec<(usize, u16)> = Vec::new();
        let mut p: usize = 0;
        while p < palettes.len()
            invariant
                p <= palettes@.len(),
                palettes@.len() * 16 <= usize::MAX,
                out@.len() == p * 16,
                forall|pp: int, c: int|
                    0 <= pp < p && 0 <= c < 16 ==> #[trigger] out@[pp * 16 + c] == (
                    (pp % 256 * 16 + c) as usize,
                    palettes@[pp].colours@[c],
                ),
            decreases palettes@.len() - p,
        {
            let pal_index = p as u8;
            proof {
                assert(pal_index == p % 256) by (bit_vector)
                    requires pal_index == p as u8;
            }
            let palette = palettes[p];
            let mut c: usize = 0;
            let ghost before = out@;
            while c < 16
                invariant
                    c <= 16,
                    p < palettes@.len(),
                    palettes@.len() * 16 <= usize::MAX,
                    palette == palettes@[p as int],
                    pal_index == p % 256,
                    before.len() == p * 16,
                    out@.len() == p * 16 + c,
                    forall|k: int| 0 <= k < p * 16 ==> #[trigger] out@[k] == before[k],
                    forall|cc: int|
                        0 <= cc < c ==> #[trigger] out@[p * 16 + cc] == (
                        (p % 256 * 16 + cc) as usize,
                        palettes@[p as int].colours@[cc],
                    ),
                decreases 16 - c,
            {
                out.push((pal_index as usize * 16 + c, palette.colours[c]));
                c = c + 1;
            }
            proof {
                assert forall|pp: int, cc: int|
                    0 <= pp < p + 1 && 0 <= cc < 16 implies #[trigger] out@[pp * 16 + cc] == (
                    (pp % 256 * 16 + cc) as usize,
                    palettes@[pp].colours@[cc],
                ) by {
                    if pp < p {
                        assert(out@[pp * 16 + cc] == before[pp * 16 + cc]);
                    }
                }
            }
            p = p + 1;
        }
        out
    }

    /// Hands out the next background with the lowest unused block, or says
    /// why it cannot: four backgrounds are out already, or all blocks are
    /// used.
    pub fn get_background<S: MapStorage>(&mut self) -> (r: Result<Background<S>, &'static str>)
        ensures
            old(self).backgrounds() >= 4 ==> r == Err::<Background<S>, &'static str>(
                "too many backgrounds created, maximum is 4",
            ) && *final(self) == *old(self),
            old(self).backgrounds() < 4 && old(self).used() == u32::MAX ==> r == Err::<
                Background<S>,
                &'static str,
            >("all blocks are used") && *final(self) == *old(self),
            old(self).backgrounds() < 4 && old(self).used() != u32::MAX ==> {
                let block = first_clear_bit(old(self).used(), 0);
                &&& r is Ok
                &&& block < 32
                &&& r->Ok_0.background_spec() == old(self).backgrounds()
                &&& r->Ok_0.block_spec() == block
                &&& r->Ok_0.register() == (block as u16) << 8u16
                &&& r->Ok_0.poisoned_spec()
                &&& r->Ok_0.map_spec() is None
                &&& r->Ok_0.committed() == (Vector2D { x: 0i32, y: 0i32 })
                &&& r->Ok_0.shadowed() == (Vector2D { x: 0i32, y: 0i32 })
                &&& final(self).used() == old(self).used() | (1u32 << block as u32)
                &&& final(self).backgrounds() == old(self).backgrounds() + 1
            },
    {
        if self.num_backgrounds >= 4 {
            return Err("too many backgrounds created, maximum is 4");
        }
        if self.used_blocks == u32::MAX {
            return Err("all blocks are used");
        }
        let mut i: u8 = 0;
        let ghost used = self.used_blocks;
        proof {
            lemma_first_clear_exists(used, 0);
        }
        while i < 32 && (1u32 << i as u32) & self.used_blocks != 0
            invariant
                i <= 32,
                used == self.used_blocks,
                used != u32::MAX,
                first_clear_bit(used, 0) == first_clear_bit(used, i as int),
                first_clear_bit(used, 0) < 32,
            decreases 32 - i,
        {
            proof {
                crate::bits::lemma_bit_test_u32(used, i as u32);
                assert(!bit_clear(used, i as int));
            }
            i = i + 1;
        }
        proof {
            assert(i < 32);
            crate::bits::lemma_bit_test_u32(used, i as u32);
            assert(bit_clear(used, i as int));
        }
        let available = i;
        self.used_blocks = self.used_blocks | (1u32 << available as u32);
        let background = self.num_backgrounds;
        self.num_backgrounds = background + 1;
        Ok(Background::new(background, available))
    }

    /// Marks the blocks that `tiles` take when copied from tile `start_tile`
    /// as used, and returns the word index the copy starts at: eight words
    /// a tile. The blocks must be unused.
    pub fn set_background_tilemap(&mut self, start_tile: u32, tiles: &[u32]) -> (r: u32)
        requires
            start_tile * 8 + tiles@.len() + 511 <= u32::MAX,
            ({
                let (s, e) = blocks_for(start_tile as int, tiles@.len() as int);
                &&& s < 32
                &&& e - s < 32
                &&& old(self).used() & (((((1u32 << (e - s) as u32) - 1) as u32) << s as u32)) == 0
            }),
        ensures
            r == start_tile * 8,
            ({
                let (s, e) = blocks_for(start_tile as int, tiles@.len() as int);
                final(self).used() == old(self).used() | (((((1u32 << (e - s) as u32) - 1) as u32)
                    << s as u32))
            }),
            final(self).backgrounds() == old(self).backgrounds(),
    {
        let u32_per_block: u32 = 512;
        let start_block = (start_tile * 8) / u32_per_block;
        let end_block = (start_tile * 8 + tiles.len() as u32 + u32_per_block - 1) / u32_per_block;
        proof {
            assert(start_block <= end_block) by (nonlinear_arith)
                requires
                    start_block == (start_tile * 8) / 512,
                    end_block == (start_tile * 8 + tiles@.len() + 511) / 512,
            ;
            let k = (end_block - start_block) as u32;
            crate::bits::lemma_bit_test_u32(0, k);
        }
        let blocks_to_use: u32 = ((1u32 << (end_block - start_block)) - 1) << start_block;
        self.used_blocks = self.used_blocks | blocks_to_use;
        start_tile * 8
    }
}

proof fn lemma_first_clear_exists(u: u32, from: int)
    requires
        u != u32::MAX,
        0 <= from <= 32,
        forall|i: int| 0 <= i < from ==> !#[trigger] bit_clear(u, i),
    ensures
        first_clear_bit(u, from) < 32,
    decreases 32 - from,
{
    if from == 32 {
        assert(!bit_clear(u, 0));
        assert(!bit_clear(u, 1));
        assert(!bit_clear(u, 2));
        assert(!bit_clear(u, 3));
        assert(!bit_clear(u, 4));
        assert(!bit_clear(u, 5));
        assert(!bit_clear(u, 6));
        assert(!bit_clear(u, 7));
        assert(!bit_clear(u, 8));
        assert(!bit_clear(u, 9));
        assert(!bit_clear(u, 10));
        assert(!bit_clear(u, 11));
        assert(!bit_clear(u, 12));
        assert(!bit_clear(u, 13));
        assert(!bit_clear(u, 14));
        assert(!bit_clear(u, 15));
        assert(!bit_clear(u, 16));
        assert(!bit_clear(u, 17));
        assert(!bit_clear(u, 18));
        assert(!bit_clear(u, 19));
        assert(!bit_clear(u, 20));
        assert(!bit_clear(u, 21));
        assert(!bit_clear(u, 22));
        assert(!bit_clear(u, 23));
        assert(!bit_clear(u, 24));
        assert(!bit_clear(u, 25));
        assert(!bit_clear(u, 26));
        assert(!bit_clear(u, 27));
        assert(!bit_clear(u, 28));
        assert(!bit_clear(u, 29));
        assert(!bit_clear(u, 30));
        assert(!bit_clear(u, 31));
        assert(u == u32::MAX) by (bit_vector)
            requires
            (u >> 0u32) & 1 != 0,
            (u >> 1u32) & 1 != 0,
            (u >> 2u32) & 1 != 0,
            (u >> 3u32) & 1 != 0,
            (u >> 4u32) & 1 != 0,
            (u >> 5u32) & 1 != 0,
            (u >> 6u32) & 1 != 0,
            (u >> 7u32) & 1 != 0,
            (u >> 8u32) & 1 != 0,
            (u >> 9u32) & 1 != 0,
            (u >> 10u32) & 1 != 0,
            (u >> 11u32) & 1 != 0,
            (u >> 12u32) & 1 != 0,
            (u >> 13u32) & 1 != 0,
            (u >> 14u32) & 1 != 0,
            (u >> 15u32) & 1 != 0,
            (u >> 16u32) & 1 != 0,
            (u >> 17u32) & 1 != 0,
            (u >> 18u32) & 1 != 0,
            (u >> 19u32) & 1 != 0,
            (u >> 20u32) & 1 != 0,
            (u >> 21u32) & 1 != 0,
            (u >> 22u32) & 1 != 0,
            (u >> 23u32) & 1 != 0,
            (u >> 24u32) & 1 != 0,
            (u >> 25u32) & 1 != 0,
            (u >> 26u32) & 1 != 0,
            (u >> 27u32) & 1 != 0,
            (u >> 28u32) & 1 != 0,
            (u >> 29u32) & 1 != 0,
            (u >> 30u32) & 1 != 0,
            (u >> 31u32) & 1 != 0,
        ;
    } else if bit_clear(u, from) {
    } else {
        lemma_first_clear_exists(u, from + 1);
    }
}

} // verus!

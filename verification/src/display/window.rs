//! The window feature of the GBA.
//!
//! Windows select which backgrounds and objects show, and whether blending
//! applies, inside two movable rectangles, inside objects drawn in window
//! mode, and everywhere else. The settings are held here until committed:
//! committing computes the values of the window registers.
use crate::display::tiled::BackgroundId;
use crate::number::{Rect, Vector2D};
use vstd::prelude::*;

verus! {

/// The width of the screen in pixels.
pub const WIDTH: i32 = 240;

/// The height of the screen in pixels.
pub const HEIGHT: i32 = 160;

/// One of the two movable windows.
#[derive(Clone, Copy, Debug, PartialEq, Eq, Structural)]
pub enum WinIn {
    /// The higher priority window
    Win0,
    /// The lower priority window
    Win1,
}

impl WinIn {
    /// The window's number, as `id as usize`.
    pub open spec fn index_spec(self) -> int {
        match self {
            WinIn::Win0 => 0,
            WinIn::Win1 => 1,
        }
    }

    /// The window's number.
    pub fn index(self) -> (r: usize)
        ensures
            r == self.index_spec(),
    {
        match self {
            WinIn::Win0 => 0,
            WinIn::Win1 => 1,
        }
    }
}

/// The settings of a window that cannot be moved: one bit for each background
/// (bits 0 to 3), for objects (bit 4), for blending (bit 5), and whether the
/// window is in use (bit 7).
#[derive(Clone, Copy, Debug, PartialEq, Eq, Structural)]
pub struct Window {
    window_bits: u8,
}

/// `w` with bit `bit` set to `value`.
pub open spec fn with_bit(w: u8, bit: u8, value: bool) -> u8 {
    (w & (0xffu8 ^ (1u8 << bit))) | ((if value {
        1u8
    } else {
        0u8
    }) << bit)
}

impl Window {
    /// The settings bits.
    pub closed spec fn bits(self) -> u8 {
        self.window_bits
    }

    /// A window with nothing enabled.
    pub fn new() -> (r: Window)
        ensures
            r.bits() == 0,
    {
        Window { window_bits: 0 }
    }

    /// Marks the window as in use.
    pub fn enable(&mut self) -> (r: &mut Self)
        ensures
            r.bits() == with_bit(old(self).bits(), 7, true),
            final(self).bits() == final(r).bits(),
    {
        self.set_bit(7, true);
        self
    }

    /// Whether the window is in use.
    pub fn is_enabled(&self) -> (r: bool)
        ensures
            r == (self.bits() >> 7u8 != 0),
    {
        (self.window_bits >> 7u8) != 0
    }

    /// Sets bit `bit` of the settings to `value`.
    pub fn set_bit(&mut self, bit: u8, value: bool)
        requires
            bit < 8,
        ensures
            final(self).bits() == with_bit(old(self).bits(), bit, value),
    {
        let v: u8 = if value {
            1
        } else {
            0
        };
        self.window_bits = self.window_bits & (0xffu8 ^ (1u8 << bit));
        self.window_bits = self.window_bits | (v << bit);
    }

    /// Enables blending inside this window.
    pub fn enable_blending(&mut self) -> (r: &mut Self)
        ensures
            r.bits() == with_bit(old(self).bits(), 5, true),
            final(self).bits() == final(r).bits(),
    {
        self.set_bit(5, true);
        self
    }

    /// Shows background `back` inside this window.
    pub fn enable_background(&mut self, back: BackgroundId) -> (r: &mut Self)
        requires
            back.0 < 8,
        ensures
            r.bits() == with_bit(old(self).bits(), back.0, true),
            final(self).bits() == final(r).bits(),
    {
        self.set_bit(back.0, true);
        self
    }

    /// Shows objects inside this window.
    pub fn enable_objects(&mut self) -> (r: &mut Self)
        ensures
            r.bits() == with_bit(old(self).bits(), 4, true),
            final(self).bits() == final(r).bits(),
    {
        self.set_bit(4, true);
        self
    }

    /// Where window `id`'s settings go: the 16 bit window control register
    /// `id / 2`, at bit `(id % 2) * 8`, as the pair `(register, shift)`.
    pub fn commit_location(id: usize) -> (r: (usize, u16))
        requires
            id < 4,
        ensures
            r.0 == id / 2,
            r.1 == (id % 2) * 8,
    {
        (id / 2, ((id % 2) * 8) as u16)
    }
}

/// A window that can be moved: its settings, the rectangle it covers and its
/// number.
#[derive(Clone, Copy, Debug, PartialEq, Eq)]
pub struct MovableWindow {
    inner: Window,
    rect: Rect<u8>,
    id: usize,
}

impl MovableWindow {
    /// The settings.
    pub closed spec fn settings(self) -> Window {
        self.inner
    }

    /// The rectangle covered.
    pub closed spec fn area(self) -> Rect<u8> {
        self.rect
    }

    /// The window's number.
    pub closed spec fn number(self) -> usize {
        self.id
    }

    /// Window `id`, with nothing enabled and an empty rectangle.
    pub fn new(id: usize) -> (r: Self)
        ensures
            r.settings().bits() == 0,
            r.area().position == (Vector2D { x: 0u8, y: 0u8 }),
            r.area().size == (Vector2D { x: 0u8, y: 0u8 }),
            r.number() == id,
    {
        MovableWindow {
            inner: Window::new(),
            rect: Rect::new(Vector2D::new(0u8, 0u8), Vector2D::new(0u8, 0u8)),
            id,
        }
    }

    /// Marks the window as in use.
    pub fn enable(&mut self) -> (r: &mut Self)
        ensures
            r.settings().bits() == with_bit(old(self).settings().bits(), 7, true),
            r.area() == old(self).area(),
            r.number() == old(self).number(),
            *final(self) == *final(r),
    {
        self.inner.set_bit(7, true);
        self
    }

    /// Whether the window is in use.
    pub fn is_enabled(&self) -> (r: bool)
        ensures
            r == (self.settings().bits() >> 7u8 != 0),
    {
        self.inner.is_enabled()
    }

    /// Enables blending inside this window.
    pub fn enable_blending(&mut self) -> (r: &mut Self)
        ensures
            r.settings().bits() == with_bit(old(self).settings().bits(), 5, true),
            r.area() == old(self).area(),
            r.number() == old(self).number(),
            *final(self) == *final(r),
    {
        self.inner.set_bit(5, true);
        self
    }

    /// Shows background `back` inside this window.
    pub fn enable_background(&mut self, back: BackgroundId) -> (r: &mut Self)
        requires
            back.0 < 8,
        ensures
            r.settings().bits() == with_bit(old(self).settings().bits(), back.0, true),
            r.area() == old(self).area(),
            r.number() == old(self).number(),
            *final(self) == *final(r),
    {
        self.inner.set_bit(back.0, true);
        self
    }

    /// Shows objects inside this window.
    pub fn enable_objects(&mut self) -> (r: &mut Self)
        ensures
            r.settings().bits() == with_bit(old(self).settings().bits(), 4, true),
            r.area() == old(self).area(),
            r.number() == old(self).number(),
            *final(self) == *final(r),
    {
        self.inner.set_bit(4, true);
        self
    }

    /// Sets the rectangle covered from one in screen coordinates: the corner
    /// is clamped to the screen and the size is truncated to 8 bits.
    pub fn set_pos(&mut self, rect: Rect<i32>) -> (r: &mut Self)
        ensures
            r.area().position.x == clamp(rect.position.x as int, 0, WIDTH as int),
            r.area().position.y == clamp(rect.position.y as int, 0, HEIGHT as int),
            r.area().size.x == rect.size.x as u8,
            r.area().size.y == rect.size.y as u8,
            r.settings() == old(self).settings(),
            r.number() == old(self).number(),
            *final(self) == *final(r),
    {
        let x = clamp_i32(rect.position.x, 0, WIDTH);
        let y = clamp_i32(rect.position.y, 0, HEIGHT);
        let new_rect = Rect::new(
            Vector2D::new(x as u8, y as u8),
            Vector2D::new(rect.size.x as u8, rect.size.y as u8),
        );
        self.rect = new_rect;
        self
    }

    /// The horizontal register value: left edge in the high byte, right edge
    /// in the low byte.
    pub open spec fn horizontal_spec(self) -> u16 {
        ((self.area().position.x as u16) << 8u16) | ((self.area().position.x
            + self.area().size.x) as u16)
    }

    /// The vertical register value: top edge in the high byte, bottom edge in
    /// the low byte.
    pub open spec fn vertical_spec(self) -> u16 {
        ((self.area().position.y as u16) << 8u16) | ((self.area().position.y
            + self.area().size.y) as u16)
    }

    /// The values of this window's horizontal and vertical registers.
    pub fn commit_values(&self) -> (r: (u16, u16))
        requires
            self.area().position.x + self.area().size.x <= 255,
            self.area().position.y + self.area().size.y <= 255,
        ensures
            r == (self.horizontal_spec(), self.vertical_spec()),
    {
        let left_right = ((self.rect.position.x as u16) << 8u16) | (self.rect.position.x
            + self.rect.size.x) as u16;
        let top_bottom = ((self.rect.position.y as u16) << 8u16) | (self.rect.position.y
            + self.rect.size.y) as u16;
        (left_right, top_bottom)
    }
}

/// `x` held between `lo` and `hi`.
pub open spec fn clamp(x: int, lo: int, hi: int) -> int {
    if x < lo {
        lo
    } else if x > hi {
        hi
    } else {
        x
    }
}

fn clamp_i32(x: i32, lo: i32, hi: i32) -> (r: i32)
    requires
        lo <= hi,
    ensures
        r == clamp(x as int, lo as int, hi as int),
{
    if x < lo {
        lo
    } else if x > hi {
        hi
    } else {
        x
    }
}

/// The register writes of a commit of the windows.
#[derive(Clone, Copy, Debug, PartialEq, Eq)]
pub struct WindowRegisters {
    /// The horizontal registers of the two movable windows.
    pub horizontal: (u16, u16),
    /// The vertical registers of the two movable windows.
    pub vertical: (u16, u16),
    /// The settings of windows 0 to 3 (the two movable ones, the outside one and
    /// the object one), each to be placed by [`Window::commit_location`].
    pub settings: (u8, u8, u8, u8),
    /// Whether the object window, window 0 and window 1 are displayed.
    pub display: (bool, bool, bool),
}

/// The windows of the GBA: two movable ones, the one used outside every other,
/// and the one shaped by objects.
pub struct Windows {
    win0: MovableWindow,
    win1: MovableWindow,
    out: Window,
    obj: Window,
}

impl Windows {
    /// Movable window 0.
    pub closed spec fn win0_spec(self) -> MovableWindow {
        self.win0
    }

    /// Movable window 1.
    pub closed spec fn win1_spec(self) -> MovableWindow {
        self.win1
    }

    /// The window used outside every other.
    pub closed spec fn out_spec(self) -> Window {
        self.out
    }

    /// The window shaped by objects.
    pub closed spec fn obj_spec(self) -> Window {
        self.obj
    }

    /// All windows with nothing enabled.
    pub fn new() -> (r: Self)
        ensures
            r.win0_spec() == MovableWindow::new_spec(0),
            r.win1_spec() == MovableWindow::new_spec(1),
            r.out_spec().bits() == 0,
            r.obj_spec().bits() == 0,
    {
        Windows {
            win0: MovableWindow::new(0),
            win1: MovableWindow::new(1),
            out: Window::new(),
            obj: Window::new(),
        }
    }

    /// The window used outside every other, now enabled.
    pub fn win_out(&mut self) -> (r: &mut Window)
        ensures
            r.bits() == with_bit(old(self).out_spec().bits(), 7, true),
            final(self).out_spec() == *final(r),
            final(self).win0_spec() == old(self).win0_spec(),
            final(self).win1_spec() == old(self).win1_spec(),
            final(self).obj_spec() == old(self).obj_spec(),
    {
        self.out.set_bit(7, true);
        &mut self.out
    }

    /// The window shaped by objects, now enabled.
    pub fn win_obj(&mut self) -> (r: &mut Window)
        ensures
            r.bits() == with_bit(old(self).obj_spec().bits(), 7, true),
            final(self).obj_spec() == *final(r),
            final(self).win0_spec() == old(self).win0_spec(),
            final(self).win1_spec() == old(self).win1_spec(),
            final(self).out_spec() == old(self).out_spec(),
    {
        self.obj.set_bit(7, true);
        &mut self.obj
    }

    /// Movable window `id`, now enabled.
    pub fn win_in(&mut self, id: WinIn) -> (r: &mut MovableWindow)
        ensures
            r.settings().bits() == with_bit(
                (if id == WinIn::Win0 {
                    old(self).win0_spec()
                } else {
                    old(self).win1_spec()
                }).settings().bits(),
                7,
                true,
            ),
            id == WinIn::Win0 ==> final(self).win0_spec() == *final(r) && final(self).win1_spec()
                == old(self).win1_spec(),
            id == WinIn::Win1 ==> final(self).win1_spec() == *final(r) && final(self).win0_spec()
                == old(self).win0_spec(),
            final(self).out_spec() == old(self).out_spec(),
            final(self).obj_spec() == old(self).obj_spec(),
    {
        match id {
            WinIn::Win0 => {
                self.win0.inner.set_bit(7, true);
                &mut self.win0
            },
            WinIn::Win1 => {
                self.win1.inner.set_bit(7, true);
                &mut self.win1
            },
        }
    }

    /// The register values that committing the windows writes.
    pub fn commit(&self) -> (r: WindowRegisters)
        requires
            self.win0_spec().area().position.x + self.win0_spec().area().size.x <= 255,
            self.win0_spec().area().position.y + self.win0_spec().area().size.y <= 255,
            self.win1_spec().area().position.x + self.win1_spec().area().size.x <= 255,
            self.win1_spec().area().position.y + self.win1_spec().area().size.y <= 255,
        ensures
            r.horizontal == (self.win0_spec().horizontal_spec(), self.win1_spec().horizontal_spec()),
            r.vertical == (self.win0_spec().vertical_spec(), self.win1_spec().vertical_spec()),
            r.settings == (
                self.win0_spec().settings().bits(),
                self.win1_spec().settings().bits(),
                self.out_spec().bits(),
                self.obj_spec().bits(),
            ),
            r.display == (
                self.obj_spec().bits() >> 7u8 != 0,
                self.win0_spec().settings().bits() >> 7u8 != 0,
                self.win1_spec().settings().bits() >> 7u8 != 0,
            ),
    {
        let (h0, v0) = self.win0.commit_values();
        let (h1, v1) = self.win1.commit_values();
        WindowRegisters {
            horizontal: (h0, h1),
            vertical: (v0, v1),
            settings: (
                self.win0.inner.window_bits,
                self.win1.inner.window_bits,
                self.out.window_bits,
                self.obj.window_bits,
            ),
            display: (self.obj.is_enabled(), self.win0.is_enabled(), self.win1.is_enabled()),
        }
    }
}

impl MovableWindow {
    /// The window `new(id)` makes.
    pub open spec fn new_spec(id: usize) -> MovableWindow {
        MovableWindow::new_closed(id)
    }

    /// Window `id` with nothing enabled and an empty rectangle.
    pub closed spec fn new_closed(id: usize) -> MovableWindow {
        MovableWindow {
            inner: Window { window_bits: 0 },
            rect: Rect {
                position: Vector2D { x: 0u8, y: 0u8 },
                size: Vector2D { x: 0u8, y: 0u8 },
            },
            id,
        }
    }
}

/// Setting a bit sets that bit and leaves the others as they were.
pub proof fn lemma_with_bit(w: u8, bit: u8, value: bool, other: u8)
    requires
        bit < 8,
        other < 8,
    ensures
        (with_bit(w, bit, value) >> other) & 1 == (if other == bit {
            if value {
                1u8
            } else {
                0u8
            }
        } else {
            (w >> other) & 1
        }),
{
    let v: u8 = if value {
        1
    } else {
        0
    };
    assert(((w & (0xffu8 ^ (1u8 << bit))) | (v << bit)) >> other & 1 == (if other == bit {
        v
    } else {
        (w >> other) & 1
    })) by (bit_vector)
        requires
            bit < 8,
            other < 8,
            v == 0 || v == 1,
    ;
}

} // verus!

//! A background larger than the hardware allows, filled in lazily as it
//! scrolls.
use vstd::prelude::*;
use crate::display::Priority;
use crate::number::{abs_int, div_trunc, fits_i32, i32_div, vec2, Rect, Vector2D};

verus! {

/// Rows of tiles needed to cover the screen, in tiles.
pub const ONE_MORE_THAN_SCREEN_HEIGHT: i32 = 21;

/// Columns of tiles needed to cover the screen, in tiles.
pub const ONE_MORE_THAN_SCREEN_WIDTH: i32 = 31;

/// Rows filled by one call while the screen is filled from scratch.
pub const ROWS_TO_COPY_IN_ONE_CALL: u32 = 2;

/// Screen width in pixels.
pub const SCREEN_WIDTH: i32 = 240;

/// Screen height in pixels.
pub const SCREEN_HEIGHT: i32 = 160;

/// `a / b` rounded towards negative infinity.
pub open spec fn floor_div(a: int, b: int) -> int {
    if b > 0 {
        a / b
    } else {
        (-a) / (-b)
    }
}

proof fn lemma_trunc_floor(a: int, b: int)
    requires
        b != 0,
    ensures
        a > 0 && b < 0 ==> div_trunc(a - 1, b) - 1 == floor_div(a, b),
        a < 0 && b > 0 ==> div_trunc(a + 1, b) - 1 == floor_div(a, b),
        !(a > 0 && b < 0) && !(a < 0 && b > 0) ==> div_trunc(a, b) == floor_div(a, b),
{
    if a > 0 && b < 0 {
        let q = (a - 1) / (-b);
        let r = (a - 1) % (-b);
        vstd::arithmetic::div_mod::lemma_fundamental_div_mod(a - 1, -b);
        assert(a == (-b) * q + r + 1);
        assert((-q - 1) * (-b) == (-b) * q * (-1) + (-b) * (-1)) by (nonlinear_arith);
        vstd::arithmetic::div_mod::lemma_fundamental_div_mod_converse(-a, -b, -q - 1, -b - r - 1);
    } else if a < 0 && b > 0 {
        let q = (-a - 1) / b;
        let r = (-a - 1) % b;
        vstd::arithmetic::div_mod::lemma_fundamental_div_mod(-a - 1, b);
        assert((-q - 1) * b == -(b * q) - b) by (nonlinear_arith);
        vstd::arithmetic::div_mod::lemma_fundamental_div_mod_converse(a, b, -q - 1, b - r - 1);
    } else if a <= 0 && b < 0 {
        assert(div_trunc(a, b) == (-a) / (-b));
    }
}

/// `self` divided by `other`, rounding towards negative infinity.
pub fn div_floor_stable(a: i32, other: i32) -> (r: i32)
    requires
        other != 0,
        !(a == i32::MIN && other == -1),
    ensures
        r == floor_div(a as int, other as int),
{
    proof {
        lemma_trunc_floor(a as int, other as int);
    }
    if a > 0 && other < 0 {
        i32_div(a - 1, other) - 1
    } else if a < 0 && other > 0 {
        proof {
            assert(div_trunc((a + 1) as int, other as int) <= 0);
            assert(div_trunc((a + 1) as int, other as int) >= a + 1) by {
                vstd::arithmetic::div_mod::lemma_div_is_ordered_by_denominator(
                    -(a + 1) as int,
                    1,
                    other as int,
                );
            }
        }
        i32_div(a + 1, other) - 1
    } else {
        i32_div(a, other)
    }
}

/// The tile holding pixel `p`: both components divided by eight, rounding down.
pub open spec fn tile_of(p: Vector2D<i32>) -> (int, int) {
    (floor_div(p.x as int, 8), floor_div(p.y as int, 8))
}

fn tile_of_exec(p: Vector2D<i32>) -> (r: Vector2D<i32>)
    ensures
        (r.x as int, r.y as int) == tile_of(p),
        i32::MIN / 8 <= r.x <= i32::MAX / 8,
        i32::MIN / 8 <= r.y <= i32::MAX / 8,
{
    let r = vec2(div_floor_stable(p.x, 8), div_floor_stable(p.y, 8));
    proof {
        vstd::arithmetic::div_mod::lemma_div_is_ordered(i32::MIN as int, p.x as int, 8);
        vstd::arithmetic::div_mod::lemma_div_is_ordered(p.x as int, i32::MAX as int, 8);
        vstd::arithmetic::div_mod::lemma_div_is_ordered(i32::MIN as int, p.y as int, 8);
        vstd::arithmetic::div_mod::lemma_div_is_ordered(p.y as int, i32::MAX as int, 8);
    }
    r
}

/// Whether tile `q` shows on a screen whose top left tile is `w`.
pub open spec fn in_window(w: (int, int), q: (int, int)) -> bool {
    &&& w.0 <= q.0 < w.0 + ONE_MORE_THAN_SCREEN_WIDTH
    &&& w.1 <= q.1 < w.1 + ONE_MORE_THAN_SCREEN_HEIGHT
}

/// Whether tile `q` is one of the tiles of `r`: from its position, up to but
/// not including its position plus its size.
pub open spec fn rect_has(r: Rect<i32>, q: (int, int)) -> bool {
    &&& r.position.x <= q.0 < r.position.x + r.size.x
    &&& r.position.y <= q.1 < r.position.y + r.size.y
}

/// Whether one of the rectangles holds tile `q`.
pub open spec fn covered(rects: Seq<Rect<i32>>, q: (int, int)) -> bool {
    exists|i: int| 0 <= i < rects.len() && rect_has(#[trigger] rects[i], q)
}

/// The rectangle of `size` at `position`, as a value.
pub open spec fn rect_at(px: int, py: int, sx: int, sy: int) -> Rect<i32> {
    Rect {
        position: Vector2D { x: px as i32, y: py as i32 },
        size: Vector2D { x: sx as i32, y: sy as i32 },
    }
}

/// The rectangles refreshed when the top left tile moves from `o` to `n`:
/// the columns that came in on the left or the right, then the rows that came
/// in at the top or the bottom, across the whole new width so that a corner
/// that came in on both sides is among them.
pub open spec fn incremental_rects(o: (int, int), n: (int, int)) -> Seq<Rect<i32>> {
    let w = ONE_MORE_THAN_SCREEN_WIDTH as int;
    let h = ONE_MORE_THAN_SCREEN_HEIGHT as int;
    let s0 = Seq::<Rect<i32>>::empty();
    let s1 = if o.0 > n.0 {
        s0.push(rect_at(n.0, n.1, o.0 - n.0, h))
    } else {
        s0
    };
    let s2 = if o.0 < n.0 {
        s1.push(rect_at(o.0 + w, o.1, n.0 - o.0, h))
    } else {
        s1
    };
    let s3 = if o.1 > n.1 {
        s2.push(rect_at(n.0, n.1, w, o.1 - n.1))
    } else {
        s2
    };
    if o.1 < n.1 {
        s3.push(rect_at(n.0, o.1 + h, w, n.1 - o.1))
    } else {
        s3
    }
}

/// The rows `done` and `done + 1` of the screen whose top left tile is `w`.
pub open spec fn initial_rect(w: (int, int), done: int) -> Rect<i32> {
    rect_at(w.0, w.1 + done, ONE_MORE_THAN_SCREEN_WIDTH as int, ROWS_TO_COPY_IN_ONE_CALL as int)
}

/// How far the map has got: showing the screen at a pixel position, part of
/// the way through filling the screen whose top left tile is `position`
/// (`work_done` rows of it), or nothing.
#[derive(Clone, Copy, Debug, PartialEq, Eq, Structural)]
pub enum Position {
    /// The screen at this pixel position is filled.
    Current(Vector2D<i32>),
    /// Rows are being filled.
    Working { position: Vector2D<i32>, work_done: u32 },
    /// Nothing has been filled.
    Unset,
}

/// An indication as to whether scrolling is complete.
#[derive(Clone, Copy, Debug, PartialEq, Eq, Structural)]
pub enum PartialUpdateStatus {
    /// The entire screen has been filled and is ready to show the player.
    Done,
    /// There is still work to do to fully fill the screen.
    Continue,
}

/// The tiles a call asks to be refreshed, and whether the screen is then
/// fully filled.
pub struct ScrollUpdate {
    /// Whether the screen is filled once these tiles are written.
    pub status: PartialUpdateStatus,
    /// The rectangles of tiles to refresh, in order.
    pub rects: Vec<Rect<i32>>,
}

/// A 'virtual background' larger than the hardware allows: it keeps track of
/// which part of the world the underlying background holds, and says which
/// tiles to refresh as it scrolls.
pub struct InfiniteScrolledMap {
    scroll: Vector2D<i32>,
    priority: Priority,
    current_pos: Position,
}

impl Position {
    /// The pixel position this stands for, if any.
    pub open spec fn pixel(self) -> Option<(int, int)> {
        match self {
            Position::Current(p) => Some((p.x as int, p.y as int)),
            Position::Working { position, .. } => Some((position.x * 8, position.y * 8)),
            Position::Unset => None,
        }
    }

    /// A working position is a tile position and fewer rows than a screen
    /// have been filled.
    pub open spec fn wf(self) -> bool {
        match self {
            Position::Working { position, work_done } => {
                &&& i32::MIN / 8 <= position.x <= i32::MAX / 8
                &&& i32::MIN / 8 <= position.y <= i32::MAX / 8
                &&& work_done < ONE_MORE_THAN_SCREEN_HEIGHT
            },
            _ => true,
        }
    }
}

/// Whether the pixel offset `d` is representable and its absolute value too.
pub open spec fn offset_fits(d: int) -> bool {
    i32::MIN < d <= i32::MAX
}

impl InfiniteScrolledMap {
    /// The scroll position of the underlying background.
    pub closed spec fn scroll_spec(self) -> Vector2D<i32> {
        self.scroll
    }

    /// The priority of the underlying background.
    pub closed spec fn priority_spec(self) -> Priority {
        self.priority
    }

    /// How far the filling has got.
    pub closed spec fn position(self) -> Position {
        self.current_pos
    }

    /// The internal state is consistent.
    pub open spec fn wf(self) -> bool {
        self.position().wf()
    }

    /// The status: done exactly when the screen at the current position is
    /// filled.
    pub open spec fn status_spec(self) -> PartialUpdateStatus {
        match self.position() {
            Position::Current(_) => PartialUpdateStatus::Done,
            _ => PartialUpdateStatus::Continue,
        }
    }

    /// The position the map works from when asked to scroll to `new_pos`:
    /// forgotten when a whole screen or more away.
    pub open spec fn start_position(self, new_pos: Vector2D<i32>) -> Position {
        match self.position().pixel() {
            Some(c) => {
                let dx = c.0 - new_pos.x;
                let dy = c.1 - new_pos.y;
                if abs_int(dx) >= SCREEN_WIDTH || abs_int(dy) >= SCREEN_HEIGHT {
                    Position::Unset
                } else {
                    self.position()
                }
            },
            None => self.position(),
        }
    }

    /// Whether the offset from the remembered position to `new_pos` can be
    /// computed without overflow.
    pub open spec fn can_scroll_to(self, new_pos: Vector2D<i32>) -> bool {
        match self.position().pixel() {
            Some(c) => offset_fits(c.0 - new_pos.x) && offset_fits(c.1 - new_pos.y),
            None => true,
        }
    }

    /// A map over a background with the given scroll position and priority,
    /// which has filled nothing yet.
    pub fn new(scroll: Vector2D<i32>, priority: Priority) -> (r: Self)
        ensures
            r.wf(),
            r.scroll_spec() == scroll,
            r.priority_spec() == priority,
            r.position() == Position::Unset,
    {
        InfiniteScrolledMap { scroll, priority, current_pos: Position::Unset }
    }

    fn do_initial_case(&mut self, new_pos: Vector2D<i32>) -> (r: ScrollUpdate)
        requires
            old(self).wf(),
            !(old(self).position() is Current),
        ensures
            final(self).wf(),
            final(self).scroll_spec() == old(self).scroll_spec(),
            final(self).priority_spec() == old(self).priority_spec(),
            ({
                let w = tile_of(new_pos);
                let done = match old(self).position() {
                    Position::Working { position, work_done } => if (position.x as int, position.y as int) == w {
                        work_done as int
                    } else {
                        0
                    },
                    _ => 0,
                };
                &&& r.rects@ == seq![initial_rect(w, done)]
                &&& if done + ROWS_TO_COPY_IN_ONE_CALL < ONE_MORE_THAN_SCREEN_HEIGHT {
                    &&& r.status == PartialUpdateStatus::Continue
                    &&& final(self).position() == Position::Working {
                        position: Vector2D { x: w.0 as i32, y: w.1 as i32 },
                        work_done: (done + ROWS_TO_COPY_IN_ONE_CALL) as u32,
                    }
                } else {
                    &&& r.status == PartialUpdateStatus::Done
                    &&& final(self).position() == Position::Current(new_pos)
                }
            }),
    {
        let working = tile_of_exec(new_pos);
        let current_work_done: u32 = match self.current_pos {
            Position::Working { position, work_done } => {
                if position.x != working.x || position.y != working.y {
                    0
                } else {
                    work_done
                }
            },
            _ => 0,
        };
        let mut rects: Vec<Rect<i32>> = Vec::new();
        rects.push(
            Rect::new(
                vec2(working.x, working.y + current_work_done as i32),
                vec2(ONE_MORE_THAN_SCREEN_WIDTH, ROWS_TO_COPY_IN_ONE_CALL as i32),
            ),
        );
        proof {
            assert(rects@ =~= seq![initial_rect(tile_of(new_pos), current_work_done as int)]);
        }
        if current_work_done + ROWS_TO_COPY_IN_ONE_CALL < ONE_MORE_THAN_SCREEN_HEIGHT as u32 {
            self.current_pos = Position::Working {
                position: working,
                work_done: current_work_done + ROWS_TO_COPY_IN_ONE_CALL,
            };
            ScrollUpdate { status: PartialUpdateStatus::Continue, rects }
        } else {
            self.current_pos = Position::Current(new_pos);
            ScrollUpdate { status: PartialUpdateStatus::Done, rects }
        }
    }

    fn incremental_update(&mut self, old_pos: Vector2D<i32>, new_pos: Vector2D<i32>) -> (r:
        ScrollUpdate)
        requires
            old(self).wf(),
        ensures
            final(self).wf(),
            final(self).scroll_spec() == old(self).scroll_spec(),
            final(self).priority_spec() == old(self).priority_spec(),
            r.status == PartialUpdateStatus::Done,
            r.rects@ == incremental_rects(tile_of(old_pos), tile_of(new_pos)),
            tile_of(old_pos) == tile_of(new_pos) ==> final(self).position() == old(self).position(),
            tile_of(old_pos) != tile_of(new_pos) ==> final(self).position() == Position::Current(
                new_pos,
            ),
    {
        let o = tile_of_exec(old_pos);
        let n = tile_of_exec(new_pos);
        let mut rects: Vec<Rect<i32>> = Vec::new();
        if o.x == n.x && o.y == n.y {
            proof {
                assert(rects@ =~= incremental_rects(tile_of(old_pos), tile_of(new_pos)));
            }
            return ScrollUpdate { status: PartialUpdateStatus::Done, rects };
        }
        let ghost s0 = rects@;
        if o.x > n.x {
            rects.push(Rect::new(n, vec2(o.x - n.x, ONE_MORE_THAN_SCREEN_HEIGHT)));
        }
        let ghost s1 = rects@;
        if o.x < n.x {
            rects.push(
                Rect::new(
                    vec2(o.x + ONE_MORE_THAN_SCREEN_WIDTH, o.y),
                    vec2(n.x - o.x, ONE_MORE_THAN_SCREEN_HEIGHT),
                ),
            );
        }
        let ghost s2 = rects@;
        if o.y > n.y {
            rects.push(Rect::new(n, vec2(ONE_MORE_THAN_SCREEN_WIDTH, o.y - n.y)));
        }
        let ghost s3 = rects@;
        if o.y < n.y {
            rects.push(
                Rect::new(
                    vec2(n.x, o.y + ONE_MORE_THAN_SCREEN_HEIGHT),
                    vec2(ONE_MORE_THAN_SCREEN_WIDTH, n.y - o.y),
                ),
            );
        }
        proof {
            assert(rects@ =~= incremental_rects(tile_of(old_pos), tile_of(new_pos)));
        }
        self.current_pos = Position::Current(new_pos);
        ScrollUpdate { status: PartialUpdateStatus::Done, rects }
    }

    /// Scrolls to `new_pos` and says which tiles to refresh: the tiles that
    /// came into view when the screen moved by less than its size, else two
    /// rows of the screen, continuing where the last call left off when it
    /// was filling the same screen. The background itself scrolls to
    /// `new_pos`; the returned status is what `partial_update_status` gives
    /// afterwards.
    pub fn set_scroll_pos(&mut self, new_pos: Vector2D<i32>) -> (r: ScrollUpdate)
        requires
            old(self).wf(),
            old(self).can_scroll_to(new_pos),
        ensures
            final(self).wf(),
            final(self).scroll_spec() == new_pos,
            final(self).priority_spec() == old(self).priority_spec(),
            r.status == final(self).status_spec(),
            ({
                let start = old(self).start_position(new_pos);
                let w = tile_of(new_pos);
                match start {
                    Position::Current(old_pos) => {
                        &&& r.status == PartialUpdateStatus::Done
                        &&& r.rects@ == incremental_rects(tile_of(old_pos), w)
                        &&& final(self).position() == if tile_of(old_pos) == w {
                            start
                        } else {
                            Position::Current(new_pos)
                        }
                    },
                    _ => {
                        let done = match start {
                            Position::Working { position, work_done } => if (
                            position.x as int, position.y as int) == w {
                                work_done as int
                            } else {
                                0
                            },
                            _ => 0,
                        };
                        &&& r.rects@ == seq![initial_rect(w, done)]
                        &&& if done + ROWS_TO_COPY_IN_ONE_CALL < ONE_MORE_THAN_SCREEN_HEIGHT {
                            &&& r.status == PartialUpdateStatus::Continue
                            &&& final(self).position() == Position::Working {
                                position: Vector2D { x: w.0 as i32, y: w.1 as i32 },
                                work_done: (done + ROWS_TO_COPY_IN_ONE_CALL) as u32,
                            }
                        } else {
                            &&& r.status == PartialUpdateStatus::Done
                            &&& final(self).position() == Position::Current(new_pos)
                        }
                    },
                }
            }),
    {
        self.scroll = new_pos;
        let current = match self.current_pos {
            Position::Current(p) => Some(p),
            Position::Working { position, .. } => Some(vec2(position.x * 8, position.y * 8)),
            Position::Unset => None,
        };
        match current {
            Some(c) => {
                let dx = c.x - new_pos.x;
                let dy = c.y - new_pos.y;
                let ax = if dx < 0 {
                    -dx
                } else {
                    dx
                };
                let ay = if dy < 0 {
                    -dy
                } else {
                    dy
                };
                if ax >= SCREEN_WIDTH || ay >= SCREEN_HEIGHT {
                    self.current_pos = Position::Unset;
                }
            },
            None => {},
        }
        match self.current_pos {
            Position::Current(old_pos) => self.incremental_update(old_pos, new_pos),
            _ => self.do_initial_case(new_pos),
        }
    }

    /// Whether the background has finished rendering: the same value as the
    /// last call of `set_scroll_pos` returned.
    pub fn partial_update_status(&self) -> (r: PartialUpdateStatus)
        ensures
            r == self.status_spec(),
    {
        match self.current_pos {
            Position::Current(_) => PartialUpdateStatus::Done,
            _ => PartialUpdateStatus::Continue,
        }
    }

    /// The current scroll position.
    pub fn scroll_pos(&self) -> (r: Vector2D<i32>)
        ensures
            r == self.scroll_spec(),
    {
        self.scroll
    }

    /// Sets the priority of the underlying map.
    pub fn set_priority(&mut self, priority: Priority)
        ensures
            final(self).priority_spec() == priority,
            final(self).scroll_spec() == old(self).scroll_spec(),
            final(self).position() == old(self).position(),
    {
        self.priority = priority;
    }

    /// The priority of the underlying map.
    pub fn priority(&self) -> (r: Priority)
        ensures
            r == self.priority_spec(),
    {
        self.priority
    }

    /// Whether the map is to be shown by `show_if_done`: only once the whole
    /// screen has been filled.
    pub fn show_if_done(&self) -> (r: bool)
        ensures
            r == (self.status_spec() == PartialUpdateStatus::Done),
    {
        match self.current_pos {
            Position::Current(_) => true,
            _ => false,
        }
    }
}

/// The tiles of `r`, row by row: `x` from `position.x` up to but not including
/// `position.x + size.x`, for each `y` likewise.
pub fn rect_tiles(r: Rect<i32>) -> (out: Vec<Vector2D<i32>>)
    requires
        r.size.x >= 0,
        r.size.y >= 0,
        fits_i32(r.position.x + r.size.x),
        fits_i32(r.position.y + r.size.y),
        r.size.x * r.size.y <= usize::MAX,
    ensures
        out@.len() == r.size.x * r.size.y,
        forall|j: int, i: int|
            0 <= j < r.size.y && 0 <= i < r.size.x ==> #[trigger] out@[j * r.size.x + i]
                == (Vector2D { x: (r.position.x + i) as i32, y: (r.position.y + j) as i32 }),
{
    let mut out: Vec<Vector2D<i32>> = Vec::new();
    let ghost w: int = r.size.x as int;
    let mut j: i32 = 0;
    while j < r.size.y
        invariant
            0 <= j <= r.size.y,
            r.size.x >= 0,
            w == r.size.x,
            fits_i32(r.position.x + r.size.x),
            fits_i32(r.position.y + r.size.y),
            r.size.x * r.size.y <= usize::MAX,
            out@.len() == j * w,
            forall|jj: int, i: int|
                0 <= jj < j && 0 <= i < w ==> #[trigger] out@[jj * w + i] == (Vector2D {
                    x: (r.position.x + i) as i32,
                    y: (r.position.y + jj) as i32,
                }),
        decreases r.size.y - j,
    {
        let ghost prefix = out@;
        proof {
            assert((j + 1) * w <= r.size.y * w) by (nonlinear_arith)
                requires j + 1 <= r.size.y, w >= 0;
            assert((j + 1) * w == j * w + w) by (nonlinear_arith);
        }
        let mut i: i32 = 0;
        while i < r.size.x
            invariant
                0 <= i <= r.size.x,
                0 <= j < r.size.y,
                w == r.size.x,
                fits_i32(r.position.x + r.size.x),
                fits_i32(r.position.y + r.size.y),
                (j + 1) * w <= usize::MAX,
                prefix.len() == j * w,
                out@.len() == j * w + i,
                forall|k: int| 0 <= k < j * w ==> #[trigger] out@[k] == prefix[k],
                forall|ii: int|
                    0 <= ii < i ==> #[trigger] out@[j * w + ii] == (Vector2D {
                        x: (r.position.x + ii) as i32,
                        y: (r.position.y + j) as i32,
                    }),
            decreases r.size.x - i,
        {
            out.push(vec2(r.position.x + i, r.position.y + j));
            i = i + 1;
        }
        proof {
            assert forall|jj: int, ii: int|
                0 <= jj < j + 1 && 0 <= ii < w implies #[trigger] out@[jj * w + ii] == (Vector2D {
                x: (r.position.x + ii) as i32,
                y: (r.position.y + jj) as i32,
            }) by {
                if jj < j {
                    assert(0 <= jj * w + ii < j * w) by (nonlinear_arith)
                        requires 0 <= jj < j, 0 <= ii < w;
                    assert(out@[jj * w + ii] == prefix[jj * w + ii]);
                }
            }
        }
        j = j + 1;
    }
    proof {
        assert(out@.len() == r.size.x * r.size.y) by (nonlinear_arith)
            requires out@.len() == j * w, j == r.size.y, w == r.size.x;
    }
    out
}

/// Every tile that comes into view when the screen's top left tile moves from
/// `o` to `n` is among the tiles refreshed.
pub proof fn lemma_incremental_covers_new_tiles(o: (int, int), n: (int, int), q: (int, int))
    requires
        tile_in_range(o),
        tile_in_range(n),
        in_window(n, q),
        !in_window(o, q),
    ensures
        covered(incremental_rects(o, n), q),
{
    let rects = incremental_rects(o, n);
    let first_rows: int = if o.0 != n.0 {
        1
    } else {
        0
    };
    if q.0 < o.0 {
        assert(rect_has(rects[0], q));
    } else if q.0 >= o.0 + ONE_MORE_THAN_SCREEN_WIDTH {
        if q.1 < o.1 || q.1 >= o.1 + ONE_MORE_THAN_SCREEN_HEIGHT {
            assert(rect_has(rects[first_rows], q));
        } else {
            assert(rect_has(rects[0], q));
        }
    } else if q.1 < o.1 {
        assert(rect_has(rects[first_rows], q));
    } else {
        assert(rect_has(rects[first_rows], q));
    }
}

/// A tile position: a pixel position divided by eight.
pub open spec fn tile_in_range(t: (int, int)) -> bool {
    &&& i32::MIN / 8 <= t.0 <= i32::MAX / 8
    &&& i32::MIN / 8 <= t.1 <= i32::MAX / 8
}

/// Filling from scratch, two rows per call from row zero, covers every tile
/// of the screen by the call that reports the screen done.
pub proof fn lemma_initial_fills_window(w: (int, int), q: (int, int))
    requires
        tile_in_range(w),
        in_window(w, q),
    ensures
        exists|k: int|
            0 <= k && k * ROWS_TO_COPY_IN_ONE_CALL < ONE_MORE_THAN_SCREEN_HEIGHT && rect_has(
                #[trigger] initial_rect(w, k * ROWS_TO_COPY_IN_ONE_CALL),
                q,
            ),
{
    let k = (q.1 - w.1) / 2;
    assert(rect_has(initial_rect(w, k * ROWS_TO_COPY_IN_ONE_CALL), q));
}

} // verus!

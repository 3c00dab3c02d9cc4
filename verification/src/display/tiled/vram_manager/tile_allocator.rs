//! Allocation of tiles in video RAM.
//!
//! Tiles come in two sizes: a 4 bits per pixel tile takes 32 bytes and an
//! 8 bits per pixel tile takes 64, the size of two 4bpp tiles. The allocator
//! hands out 8bpp blocks from a stack of free blocks, and splits a block into
//! two 4bpp tiles (buddies) when a 4bpp tile is wanted and no free one is left.
//! When both buddies are free again they are merged back into a free block.
//!
//! Tiles are named by their index in units of 4bpp tiles; a block is named by
//! the index of its first (even) tile.
use super::TileFormat;
use vstd::prelude::*;

verus! {

/// Whether bit `b` of `w` is set.
pub open spec fn bit_set(w: u16, b: int) -> bool {
    w & (1u16 << (b as u16)) != 0
}

/// Setting bit `a` leaves the other bits alone and sets bit `a`.
proof fn lemma_set_bit(w: u16, a: u16, b: u16)
    requires
        a < 16,
        b < 16,
    ensures
        ((w | (1u16 << a)) & (1u16 << b) != 0) == (a == b || w & (1u16 << b) != 0),
{
    assert(((w | (1u16 << a)) & (1u16 << b) != 0) == (a == b || w & (1u16 << b) != 0))
        by (bit_vector)
        requires
            a < 16,
            b < 16,
    ;
}

/// Clearing bit `a` leaves the other bits alone and clears bit `a`.
proof fn lemma_clear_bit(w: u16, a: u16, b: u16)
    requires
        a < 16,
        b < 16,
    ensures
        ((w & !(1u16 << a)) & (1u16 << b) != 0) == (a != b && w & (1u16 << b) != 0),
{
    assert(((w & !(1u16 << a)) & (1u16 << b) != 0) == (a != b && w & (1u16 << b) != 0))
        by (bit_vector)
        requires
            a < 16,
            b < 16,
    ;
}

/// The index of a tile's buddy: the other half of its block.
pub open spec fn buddy(i: int) -> int {
    if i % 2 == 0 {
        i + 1
    } else {
        i - 1
    }
}

/// The block (its first tile) a tile belongs to.
pub open spec fn block_of(i: int) -> int {
    i - i % 2
}

/// Pushing `x` adds exactly `x` to the values held.
proof fn lemma_push_contains(s: Seq<usize>, x: usize, y: usize)
    ensures
        s.push(x).contains(y) == (s.contains(y) || x == y),
{
    if s.contains(y) {
        let k = s.index_of(y);
        assert(s.push(x)[k] == y);
    }
    if x == y {
        assert(s.push(x)[s.len() as int] == y);
    }
    if s.push(x).contains(y) {
        let k = s.push(x).index_of(y);
        if k < s.len() {
            assert(s[k] == y);
        }
    }
}

/// Pushing a value not held keeps the values distinct.
proof fn lemma_push_no_duplicates(s: Seq<usize>, x: usize)
    requires
        s.no_duplicates(),
        !s.contains(x),
    ensures
        s.push(x).no_duplicates(),
{
    assert forall|a: int, b: int| 0 <= a < b < s.push(x).len() implies s.push(x)[a] != s.push(x)[b] by {
        if b == s.len() {
            assert(s[a] == s.push(x)[a]);
        }
    }
}

/// Removing the element at `k` of a sequence of distinct values removes
/// exactly that value.
proof fn lemma_remove_contains(s: Seq<usize>, k: int, y: usize)
    requires
        s.no_duplicates(),
        0 <= k < s.len(),
    ensures
        s.remove(k).contains(y) == (s.contains(y) && y != s[k]),
        s.remove(k).no_duplicates(),
{
    s.remove_ensures(k);
    if s.contains(y) && y != s[k] {
        let j = s.index_of(y);
        if j < k {
            assert(s.remove(k)[j] == y);
        } else {
            assert(j != k);
            assert(s.remove(k)[j - 1] == y);
        }
    }
    if s.remove(k).contains(y) {
        let j = s.remove(k).index_of(y);
        if j < k {
            assert(s[j] == y);
        } else {
            assert(s[j + 1] == y);
            assert(j + 1 != k);
        }
    }
    assert forall|a: int, b: int| 0 <= a < b < s.remove(k).len() implies s.remove(k)[a] != s.remove(
        k,
    )[b] by {
        let oa = if a < k {
            a
        } else {
            a + 1
        };
        let ob = if b < k {
            b
        } else {
            b + 1
        };
        assert(s.remove(k)[a] == s[oa]);
        assert(s.remove(k)[b] == s[ob]);
    }
}

/// Dropping the last element of a sequence of distinct values removes exactly
/// that value.
proof fn lemma_drop_last_contains(s: Seq<usize>, y: usize)
    requires
        s.no_duplicates(),
        s.len() > 0,
    ensures
        s.drop_last().contains(y) == (s.contains(y) && y != s.last()),
        s.drop_last().no_duplicates(),
{
    assert(s.drop_last() == s.remove(s.len() - 1));
    lemma_remove_contains(s, s.len() - 1, y);
}

/// The allocator of one region of video RAM holding `n_tiles` 4bpp tiles.
pub struct TileAllocatorInner {
    usage: Vec<u16>,
    n_tiles: usize,
    free_8bpp: Vec<usize>,
    free_4bpp: Vec<usize>,
    allocated_8bpp: Ghost<Set<int>>,
}

impl TileAllocatorInner {
    /// The number of 4bpp tiles in the region.
    pub closed spec fn size(self) -> int {
        self.n_tiles as int
    }

    /// Whether tile `i` is allocated as a 4bpp tile.
    pub closed spec fn used_4bpp(self, i: int) -> bool {
        0 <= i < self.n_tiles && bit_set(self.usage@[i / 16], i % 16)
    }

    /// The free blocks, the next one to be handed out last.
    pub closed spec fn free_blocks(self) -> Seq<usize> {
        self.free_8bpp@
    }

    /// The free 4bpp tiles whose buddy is in use, the next one to be handed
    /// out last.
    pub closed spec fn free_tiles(self) -> Seq<usize> {
        self.free_4bpp@
    }

    /// The blocks allocated as 8bpp tiles.
    pub closed spec fn allocated_blocks(self) -> Set<int> {
        self.allocated_8bpp@
    }

    /// Whether tile `i` can be handed out: it lies in a free block, or it is
    /// a free 4bpp tile.
    pub open spec fn is_free(self, i: int) -> bool {
        self.free_blocks().contains(block_of(i) as usize) || self.free_tiles().contains(
            i as usize,
        )
    }

    /// Whether tile `i` is handed out, as a 4bpp tile or as part of an 8bpp
    /// block.
    pub open spec fn is_allocated(self, i: int) -> bool {
        self.used_4bpp(i) || self.allocated_blocks().contains(block_of(i))
    }

    /// A free block: both its tiles are unused and it is held nowhere else.
    pub closed spec fn free_block_ok(self, e: int) -> bool {
        &&& e % 2 == 0
        &&& 0 <= e < self.n_tiles
        &&& !self.used_4bpp(e)
        &&& !self.used_4bpp(e + 1)
        &&& !self.free_4bpp@.contains(e as usize)
        &&& !self.free_4bpp@.contains((e + 1) as usize)
        &&& !self.allocated_8bpp@.contains(e)
    }

    /// A free 4bpp tile: unused, its buddy in use, its block neither free nor
    /// allocated as a whole.
    pub closed spec fn free_tile_ok(self, t: int) -> bool {
        &&& 0 <= t < self.n_tiles
        &&& !self.used_4bpp(t)
        &&& self.used_4bpp(buddy(t))
        &&& !self.allocated_8bpp@.contains(block_of(t))
        &&& !self.free_8bpp@.contains(block_of(t) as usize)
    }

    /// A block allocated as an 8bpp tile: both its tiles unused as 4bpp tiles
    /// and it is held nowhere else.
    pub closed spec fn allocated_block_ok(self, e: int) -> bool {
        &&& e % 2 == 0
        &&& 0 <= e < self.n_tiles
        &&& !self.used_4bpp(e)
        &&& !self.used_4bpp(e + 1)
        &&& !self.free_8bpp@.contains(e as usize)
        &&& !self.free_4bpp@.contains(e as usize)
        &&& !self.free_4bpp@.contains((e + 1) as usize)
    }

    /// A tile in use as a 4bpp tile is held nowhere else.
    pub closed spec fn used_ok(self, i: int) -> bool {
        &&& !self.free_8bpp@.contains(block_of(i) as usize)
        &&& !self.allocated_8bpp@.contains(block_of(i))
        &&& !self.free_4bpp@.contains(i as usize)
    }

    /// A split block keeps its free half among the free 4bpp tiles.
    pub closed spec fn block_consistent(self, e: int) -> bool {
        &&& (self.used_4bpp(e) && !self.used_4bpp(e + 1)) ==> self.free_4bpp@.contains(
            (e + 1) as usize,
        )
        &&& (self.used_4bpp(e + 1) && !self.used_4bpp(e)) ==> self.free_4bpp@.contains(e as usize)
    }

    /// The allocator's invariant: every block is exactly one of free,
    /// allocated as an 8bpp tile, or split into two 4bpp tiles of which at
    /// least one is in use and the other, if unused, is a free 4bpp tile.
    pub closed spec fn wf(self) -> bool {
        &&& self.n_tiles % 2 == 0
        &&& self.n_tiles <= 0x10000
        &&& self.usage@.len() == (self.n_tiles + 15) / 16
        &&& self.free_8bpp@.no_duplicates()
        &&& self.free_4bpp@.no_duplicates()
        &&& forall|e: usize| #[trigger] self.free_8bpp@.contains(e) ==> self.free_block_ok(e as int)
        &&& forall|t: usize| #[trigger] self.free_4bpp@.contains(t) ==> self.free_tile_ok(t as int)
        &&& forall|e: int|
            #[trigger] self.allocated_8bpp@.contains(e) ==> self.allocated_block_ok(e)
        &&& forall|i: int| #[trigger] self.used_4bpp(i) ==> self.used_ok(i)
        &&& forall|e: int|
            0 <= e < self.n_tiles && e % 2 == 0 ==> #[trigger] self.block_consistent(e)
    }

    /// An allocator for `n_4bpp_tiles` tiles, all free. The blocks are handed
    /// out from the first one upwards.
    pub fn new(n_4bpp_tiles: usize) -> (r: Self)
        requires
            n_4bpp_tiles % 2 == 0,
            n_4bpp_tiles <= 0x10000,
        ensures
            r.wf(),
            r.size() == n_4bpp_tiles,
            r.free_blocks().len() == n_4bpp_tiles / 2,
            forall|k: int|
                0 <= k < n_4bpp_tiles / 2 ==> #[trigger] r.free_blocks()[k] == n_4bpp_tiles - 2
                    - 2 * k,
            r.free_tiles() == Seq::<usize>::empty(),
            r.allocated_blocks() == Set::<int>::empty(),
            forall|i: int| #![trigger r.used_4bpp(i)] !r.used_4bpp(i),
    {
        let words = (n_4bpp_tiles + 15) / 16;
        let mut usage: Vec<u16> = Vec::new();
        let mut i: usize = 0;
        while i < words
            invariant
                i <= words,
                usage@.len() == i,
                forall|j: int| 0 <= j < i ==> usage@[j] == 0,
            decreases words - i,
        {
            usage.push(0);
            i = i + 1;
        }
        let mut free: Vec<usize> = Vec::new();
        let half = n_4bpp_tiles / 2;
        let mut k: usize = 0;
        while k < half
            invariant
                k <= half,
                half == n_4bpp_tiles / 2,
                n_4bpp_tiles % 2 == 0,
                free@.len() == k,
                forall|j: int| 0 <= j < k ==> #[trigger] free@[j] == n_4bpp_tiles - 2 - 2 * j,
            decreases half - k,
        {
            free.push(n_4bpp_tiles - 2 - 2 * k);
            k = k + 1;
        }
        let r = TileAllocatorInner {
            usage,
            n_tiles: n_4bpp_tiles,
            free_8bpp: free,
            free_4bpp: Vec::new(),
            allocated_8bpp: Ghost(Set::empty()),
        };
        assert forall|i: int| #![trigger r.used_4bpp(i)] !r.used_4bpp(i) by {
            if 0 <= i < r.n_tiles {
                assert(r.usage@[i / 16] == 0);
                assert(0u16 & (1u16 << ((i % 16) as u16)) == 0) by (bit_vector);
            }
        }
        assert(r.free_8bpp@.no_duplicates()) by {
            assert forall|a: int, b: int|
                0 <= a < b < r.free_8bpp@.len() implies r.free_8bpp@[a] != r.free_8bpp@[b] by {}
        }
        assert forall|e: usize| #[trigger] r.free_8bpp@.contains(e) implies r.free_block_ok(
            e as int,
        ) by {
            let j = r.free_8bpp@.index_of(e);
            assert(r.free_8bpp@[j] == e);
            assert(!r.used_4bpp(e as int));
            assert(!r.used_4bpp(e + 1));
        }
        assert forall|e: int|
            0 <= e < r.n_tiles && e % 2 == 0 implies #[trigger] r.block_consistent(e) by {
            assert(!r.used_4bpp(e));
            assert(!r.used_4bpp(e + 1));
        }
        r
    }

    /// Sets the usage bit of tile `i`.
    fn mark_used(&mut self, i: usize, value: bool)
        requires
            i < old(self).n_tiles,
            old(self).usage@.len() == (old(self).n_tiles + 15) / 16,
        ensures
            final(self).n_tiles == old(self).n_tiles,
            final(self).usage@.len() == old(self).usage@.len(),
            final(self).free_8bpp == old(self).free_8bpp,
            final(self).free_4bpp == old(self).free_4bpp,
            final(self).allocated_8bpp == old(self).allocated_8bpp,
            final(self).used_4bpp(i as int) == value,
            forall|j: int| j != i ==> #[trigger] final(self).used_4bpp(j) == old(self).used_4bpp(j),
    {
        let idx = i / 16;
        let bit = (i % 16) as u16;
        let mask: u16 = 1u16 << bit;
        let w = self.usage[idx];
        let nw = if value {
            w | mask
        } else {
            w & !mask
        };
        self.usage.set(idx, nw);
        proof {
            assert forall|j: int| j != i implies #[trigger] self.used_4bpp(j) == old(self).used_4bpp(
                j,
            ) by {
                if 0 <= j < self.n_tiles && j / 16 == idx as int {
                    let b = (j % 16) as u16;
                    assert(b != bit);
                    if value {
                        lemma_set_bit(w, bit, b);
                    } else {
                        lemma_clear_bit(w, bit, b);
                    }
                }
            }
            if value {
                lemma_set_bit(w, bit, bit);
            } else {
                lemma_clear_bit(w, bit, bit);
            }
        }
    }

    /// Takes the next free block, marking it allocated as an 8bpp tile, or
    /// `None` when no block is free.
    pub fn allocate_8bpp(&mut self) -> (r: Option<usize>)
        requires
            old(self).wf(),
        ensures
            final(self).wf(),
            final(self).size() == old(self).size(),
            old(self).free_blocks().len() == 0 ==> r is None && final(self).free_blocks() == old(self).free_blocks() && final(self).allocated_blocks() == old(self).allocated_blocks(),
            old(self).free_blocks().len() > 0 ==> {
                &&& r == Some(old(self).free_blocks().last())
                &&& final(self).free_blocks() == old(self).free_blocks().drop_last()
                &&& final(self).allocated_blocks() == old(self).allocated_blocks().insert(
                    r->Some_0 as int,
                )
            },
            final(self).free_tiles() == old(self).free_tiles(),
            forall|i: int| #[trigger] final(self).used_4bpp(i) == old(self).used_4bpp(i),
            r is None ==> *final(self) == *old(self),
    {
        let ghost old_self = *self;
        if self.free_8bpp.len() == 0 {
            return None;
        }
        let e = self.free_8bpp.pop().unwrap();
        proof {
            assert(old_self.free_8bpp@.drop_last() == self.free_8bpp@);
            assert(old_self.free_8bpp@.last() == e);
            assert(old_self.free_8bpp@.contains(e)) by {
                assert(old_self.free_8bpp@[old_self.free_8bpp@.len() - 1] == e);
            }
            assert(old_self.free_block_ok(e as int));
            self.allocated_8bpp@ = self.allocated_8bpp@.insert(e as int);
            assert forall|y: usize| #![auto] true implies self.free_8bpp@.contains(y) == (
            old_self.free_8bpp@.contains(y) && y != e) by {
                lemma_drop_last_contains(old_self.free_8bpp@, y);
            }
            lemma_drop_last_contains(old_self.free_8bpp@, e);
            assert forall|f: usize| #[trigger] self.free_8bpp@.contains(f) implies self.free_block_ok(
                f as int,
            ) by {
                assert(old_self.free_8bpp@.contains(f));
                assert(old_self.free_block_ok(f as int));
            }
            assert forall|t: usize| #[trigger] self.free_4bpp@.contains(t) implies self.free_tile_ok(
                t as int,
            ) by {
                assert(old_self.free_tile_ok(t as int));
                assert(block_of(t as int) != e as int) by {
                    if block_of(t as int) == e as int {
                        assert(t == e || t == e + 1);
                    }
                }
            }
            assert forall|b: int| #[trigger] self.allocated_8bpp@.contains(
                b,
            ) implies self.allocated_block_ok(b) by {
                if b != e as int {
                    assert(old_self.allocated_block_ok(b));
                }
            }
            assert forall|i: int| #[trigger] self.used_4bpp(i) implies self.used_ok(i) by {
                assert(old_self.used_ok(i));
                assert(block_of(i) != e as int) by {
                    if block_of(i) == e as int {
                        assert(i == e || i == e + 1);
                    }
                }
            }
            assert forall|b: int|
                0 <= b < self.n_tiles && b % 2 == 0 implies #[trigger] self.block_consistent(b) by {
                assert(old_self.block_consistent(b));
            }
        }
        Some(e)
    }

    /// Hands out a 4bpp tile: the next free 4bpp tile if there is one, else
    /// the first half of the next free block, whose second half becomes a free
    /// 4bpp tile. `None` when neither exists.
    pub fn allocate_4bpp(&mut self) -> (r: Option<usize>)
        requires
            old(self).wf(),
        ensures
            final(self).wf(),
            final(self).size() == old(self).size(),
            final(self).allocated_blocks() == old(self).allocated_blocks(),
            old(self).free_tiles().len() > 0 ==> {
                &&& r == Some(old(self).free_tiles().last())
                &&& final(self).free_tiles() == old(self).free_tiles().drop_last()
                &&& final(self).free_blocks() == old(self).free_blocks()
            },
            old(self).free_tiles().len() == 0 && old(self).free_blocks().len() > 0 ==> {
                &&& r == Some(old(self).free_blocks().last())
                &&& final(self).free_blocks() == old(self).free_blocks().drop_last()
                &&& final(self).free_tiles() == seq![(r->Some_0 + 1) as usize]
            },
            old(self).free_tiles().len() == 0 && old(self).free_blocks().len() == 0 ==> r is None
                && final(self).free_blocks() == old(self).free_blocks() && final(self).free_tiles()
                == old(self).free_tiles(),
            r is None ==> *final(self) == *old(self),
            r is Some ==> {
                &&& old(self).is_free(r->Some_0 as int)
                &&& !old(self).is_allocated(r->Some_0 as int)
                &&& final(self).used_4bpp(r->Some_0 as int)
                &&& forall|j: int|
                    j != r->Some_0 ==> #[trigger] final(self).used_4bpp(j) == old(self).used_4bpp(j)
            },
    {
        let ghost old_self = *self;
        if self.free_4bpp.len() > 0 {
            let t = self.free_4bpp.pop().unwrap();
            let ghost ti = t as int;
            proof {
                assert(old_self.free_4bpp@.drop_last() == self.free_4bpp@);
                assert(old_self.free_4bpp@.contains(t)) by {
                    assert(old_self.free_4bpp@[old_self.free_4bpp@.len() - 1] == t);
                }
                assert(old_self.free_tile_ok(ti));
                assert forall|y: usize| #![auto] true implies self.free_4bpp@.contains(y) == (
                old_self.free_4bpp@.contains(y) && y != t) by {
                    lemma_drop_last_contains(old_self.free_4bpp@, y);
                }
                lemma_drop_last_contains(old_self.free_4bpp@, t);
            }
            self.mark_used(t, true);
            proof {
                assert(old_self.is_free(ti));
                assert(!old_self.is_allocated(ti));
                assert forall|f: usize| #[trigger] self.free_8bpp@.contains(
                    f,
                ) implies self.free_block_ok(f as int) by {
                    assert(old_self.free_8bpp@.contains(f));
                    assert(old_self.free_block_ok(f as int));
                    assert(block_of(ti) != f as int);
                    assert(ti != f as int && ti != f + 1);
                }
                assert forall|u: usize| #[trigger] self.free_4bpp@.contains(
                    u,
                ) implies self.free_tile_ok(u as int) by {
                    assert(old_self.free_4bpp@.contains(u));
                    assert(old_self.free_tile_ok(u as int));
                    assert(u as int != ti);
                }
                assert forall|b: int| #[trigger] self.allocated_8bpp@.contains(
                    b,
                ) implies self.allocated_block_ok(b) by {
                    assert(old_self.allocated_block_ok(b));
                    assert(b != block_of(ti));
                    assert(ti != b && ti != b + 1);
                }
                assert forall|i: int| #[trigger] self.used_4bpp(i) implies self.used_ok(i) by {
                    if i != ti {
                        assert(old_self.used_ok(i));
                    }
                }
                assert forall|b: int|
                    0 <= b < self.n_tiles && b % 2 == 0 implies #[trigger] self.block_consistent(
                    b,
                ) by {
                    assert(old_self.block_consistent(b));
                    if b == block_of(ti) {
                        assert(ti == b || ti == b + 1);
                        assert(buddy(ti) == b || buddy(ti) == b + 1);
                    } else {
                        assert(ti != b && ti != b + 1);
                    }
                }
            }
            Some(t)
        } else {
            match self.allocate_8bpp() {
                None => None,
                Some(e) => {
                    let ghost mid = *self;
                    let ghost ei = e as int;
                    proof {
                        self.allocated_8bpp@ = self.allocated_8bpp@.remove(e as int);
                        assert(old_self.free_8bpp@.contains(e)) by {
                            assert(old_self.free_8bpp@[old_self.free_8bpp@.len() - 1] == e);
                        }
                        assert(old_self.free_block_ok(ei));
                        assert(self.allocated_8bpp@ =~= old_self.allocated_8bpp@);
                        lemma_drop_last_contains(old_self.free_8bpp@, e);
                        assert forall|y: usize| #![auto] true implies self.free_8bpp@.contains(y) == (
                        old_self.free_8bpp@.contains(y) && y != e) by {
                            lemma_drop_last_contains(old_self.free_8bpp@, y);
                        }
                    }
                    self.free_4bpp.push(e + 1);
                    let ghost pushed = *self;
                    self.mark_used(e, true);
                    proof {
                        assert(block_of(ei) == ei);
                        assert(old_self.is_free(ei));
                        assert(!old_self.is_allocated(ei));
                        assert forall|j: int| #![auto] true implies pushed.used_4bpp(j) == old_self.used_4bpp(j) by {
                            assert(mid.used_4bpp(j) == old_self.used_4bpp(j));
                        }
                        assert(self.free_4bpp@ == seq![(e + 1) as usize]);
                        assert forall|y: usize| #![auto] true implies self.free_4bpp@.contains(y) == (
                        y == e + 1) by {
                            if y == e + 1 {
                                assert(self.free_4bpp@[0] == y);
                            }
                        }
                        assert forall|f: usize| #[trigger] self.free_8bpp@.contains(
                            f,
                        ) implies self.free_block_ok(f as int) by {
                            assert(old_self.free_8bpp@.contains(f));
                            assert(old_self.free_block_ok(f as int));
                            assert(f != e);
                        }
                        assert forall|u: usize| #[trigger] self.free_4bpp@.contains(
                            u,
                        ) implies self.free_tile_ok(u as int) by {
                            assert(u == e + 1);
                            assert(buddy(u as int) == ei);
                            assert(block_of(u as int) == ei);
                        }
                        assert forall|b: int| #[trigger] self.allocated_8bpp@.contains(
                            b,
                        ) implies self.allocated_block_ok(b) by {
                            assert(old_self.allocated_block_ok(b));
                            assert(b != ei);
                        }
                        assert forall|i: int| #[trigger] self.used_4bpp(i) implies self.used_ok(
                            i,
                        ) by {
                            if i != ei {
                                assert(old_self.used_4bpp(i));
                                assert(old_self.used_ok(i));
                                assert(i != ei + 1);
                                assert(block_of(i) != ei);
                            }
                        }
                        assert forall|b: int|
                            0 <= b < self.n_tiles && b % 2 == 0 implies #[trigger] self.block_consistent(
                            b,
                        ) by {
                            assert(old_self.block_consistent(b));
                        }
                    }
                    Some(e)
                },
            }
        }
    }

    /// Gives back the 8bpp block `block`: it becomes the next block handed out.
    pub fn dealloc_8bpp(&mut self, block: usize)
        requires
            old(self).wf(),
            old(self).allocated_blocks().contains(block as int),
        ensures
            final(self).wf(),
            final(self).size() == old(self).size(),
            final(self).free_blocks() == old(self).free_blocks().push(block),
            final(self).free_tiles() == old(self).free_tiles(),
            final(self).allocated_blocks() == old(self).allocated_blocks().remove(block as int),
            forall|i: int| #[trigger] final(self).used_4bpp(i) == old(self).used_4bpp(i),
    {
        let ghost old_self = *self;
        self.free_8bpp.push(block);
        proof {
            let b = block as int;
            assert(old_self.allocated_block_ok(b));
            self.allocated_8bpp@ = self.allocated_8bpp@.remove(b);
            lemma_push_no_duplicates(old_self.free_8bpp@, block);
            assert forall|y: usize| #![auto] true implies self.free_8bpp@.contains(y) == (
            old_self.free_8bpp@.contains(y) || y == block) by {
                lemma_push_contains(old_self.free_8bpp@, block, y);
            }
            assert forall|f: usize| #[trigger] self.free_8bpp@.contains(f) implies self.free_block_ok(
                f as int,
            ) by {
                if f != block {
                    assert(old_self.free_8bpp@.contains(f));
                    assert(old_self.free_block_ok(f as int));
                }
            }
            assert forall|u: usize| #[trigger] self.free_4bpp@.contains(u) implies self.free_tile_ok(
                u as int,
            ) by {
                assert(old_self.free_tile_ok(u as int));
                assert(block_of(u as int) != b) by {
                    if block_of(u as int) == b {
                        assert(u == block || u == block + 1);
                    }
                }
            }
            assert forall|c: int| #[trigger] self.allocated_8bpp@.contains(
                c,
            ) implies self.allocated_block_ok(c) by {
                assert(old_self.allocated_block_ok(c));
            }
            assert forall|i: int| #[trigger] self.used_4bpp(i) implies self.used_ok(i) by {
                assert(old_self.used_ok(i));
                assert(block_of(i) != b) by {
                    if block_of(i) == b {
                        assert(i == b || i == b + 1);
                    }
                }
            }
            assert forall|c: int|
                0 <= c < self.n_tiles && c % 2 == 0 implies #[trigger] self.block_consistent(c) by {
                assert(old_self.block_consistent(c));
            }
        }
    }

    /// Gives back the 4bpp tile `tile`. When its buddy is still in use it
    /// becomes the next 4bpp tile handed out; when its buddy is free too, the
    /// buddy leaves the free tiles and the block they form becomes the next
    /// block handed out.
    pub fn dealloc_4bpp(&mut self, tile: usize)
        requires
            old(self).wf(),
            old(self).used_4bpp(tile as int),
        ensures
            final(self).wf(),
            final(self).size() == old(self).size(),
            final(self).allocated_blocks() == old(self).allocated_blocks(),
            !final(self).used_4bpp(tile as int),
            forall|j: int| j != tile ==> #[trigger] final(self).used_4bpp(j) == old(self).used_4bpp(j),
            old(self).used_4bpp(buddy(tile as int)) ==> {
                &&& final(self).free_tiles() == old(self).free_tiles().push(tile)
                &&& final(self).free_blocks() == old(self).free_blocks()
            },
            !old(self).used_4bpp(buddy(tile as int)) ==> {
                &&& final(self).free_tiles() == old(self).free_tiles().remove_value(
                    buddy(tile as int) as usize,
                )
                &&& final(self).free_blocks() == old(self).free_blocks().push(
                    block_of(tile as int) as usize,
                )
            },
    {
        let ghost old_self = *self;
        let ghost ti = tile as int;
        proof {
            assert(old_self.used_ok(ti));
        }
        let bud = tile ^ 1;
        proof {
            assert(bud as int == buddy(ti)) by {
                assert((tile ^ 1usize) as int == (if tile % 2 == 0 {
                    tile + 1
                } else {
                    tile - 1
                })) by (bit_vector);
            }
            assert(bud < self.n_tiles);
            assert(bud != tile);
        }
        let bud_idx = bud / 16;
        let bud_bit = (bud % 16) as u16;
        let used = self.usage[bud_idx] & (1u16 << bud_bit) != 0;
        let block = tile - tile % 2;
        let ghost b = block as int;
        let ghost budi = bud as int;
        proof {
            assert(used == old_self.used_4bpp(budi));
            assert(old_self.block_consistent(b));
            assert(ti == b || ti == b + 1);
            assert(budi == b || budi == b + 1);
        }
        if used {
            self.free_4bpp.push(tile);
            let ghost pre = *self;
            self.mark_used(tile, false);
            proof {
                assert forall|j: int| #![auto] j != ti implies self.used_4bpp(j) == old_self.used_4bpp(j) by {
                    assert(pre.used_4bpp(j) == old_self.used_4bpp(j));
                }
                lemma_push_no_duplicates(old_self.free_4bpp@, tile);
                assert forall|y: usize| #![auto] true implies self.free_4bpp@.contains(y) == (
                old_self.free_4bpp@.contains(y) || y == tile) by {
                    lemma_push_contains(old_self.free_4bpp@, tile, y);
                }
                assert forall|f: usize| #[trigger] self.free_8bpp@.contains(
                    f,
                ) implies self.free_block_ok(f as int) by {
                    assert(old_self.free_8bpp@.contains(f));
                    assert(old_self.free_block_ok(f as int));
                    assert(f as int != b);
                    assert(ti != f as int && ti != f + 1);
                    assert(self.used_4bpp(f as int) == old_self.used_4bpp(f as int));
                    assert(self.used_4bpp(f + 1) == old_self.used_4bpp(f + 1));
                }
                assert forall|u: usize| #[trigger] self.free_4bpp@.contains(
                    u,
                ) implies self.free_tile_ok(u as int) by {
                    if u != tile {
                        assert(old_self.free_4bpp@.contains(u));
                        assert(old_self.free_tile_ok(u as int));
                        assert(buddy(u as int) != ti) by {
                            if buddy(u as int) == ti {
                                assert(u as int == budi);
                            }
                        }
                        assert(self.used_4bpp(u as int) == old_self.used_4bpp(u as int));
                        assert(self.used_4bpp(buddy(u as int)) == old_self.used_4bpp(buddy(u as int)));
                    } else {
                        assert(self.used_4bpp(budi) == old_self.used_4bpp(budi));
                    }
                }
                assert forall|c: int| #[trigger] self.allocated_8bpp@.contains(
                    c,
                ) implies self.allocated_block_ok(c) by {
                    assert(old_self.allocated_block_ok(c));
                    assert(c != b);
                    assert(ti != c && ti != c + 1);
                    assert(self.used_4bpp(c) == old_self.used_4bpp(c));
                    assert(self.used_4bpp(c + 1) == old_self.used_4bpp(c + 1));
                }
                assert forall|i: int| #[trigger] self.used_4bpp(i) implies self.used_ok(i) by {
                    assert(i != ti);
                    assert(old_self.used_4bpp(i));
                    assert(old_self.used_ok(i));
                }
                assert forall|c: int|
                    0 <= c < self.n_tiles && c % 2 == 0 implies #[trigger] self.block_consistent(
                    c,
                ) by {
                    assert(old_self.block_consistent(c));
                    if c == b {
                        assert(self.used_4bpp(budi));
                        assert(!self.used_4bpp(ti));
                    } else {
                        assert(ti != c && ti != c + 1);
                        assert(self.used_4bpp(c) == old_self.used_4bpp(c));
                        assert(self.used_4bpp(c + 1) == old_self.used_4bpp(c + 1));
                    }
                }
            }
        } else {
            proof {
                assert(old_self.free_4bpp@.contains(bud));
            }
            let mut k: usize = 0;
            let n = self.free_4bpp.len();
            while k < n && self.free_4bpp[k] != bud
                invariant
                    n == self.free_4bpp@.len(),
                    self.free_4bpp == old_self.free_4bpp,
                    k <= n,
                    forall|j: int| 0 <= j < k ==> self.free_4bpp@[j] != bud,
                    old_self.free_4bpp@.contains(bud),
                decreases n - k,
            {
                k = k + 1;
            }
            proof {
                let j = old_self.free_4bpp@.index_of(bud);
                assert(old_self.free_4bpp@[j] == bud);
                if k == n {
                    assert(self.free_4bpp@[j] != bud);
                }
                assert(k < n);
                assert(self.free_4bpp@[k as int] == bud);
                old_self.free_4bpp@.index_of_first_ensures(bud);
                let f = old_self.free_4bpp@.index_of_first(bud)->Some_0;
                assert(f == k as int);
                assert(old_self.free_4bpp@.remove_value(bud) == old_self.free_4bpp@.remove(
                    k as int,
                ));
            }
            self.free_4bpp.remove(k);
            self.free_8bpp.push(block);
            let ghost pre = *self;
            self.mark_used(tile, false);
            proof {
                assert forall|j: int| #![auto] j != ti implies self.used_4bpp(j) == old_self.used_4bpp(j) by {
                    assert(pre.used_4bpp(j) == old_self.used_4bpp(j));
                }
                assert(self.free_4bpp@ == old_self.free_4bpp@.remove(k as int));
                lemma_remove_contains(old_self.free_4bpp@, k as int, bud);
                assert forall|y: usize| #![auto] true implies self.free_4bpp@.contains(y) == (
                old_self.free_4bpp@.contains(y) && y != bud) by {
                    lemma_remove_contains(old_self.free_4bpp@, k as int, y);
                }
                assert(!old_self.free_8bpp@.contains(block));
                lemma_push_no_duplicates(old_self.free_8bpp@, block);
                assert forall|y: usize| #![auto] true implies self.free_8bpp@.contains(y) == (
                old_self.free_8bpp@.contains(y) || y == block) by {
                    lemma_push_contains(old_self.free_8bpp@, block, y);
                }
                assert(!self.used_4bpp(ti));
                assert(!self.used_4bpp(budi));
                assert forall|f: usize| #[trigger] self.free_8bpp@.contains(
                    f,
                ) implies self.free_block_ok(f as int) by {
                    if f != block {
                        assert(old_self.free_8bpp@.contains(f));
                        assert(old_self.free_block_ok(f as int));
                        assert(ti != f as int && ti != f + 1);
                        assert(self.used_4bpp(f as int) == old_self.used_4bpp(f as int));
                        assert(self.used_4bpp(f + 1) == old_self.used_4bpp(f + 1));
                    } else {
                        assert(!old_self.free_4bpp@.contains(tile));
                        assert(!old_self.allocated_8bpp@.contains(b));
                        assert(!self.used_4bpp(b));
                        assert(!self.used_4bpp(b + 1));
                    }
                }
                assert forall|u: usize| #[trigger] self.free_4bpp@.contains(
                    u,
                ) implies self.free_tile_ok(u as int) by {
                    assert(old_self.free_4bpp@.contains(u));
                    assert(old_self.free_tile_ok(u as int));
                    assert(u != tile);
                    assert(block_of(u as int) != b) by {
                        if block_of(u as int) == b {
                            assert(u as int == b || u as int == b + 1);
                        }
                    }
                    assert(u as int != ti && buddy(u as int) != ti);
                    assert(self.used_4bpp(u as int) == old_self.used_4bpp(u as int));
                    assert(self.used_4bpp(buddy(u as int)) == old_self.used_4bpp(buddy(u as int)));
                }
                assert forall|c: int| #[trigger] self.allocated_8bpp@.contains(
                    c,
                ) implies self.allocated_block_ok(c) by {
                    assert(old_self.allocated_block_ok(c));
                    assert(c != b);
                    assert(ti != c && ti != c + 1);
                    assert(self.used_4bpp(c) == old_self.used_4bpp(c));
                    assert(self.used_4bpp(c + 1) == old_self.used_4bpp(c + 1));
                }
                assert forall|i: int| #[trigger] self.used_4bpp(i) implies self.used_ok(i) by {
                    assert(i != ti);
                    assert(old_self.used_4bpp(i));
                    assert(old_self.used_ok(i));
                    assert(block_of(i) != b) by {
                        if block_of(i) == b {
                            assert(i == b || i == b + 1);
                        }
                    }
                }
                assert forall|c: int|
                    0 <= c < self.n_tiles && c % 2 == 0 implies #[trigger] self.block_consistent(
                    c,
                ) by {
                    assert(old_self.block_consistent(c));
                    if c != b {
                        assert(budi != c && budi != c + 1);
                        assert(ti != c && ti != c + 1);
                        assert(self.used_4bpp(c) == old_self.used_4bpp(c));
                        assert(self.used_4bpp(c + 1) == old_self.used_4bpp(c + 1));
                    }
                }
            }
        }
    }
}


impl TileAllocatorInner {
    /// Whether tile `t` is handed out as a tile of `format`: as a 4bpp tile,
    /// or as the 8bpp tile of the block it starts.
    pub open spec fn holds(self, t: int, format: TileFormat) -> bool {
        match format {
            TileFormat::FourBpp => self.used_4bpp(t),
            TileFormat::EightBpp => self.allocated_blocks().contains(t),
        }
    }

    /// A tile not allocated is held in no format.
    pub proof fn lemma_unallocated_not_held(self, t: int, format: TileFormat)
        requires
            self.wf(),
            !self.is_allocated(t),
        ensures
            !self.holds(t, format),
    {
        if self.allocated_blocks().contains(t) {
            assert(self.allocated_block_ok(t));
            assert(block_of(t) == t);
        }
    }

    /// A tile is not held both as a 4bpp tile and as an 8bpp block.
    pub proof fn lemma_held_once(self, t: int)
        requires
            self.wf(),
        ensures
            !(self.holds(t, TileFormat::FourBpp) && self.holds(t, TileFormat::EightBpp)),
    {
        if self.used_4bpp(t) && self.allocated_blocks().contains(t) {
            assert(self.allocated_block_ok(t));
        }
    }

    /// Whether a tile of `format` can be handed out.
    pub open spec fn can_allocate(self, format: TileFormat) -> bool {
        match format {
            TileFormat::FourBpp => self.free_tiles().len() > 0 || self.free_blocks().len() > 0,
            TileFormat::EightBpp => self.free_blocks().len() > 0,
        }
    }

    /// Hands out a tile of `format`, or `None` when none is left.
    pub fn allocate(&mut self, tile_format: TileFormat) -> (r: Option<usize>)
        requires
            old(self).wf(),
        ensures
            final(self).wf(),
            final(self).size() == old(self).size(),
            r is Some <==> old(self).can_allocate(tile_format),
            r is None ==> *final(self) == *old(self),
            r is Some ==> {
                &&& r->Some_0 < old(self).size()
                &&& old(self).is_free(r->Some_0 as int)
                &&& !old(self).is_allocated(r->Some_0 as int)
                &&& final(self).is_allocated(r->Some_0 as int)
            },
            r is Some && tile_format == TileFormat::EightBpp ==> r->Some_0 % 2 == 0
                && final(self).allocated_blocks().contains(r->Some_0 as int),
            r is Some && tile_format == TileFormat::FourBpp ==> final(self).used_4bpp(
                r->Some_0 as int,
            ),
            r is Some ==> final(self).holds(r->Some_0 as int, tile_format),
            r is Some ==> forall|f: TileFormat| !old(self).holds(r->Some_0 as int, f),
            forall|t: int, f: TileFormat|
                !(r is Some && t == r->Some_0 && f == tile_format) ==> #[trigger] final(self).holds(t, f)
                    == old(self).holds(t, f),
    {
        match tile_format {
            TileFormat::FourBpp => {
                let r = self.allocate_4bpp();
                proof {
                    if r is Some {
                        let t = r->Some_0 as int;
                        assert(t < old(self).size()) by {
                            assert(old(self).is_free(t));
                            if old(self).free_tiles().contains(t as usize) {
                                assert(old(self).free_tile_ok(t));
                            } else {
                                assert(old(self).free_block_ok(block_of(t)));
                            }
                        }
                    }
                }
                proof {
                    if r is Some {
                        let t = r->Some_0 as int;
                        assert forall|f: TileFormat| !old(self).holds(t, f) by {
                            old(self).lemma_unallocated_not_held(t, f);
                        }
                    }
                }
                r
            },
            TileFormat::EightBpp => {
                let r = self.allocate_8bpp();
                proof {
                    if r is Some {
                        let e = r->Some_0;
                        assert(old(self).free_blocks().contains(e)) by {
                            assert(old(self).free_blocks()[old(self).free_blocks().len() - 1] == e);
                        }
                        assert(old(self).free_block_ok(e as int));
                        assert(block_of(e as int) == e as int);
                        assert forall|f: TileFormat| !old(self).holds(e as int, f) by {
                            old(self).lemma_unallocated_not_held(e as int, f);
                        }
                    }
                }
                r
            },
        }
    }

    /// Gives back tile `tile` of `format`.
    pub fn dealloc(&mut self, tile: usize, tile_format: TileFormat)
        requires
            old(self).wf(),
            tile_format == TileFormat::FourBpp ==> old(self).used_4bpp(tile as int),
            tile_format == TileFormat::EightBpp ==> old(self).allocated_blocks().contains(
                tile as int,
            ),
        ensures
            final(self).wf(),
            final(self).size() == old(self).size(),
            !final(self).is_allocated(tile as int),
            forall|j: int| block_of(j) != block_of(tile as int) ==> #[trigger] final(self).is_allocated(j) == old(self).is_allocated(j),
            !final(self).holds(tile as int, tile_format),
            forall|t: int, f: TileFormat|
                !(t == tile && f == tile_format) ==> #[trigger] final(self).holds(t, f) == old(self).holds(t, f),
    {
        match tile_format {
            TileFormat::FourBpp => {
                self.dealloc_4bpp(tile);
                proof {
                    assert(old(self).used_ok(tile as int));
                    assert forall|j: int| block_of(j) != block_of(tile as int) implies #[trigger] self.is_allocated(j) == old(self).is_allocated(j) by {
                        assert(j != tile);
                    }
                }
            },
            TileFormat::EightBpp => {
                self.dealloc_8bpp(tile);
                proof {
                    assert(old(self).allocated_block_ok(tile as int));
                    assert(block_of(tile as int) == tile as int);
                    assert(!self.used_4bpp(tile as int));
                }
            },
        }
    }
}

/// The first byte of video RAM.
pub const VRAM_START: usize = 0x0600_0000;

/// The size of a character block of video RAM in bytes.
pub const CHARBLOCK_SIZE: usize = 0x4000;

/// Where the tiles that affine backgrounds can use end: 256 8bpp tiles.
pub const AFFINE_ALLOC_END: usize = 0x0600_0000 + 256 * 64;

/// Where the affine region's tiles start: the first tile is kept blank.
pub const AFFINE_ALLOC_START: usize = 0x0600_0000 + 8 * 8;

/// The number of 4bpp tiles in the affine region: 256 8bpp tiles less the
/// reserved blank one.
pub const AFFINE_TILES: usize = 256 * 2 - 2;

/// The number of 4bpp tiles in the regular region: two character blocks less
/// the affine region.
pub const REGULAR_TILES: usize = 0x4000 * 2 / 32 - 256 * 2;

/// The two tile allocators of video RAM: tiles that affine backgrounds can
/// use, and the rest.
pub struct TileAllocator {
    affine_allocator: TileAllocatorInner,
    regular_allocator: TileAllocatorInner,
}

impl TileAllocator {
    /// The allocator of the affine region.
    pub closed spec fn affine(self) -> TileAllocatorInner {
        self.affine_allocator
    }

    /// The allocator of the regular region.
    pub closed spec fn regular(self) -> TileAllocatorInner {
        self.regular_allocator
    }

    /// Both regions are well formed and have their fixed sizes.
    pub open spec fn wf(self) -> bool {
        &&& self.affine().wf()
        &&& self.regular().wf()
        &&& self.affine().size() == AFFINE_TILES
        &&& self.regular().size() == REGULAR_TILES
    }

    /// The address of tile `index` of the affine region.
    pub open spec fn affine_address(index: int) -> int {
        AFFINE_ALLOC_START + index * 32
    }

    /// The address of tile `index` of the regular region.
    pub open spec fn regular_address(index: int) -> int {
        AFFINE_ALLOC_END + index * 32
    }

    /// Whether the tile at `key`, its position in 32 byte units from the
    /// start of video RAM, is handed out as a tile of `format`.
    pub open spec fn key_holds(self, key: int, format: TileFormat) -> bool {
        if 2 <= key < 512 {
            self.affine().holds(key - 2, format)
        } else if 512 <= key < 1024 {
            self.regular().holds(key - 512, format)
        } else {
            false
        }
    }

    /// Allocating at `key` as `format` changed nothing else.
    pub open spec fn allocated_at(self, old: Self, key: int, format: TileFormat) -> bool {
        &&& 2 <= key < 1024
        &&& format == TileFormat::EightBpp ==> key % 2 == 0
        &&& self.key_holds(key, format)
        &&& forall|f: TileFormat| !old.key_holds(key, f)
        &&& forall|k: int, f: TileFormat|
            !(k == key && f == format) ==> #[trigger] self.key_holds(k, f) == old.key_holds(k, f)
    }

    /// Both regions with every tile free.
    pub fn new() -> (r: Self)
        ensures
            r.wf(),
            r.affine().free_tiles().len() == 0,
            r.affine().free_blocks().len() == AFFINE_TILES / 2,
            r.regular().free_tiles().len() == 0,
            r.regular().free_blocks().len() == REGULAR_TILES / 2,
            r.affine().allocated_blocks().is_empty(),
            r.regular().allocated_blocks().is_empty(),
            forall|k: int, f: TileFormat| !#[trigger] r.key_holds(k, f),
    {
        let r = TileAllocator {
            affine_allocator: TileAllocatorInner::new(AFFINE_TILES),
            regular_allocator: TileAllocatorInner::new(REGULAR_TILES),
        };
        proof {
            assert forall|k: int, f: TileFormat| !#[trigger] r.key_holds(k, f) by {
                if 2 <= k < 512 {
                    assert(!r.affine().used_4bpp(k - 2));
                } else if 512 <= k < 1024 {
                    assert(!r.regular().used_4bpp(k - 512));
                }
            }
        }
        r
    }

    /// Whether a tile of `format` can be found for a regular background.
    pub open spec fn can_alloc_for_regular(self, tile_format: TileFormat) -> bool {
        self.regular().can_allocate(tile_format) || self.affine().can_allocate(tile_format)
    }

    /// The address of a new tile of `format` for a regular background: from
    /// the regular region if it has room, else from the affine region.
    pub fn alloc_for_regular(&mut self, tile_format: TileFormat) -> (r: usize)
        requires
            old(self).wf(),
            old(self).can_alloc_for_regular(tile_format),
        ensures
            final(self).wf(),
            old(self).regular().can_allocate(tile_format) ==> {
                &&& final(self).affine() == old(self).affine()
                &&& exists|t: int|
                    0 <= t < REGULAR_TILES && r == Self::regular_address(t) && !old(self).regular().is_allocated(t) && final(self).regular().is_allocated(t)
            },
            !old(self).regular().can_allocate(tile_format) ==> {
                &&& final(self).regular() == old(self).regular()
                &&& exists|t: int|
                    0 <= t < AFFINE_TILES && r == Self::affine_address(t) && !old(self).affine().is_allocated(t) && final(self).affine().is_allocated(t)
            },
            r == VRAM_START + 32 * ((r - VRAM_START) / 32),
            final(self).allocated_at(*old(self), (r - VRAM_START) / 32, tile_format),
    {
        match self.alloc_in_regular(tile_format) {
            Some(address) => address,
            None => {
                let r = self.alloc_in_affine(tile_format);
                match r {
                    Some(address) => address,
                    None => {
                        proof {
                            assert(false);
                        }
                        0
                    },
                }
            },
        }
    }

    /// The address of a new 8bpp tile for an affine background.
    pub fn alloc_for_affine(&mut self) -> (r: usize)
        requires
            old(self).wf(),
            old(self).affine().can_allocate(TileFormat::EightBpp),
        ensures
            final(self).wf(),
            final(self).regular() == old(self).regular(),
            exists|t: int|
                0 <= t < AFFINE_TILES && r == Self::affine_address(t) && t % 2 == 0 && !old(self).affine().is_allocated(t) && final(self).affine().allocated_blocks().contains(t),
    {
        match self.alloc_in_affine(TileFormat::EightBpp) {
            Some(address) => address,
            None => {
                proof {
                    assert(false);
                }
                0
            },
        }
    }

    /// Gives back the tile of `format` at `address`: to the affine region
    /// below its end, else to the regular region.
    pub fn dealloc(&mut self, address: usize, tile_format: TileFormat)
        requires
            old(self).wf(),
            address == VRAM_START + 32 * ((address - VRAM_START) / 32),
            old(self).key_holds((address - VRAM_START) / 32, tile_format),
        ensures
            final(self).wf(),
            !final(self).key_holds((address - VRAM_START) / 32, tile_format),
            forall|k: int, f: TileFormat|
                !(k == (address - VRAM_START) / 32 && f == tile_format) ==> #[trigger] final(self).key_holds(k, f) == old(self).key_holds(k, f),
    {
        let ghost key = (address - VRAM_START) / 32;
        if address < AFFINE_ALLOC_END {
            let t = (address - AFFINE_ALLOC_START) / 32;
            proof {
                assert(t == key - 2);
            }
            self.affine_allocator.dealloc(t, tile_format);
            proof {
                assert forall|k: int, f: TileFormat|
                    !(k == key && f == tile_format) implies #[trigger] self.key_holds(k, f)
                    == old(self).key_holds(k, f) by {
                    if 2 <= k < 512 {
                        assert(self.affine().holds(k - 2, f) == old(self).affine().holds(k - 2, f));
                    }
                }
            }
        } else {
            let t = (address - AFFINE_ALLOC_END) / 32;
            proof {
                assert(t == key - 512);
            }
            self.regular_allocator.dealloc(t, tile_format);
            proof {
                assert forall|k: int, f: TileFormat|
                    !(k == key && f == tile_format) implies #[trigger] self.key_holds(k, f)
                    == old(self).key_holds(k, f) by {
                    if 512 <= k < 1024 {
                        assert(self.regular().holds(k - 512, f) == old(self).regular().holds(
                            k - 512,
                            f,
                        ));
                    }
                }
            }
        }
    }

    /// A tile of `format` from the regular region, or `None` when it is full.
    fn alloc_in_regular(&mut self, tile_format: TileFormat) -> (r: Option<usize>)
        requires
            old(self).wf(),
        ensures
            final(self).wf(),
            final(self).affine() == old(self).affine(),
            r is Some <==> old(self).regular().can_allocate(tile_format),
            r is None ==> *final(self) == *old(self),
            r is Some ==> exists|t: int|
                0 <= t < REGULAR_TILES && r->Some_0 == Self::regular_address(t) && !old(self).regular().is_allocated(t) && final(self).regular().is_allocated(t),
            r is Some ==> {
                let a = r->Some_0;
                &&& a == VRAM_START + 32 * ((a - VRAM_START) / 32)
                &&& final(self).allocated_at(*old(self), (a - VRAM_START) / 32, tile_format)
            },
    {
        let t = self.regular_allocator.allocate(tile_format);
        match t {
            Some(t) => {
                proof {
                    assert(0 <= t < REGULAR_TILES && AFFINE_ALLOC_END + t * 32 == Self::regular_address(
                        t as int,
                    ));
                    let key = t + 512;
                    assert((AFFINE_ALLOC_END + t * 32 - VRAM_START) / 32 == key);
                    assert forall|k: int, f: TileFormat|
                        !(k == key && f == tile_format) implies #[trigger] self.key_holds(k, f)
                        == old(self).key_holds(k, f) by {
                        if 512 <= k < 1024 {
                            assert(self.regular().holds(k - 512, f) == old(self).regular().holds(
                                k - 512,
                                f,
                            ));
                        }
                    }
                }
                Some(AFFINE_ALLOC_END + t * 32)
            },
            None => None,
        }
    }

    /// A tile of `format` from the affine region, or `None` when it is full.
    fn alloc_in_affine(&mut self, tile_format: TileFormat) -> (r: Option<usize>)
        requires
            old(self).wf(),
        ensures
            final(self).wf(),
            final(self).regular() == old(self).regular(),
            r is Some <==> old(self).affine().can_allocate(tile_format),
            r is Some ==> exists|t: int|
                0 <= t < AFFINE_TILES && r->Some_0 == Self::affine_address(t) && !old(self).affine().is_allocated(t) && final(self).affine().is_allocated(t) && (tile_format
                    == TileFormat::EightBpp ==> t % 2 == 0 && final(self).affine().allocated_blocks().contains(t)),
            r is Some ==> {
                let a = r->Some_0;
                &&& a == VRAM_START + 32 * ((a - VRAM_START) / 32)
                &&& final(self).allocated_at(*old(self), (a - VRAM_START) / 32, tile_format)
            },
    {
        let t = self.affine_allocator.allocate(tile_format);
        match t {
            Some(t) => {
                proof {
                    assert(0 <= t < AFFINE_TILES && AFFINE_ALLOC_START + t * 32
                        == Self::affine_address(t as int));
                    let key = t + 2;
                    assert((AFFINE_ALLOC_START + t * 32 - VRAM_START) / 32 == key);
                    assert forall|k: int, f: TileFormat|
                        !(k == key && f == tile_format) implies #[trigger] self.key_holds(k, f)
                        == old(self).key_holds(k, f) by {
                        if 2 <= k < 512 {
                            assert(self.affine().holds(k - 2, f) == old(self).affine().holds(
                                k - 2,
                                f,
                            ));
                        }
                    }
                }
                Some(AFFINE_ALLOC_START + t * 32)
            },
            None => None,
        }
    }
}

} // verus!

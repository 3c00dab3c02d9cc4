//! Video RAM: tile formats, tile indices, reference counts and dynamic tiles.
use vstd::prelude::*;

pub mod tile_allocator;

use self::tile_allocator::{TileAllocator, AFFINE_TILES, REGULAR_TILES, VRAM_START};
use crate::display::Palette16;

verus! {

/// The pixel format of a tile in video RAM.
#[derive(Clone, Copy, Debug, PartialEq, Eq, Structural)]
pub enum TileFormat {
    /// 4 bits per pixel, allowing for 16 colours per tile
    FourBpp,
    /// 8 bits per pixel, allowing for 256 colours per tile
    EightBpp,
}

impl TileFormat {
    /// The size of a tile in bytes.
    pub open spec fn size_spec(self) -> int {
        match self {
            TileFormat::FourBpp => 32,
            TileFormat::EightBpp => 64,
        }
    }

    /// The size of a tile in bytes: `1 << 5` or `1 << 6`.
    pub fn tile_size(self) -> (r: usize)
        ensures
            r == self.size_spec(),
    {
        proof {
            crate::bits::lemma_u16_constants();
        }
        match self {
            TileFormat::FourBpp => 1usize << 5usize,
            TileFormat::EightBpp => 1usize << 6usize,
        }
    }
}


/// A collection of tiles in one format, stored as raw bytes.
pub struct TileSet<'a> {
    tiles: &'a [u8],
    format: TileFormat,
}

impl<'a> TileSet<'a> {
    /// The bytes of the tiles.
    pub closed spec fn tiles_spec(self) -> Seq<u8> {
        self.tiles@
    }

    /// The format of the tiles.
    pub closed spec fn format_spec(self) -> TileFormat {
        self.format
    }

    /// A tile set over `tiles` in `format`.
    pub fn new(tiles: &'a [u8], format: TileFormat) -> (r: Self)
        ensures
            r.tiles_spec() == tiles@,
            r.format_spec() == format,
    {
        TileSet { tiles, format }
    }

    /// The format of the tiles.
    pub fn format(&self) -> (r: TileFormat)
        ensures
            r == self.format_spec(),
    {
        self.format
    }

    /// The number of whole tiles in the set.
    pub fn len(&self) -> (r: usize)
        ensures
            r == (self.tiles_spec().len() as int) / self.format_spec().size_spec(),
    {
        self.tiles.len() / self.format.tile_size()
    }
}

/// The index of a tile in video RAM, with its format.
#[derive(Debug, Clone, Copy, PartialEq, Eq, Structural)]
pub enum TileIndex {
    /// A 4bpp tile, counted in 32 byte units.
    FourBpp(u16),
    /// An 8bpp tile, counted in 64 byte units.
    EightBpp(u16),
}

impl TileIndex {
    /// The index of `format` numbered `index`, truncated to 16 bits.
    pub fn new(index: usize, format: TileFormat) -> (r: Self)
        ensures
            r.raw_spec() == index as u16,
            r.format_spec() == format,
    {
        match format {
            TileFormat::FourBpp => TileIndex::FourBpp(index as u16),
            TileFormat::EightBpp => TileIndex::EightBpp(index as u16),
        }
    }

    /// The number of the tile in units of its own size.
    pub open spec fn raw_spec(self) -> u16 {
        match self {
            TileIndex::FourBpp(x) => x,
            TileIndex::EightBpp(x) => x,
        }
    }

    /// The format of the tile.
    pub open spec fn format_spec(self) -> TileFormat {
        match self {
            TileIndex::FourBpp(_) => TileFormat::FourBpp,
            TileIndex::EightBpp(_) => TileFormat::EightBpp,
        }
    }

    /// The number of the tile in units of its own size.
    pub fn raw_index(self) -> (r: u16)
        ensures
            r == self.raw_spec(),
    {
        match self {
            TileIndex::FourBpp(x) => x,
            TileIndex::EightBpp(x) => x,
        }
    }

    /// The format of the tile.
    pub fn format(self) -> (r: TileFormat)
        ensures
            r == self.format_spec(),
    {
        match self {
            TileIndex::FourBpp(_) => TileFormat::FourBpp,
            TileIndex::EightBpp(_) => TileFormat::EightBpp,
        }
    }

    /// The slot of the reference count of this tile: its position in 32 byte
    /// units.
    pub fn refcount_key(self) -> (r: usize)
        ensures
            r == (match self {
                TileIndex::FourBpp(x) => x as int,
                TileIndex::EightBpp(x) => x * 2,
            }),
    {
        match self {
            TileIndex::FourBpp(x) => x as usize,
            TileIndex::EightBpp(x) => x as usize * 2,
        }
    }

    /// The byte offset of the tile from the start of video RAM.
    pub fn byte_offset(self) -> (r: usize)
        ensures
            r == self.raw_spec() * self.format_spec().size_spec(),
    {
        self.raw_index() as usize * self.format().tile_size()
    }
}

/// The tile of a tile set that a tile in video RAM holds.
#[derive(Clone, Copy, Debug, PartialEq, Eq, Structural)]
pub struct TileInTileSetReference {
    /// The address of the tile set's data.
    pub tileset: usize,
    /// The length of the tile set's data in bytes.
    pub tileset_len: usize,
    /// The tile's number in the tile set.
    pub tile: u16,
}

/// How many users a tile in video RAM has, and which tile it holds.
#[derive(Clone, Copy, Debug, PartialEq, Eq, Structural)]
pub struct TileReferenceCount {
    reference_count: u16,
    tile_in_tile_set: Option<TileInTileSetReference>,
}

impl TileReferenceCount {
    /// The number of users.
    pub closed spec fn count(self) -> u16 {
        self.reference_count
    }

    /// The tile held, if any.
    pub closed spec fn tile(self) -> Option<TileInTileSetReference> {
        self.tile_in_tile_set
    }

    /// The count of an unused slot.
    pub fn default() -> (r: Self)
        ensures
            r.count() == 0,
            r.tile() is None,
    {
        TileReferenceCount { reference_count: 0, tile_in_tile_set: None }
    }

    /// A count of one for `tile_in_tile_set`.
    pub fn new(tile_in_tile_set: TileInTileSetReference) -> (r: Self)
        ensures
            r.count() == 1,
            r.tile() == Some(tile_in_tile_set),
    {
        TileReferenceCount { reference_count: 1, tile_in_tile_set: Some(tile_in_tile_set) }
    }

    /// One more user.
    pub fn increment_reference_count(&mut self)
        requires
            old(self).count() < u16::MAX,
        ensures
            final(self).count() == old(self).count() + 1,
            final(self).tile() == old(self).tile(),
    {
        self.reference_count = self.reference_count + 1;
    }

    /// One user fewer; returns the new count.
    pub fn decrement_reference_count(&mut self) -> (r: u16)
        requires
            old(self).count() > 0,
        ensures
            final(self).count() == old(self).count() - 1,
            r == final(self).count(),
            final(self).tile() == old(self).tile(),
    {
        self.reference_count = self.reference_count - 1;
        self.reference_count
    }

    /// Forgets the tile.
    pub fn clear(&mut self)
        ensures
            final(self).count() == 0,
            final(self).tile() is None,
    {
        self.reference_count = 0;
        self.tile_in_tile_set = None;
    }

    /// The number of users.
    pub fn current_count(&self) -> (r: u16)
        ensures
            r == self.count(),
    {
        self.reference_count
    }
}

/// The word that holds eight pixels of colour `c`: `c << 4i` for each pixel
/// `i` below `n`, or-ed together.
pub open spec fn fill_word(c: u32, n: nat) -> u32
    decreases n,
{
    if n == 0 {
        0
    } else {
        fill_word(c, (n - 1) as nat) | (c << (((n - 1) * 4) as u32))
    }
}

/// The word `w` with nibble `k` replaced by `v`.
pub open spec fn set_nibble(w: u32, k: u32, v: u32) -> u32 {
    (w & !(0xfu32 << (k * 4))) | (v << (k * 4))
}

/// A 16 colour tile whose pixels are changed at run time: eight words of
/// eight 4 bit pixels each.
pub struct DynamicTile16 {
    tile_data: Vec<u32>,
    tile_id: u16,
}

impl DynamicTile16 {
    /// The eight words of pixel data.
    pub closed spec fn data_spec(self) -> Seq<u32> {
        self.tile_data@
    }

    /// The tile's index among the 4bpp tiles of video RAM.
    pub closed spec fn tile_id_spec(self) -> u16 {
        self.tile_id
    }

    /// The tile numbered `tile_id` whose current pixel data is `tile_data`, as
    /// found in video RAM when it is allocated.
    pub fn new(tile_id: u16, tile_data: Vec<u32>) -> (r: Self)
        requires
            tile_data@.len() == 8,
        ensures
            r.data_spec() == tile_data@,
            r.tile_id_spec() == tile_id,
    {
        DynamicTile16 { tile_data, tile_id }
    }

    /// Fills every pixel with colour `colour_index`.
    pub fn fill_with(self, colour_index: u8) -> (r: Self)
        requires
            self.data_spec().len() == 8,
        ensures
            r.tile_id_spec() == self.tile_id_spec(),
            r.data_spec().len() == 8,
            forall|i: int| 0 <= i < 8 ==> #[trigger] r.data_spec()[i] == fill_word(
                colour_index as u32,
                8,
            ),
    {
        let mut this = self;
        let colour_index = colour_index as u32;
        let mut value: u32 = 0;
        let mut i: u32 = 0;
        while i < 8
            invariant
                i <= 8,
                value == fill_word(colour_index, i as nat),
            decreases 8 - i,
        {
            value = value | (colour_index << (i * 4));
            i = i + 1;
        }
        let mut k: usize = 0;
        while k < 8
            invariant
                k <= 8,
                this.tile_data@.len() == 8,
                this.tile_id == self.tile_id,
                forall|j: int| 0 <= j < k ==> #[trigger] this.tile_data@[j] == value,
            decreases 8 - k,
        {
            this.tile_data.set(k, value);
            k = k + 1;
        }
        this
    }

    /// The pixel data.
    pub fn data(&self) -> (r: &[u32])
        ensures
            r@ == self.data_spec(),
    {
        self.tile_data.as_slice()
    }

    /// Replaces the pixel data by `data`.
    pub fn set_data(&mut self, data: Vec<u32>)
        requires
            data@.len() == 8,
        ensures
            final(self).data_spec() == data@,
            final(self).tile_id_spec() == old(self).tile_id_spec(),
    {
        self.tile_data = data;
    }

    /// The tile's index among the 4bpp tiles of video RAM.
    pub fn tile_id(&self) -> (r: u16)
        ensures
            r == self.tile_id_spec(),
    {
        self.tile_id
    }

    /// Sets the pixel at `(x, y)` to `palette_index`: nibble `x` of word
    /// `y`, every other pixel staying as it was.
    pub fn set_pixel(&mut self, x: usize, y: usize, palette_index: u8)
        requires
            old(self).data_spec().len() == 8,
            x < 8,
            y < 8,
            palette_index < 16,
        ensures
            final(self).tile_id_spec() == old(self).tile_id_spec(),
            final(self).data_spec() == old(self).data_spec().update(
                y as int,
                set_nibble(old(self).data_spec()[y as int], x as u32, palette_index as u32),
            ),
    {
        let index = x + y * 8;
        let word_index = index / 8;
        let nibble_offset = (index % 8) as u32;
        let current_value = self.tile_data[word_index];
        let mask = 0xfu32 << (nibble_offset * 4);
        let palette_value = (palette_index as u32) << (nibble_offset * 4);
        self.tile_data.set(word_index, (current_value & !mask) | palette_value);
    }
}

/// Filling with a colour below 16 puts that colour in every pixel.
pub proof fn lemma_fill_word_nibbles(c: u32, k: u32)
    requires
        c < 16,
        k < 8,
    ensures
        (fill_word(c, 8) >> (k * 4)) & 0xf == c,
{
    let w1 = fill_word(c, 1);
    let w2 = fill_word(c, 2);
    let w3 = fill_word(c, 3);
    let w4 = fill_word(c, 4);
    let w5 = fill_word(c, 5);
    let w6 = fill_word(c, 6);
    let w7 = fill_word(c, 7);
    let w = fill_word(c, 8);
    assert(fill_word(c, 0) == 0);
    assert(w1 == 0 | (c << 0u32));
    assert(w2 == w1 | (c << 4u32));
    assert(w3 == w2 | (c << 8u32));
    assert(w4 == w3 | (c << 12u32));
    assert(w5 == w4 | (c << 16u32));
    assert(w6 == w5 | (c << 20u32));
    assert(w7 == w6 | (c << 24u32));
    assert(w == w7 | (c << 28u32));
    assert(w == (((((((c | (c << 4u32)) | (c << 8u32)) | (c << 12u32)) | (c << 16u32)) | (c << 20u32))
        | (c << 24u32)) | (c << 28u32))) by (bit_vector)
        requires
            w1 == 0 | (c << 0u32),
            w2 == w1 | (c << 4u32),
            w3 == w2 | (c << 8u32),
            w4 == w3 | (c << 12u32),
            w5 == w4 | (c << 16u32),
            w6 == w5 | (c << 20u32),
            w7 == w6 | (c << 24u32),
            w == w7 | (c << 28u32),
    ;
    assert(((((((((c | (c << 4u32)) | (c << 8u32)) | (c << 12u32)) | (c << 16u32)) | (c << 20u32)) | (c
        << 24u32)) | (c << 28u32)) >> (k * 4)) & 0xf == c) by (bit_vector)
        requires
            c < 16,
            k < 8,
    ;
}

/// Setting a pixel changes that pixel and no other in its word.
pub proof fn lemma_set_nibble(w: u32, k: u32, v: u32, j: u32)
    requires
        k < 8,
        j < 8,
        v < 16,
    ensures
        (set_nibble(w, k, v) >> (j * 4)) & 0xf == (if j == k {
            v
        } else {
            (w >> (j * 4)) & 0xf
        }),
{
    assert(((w & !(0xfu32 << (k * 4))) | (v << (k * 4))) >> (j * 4) & 0xf == (if j == k {
        v
    } else {
        (w >> (j * 4)) & 0xf
    })) by (bit_vector)
        requires
            k < 8,
            j < 8,
            v < 16,
    ;
}

/// The key of the reference count of `index`: its position in 32 byte units.
pub open spec fn key_of(index: TileIndex) -> int {
    match index {
        TileIndex::FourBpp(x) => x as int,
        TileIndex::EightBpp(x) => x * 2,
    }
}

/// The index of the tile of `format` at key `key`.
pub open spec fn index_at(key: int, format: TileFormat) -> TileIndex {
    match format {
        TileFormat::FourBpp => TileIndex::FourBpp(key as u16),
        TileFormat::EightBpp => TileIndex::EightBpp((key / 2) as u16),
    }
}

/// The number of bytes of video RAM that dynamic tiles are taken from.
pub const DYNAMIC_TILE_SET_LEN: usize = 1024 * 32;

/// Whether `t` names a tile of the tile set over the whole of video RAM,
/// the one dynamic tiles belong to.
pub open spec fn is_dynamic(t: TileInTileSetReference) -> bool {
    t.tileset == VRAM_START && t.tileset_len == DYNAMIC_TILE_SET_LEN
}

/// The word made of the four bytes of `s` from `at`, the first the lowest.
pub open spec fn le_word(s: Seq<u8>, at: int) -> u32 {
    (s[at] as u32) | ((s[at + 1] as u32) << 8u32) | ((s[at + 2] as u32) << 16u32) | ((s[at
        + 3] as u32) << 24u32)
}

/// The words to write into video RAM for tile `tile_id` of `tile_set`: its
/// bytes four at a time, eight words for a 4bpp tile and sixteen for an
/// 8bpp one.
pub fn copy_tile_to_location(tile_set: &TileSet, tile_id: u16) -> (r: Vec<u32>)
    requires
        (tile_id as int + 1) * tile_set.format_spec().size_spec() <= tile_set.tiles_spec().len(),
    ensures
        r@.len() == tile_set.format_spec().size_spec() / 4,
        forall|i: int|
            0 <= i < r@.len() ==> #[trigger] r@[i] == le_word(
                tile_set.tiles_spec(),
                tile_id * tile_set.format_spec().size_spec() + 4 * i,
            ),
{
    let size = tile_set.format.tile_size();
    proof {
        assert(tile_id * size <= (tile_id + 1) * size) by (nonlinear_arith)
            requires size >= 0;
    }
    let offset = tile_id as usize * size;
    let words = size / 4;
    let mut out: Vec<u32> = Vec::new();
    let mut i: usize = 0;
    proof {
        assert((tile_id + 1) * size == tile_id * size + size) by (nonlinear_arith);
    }
    while i < words
        invariant
            i <= words,
            words * 4 == size,
            size == tile_set.format_spec().size_spec(),
            offset == tile_id * size,
            offset + size <= tile_set.tiles@.len(),
            tile_set.tiles@ == tile_set.tiles_spec(),
            out@.len() == i,
            forall|j: int|
                0 <= j < i ==> #[trigger] out@[j] == le_word(tile_set.tiles_spec(), offset + 4 * j),
        decreases words - i,
    {
        let at = offset + 4 * i;
        let w = (tile_set.tiles[at] as u32) | ((tile_set.tiles[at + 1] as u32) << 8u32) | ((
        tile_set.tiles[at + 2] as u32) << 16u32) | ((tile_set.tiles[at + 3] as u32) << 24u32);
        out.push(w);
        i = i + 1;
    }
    out
}

/// What adding a tile asks of video RAM: the tile's index, and the address
/// to copy its pixels to when it was not there yet.
pub struct TileAdded {
    /// The index of the tile in video RAM.
    pub index: TileIndex,
    /// Where to copy the tile's pixels, when it was newly placed.
    pub copy_to: Option<usize>,
}

/// Which tiles of which tile sets are in video RAM, how many users each has,
/// and which are waiting to be given back.
pub struct VRamManager {
    allocator: TileAllocator,
    reference_counts: Vec<TileReferenceCount>,
    indices_to_gc: Vec<TileIndex>,
    formats: Ghost<Map<int, TileFormat>>,
}

impl VRamManager {
    /// The reference count of each key.
    pub closed spec fn slots(self) -> Seq<TileReferenceCount> {
        self.reference_counts@
    }

    /// The indices waiting for `gc`.
    pub closed spec fn pending(self) -> Seq<TileIndex> {
        self.indices_to_gc@
    }

    /// The format the tile at `key` was placed in.
    pub closed spec fn format_of(self, key: int) -> TileFormat {
        self.formats@[key]
    }

    /// The allocator of video RAM tiles.
    pub closed spec fn allocator_spec(self) -> TileAllocator {
        self.allocator
    }

    /// Whether `key` holds a tile.
    pub open spec fn live(self, key: int) -> bool {
        0 <= key < self.slots().len() && self.slots()[key].tile() is Some
    }

    /// The key holding tile `t`, if one does.
    pub open spec fn holder(self, t: TileInTileSetReference) -> Option<int> {
        if exists|k: int| self.live(k) && #[trigger] self.slots()[k].tile() == Some(t) {
            Some(choose|k: int| self.live(k) && #[trigger] self.slots()[k].tile() == Some(t))
        } else {
            None
        }
    }

    /// Every tile held is allocated in its format, each tile is held at one
    /// key at most, a dynamic tile sits at its own key, and every index
    /// waiting for `gc` names a key that holds a tile of its format.
    pub closed spec fn wf(self) -> bool {
        &&& self.allocator.wf()
        &&& self.reference_counts@.len() <= 1024
        &&& forall|k: int|
            #![trigger self.reference_counts@[k]]
            0 <= k < self.reference_counts@.len() ==> {
                let c = self.reference_counts@[k];
                &&& c.tile() is Some ==> self.allocator.key_holds(k, self.formats@[k])
                &&& c.tile() is Some && self.formats@[k] == TileFormat::EightBpp ==> k % 2 == 0
                &&& c.tile() is Some && is_dynamic(c.tile()->Some_0) ==> c.tile()->Some_0.tile == k
                &&& c.tile() is None ==> c.count() == 0
            }
        &&& forall|k1: int, k2: int|
            0 <= k1 < self.reference_counts@.len() && 0 <= k2 < self.reference_counts@.len()
                && k1 != k2 && (#[trigger] self.reference_counts@[k1]).tile() is Some
                ==> (#[trigger] self.reference_counts@[k2]).tile() != self.reference_counts@[k1].tile()
        &&& forall|i: int|
            #![trigger self.indices_to_gc@[i]]
            0 <= i < self.indices_to_gc@.len() ==> {
                let key = key_of(self.indices_to_gc@[i]);
                &&& 0 <= key < self.reference_counts@.len()
                &&& self.reference_counts@[key].tile() is Some
                &&& self.formats@[key] == self.indices_to_gc@[i].format_spec()
            }
    }

    /// The key holding a tile is the one its holder names: each tile is held
    /// at one key at most.
    pub proof fn lemma_holder(self, t: TileInTileSetReference, k: int)
        requires
            self.wf(),
            self.live(k),
            self.slots()[k].tile() == Some(t),
        ensures
            self.holder(t) == Some(k),
    {
        let c = choose|c: int| self.live(c) && #[trigger] self.slots()[c].tile() == Some(t);
        if c != k {
            assert(self.reference_counts@[c].tile() != self.reference_counts@[k].tile());
        }
    }

    /// Nothing in video RAM.
    pub fn new() -> (r: Self)
        ensures
            r.wf(),
            r.slots().len() == 0,
            r.pending().len() == 0,
            r.allocator_spec().wf(),
            forall|k: int, f: TileFormat| !#[trigger] r.allocator_spec().key_holds(k, f),
            r.allocator_spec().affine().free_tiles().len() == 0,
            r.allocator_spec().affine().free_blocks().len() == AFFINE_TILES / 2,
            r.allocator_spec().regular().free_tiles().len() == 0,
            r.allocator_spec().regular().free_blocks().len() == REGULAR_TILES / 2,
            r.allocator_spec().affine().allocated_blocks().is_empty(),
            r.allocator_spec().regular().allocated_blocks().is_empty(),
    {
        let allocator = TileAllocator::new();
        VRamManager {
            allocator,
            reference_counts: Vec::new(),
            indices_to_gc: Vec::new(),
            formats: Ghost(Map::empty()),
        }
    }

    fn find_tile(&self, t: TileInTileSetReference) -> (r: Option<usize>)
        requires
            self.wf(),
        ensures
            r == (match self.holder(t) {
                Some(k) => Some(k as usize),
                None => None::<usize>,
            }),
    {
        let mut k: usize = 0;
        while k < self.reference_counts.len()
            invariant
                self.wf(),
                k <= self.reference_counts@.len(),
                forall|j: int| 0 <= j < k ==> #[trigger] self.slots()[j].tile() != Some(t),
            decreases self.reference_counts@.len() - k,
        {
            let same = match &self.reference_counts[k].tile_in_tile_set {
                Some(x) => x.tileset == t.tileset && x.tileset_len == t.tileset_len && x.tile
                    == t.tile,
                None => false,
            };
            if same {
                proof {
                    assert(self.live(k as int) && self.slots()[k as int].tile() == Some(t));
                    let c = choose|c: int| self.live(c) && #[trigger] self.slots()[c].tile() == Some(t);
                    if c != k {
                        assert(self.reference_counts@[c].tile() != self.reference_counts@[k as int].tile());
                    }
                }
                return Some(k);
            }
            k = k + 1;
        }
        None
    }

    /// Makes sure `key` has a slot, adding empty ones.
    fn grow_to(&mut self, key: usize)
        requires
            old(self).wf(),
            key < 1024,
        ensures
            final(self).wf(),
            final(self).slots().len() == if key < old(self).slots().len() {
                old(self).slots().len() as int
            } else {
                key + 1
            },
            forall|k: int| 0 <= k < old(self).slots().len() ==> #[trigger] final(self).slots()[k] == old(self).slots()[k],
            forall|k: int|
                old(self).slots().len() <= k < final(self).slots().len() ==> #[trigger] final(self).slots()[k].tile() is None && final(self).slots()[k].count() == 0,
            final(self).pending() == old(self).pending(),
            final(self).allocator_spec() == old(self).allocator_spec(),
            forall|k: int| #[trigger] final(self).format_of(k) == old(self).format_of(k),
    {
        let ghost old_len = self.reference_counts@.len();
        while self.reference_counts.len() <= key
            invariant
                self.wf(),
                key < 1024,
                self.reference_counts@.len() >= old_len,
                self.reference_counts@.len() <= key + 1 || self.reference_counts@.len() == old_len,
                forall|k: int| 0 <= k < old_len ==> #[trigger] self.reference_counts@[k] == old(self).slots()[k],
                forall|k: int|
                    old_len <= k < self.reference_counts@.len() ==> #[trigger] self.reference_counts@[k].tile() is None && self.reference_counts@[k].count() == 0,
                self.pending() == old(self).pending(),
                self.allocator == old(self).allocator,
                self.formats == old(self).formats,
                old_len == old(self).slots().len(),
            decreases key + 1 - self.reference_counts@.len(),
        {
            let ghost before = self.reference_counts@;
            let d = TileReferenceCount::default();
            self.reference_counts.push(d);
            proof {
                assert(self.reference_counts@ == before.push(d));
                assert(self.reference_counts@.len() == before.len() + 1);
                assert forall|k: int| 0 <= k < old_len implies #[trigger] self.reference_counts@[k] == old(self).slots()[k] by {
                    assert(self.reference_counts@[k] == before[k]);
                }
                assert forall|k: int|
                    old_len <= k < self.reference_counts@.len() implies #[trigger] self.reference_counts@[k].tile() is None && self.reference_counts@[k].count() == 0 by {
                    if k < before.len() {
                        assert(self.reference_counts@[k] == before[k]);
                    }
                }
                assert forall|k: int|
                    #![trigger self.reference_counts@[k]]
                    0 <= k < self.reference_counts@.len() implies {
                        let c = self.reference_counts@[k];
                        &&& c.tile() is Some ==> self.allocator.key_holds(k, self.formats@[k])
                        &&& c.tile() is Some && self.formats@[k] == TileFormat::EightBpp ==> k % 2 == 0
                        &&& c.tile() is Some && is_dynamic(c.tile()->Some_0) ==> c.tile()->Some_0.tile == k
                        &&& c.tile() is None ==> c.count() == 0
                    } by {
                    if k < before.len() {
                        assert(self.reference_counts@[k] == before[k]);
                    }
                }
                assert forall|k1: int, k2: int|
                    0 <= k1 < self.reference_counts@.len() && 0 <= k2 < self.reference_counts@.len()
                        && k1 != k2 && (#[trigger] self.reference_counts@[k1]).tile() is Some
                    implies (#[trigger] self.reference_counts@[k2]).tile() != self.reference_counts@[k1].tile() by {
                    assert(k1 < before.len());
                    assert(self.reference_counts@[k1] == before[k1]);
                    if k2 < before.len() {
                        assert(self.reference_counts@[k2] == before[k2]);
                    }
                }
            }
        }
    }

    /// Adds a user of tile `t` of a tile set in `format`: the key already
    /// holding it gains one, else the tile gets a new place in video RAM and
    /// is to be copied there.
    pub fn add_tile(&mut self, t: TileInTileSetReference, format: TileFormat) -> (r: TileAdded)
        requires
            old(self).wf(),
            old(self).holder(t) is Some ==> {
                let k = old(self).holder(t)->Some_0;
                &&& old(self).format_of(k) == format
                &&& old(self).slots()[k].count() < u16::MAX
            },
            old(self).holder(t) is None ==> {
                &&& old(self).allocator_spec().can_alloc_for_regular(format)
                &&& !is_dynamic(t)
            },
        ensures
            final(self).wf(),
            final(self).pending() == old(self).pending(),
            final(self).holder(t) == Some(key_of(r.index)),
            match old(self).holder(t) {
                Some(k) => {
                    &&& r.index == index_at(k, format)
                    &&& r.copy_to is None
                    &&& final(self).slots().len() == old(self).slots().len()
                    &&& final(self).slots()[k].count() == old(self).slots()[k].count() + 1
                    &&& final(self).slots()[k].tile() == Some(t)
                    &&& forall|j: int|
                        0 <= j < old(self).slots().len() && j != k ==> #[trigger] final(self).slots()[j]
                            == old(self).slots()[j]
                    &&& final(self).allocator_spec() == old(self).allocator_spec()
                },
                None => {
                    let key = (r.copy_to->Some_0 - VRAM_START) / 32;
                    &&& r.copy_to is Some
                    &&& r.copy_to->Some_0 == VRAM_START + 32 * key
                    &&& r.index == index_at(key, format)
                    &&& !old(self).live(key)
                    &&& final(self).live(key)
                    &&& final(self).slots()[key].count() == 1
                    &&& final(self).slots()[key].tile() == Some(t)
                    &&& final(self).format_of(key) == format
                    &&& final(self).allocator_spec().allocated_at(old(self).allocator_spec(), key, format)
                    &&& forall|j: int|
                        0 <= j < old(self).slots().len() && j != key ==> #[trigger] final(self).slots()[j]
                            == old(self).slots()[j]
                    &&& forall|j: int|
                        old(self).slots().len() <= j < final(self).slots().len() && j != key
                            ==> #[trigger] final(self).slots()[j].tile() is None && final(self).slots()[j].count() == 0
                },
            },
    {
        match self.find_tile(t) {
            Some(k) => {
                let index = TileIndex::new(k * 32 / format.tile_size(), format);
                proof {
                    assert(k < 1024);
                    assert((k * 32) / 32 == k) by (nonlinear_arith);
                    if format == TileFormat::EightBpp {
                        assert(k % 2 == 0);
                        assert((k * 32) / 64 * 2 == k) by (nonlinear_arith)
                            requires k % 2 == 0;
                    }
                }
                self.reference_counts[k].increment_reference_count();
                proof {
                    assert(key_of(index) == k);
                    assert(self.reference_counts@[k as int].tile() == Some(t));
                    assert forall|k1: int, k2: int|
                        0 <= k1 < self.reference_counts@.len() && 0 <= k2 < self.reference_counts@.len()
                            && k1 != k2 && (#[trigger] self.reference_counts@[k1]).tile() is Some
                        implies (#[trigger] self.reference_counts@[k2]).tile() != self.reference_counts@[k1].tile() by {
                        assert(self.reference_counts@[k1].tile() == old(self).reference_counts@[k1].tile());
                        assert(self.reference_counts@[k2].tile() == old(self).reference_counts@[k2].tile());
                    }
                    self.lemma_holder(t, k as int);
                }
                TileAdded { index, copy_to: None }
            },
            None => {
                let address = self.allocator.alloc_for_regular(format);
                let key = (address - VRAM_START) / 32;
                proof {
                    assert(!self.live(key as int)) by {
                        if self.live(key as int) {
                            assert(old(self).allocator_spec().key_holds(key as int, old(self).format_of(key as int)));
                        }
                    }
                }
                self.grow_to(key);
                self.reference_counts.set(key, TileReferenceCount::new(t));
                proof {
                    self.formats@ = self.formats@.insert(key as int, format);
                    assert forall|k: int|
                        0 <= k < self.reference_counts@.len() && k != key && (#[trigger] self.reference_counts@[k]).tile() is Some
                        implies self.allocator.key_holds(k, self.formats@[k]) by {
                        assert(old(self).live(k));
                    }
                    assert forall|k1: int, k2: int|
                        0 <= k1 < self.reference_counts@.len() && 0 <= k2 < self.reference_counts@.len()
                            && k1 != k2 && (#[trigger] self.reference_counts@[k1]).tile() is Some
                        implies (#[trigger] self.reference_counts@[k2]).tile() != self.reference_counts@[k1].tile() by {
                        if k1 == key {
                            if self.reference_counts@[k2].tile() == Some(t) {
                                assert(old(self).live(k2));
                            }
                        } else if k2 == key {
                            if self.reference_counts@[k1].tile() == Some(t) {
                                assert(old(self).live(k1));
                            }
                        }
                    }
                    assert forall|i: int|
                        #![trigger self.indices_to_gc@[i]]
                        0 <= i < self.indices_to_gc@.len() implies {
                            let kk = key_of(self.indices_to_gc@[i]);
                            &&& 0 <= kk < self.reference_counts@.len()
                            &&& self.reference_counts@[kk].tile() is Some
                            &&& self.formats@[kk] == self.indices_to_gc@[i].format_spec()
                        } by {
                        let kk = key_of(old(self).pending()[i]);
                        assert(old(self).live(kk));
                    }
                }
                proof {
                    assert(key < 1024);
                    assert((key * 32) / 32 == key) by (nonlinear_arith);
                    if format == TileFormat::EightBpp {
                        assert(key % 2 == 0);
                        assert((key * 32) / 64 * 2 == key) by (nonlinear_arith)
                            requires key % 2 == 0;
                    }
                }
                let index = TileIndex::new(key * 32 / format.tile_size(), format);
                proof {
                    assert(key_of(index) == key);
                    self.lemma_holder(t, key as int);
                }
                TileAdded { index, copy_to: Some(address) }
            },
        }
    }
}

impl VRamManager {
    /// Whether `index` names a tile held in its own format, so that its
    /// count can change.
    pub open spec fn names_tile(self, index: TileIndex) -> bool {
        &&& self.live(key_of(index))
        &&& self.format_of(key_of(index)) == index.format_spec()
    }

    /// One user of the tile at `index` more.
    pub fn increase_reference(&mut self, index: TileIndex)
        requires
            old(self).wf(),
            old(self).names_tile(index),
            old(self).slots()[key_of(index)].count() < u16::MAX,
        ensures
            final(self).wf(),
            final(self).slots() == old(self).slots().update(
                key_of(index),
                final(self).slots()[key_of(index)],
            ),
            final(self).slots()[key_of(index)].count() == old(self).slots()[key_of(index)].count()
                + 1,
            final(self).slots()[key_of(index)].tile() == old(self).slots()[key_of(index)].tile(),
            final(self).pending() == old(self).pending(),
            final(self).allocator_spec() == old(self).allocator_spec(),
    {
        let key = index.refcount_key();
        self.reference_counts[key].increment_reference_count();
        proof {
            assert(self.reference_counts@ =~= old(self).reference_counts@.update(
                key as int,
                self.reference_counts@[key as int],
            ));
        }
    }

    /// One user of the tile at `index` fewer; when none is left, the tile
    /// waits for `gc` to give its video RAM back.
    pub fn remove_tile(&mut self, index: TileIndex)
        requires
            old(self).wf(),
            old(self).names_tile(index),
            old(self).slots()[key_of(index)].count() > 0,
        ensures
            final(self).wf(),
            final(self).slots() == old(self).slots().update(
                key_of(index),
                final(self).slots()[key_of(index)],
            ),
            final(self).slots()[key_of(index)].count() == old(self).slots()[key_of(index)].count()
                - 1,
            final(self).slots()[key_of(index)].tile() == old(self).slots()[key_of(index)].tile(),
            final(self).pending() == if final(self).slots()[key_of(index)].count() == 0 {
                old(self).pending().push(index)
            } else {
                old(self).pending()
            },
            final(self).allocator_spec() == old(self).allocator_spec(),
    {
        let key = index.refcount_key();
        let new_count = self.reference_counts[key].decrement_reference_count();
        proof {
            assert(self.reference_counts@ =~= old(self).reference_counts@.update(
                key as int,
                self.reference_counts@[key as int],
            ));
        }
        if new_count != 0 {
            return;
        }
        self.indices_to_gc.push(index);
    }

    /// Whether `gc` gives back the tile at `key`: an index waiting for it
    /// names the key, which holds a tile nobody uses.
    pub open spec fn freed_by_gc(self, key: int) -> bool {
        &&& self.live(key)
        &&& self.slots()[key].count() == 0
        &&& exists|i: int| 0 <= i < self.pending().len() && key_of(#[trigger] self.pending()[i]) == key
    }

    /// Gives back the video RAM of every waiting tile that nobody uses any
    /// more; tiles used again since they were removed stay.
    pub fn gc(&mut self)
        requires
            old(self).wf(),
        ensures
            final(self).wf(),
            final(self).pending().len() == 0,
            final(self).slots().len() == old(self).slots().len(),
            forall|k: int|
                0 <= k < old(self).slots().len() ==> if old(self).freed_by_gc(k) {
                    &&& (#[trigger] final(self).slots()[k]).tile() is None
                    &&& final(self).slots()[k].count() == 0
                    &&& forall|f: TileFormat| !final(self).allocator_spec().key_holds(k, f)
                } else {
                    final(self).slots()[k] == old(self).slots()[k]
                },
    {
        let ghost pend = self.indices_to_gc@;
        let ghost start = *self;
        let mut i: usize = 0;
        while i < self.indices_to_gc.len()
            invariant
                start == *old(self),
                start.wf(),
                self.indices_to_gc@ == pend,
                pend == start.indices_to_gc@,
                i <= pend.len(),
                self.allocator.wf(),
                self.reference_counts@.len() == start.reference_counts@.len(),
                self.reference_counts@.len() <= 1024,
                self.formats == start.formats,
                forall|k: int|
                    #![trigger self.reference_counts@[k]]
                    0 <= k < self.reference_counts@.len() ==> {
                        let done = start.live(k) && start.reference_counts@[k].count() == 0 && exists|j: int|
                            0 <= j < i && key_of(#[trigger] pend[j]) == k;
                        if done {
                            &&& self.reference_counts@[k].tile() is None
                            &&& self.reference_counts@[k].count() == 0
                            &&& forall|f: TileFormat| !self.allocator.key_holds(k, f)
                        } else {
                            &&& self.reference_counts@[k] == start.reference_counts@[k]
                            &&& self.reference_counts@[k].tile() is Some ==> self.allocator.key_holds(k, self.formats@[k])
                        }
                    },
            decreases pend.len() - i,
        {
            let index = self.indices_to_gc[i];
            let key = index.refcount_key();
            proof {
                assert(start.indices_to_gc@[i as int] == index);
            }
            let count = self.reference_counts[key].current_count();
            let held = match &self.reference_counts[key].tile_in_tile_set {
                Some(_) => true,
                None => false,
            };
            if count == 0 && held {
                let ghost before = *self;
                proof {
                    assert(key < self.reference_counts@.len());
                    assert(index.raw_spec() * index.format_spec().size_spec() == key * 32);
                }
                let address = index.raw_index() as usize * index.format().tile_size() + VRAM_START;
                proof {
                    assert(self.reference_counts@[key as int] == start.reference_counts@[key as int]);
                    assert(address == VRAM_START + 32 * key);
                    assert((address - VRAM_START) / 32 == key);
                }
                self.allocator.dealloc(address, index.format());
                self.reference_counts[key].clear();
                proof {
                    assert forall|k: int|
                        #![trigger self.reference_counts@[k]]
                        0 <= k < self.reference_counts@.len() implies {
                            let done = start.live(k) && start.reference_counts@[k].count() == 0 && exists|j: int|
                                0 <= j < i + 1 && key_of(#[trigger] pend[j]) == k;
                            if done {
                                &&& self.reference_counts@[k].tile() is None
                                &&& self.reference_counts@[k].count() == 0
                                &&& forall|f: TileFormat| !self.allocator.key_holds(k, f)
                            } else {
                                &&& self.reference_counts@[k] == start.reference_counts@[k]
                                &&& self.reference_counts@[k].tile() is Some ==> self.allocator.key_holds(k, self.formats@[k])
                            }
                        } by {
                        if k == key {
                            assert(key_of(pend[i as int]) == k);
                            assert forall|f: TileFormat| !self.allocator.key_holds(k, f) by {
                                if f != index.format_spec() {
                                    assert(self.allocator.key_holds(k, f) == before.allocator.key_holds(k, f));
                                    if before.allocator.key_holds(k, f) {
                                        lemma_one_format(before.allocator, k, f, index.format_spec());
                                    }
                                }
                            }
                        } else {
                            assert(self.reference_counts@[k] == before.reference_counts@[k]);
                            assert forall|f: TileFormat| #[trigger] self.allocator.key_holds(k, f) == before.allocator.key_holds(k, f) by {}
                            let done_before = start.live(k) && start.reference_counts@[k].count() == 0 && exists|j: int|
                                0 <= j < i && key_of(#[trigger] pend[j]) == k;
                            if start.live(k) && start.reference_counts@[k].count() == 0 && exists|j: int|
                                0 <= j < i + 1 && key_of(#[trigger] pend[j]) == k {
                                let j = choose|j: int| 0 <= j < i + 1 && key_of(#[trigger] pend[j]) == k;
                                assert(j != i);
                                assert(done_before);
                            }
                        }
                    }
                }
            } else {
                proof {
                    assert forall|k: int|
                        #![trigger self.reference_counts@[k]]
                        0 <= k < self.reference_counts@.len() implies {
                            let done = start.live(k) && start.reference_counts@[k].count() == 0 && exists|j: int|
                                0 <= j < i + 1 && key_of(#[trigger] pend[j]) == k;
                            if done {
                                &&& self.reference_counts@[k].tile() is None
                                &&& self.reference_counts@[k].count() == 0
                                &&& forall|f: TileFormat| !self.allocator.key_holds(k, f)
                            } else {
                                &&& self.reference_counts@[k] == start.reference_counts@[k]
                                &&& self.reference_counts@[k].tile() is Some ==> self.allocator.key_holds(k, self.formats@[k])
                            }
                        } by {
                        let done_before = start.live(k) && start.reference_counts@[k].count() == 0 && exists|j: int|
                            0 <= j < i && key_of(#[trigger] pend[j]) == k;
                        if start.live(k) && start.reference_counts@[k].count() == 0 && exists|j: int|
                            0 <= j < i + 1 && key_of(#[trigger] pend[j]) == k {
                            let j = choose|j: int| 0 <= j < i + 1 && key_of(#[trigger] pend[j]) == k;
                            if j == i {
                                assert(k == key);
                                if !done_before {
                                    assert(self.reference_counts@[k] == start.reference_counts@[k]);
                                }
                            }
                        }
                    }
                }
            }
            i = i + 1;
        }
        self.indices_to_gc.clear();
        proof {
            assert forall|k: int|
                0 <= k < old(self).slots().len() implies if old(self).freed_by_gc(k) {
                    &&& (#[trigger] self.slots()[k]).tile() is None
                    &&& self.slots()[k].count() == 0
                    &&& forall|f: TileFormat| !self.allocator_spec().key_holds(k, f)
                } else {
                    self.slots()[k] == old(self).slots()[k]
                } by {
                assert(self.reference_counts@[k] == self.slots()[k]);
                if old(self).freed_by_gc(k) {
                    let j = choose|j: int| 0 <= j < old(self).pending().len() && key_of(#[trigger] old(self).pending()[j]) == k;
                    assert(key_of(pend[j]) == k);
                }
            }
            assert forall|k1: int, k2: int|
                0 <= k1 < self.reference_counts@.len() && 0 <= k2 < self.reference_counts@.len()
                    && k1 != k2 && (#[trigger] self.reference_counts@[k1]).tile() is Some
                implies (#[trigger] self.reference_counts@[k2]).tile() != self.reference_counts@[k1].tile() by {
                assert(start.reference_counts@[k1] == self.reference_counts@[k1]);
                if self.reference_counts@[k2].tile() is Some {
                    assert(start.reference_counts@[k2] == self.reference_counts@[k2]);
                }
            }
        }
    }

    /// Places a new 4bpp tile whose pixels are changed at run time, with one
    /// user, and returns its index.
    pub fn new_dynamic_tile(&mut self) -> (r: TileIndex)
        requires
            old(self).wf(),
            old(self).allocator_spec().can_alloc_for_regular(TileFormat::FourBpp),
        ensures
            final(self).wf(),
            final(self).pending() == old(self).pending(),
            r is FourBpp,
            !old(self).live(key_of(r)),
            final(self).live(key_of(r)),
            final(self).format_of(key_of(r)) == TileFormat::FourBpp,
            final(self).slots()[key_of(r)].count() == 1,
            final(self).slots()[key_of(r)].tile() == Some(
                TileInTileSetReference {
                    tileset: VRAM_START,
                    tileset_len: DYNAMIC_TILE_SET_LEN,
                    tile: key_of(r) as u16,
                },
            ),
            final(self).allocator_spec().allocated_at(
                old(self).allocator_spec(),
                key_of(r),
                TileFormat::FourBpp,
            ),
            forall|j: int|
                0 <= j < old(self).slots().len() && j != key_of(r) ==> #[trigger] final(self).slots()[j]
                    == old(self).slots()[j],
    {
        let format = TileFormat::FourBpp;
        let address = self.allocator.alloc_for_regular(format);
        let key = (address - VRAM_START) / 32;
        let t = TileInTileSetReference {
            tileset: VRAM_START,
            tileset_len: DYNAMIC_TILE_SET_LEN,
            tile: key as u16,
        };
        proof {
            assert(!self.live(key as int)) by {
                if self.live(key as int) {
                    assert(old(self).allocator_spec().key_holds(key as int, old(self).format_of(key as int)));
                }
            }
        }
        self.grow_to(key);
        self.reference_counts.set(key, TileReferenceCount::new(t));
        proof {
            self.formats@ = self.formats@.insert(key as int, format);
            assert forall|k: int|
                0 <= k < self.reference_counts@.len() && k != key && (#[trigger] self.reference_counts@[k]).tile() is Some
                implies self.allocator.key_holds(k, self.formats@[k]) by {
                assert(old(self).live(k));
            }
            assert forall|k1: int, k2: int|
                0 <= k1 < self.reference_counts@.len() && 0 <= k2 < self.reference_counts@.len()
                    && k1 != k2 && (#[trigger] self.reference_counts@[k1]).tile() is Some
                implies (#[trigger] self.reference_counts@[k2]).tile() != self.reference_counts@[k1].tile() by {
                if k1 == key && self.reference_counts@[k2].tile() == Some(t) {
                    assert(old(self).live(k2));
                } else if k2 == key && self.reference_counts@[k1].tile() == Some(t) {
                    assert(old(self).live(k1));
                }
            }
            assert forall|i: int|
                #![trigger self.indices_to_gc@[i]]
                0 <= i < self.indices_to_gc@.len() implies {
                    let kk = key_of(self.indices_to_gc@[i]);
                    &&& 0 <= kk < self.reference_counts@.len()
                    &&& self.reference_counts@[kk].tile() is Some
                    &&& self.formats@[kk] == self.indices_to_gc@[i].format_spec()
                } by {
                let kk = key_of(old(self).pending()[i]);
                assert(old(self).live(kk));
            }
        }
        TileIndex::FourBpp(key as u16)
    }

    /// Removes the user of the dynamic tile numbered `tile_id`.
    pub fn remove_dynamic_tile(&mut self, tile_id: u16)
        requires
            old(self).wf(),
            old(self).names_tile(TileIndex::FourBpp(tile_id)),
            old(self).slots()[tile_id as int].count() > 0,
        ensures
            final(self).wf(),
            final(self).slots() == old(self).slots().update(
                tile_id as int,
                final(self).slots()[tile_id as int],
            ),
            final(self).slots()[tile_id as int].count() == old(self).slots()[tile_id as int].count() - 1,
            final(self).pending() == if final(self).slots()[tile_id as int].count() == 0 {
                old(self).pending().push(TileIndex::FourBpp(tile_id))
            } else {
                old(self).pending()
            },
    {
        self.remove_tile(TileIndex::FourBpp(tile_id));
    }
}

/// A tile is held in one format at most.
proof fn lemma_one_format(a: TileAllocator, k: int, f: TileFormat, g: TileFormat)
    requires
        a.wf(),
        a.key_holds(k, f),
        a.key_holds(k, g),
    ensures
        f == g,
{
    if f != g {
        if 2 <= k < 512 {
            a.affine().lemma_held_once(k - 2);
        } else {
            a.regular().lemma_held_once(k - 512);
        }
    }
}

/// The index of colour `colour_index` of background palette `pal_index` in
/// the 256 entries of the background palette.
pub open spec fn palette_entry(pal_index: int, colour_index: int) -> int {
    16 * pal_index + colour_index
}

impl VRamManager {
    /// Where the tile `source` sits in video RAM, with the words of tile
    /// `target_tile` of `target_tile_set` to copy there; `None` when the
    /// tile is not in video RAM. The two tiles have the same format.
    pub fn replace_tile(
        &self,
        source: TileInTileSetReference,
        source_format: TileFormat,
        target_tile_set: &TileSet,
        target_tile: u16,
    ) -> (r: Option<(usize, Vec<u32>)>)
        requires
            self.wf(),
            source_format == target_tile_set.format_spec(),
            (target_tile as int + 1) * target_tile_set.format_spec().size_spec()
                <= target_tile_set.tiles_spec().len(),
        ensures
            match self.holder(source) {
                Some(k) => r matches Some((address, words)) && address == VRAM_START + 32 * k
                    && words@.len() == target_tile_set.format_spec().size_spec() / 4 && forall|
                    i: int,
                | 0 <= i < words@.len() ==> #[trigger] words@[i] == le_word(
                    target_tile_set.tiles_spec(),
                    target_tile * target_tile_set.format_spec().size_spec() + 4 * i,
                ),
                None => r is None,
            },
    {
        match self.find_tile(source) {
            Some(k) => {
                proof {
                    assert(self.live(k as int));
                }
                let words = copy_tile_to_location(target_tile_set, target_tile);
                Some((VRAM_START + 32 * k, words))
            },
            None => None,
        }
    }

    /// The index of colour `colour_index` of background palette `pal_index`
    /// in the background palette, which a DMA transfer or a write of that
    /// colour targets.
    pub fn background_palette_colour_index(&self, pal_index: usize, colour_index: usize) -> (r: usize)
        requires
            pal_index < 16,
            colour_index < 16,
        ensures
            r == palette_entry(pal_index as int, colour_index as int),
    {
        16 * pal_index + colour_index
    }

    /// The write that sets colour `colour_index` of background palette
    /// `pal_index` to `colour`.
    pub fn set_background_palette_colour(
        &mut self,
        pal_index: usize,
        colour_index: usize,
        colour: u16,
    ) -> (r: (usize, u16))
        requires
            pal_index < 16,
            colour_index < 16,
        ensures
            r == (palette_entry(pal_index as int, colour_index as int) as usize, colour),
    {
        (colour_index + 16 * pal_index, colour)
    }

    /// The write that sets colour `colour_index` of the 256 colour palette:
    /// colour `colour_index % 16` of palette `colour_index / 16`.
    pub fn set_background_palette_colour_256(&mut self, colour_index: usize, colour: u16) -> (r: (
        usize,
        u16,
    ))
        requires
            colour_index < 256,
        ensures
            r == (colour_index, colour),
    {
        self.set_background_palette_colour(colour_index / 16, colour_index % 16, colour)
    }

    /// The writes that copy `palette` to background palette `pal_index`:
    /// colour `i` to entry `16 * pal_index + i`.
    pub fn set_background_palette(&mut self, pal_index: u8, palette: &Palette16) -> (r: Vec<
        (usize, u16),
    >)
        requires
            pal_index < 16,
        ensures
            r@.len() == 16,
            forall|i: int|
                0 <= i < 16 ==> #[trigger] r@[i] == (
                    palette_entry(pal_index as int, i) as usize,
                    palette.colours@[i],
                ),
    {
        let mut out: Vec<(usize, u16)> = Vec::new();
        let mut i: usize = 0;
        while i < 16
            invariant
                i <= 16,
                pal_index < 16,
                out@.len() == i,
                forall|j: int|
                    0 <= j < i ==> #[trigger] out@[j] == (
                        palette_entry(pal_index as int, j) as usize,
                        palette.colours@[j],
                    ),
            decreases 16 - i,
        {
            out.push((i + 16 * pal_index as usize, palette.colours[i]));
            i = i + 1;
        }
        out
    }

    /// The writes that copy each palette of `palettes`, at most 16, to the
    /// background palette of its number.
    pub fn set_background_palettes(&mut self, palettes: &[Palette16]) -> (r: Vec<(usize, u16)>)
        requires
            palettes@.len() <= 16,
        ensures
            r@.len() == 16 * palettes@.len(),
            forall|p: int, i: int|
                0 <= p < palettes@.len() && 0 <= i < 16 ==> #[trigger] r@[16 * p + i] == (
                    palette_entry(p, i) as usize,
                    palettes@[p].colours@[i],
                ),
    {
        let mut out: Vec<(usize, u16)> = Vec::new();
        let mut p: usize = 0;
        while p < palettes.len()
            invariant
                p <= palettes@.len(),
                palettes@.len() <= 16,
                out@.len() == 16 * p,
                forall|q: int, i: int|
                    0 <= q < p && 0 <= i < 16 ==> #[trigger] out@[16 * q + i] == (
                        palette_entry(q, i) as usize,
                        palettes@[q].colours@[i],
                    ),
            decreases palettes@.len() - p,
        {
            let mut writes = self.set_background_palette(p as u8, &palettes[p]);
            let ghost before = out@;
            out.append(&mut writes);
            proof {
                assert forall|q: int, i: int|
                    0 <= q < p + 1 && 0 <= i < 16 implies #[trigger] out@[16 * q + i] == (
                    palette_entry(q, i) as usize,
                    palettes@[q].colours@[i],
                ) by {
                    if q < p {
                        assert(out@[16 * q + i] == before[16 * q + i]);
                    } else {
                        assert(out@[16 * q + i] == out@[16 * p + i]);
                    }
                }
            }
            p = p + 1;
        }
        out
    }

    /// The first colour of background palette `palette_index` equal to
    /// `colour`, read from `palette`, the 256 entries of the background
    /// palette.
    pub fn find_colour_index_16(&self, palette: &[u16], palette_index: usize, colour: u16) -> (r:
        Option<usize>)
        requires
            palette@.len() == 256,
            palette_index < 16,
        ensures
            match r {
                Some(i) => i < 16 && palette@[palette_entry(palette_index as int, i as int)]
                    == colour && forall|j: int|
                    0 <= j < i ==> #[trigger] palette@[palette_entry(palette_index as int, j)]
                        != colour,
                None => forall|j: int|
                    0 <= j < 16 ==> #[trigger] palette@[palette_entry(palette_index as int, j)]
                        != colour,
            },
    {
        let mut i: usize = 0;
        while i < 16
            invariant
                i <= 16,
                palette@.len() == 256,
                palette_index < 16,
                forall|j: int|
                    0 <= j < i ==> #[trigger] palette@[palette_entry(palette_index as int, j)]
                        != colour,
            decreases 16 - i,
        {
            if palette[palette_index * 16 + i] == colour {
                return Some(i);
            }
            i = i + 1;
        }
        None
    }

    /// The first entry of the whole background palette equal to `colour`,
    /// read from `palette`, its 256 entries.
    pub fn find_colour_index_256(&self, palette: &[u16], colour: u16) -> (r: Option<usize>)
        requires
            palette@.len() == 256,
        ensures
            match r {
                Some(i) => i < 256 && palette@[i as int] == colour && forall|j: int|
                    0 <= j < i ==> #[trigger] palette@[j] != colour,
                None => forall|j: int| 0 <= j < 256 ==> #[trigger] palette@[j] != colour,
            },
    {
        let mut i: usize = 0;
        while i < 256
            invariant
                i <= 256,
                palette@.len() == 256,
                forall|j: int| 0 <= j < i ==> #[trigger] palette@[j] != colour,
            decreases 256 - i,
        {
            if palette[i] == colour {
                return Some(i);
            }
            i = i + 1;
        }
        None
    }
}

} // verus!

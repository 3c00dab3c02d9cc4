use agb::display::tiled::background_size::{
    affine_background_control, regular_background_control, AffineBackgroundSize,
    AffineBackgroundWrapBehaviour, RegularBackgroundSize,
};
use agb::display::tiled::infinite_scrolled_map::{
    div_floor_stable, rect_tiles, InfiniteScrolledMap, PartialUpdateStatus,
};
use agb::display::tiled::vram_manager::tile_allocator::{
    TileAllocator, TileAllocatorInner, AFFINE_ALLOC_END, AFFINE_ALLOC_START,
};
use agb::display::tiled::vram_manager::{
    copy_tile_to_location, DynamicTile16, TileFormat, TileInTileSetReference, TileIndex, TileSet,
    VRamManager,
};
use agb::display::tiled::{BackgroundId, TileSetting};
use agb::display::tiled0::{BackgroundMap, Tiled0};
use agb::display::utils::blit_16_colour;
use agb::display::window::{WinIn, Windows};
use agb::display::{Palette16, Priority};
use agb::number::{vec2, Rect, Vector2D};
use agb::rng::RandomNumberGenerator;

#[test]
fn allocate_some_4bpp_tiles() {
    let mut allocator = TileAllocatorInner::new(8);
    let first_tile = allocator.allocate_4bpp().unwrap();
    let second_tile = allocator.allocate_4bpp().unwrap();
    assert_eq!(first_tile, 0);
    assert_eq!(second_tile, 1);
}

#[test]
fn allocate_and_deallocate_first_4bpp_tile() {
    let mut allocator = TileAllocatorInner::new(8);
    let first_tile = allocator.allocate_4bpp().unwrap();
    let _second_tile = allocator.allocate_4bpp().unwrap();
    allocator.dealloc_4bpp(first_tile);
    let first_tile2 = allocator.allocate_4bpp().unwrap();
    assert_eq!(first_tile, first_tile2);
}

#[test]
fn allocate_and_deallocate_second_4bpp_tile() {
    let mut allocator = TileAllocatorInner::new(8);
    let _first_tile = allocator.allocate_4bpp().unwrap();
    let second_tile = allocator.allocate_4bpp().unwrap();
    allocator.dealloc_4bpp(second_tile);
    let second_tile2 = allocator.allocate_4bpp().unwrap();
    assert_eq!(second_tile, second_tile2);
}

#[test]
fn allocate_and_deallocate_to_merge() {
    let mut allocator = TileAllocatorInner::new(8);
    let first_tile = allocator.allocate_4bpp().unwrap();
    let second_tile = allocator.allocate_4bpp().unwrap();
    allocator.dealloc_4bpp(first_tile);
    allocator.dealloc_4bpp(second_tile);
    let third_tile = allocator.allocate_8bpp().unwrap();
    assert_eq!(first_tile, third_tile);
}

#[test]
fn allocator_runs_out_and_refills() {
    let mut allocator = TileAllocatorInner::new(4);
    assert_eq!(allocator.allocate_8bpp(), Some(0));
    assert_eq!(allocator.allocate_8bpp(), Some(2));
    assert_eq!(allocator.allocate_8bpp(), None);
    assert_eq!(allocator.allocate_4bpp(), None);
    allocator.dealloc_8bpp(2);
    assert_eq!(allocator.allocate_4bpp(), Some(2));
    assert_eq!(allocator.allocate_4bpp(), Some(3));
    assert_eq!(allocator.allocate_4bpp(), None);
}

#[test]
fn allocate_and_deallocate_interleaved_fuzzed() {
    let mut allocator = TileAllocatorInner::new(260);
    let mut rng = RandomNumberGenerator::new();
    let mut tiles_4bpp: Vec<usize> = vec![];
    let mut tiles_8bpp: Vec<usize> = vec![];
    for _ in 0..1000 {
        match (rng.gen() as i32).rem_euclid(4) {
            0 => {
                if let Some(tile) = allocator.allocate_4bpp() {
                    assert!(!tiles_4bpp.contains(&tile));
                    assert!(!tiles_8bpp.contains(&(tile & !1)));
                    tiles_4bpp.push(tile);
                }
            }
            1 => {
                if let Some(block) = allocator.allocate_8bpp() {
                    assert_eq!(block % 2, 0);
                    assert!(!tiles_4bpp.contains(&block));
                    assert!(!tiles_4bpp.contains(&(block + 1)));
                    assert!(!tiles_8bpp.contains(&block));
                    tiles_8bpp.push(block);
                }
            }
            2 => {
                if !tiles_4bpp.is_empty() {
                    let at = (rng.gen() as i32).rem_euclid(tiles_4bpp.len() as i32) as usize;
                    let tile = tiles_4bpp.swap_remove(at);
                    allocator.dealloc_4bpp(tile);
                }
            }
            _ => {
                if !tiles_8bpp.is_empty() {
                    let at = (rng.gen() as i32).rem_euclid(tiles_8bpp.len() as i32) as usize;
                    let block = tiles_8bpp.swap_remove(at);
                    allocator.dealloc_8bpp(block);
                }
            }
        }
    }
}

#[test]
fn tile_allocator_gives_regular_tiles_after_affine_area() {
    let mut allocator = TileAllocator::new();
    let first = allocator.alloc_for_regular(TileFormat::FourBpp);
    assert_eq!(first, AFFINE_ALLOC_END);
    let affine = allocator.alloc_for_affine();
    assert_eq!(affine, AFFINE_ALLOC_START);
    allocator.dealloc(first, TileFormat::FourBpp);
    assert_eq!(allocator.alloc_for_regular(TileFormat::FourBpp), first);
}

#[test]
fn tile_format_sizes() {
    assert_eq!(TileFormat::FourBpp.tile_size(), 32);
    assert_eq!(TileFormat::EightBpp.tile_size(), 64);
}

#[test]
fn tile_index_keys_and_offsets() {
    let four = TileIndex::new(5, TileFormat::FourBpp);
    assert_eq!(four, TileIndex::FourBpp(5));
    assert_eq!(four.raw_index(), 5);
    assert_eq!(four.refcount_key(), 5);
    assert_eq!(four.byte_offset(), 160);
    let eight = TileIndex::new(5, TileFormat::EightBpp);
    assert_eq!(eight.format(), TileFormat::EightBpp);
    assert_eq!(eight.refcount_key(), 10);
    assert_eq!(eight.byte_offset(), 320);
}

#[test]
fn copying_a_tile_reads_little_endian_words() {
    let mut bytes = vec![0u8; 64];
    for (i, b) in bytes.iter_mut().enumerate() {
        *b = i as u8;
    }
    let set = TileSet::new(&bytes, TileFormat::FourBpp);
    assert_eq!(set.len(), 2);
    let words = copy_tile_to_location(&set, 1);
    assert_eq!(words.len(), 8);
    assert_eq!(words[0], 0x2322_2120);
    assert_eq!(words[7], 0x3f3e_3d3c);
}

fn tile_ref(tile: u16) -> TileInTileSetReference {
    TileInTileSetReference { tileset: 0x1000, tileset_len: 64, tile }
}

#[test]
fn adding_the_same_tile_twice_shares_it() {
    let mut vram = VRamManager::new();
    let first = vram.add_tile(tile_ref(1), TileFormat::FourBpp);
    let place = first.copy_to.expect("a new tile is copied");
    assert_eq!(place, AFFINE_ALLOC_END + first.index.byte_offset() - 512 * 32);
    let second = vram.add_tile(tile_ref(1), TileFormat::FourBpp);
    assert_eq!(second.copy_to, None);
    assert_eq!(second.index, first.index);
    let other = vram.add_tile(tile_ref(2), TileFormat::FourBpp);
    assert!(other.copy_to.is_some());
    assert_ne!(other.index, first.index);
}

#[test]
fn removed_tiles_are_given_back_by_gc() {
    let mut vram = VRamManager::new();
    let first = vram.add_tile(tile_ref(1), TileFormat::FourBpp);
    vram.add_tile(tile_ref(1), TileFormat::FourBpp);
    vram.remove_tile(first.index);
    vram.gc();
    let again = vram.add_tile(tile_ref(1), TileFormat::FourBpp);
    assert_eq!(again.copy_to, None);
    vram.remove_tile(first.index);
    vram.remove_tile(first.index);
    vram.gc();
    let fresh = vram.add_tile(tile_ref(1), TileFormat::FourBpp);
    assert!(fresh.copy_to.is_some());
}

#[test]
fn tiles_used_again_before_gc_stay() {
    let mut vram = VRamManager::new();
    let first = vram.add_tile(tile_ref(3), TileFormat::EightBpp);
    vram.remove_tile(first.index);
    vram.increase_reference(first.index);
    vram.gc();
    let again = vram.add_tile(tile_ref(3), TileFormat::EightBpp);
    assert_eq!(again.copy_to, None);
    assert_eq!(again.index, first.index);
}

#[test]
fn dynamic_tiles_are_distinct() {
    let mut vram = VRamManager::new();
    let a = vram.new_dynamic_tile();
    let b = vram.new_dynamic_tile();
    assert_ne!(a, b);
    assert_eq!(a.format(), TileFormat::FourBpp);
    vram.remove_dynamic_tile(a.raw_index());
    vram.gc();
    let c = vram.new_dynamic_tile();
    assert_ne!(c, b);
}

#[test]
fn dynamic_tile_pixels() {
    let tile = DynamicTile16::new(3, vec![0; 8]).fill_with(5);
    assert_eq!(tile.data(), &[0x5555_5555u32; 8][..]);
    let mut tile = tile;
    tile.set_pixel(1, 2, 0xa);
    assert_eq!(tile.data()[2], 0x5555_55a5);
    assert_eq!(tile.tile_id(), 3);
}

#[test]
fn blitting_skips_transparent_pixels() {
    let mut target = [0x0103_0507u32, 0xffff_ffff];
    blit_16_colour(&mut target, &[0x89ab_cdef, 0x0000_0000]);
    assert_eq!(target, [0x89ab_cdef, 0xffff_ffff]);
    let mut target = [0x1111_1111u32];
    blit_16_colour(&mut target, &[0x0200_3004]);
    assert_eq!(target, [0x1211_3114]);
}

#[test]
fn tile_setting_flags() {
    let setting = TileSetting::new(17, true, false, 3);
    assert_eq!(setting.index(), 17);
    assert_eq!(setting.setting(), (1 << 10) | (3 << 12));
    let flipped = setting.hflip(true).vflip(true);
    assert_eq!(flipped.setting(), (1 << 11) | (3 << 12));
    assert_eq!(flipped.vflip(true).setting(), (3 << 12));
    assert_eq!(TileSetting::blank().index(), 0xffff);
    assert_eq!(setting.palette(1).setting(), (1 << 10) | (2 << 12));
}

#[test]
fn div_floor_stable_rounds_down() {
    assert_eq!(div_floor_stable(12, 5), 2);
    assert_eq!(div_floor_stable(-12, 5), -3);
    assert_eq!(div_floor_stable(12, -5), -3);
    assert_eq!(div_floor_stable(-12, -5), 2);
    assert_eq!(div_floor_stable(-16, 8), -2);
    assert_eq!(div_floor_stable(-15, 8), -2);
}

#[test]
fn rect_tiles_lists_every_tile() {
    let tiles = rect_tiles(Rect::new(vec2(1, 2), vec2(2, 1)));
    assert_eq!(tiles, vec![vec2(1, 2), vec2(2, 2)]);
    let tiles = rect_tiles(Rect::new(vec2(-1, 0), vec2(1, 2)));
    assert_eq!(tiles, vec![vec2(-1, 0), vec2(-1, 1)]);
    assert!(rect_tiles(Rect::new(vec2(0, 0), vec2(0, 3))).is_empty());
}

#[test]
fn infinite_map_fills_the_screen_two_rows_at_a_time() {
    let mut map = InfiniteScrolledMap::new(vec2(0, 0), Priority::P2);
    let mut calls = 0;
    loop {
        let update = map.set_scroll_pos(vec2(0, 0));
        calls += 1;
        assert_eq!(update.rects.len(), 1);
        let rect = update.rects[0];
        assert_eq!(rect.position.x, 0);
        assert_eq!(rect.size.x, 31);
        if update.status == PartialUpdateStatus::Done {
            break;
        }
        assert!(calls < 20);
    }
    assert_eq!(calls, 11);
    assert_eq!(map.partial_update_status(), PartialUpdateStatus::Done);
    assert!(map.show_if_done());
    assert_eq!(map.priority(), Priority::P2);
}

#[test]
fn infinite_map_refreshes_tiles_scrolled_into_view() {
    let mut map = InfiniteScrolledMap::new(vec2(0, 0), Priority::P0);
    while map.set_scroll_pos(vec2(0, 0)).status != PartialUpdateStatus::Done {}
    let update = map.set_scroll_pos(vec2(3, 0));
    assert_eq!(update.status, PartialUpdateStatus::Done);
    assert!(update.rects.is_empty());
    let update = map.set_scroll_pos(vec2(8, 0));
    assert_eq!(update.status, PartialUpdateStatus::Done);
    assert!(!update.rects.is_empty());
    for rect in &update.rects {
        for tile in rect_tiles(*rect) {
            assert!(tile.x >= 0 && tile.x <= 31);
        }
    }
    assert_eq!(map.scroll_pos(), vec2(8, 0));
    let far = map.set_scroll_pos(vec2(1000, 1000));
    assert_eq!(far.status, PartialUpdateStatus::Continue);
    assert!(!map.show_if_done());
}

#[test]
fn backgrounds_take_the_lowest_free_block() {
    let mut tiled = Tiled0::new();
    let start = tiled.set_background_tilemap(0, &[0u32; 600]);
    assert_eq!(start, 0);
    let mut first = tiled.get_background::<Vec<u16>>().unwrap();
    assert_eq!(first.show(0), 1 << 8);
    assert_eq!(first.hide_background(0xffff), 0xfeff);
    let plan = first.commit();
    assert_eq!(plan.register, 2 << 8);
    assert!(plan.writes.is_empty());
    let second = tiled.get_background::<Vec<u16>>().unwrap();
    let mut second = second;
    assert_eq!(second.commit().register, 3 << 8);
    assert!(tiled.get_background::<Vec<u16>>().is_ok());
    assert!(tiled.get_background::<Vec<u16>>().is_ok());
    assert_eq!(
        tiled.get_background::<Vec<u16>>().err(),
        Some("too many backgrounds created, maximum is 4")
    );
}

#[test]
fn committing_a_map_writes_what_shows() {
    let mut tiled = Tiled0::new();
    let mut background = tiled.get_background::<Vec<u16>>().unwrap();
    background.set_map(BackgroundMap {
        store: vec![10, 11, 12, 13],
        dimensions: Vector2D::new(2u32, 2u32),
        default: 7,
    });
    background.set_priority(Priority::P1);
    let plan = background.commit();
    assert_eq!(plan.register, 1);
    assert_eq!(plan.scroll_x, 0);
    assert!(plan.writes.contains(&(0, 10)));
    assert!(plan.writes.contains(&(1, 11)));
    assert!(plan.writes.contains(&(32, 12)));
    assert!(plan.writes.contains(&(33, 13)));
    assert!(plan.writes.contains(&(5 * 32 + 5, 7)));
    background.set_position(vec2(-8, 300));
    let plan = background.commit();
    assert_eq!(plan.scroll_x, (-8i32 % 256) as u16);
    assert_eq!(plan.scroll_y, 300 % 256);
}

#[test]
fn palettes_are_written_in_order() {
    let mut tiled = Tiled0::new();
    let writes = tiled.set_background_palette_raw(&[1, 2, 3]);
    assert_eq!(writes, vec![(0, 1), (1, 2), (2, 3)]);
    let mut colours = [0u16; 16];
    colours[3] = 0x7fff;
    let palettes = [Palette16 { colours: [0; 16] }, Palette16 { colours }];
    let writes = tiled.set_background_palettes(&palettes);
    assert_eq!(writes.len(), 32);
    assert_eq!(writes[19], (19, 0x7fff));
}

#[test]
fn windows_commit_their_settings() {
    let mut windows = Windows::new();
    windows.win_out().enable().enable_background(BackgroundId(1));
    windows
        .win_in(WinIn::Win0)
        .enable()
        .enable_objects()
        .set_pos(Rect::new(vec2(10, 20), vec2(30, 40)));
    let registers = windows.commit();
    assert_eq!(registers.horizontal.0, (10 << 8) | 40);
    assert_eq!(registers.vertical.0, (20 << 8) | 60);
    assert_eq!(registers.settings.0, 0x80 | 0x10);
    assert_eq!(registers.settings.2, 0x80 | 0x02);
    assert_eq!(registers.settings.3, 0);
    assert_eq!(registers.display, (false, true, false));
    assert_eq!(WinIn::Win1.index(), 1);
}

#[test]
fn priorities_have_their_bits() {
    assert_eq!(Priority::P0.bits(), 0);
    assert_eq!(Priority::P3.bits(), 3);
}

#[test]
fn replacing_a_tile_copies_over_its_place() {
    let mut vram = VRamManager::new();
    let added = vram.add_tile(tile_ref(1), TileFormat::FourBpp);
    let mut bytes = vec![0u8; 64];
    bytes[32] = 0xab;
    let target = TileSet::new(&bytes, TileFormat::FourBpp);
    let (address, words) = vram
        .replace_tile(tile_ref(1), TileFormat::FourBpp, &target, 1)
        .expect("the tile is in video RAM");
    assert_eq!(Some(address), added.copy_to);
    assert_eq!(words.len(), 8);
    assert_eq!(words[0], 0xab);
    assert!(vram.replace_tile(tile_ref(2), TileFormat::FourBpp, &target, 1).is_none());
}

#[test]
fn background_palette_entries() {
    let mut vram = VRamManager::new();
    assert_eq!(vram.background_palette_colour_index(2, 3), 35);
    assert_eq!(vram.set_background_palette_colour(1, 15, 0x7c00), (31, 0x7c00));
    assert_eq!(vram.set_background_palette_colour_256(200, 5), (200, 5));
    let mut colours = [0u16; 16];
    colours[4] = 9;
    let writes = vram.set_background_palette(3, &Palette16 { colours });
    assert_eq!(writes.len(), 16);
    assert_eq!(writes[4], (52, 9));
    let writes = vram.set_background_palettes(&[Palette16 { colours: [1; 16] }, Palette16 { colours }]);
    assert_eq!(writes.len(), 32);
    assert_eq!(writes[20], (20, 9));
}

#[test]
fn finding_colours_in_the_palette() {
    let vram = VRamManager::new();
    let mut palette = [0u16; 256];
    palette[16 * 2 + 5] = 0x1234;
    palette[16 * 3 + 1] = 0x1234;
    assert_eq!(vram.find_colour_index_16(&palette, 2, 0x1234), Some(5));
    assert_eq!(vram.find_colour_index_16(&palette, 3, 0x1234), Some(1));
    assert_eq!(vram.find_colour_index_16(&palette, 4, 0x1234), None);
    assert_eq!(vram.find_colour_index_256(&palette, 0x1234), Some(37));
    assert_eq!(vram.find_colour_index_256(&palette, 0x4321), None);
}

#[test]
fn regular_background_offsets_wrap_into_screenblocks() {
    let small = RegularBackgroundSize::Background32x32;
    assert_eq!(small.gba_offset(Vector2D::new(5, 3)), 101);
    assert_eq!(small.gba_offset(Vector2D::new(37, 35)), 101);
    let large = RegularBackgroundSize::Background64x64;
    assert_eq!(large.gba_offset(Vector2D::new(40, 35)), 3176);
    let wide = RegularBackgroundSize::Background64x32;
    assert_eq!(wide.gba_offset(Vector2D::new(-1, 0)), 1055);
    let tall = RegularBackgroundSize::Background32x64;
    assert_eq!(tall.gba_offset(Vector2D::new(0, -1)), 2016);
    assert_eq!(wide.num_tiles(), 2048);
    assert_eq!((wide.width(), wide.height()), (64, 32));
    assert_eq!(tall.bits(), 2);
}

#[test]
fn affine_background_offsets_wrap_row_by_row() {
    let size = AffineBackgroundSize::Background16x16;
    assert_eq!(size.gba_offset(Vector2D::new(-1, -1)), 255);
    assert_eq!(size.gba_offset(Vector2D::new(17, 2)), 33);
    assert_eq!(AffineBackgroundSize::Background128x128.num_tiles(), 16384);
}

#[test]
fn background_control_values() {
    assert_eq!(
        regular_background_control(
            Priority::P2,
            TileFormat::EightBpp,
            5,
            RegularBackgroundSize::Background64x32
        ),
        17794
    );
    assert_eq!(
        affine_background_control(
            Priority::P1,
            31,
            AffineBackgroundSize::Background128x128,
            AffineBackgroundWrapBehaviour::Wrap
        ),
        65281
    );
}

#[test]
fn infinite_map_scrolling_diagonally_refreshes_every_new_tile() {
    for (dx, dy) in [(8, 8), (-8, 8), (8, -8), (-8, -8), (16, 24)] {
        let mut map = InfiniteScrolledMap::new(vec2(0, 0), Priority::P0);
        while map.set_scroll_pos(vec2(0, 0)).status != PartialUpdateStatus::Done {}
        let update = map.set_scroll_pos(vec2(dx, dy));
        assert_eq!(update.status, PartialUpdateStatus::Done);
        let refreshed: Vec<_> = update
            .rects
            .iter()
            .flat_map(|r| rect_tiles(*r))
            .map(|t| (t.x, t.y))
            .collect();
        let (nx, ny) = (dx / 8, dy / 8);
        for x in nx..nx + 31 {
            for y in ny..ny + 21 {
                let was_visible = (0..31).contains(&x) && (0..21).contains(&y);
                if !was_visible {
                    assert!(refreshed.contains(&(x, y)), "tile ({}, {}) left stale", x, y);
                }
            }
        }
        assert!(refreshed.contains(&(nx + 30, ny + 20)) || dx < 0 || dy < 0);
    }
}

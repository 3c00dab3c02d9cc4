use agb::dma::{
    dma_control_addr, dma_copy16_control, dma_dest_addr, dma_source_addr, paused_control,
    DmaControllable, HBlankDmaDefinition,
};
use agb::interrupt::{interrupts_to_run, Interrupt, InterruptRoot, VBlank};
use agb::memory_mapped::set_bits;
use agb::mgba::{DebugLevel, Mgba, MgbaWrite, ENABLE_HANDSHAKE_OUT};
use agb::rng::RandomNumberGenerator;
use agb::save::flash::{merge_sector, FlashChipType, PrepareAction};
use agb::save::framing::{read_le32, LoadError, Save};
use agb::save::{sram_check_bounds, sram_info, MediaInfo, MediaType, StorageError, Timeout};
use agb::sound::dmg::{
    DutyCycle, EnvelopeSettings, Sound, SoundDirection, SweepSettings, INITIAL,
};
use agb::sound::mixer::{
    mod3_estimate, ChannelId, ChannelTable, Frequency, MixerBufferState, PlaybackPlan, SoundChannel, SoundData,
    SoundPriority,
};

#[test]
fn rng_gives_the_documented_sequence() {
    let mut rng = RandomNumberGenerator::new();
    assert_eq!(rng.gen(), -1547412789);
    assert_eq!(rng.gen(), 697205964);
    assert_eq!(rng.gen(), -106923119);
}

#[test]
fn should_be_reasonably_distributed() {
    let mut values: [u32; 16] = Default::default();
    let mut rng = RandomNumberGenerator::new();
    for _ in 0..500 {
        values[rng.gen().rem_euclid(16) as usize] += 1;
    }
    for (i, &value) in values.iter().enumerate() {
        assert!(value >= 500 / 10 / 3, "{i} came up less than expected {value}");
    }
}

#[test]
fn seeded_generators_repeat() {
    let mut a = RandomNumberGenerator::new_with_seed([1, 2, 3, 4]);
    let mut b = RandomNumberGenerator::new_with_seed([1, 2, 3, 4]);
    for _ in 0..100 {
        assert_eq!(a.gen(), b.gen());
    }
    let mut d = RandomNumberGenerator::default();
    assert_eq!(d.gen(), RandomNumberGenerator::new().gen());
}

#[test]
fn saves_frame_and_check_back() {
    let save = Save::new(b"game");
    let framed = save.frame(&[1, 2, 3]);
    assert_eq!(framed, vec![15, 0, 0, 0, 4, 0, 0, 0, b'g', b'a', b'm', b'e', 1, 2, 3, 0]);
    assert_eq!(read_le32(&framed[0..4]), 15);
    let size = read_le32(&framed[0..4]);
    let id_length = read_le32(&framed[4..8]);
    assert_eq!(save.check_size(size), Ok(()));
    assert_eq!(save.check_id_length(id_length), Ok(()));
    assert_eq!(save.check_id(&framed[8..12]), Ok(()));
    assert_eq!(save.state_length(size, id_length), 7);
}

#[test]
fn loading_rejects_blank_and_foreign_saves() {
    let save = Save::new(b"game");
    assert_eq!(save.check_size(0xffff_ffff), Err(LoadError::UninitialisedSave));
    assert_eq!(save.check_id_length(5), Err(LoadError::IdMismatch));
    assert_eq!(save.check_id(b"gamf"), Err(LoadError::IdMismatch));
}

#[test]
fn sram_bounds() {
    assert_eq!(sram_check_bounds(0, 32 * 1024), Ok(()));
    assert_eq!(sram_check_bounds(1, 32 * 1024), Err(StorageError::OutOfBounds));
    assert_eq!(sram_check_bounds(usize::MAX, 2), Err(StorageError::OutOfBounds));
    let info = sram_info();
    assert_eq!(info.media_type, MediaType::Sram32K);
    assert_eq!(info.len(), 32 * 1024);
    assert_eq!(info.sector_size(), 1);
    assert_eq!(MediaInfo::check_bounds(10, 0, 10), Ok(()));
    assert_eq!(MediaInfo::check_bounds(10, 10, 10), Err(StorageError::OutOfBounds));
    assert_eq!(MediaInfo::check_bounds_len(10, 2, 9), Err(StorageError::OutOfBounds));
}

#[test]
fn timeouts_count_timer_ticks() {
    let timeout = Timeout::new(true);
    assert!(!timeout.check_timeout_met(10, 170));
    assert!(timeout.check_timeout_met(10, 171));
    assert!(!Timeout::new(false).check_timeout_met(10, 1000));
}

#[test]
fn flash_chips_are_recognised() {
    assert_eq!(FlashChipType::from_id(0xD4BF), FlashChipType::Sst64K);
    assert_eq!(FlashChipType::from_id(0x09C2), FlashChipType::Macronix128K);
    assert_eq!(FlashChipType::from_id(0x1234), FlashChipType::Unknown);
    assert_eq!(FlashChipType::detect(0x3D, 0x1F), FlashChipType::Atmel64K);
    let sanyo = FlashChipType::Sanyo128K.chip_info();
    assert_eq!(sanyo.bank_count, 2);
    assert_eq!(sanyo.total_len(), 128 * 1024);
    assert_eq!(sanyo.set_bank(1), Ok(true));
    assert_eq!(sanyo.set_bank(2), Err(StorageError::OutOfBounds));
    assert_eq!(FlashChipType::Sst64K.chip_info().set_bank(0), Ok(false));
}

#[test]
fn flash_accesses_are_split_by_bank_and_sector() {
    let chip = FlashChipType::Macronix128K.chip_info();
    assert_eq!(
        chip.bank_pieces(0xfff0, 0x20),
        vec![(0, 0xfff0, 0x10), (1, 0, 0x10)]
    );
    assert_eq!(chip.bank_pieces(4, 0), vec![]);
    assert_eq!(chip.check_len(0x1_0000, 0x1_0000), Ok(()));
    assert_eq!(chip.check_len(0x1_0001, 0x1_0000), Err(StorageError::OutOfBounds));
    let atmel = FlashChipType::Atmel64K.chip_info();
    assert_eq!(atmel.sector_pieces(100, 60), vec![(0, 100, 28), (128, 0, 32)]);
    assert_eq!(atmel.prepare_write(0, 1), Ok(PrepareAction::Nothing));
    let count = chip.info.sector_count;
    assert_eq!(chip.prepare_write(0, count), Ok(PrepareAction::EraseChip));
    assert_eq!(
        chip.prepare_write(1, 2),
        Ok(PrepareAction::EraseSectors { first: 1, count: 2 })
    );
    assert_eq!(chip.prepare_write(count, 1), Err(StorageError::OutOfBounds));
    assert_eq!(chip.sector_location(17), (1, 0x1000));
}

#[test]
fn merging_a_sector_keeps_the_rest() {
    let existing = [7u8; 128];
    let merged = merge_sector(&existing, &[1, 2, 3], 126 - 1);
    assert_eq!(merged.len(), 128);
    assert_eq!(&merged[124..128], &[7, 1, 2, 3]);
    assert_eq!(merged[0], 7);
}

#[test]
fn sound_registers() {
    let sound = Sound::new();
    let enable = sound.enable();
    assert_eq!(enable.status_bit, 7);
    let envelope = EnvelopeSettings::new(3, SoundDirection::Increase, 10);
    let sweep = SweepSettings::default();
    let regs = sound.channel1().play_sound(1000, Some(20), &sweep, &envelope, DutyCycle::Half);
    assert_eq!(regs.sweep, 0);
    assert_eq!(
        regs.length_duty_envelope,
        envelope.as_bits() | DutyCycle::Half.as_bits() | 20
    );
    assert_eq!(regs.frequency_control, 1000 | (1 << 14) | INITIAL);
    let regs = sound.channel2().play_sound(5, None, &envelope, DutyCycle::OneEighth);
    assert_eq!(regs.frequency_control, 5 | INITIAL);
    let noise = sound.noise().play_sound(None, &envelope, 3, false, 2);
    assert_eq!(noise.frequency_control, 3 | 8 | (2 << 4) | INITIAL);
}

fn sound_data() -> SoundData {
    static SAMPLES: [u8; 64] = [0; 64];
    SoundData::new(&SAMPLES)
}

#[test]
fn mixer_frequencies() {
    assert_eq!(Frequency::Hz18157.frequency(), 18157);
    assert_eq!(Frequency::Hz32768.buffer_size(), 560);
    for x in 0..=3 {
        assert_eq!(mod3_estimate(x), x % 3);
    }
}

#[test]
fn channels_fill_free_slots_then_replace_low_priority_ones() {
    let mut table = ChannelTable::new();
    let mut ids = vec![];
    for _ in 0..8 {
        ids.push(table.play_sound(SoundChannel::new(sound_data())).unwrap());
    }
    assert_eq!(ids[0], ChannelId(0, 1));
    assert_eq!(ids[7], ChannelId(7, 1));
    assert_eq!(table.play_sound(SoundChannel::new(sound_data())), None);
    let high = table.play_sound(SoundChannel::new_high_priority(sound_data()));
    assert_eq!(high, Some(ChannelId(0, 2)));
    assert!(table.channel(&ids[0]).is_none());
    let channel = table.channel(&ChannelId(0, 2)).unwrap();
    assert_eq!(channel.priority(), SoundPriority::High);
    channel.stop();
    assert!(table.channel(&ChannelId(0, 2)).is_none());
    assert_eq!(
        table.play_sound(SoundChannel::new(sound_data())),
        Some(ChannelId(0, 3))
    );
}

#[test]
fn stereo_channels_advance_and_stop() {
    let mut channel = SoundChannel::new(sound_data());
    channel.stereo();
    assert_eq!(channel.advance_stereo(4), Some(0));
    assert_eq!(channel.pos(), 8);
    channel.set_pos(64 * 256);
    assert_eq!(channel.advance_stereo(4), None);
    assert!(channel.is_done());
    let mut looping = SoundChannel::new(sound_data());
    looping.should_loop().restart_point(3).set_pos(64 * 256);
    assert_eq!(looping.advance_stereo(4), Some(6));
    assert!(!looping.is_done());
    assert!(looping.is_audible());
    looping.pause();
    assert!(!looping.is_audible());
}

#[test]
fn mixer_buffers_rotate() {
    let mut state = MixerBufferState::new();
    assert!(state.should_calculate());
    assert_eq!(state.active_advanced(), 1);
    assert!(state.should_calculate());
    assert_eq!(state.active_advanced(), 2);
    assert!(!state.should_calculate());
    assert_eq!(state.playing_advanced(), 1);
    assert!(state.should_calculate());
    assert_eq!(state.active_advanced(), 0);
    assert!(!state.should_calculate());
}

#[test]
fn mgba_output() {
    assert!(Mgba::new(0).is_none());
    let mut mgba = Mgba::new(ENABLE_HANDSHAKE_OUT).unwrap();
    assert_eq!(mgba.set_level(DebugLevel::Error), 0x0101);
    let writes = mgba.print(b"hi", DebugLevel::Warning);
    assert_eq!(
        writes,
        vec![
            MgbaWrite::Byte { index: 0, byte: b'h' },
            MgbaWrite::Byte { index: 1, byte: b'i' },
            MgbaWrite::Level(0x0102),
        ]
    );
    let long = vec![b'x'; 300];
    let writes = mgba.print(&long, DebugLevel::Debug);
    assert_eq!(writes.len(), 302);
    assert_eq!(writes[256], MgbaWrite::Level(0x0103));
    assert_eq!(writes[257], MgbaWrite::Byte { index: 0, byte: b'x' });
}

#[test]
fn interrupt_bits() {
    assert_eq!(Interrupt::VBlank.number(), 0);
    assert_eq!(Interrupt::Gamepak.number(), 13);
    assert_eq!(Interrupt::Timer2.enable(0), 1 << 5);
    assert_eq!(Interrupt::Timer2.disable(0xffff), 0xffff & !(1 << 5));
    assert_eq!(Interrupt::VBlank.status_on_enable(0), 1 << 3);
    assert_eq!(Interrupt::HBlank.status_on_disable(0xffff), 0xffef);
    assert_eq!(Interrupt::Serial.status_on_enable(0x42), 0x42);
    assert_eq!(interrupts_to_run(0b101 | (1 << 15)), vec![0, 2]);
}

#[test]
fn interrupt_roots_enable_with_their_first_handler() {
    let mut root = InterruptRoot::new(Interrupt::Keypad);
    assert!(root.add());
    assert!(!root.add());
    assert!(!root.reduce());
    assert!(root.reduce());
}

#[test]
fn vblank_waits_only_when_none_passed() {
    let mut vblank = VBlank::get(5);
    assert!(vblank.wait_for_vblank(5));
    assert!(vblank.wait_for_vblank(6));
    assert!(!vblank.wait_for_vblank(10));
}

#[test]
fn dma_registers() {
    assert_eq!(dma_source_addr(3), 0x0400_00d4);
    assert_eq!(dma_dest_addr(0), 0x0400_00b4);
    assert_eq!(dma_control_addr(1), 0x0400_00c4);
    assert_eq!(dma_copy16_control(10), 0x8000_000a);
    assert_eq!(paused_control(0xffff), 0x7fff);
}

#[test]
fn hblank_dma_steps_through_the_lines() {
    let values: Vec<u16> = (0..200).collect();
    let definition = HBlankDmaDefinition::new(DmaControllable::new(0x0400_0010), &values);
    let commit = definition.commit(2);
    assert_eq!(commit.first, 0);
    assert_eq!(commit.dest, 0x0400_0010);
    assert_eq!(
        commit.control,
        (3 << 0x15) | (1 << 0x19) | (2 << 0x1c) | (1 << 0x1f) | 1
    );
}

#[test]
fn setting_register_bits() {
    assert_eq!(set_bits(0xffff, 0, 4, 4), 0xff0f);
    assert_eq!(set_bits(0, 0xff, 4, 8), 0x0f00);
    assert_eq!(set_bits(0x1234, 0b11, 2, 14), 0xd234);
}

#[test]
fn mono_playback_reads_from_the_right_place() {
    static SHORT: [u8; 100] = [0; 100];
    static LONG: [u8; 4000] = [0; 4000];
    let mut short = SoundChannel::new(SoundData::new(&SHORT));
    assert_eq!(
        short.playback_plan(Frequency::Hz10512, 1000),
        PlaybackPlan::CopyAll { halfwords: 50 }
    );
    short.playback(512);
    assert_eq!(short.playback_plan(Frequency::Hz10512, 50), PlaybackPlan::Rom);
    let mut long = SoundChannel::new(SoundData::new(&LONG));
    assert_eq!(
        long.playback_plan(Frequency::Hz10512, 1000),
        PlaybackPlan::CopyFrom { start: 0, halfwords: 89 }
    );
    long.set_pos(3900 * 256);
    assert_eq!(long.playback_plan(Frequency::Hz10512, 1000), PlaybackPlan::Rom);
    long.set_pos(1000 * 256 + 128);
    assert_eq!(
        long.playback_plan(Frequency::Hz10512, 1000),
        PlaybackPlan::CopyFrom { start: 1000, halfwords: 89 }
    );
}

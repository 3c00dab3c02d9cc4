//! The software mixer's bookkeeping: sound channels, the table of playing
//! channels and the triple buffer the mixer writes into.
//!
//! Positions, speeds and restart points are unsigned fixed point numbers with 8
//! fractional bits; volume and panning are signed ones with 8 fractional bits.
//! They are held here as those raw integers.
use vstd::prelude::*;

verus! {

/// The sample rates the mixer supports.
#[derive(Debug, Copy, Clone, PartialEq, Eq, Structural)]
pub enum Frequency {
    /// 10512Hz
    Hz10512,
    /// 18157Hz
    Hz18157,
    /// 32768Hz
    Hz32768,
}

impl Frequency {
    /// The rate in Hz.
    pub open spec fn frequency_spec(self) -> int {
        match self {
            Frequency::Hz10512 => 10512,
            Frequency::Hz18157 => 18157,
            Frequency::Hz32768 => 32768,
        }
    }

    /// The number of samples mixed per frame.
    pub open spec fn buffer_size_spec(self) -> int {
        match self {
            Frequency::Hz10512 => 176,
            Frequency::Hz18157 => 304,
            Frequency::Hz32768 => 560,
        }
    }

    /// The rate in Hz.
    pub fn frequency(self) -> (r: i32)
        ensures
            r == self.frequency_spec(),
    {
        match self {
            Frequency::Hz10512 => 10512,
            Frequency::Hz18157 => 18157,
            Frequency::Hz32768 => 32768,
        }
    }

    /// The number of samples mixed per frame.
    pub fn buffer_size(self) -> (r: usize)
        ensures
            r == self.buffer_size_spec(),
    {
        match self {
            Frequency::Hz10512 => 176,
            Frequency::Hz18157 => 304,
            Frequency::Hz32768 => 560,
        }
    }
}

/// Some sound data to play: 8 bit signed samples.
#[derive(Clone, Copy)]
pub struct SoundData {
    data: &'static [u8],
}

impl SoundData {
    /// The samples.
    pub closed spec fn samples(self) -> Seq<u8> {
        self.data@
    }

    /// Sound data over `data`.
    pub fn new(data: &'static [u8]) -> (r: Self)
        ensures
            r.samples() == data@,
    {
        SoundData { data }
    }

    /// The samples.
    pub fn data(&self) -> (r: &'static [u8])
        ensures
            r@ == self.samples(),
    {
        self.data
    }
}

/// Whether a channel may take the place of another when all are busy.
#[derive(Clone, Copy, Debug, PartialEq, Eq, Structural)]
pub enum SoundPriority {
    /// Takes the place of a low priority channel, and is never replaced.
    High,
    /// Never replaces another channel.
    Low,
}

/// One sound to be played, and how.
pub struct SoundChannel {
    data: &'static [u8],
    pos: u32,
    should_loop: bool,
    restart_point: u32,
    is_playing: bool,
    playback_speed: u32,
    volume: i16,
    panning: i16,
    is_done: bool,
    is_stereo: bool,
    priority: SoundPriority,
}

/// The observable state of a sound channel.
#[derive(Clone, Copy, Debug, PartialEq, Eq, Structural)]
pub struct ChannelState {
    /// The number of samples.
    pub len: usize,
    /// The playback position.
    pub pos: u32,
    /// Whether the sound starts again when it ends.
    pub should_loop: bool,
    /// Where a looping sound starts again.
    pub restart_point: u32,
    /// Whether the channel is playing rather than paused.
    pub is_playing: bool,
    /// The playback speed.
    pub playback_speed: u32,
    /// The volume.
    pub volume: i16,
    /// The balance from left (-1) to right (1).
    pub panning: i16,
    /// Whether the channel has stopped for good.
    pub is_done: bool,
    /// Whether the samples are stereo.
    pub is_stereo: bool,
    /// The channel's priority.
    pub priority: SoundPriority,
}

/// The raw value of 1 with 8 fractional bits.
pub const ONE_RAW: u32 = 256;

impl SoundChannel {
    /// The observable state.
    pub closed spec fn state(self) -> ChannelState {
        ChannelState {
            len: self.data@.len() as usize,
            pos: self.pos,
            should_loop: self.should_loop,
            restart_point: self.restart_point,
            is_playing: self.is_playing,
            playback_speed: self.playback_speed,
            volume: self.volume,
            panning: self.panning,
            is_done: self.is_done,
            is_stereo: self.is_stereo,
            priority: self.priority,
        }
    }

    /// The samples.
    pub closed spec fn samples(self) -> Seq<u8> {
        self.data@
    }

    /// The state of a new channel over `data` with priority `priority`: at the
    /// start, playing at speed 1 and volume 1, centred, mono, not looping.
    pub open spec fn fresh(len: usize, priority: SoundPriority) -> ChannelState {
        ChannelState {
            len,
            pos: 0,
            should_loop: false,
            restart_point: 0,
            is_playing: true,
            playback_speed: ONE_RAW,
            volume: 256,
            panning: 0,
            is_done: false,
            is_stereo: false,
            priority,
        }
    }

    /// A low priority channel playing `data`.
    pub fn new(data: SoundData) -> (r: Self)
        ensures
            r.state() == Self::fresh(data.samples().len() as usize, SoundPriority::Low),
            r.samples() == data.samples(),
    {
        SoundChannel {
            data: data.data(),
            pos: 0,
            should_loop: false,
            playback_speed: ONE_RAW,
            is_playing: true,
            panning: 0,
            is_done: false,
            priority: SoundPriority::Low,
            volume: 256,
            is_stereo: false,
            restart_point: 0,
        }
    }

    /// A high priority channel playing `data`.
    pub fn new_high_priority(data: SoundData) -> (r: Self)
        ensures
            r.state() == Self::fresh(data.samples().len() as usize, SoundPriority::High),
            r.samples() == data.samples(),
    {
        SoundChannel {
            data: data.data(),
            pos: 0,
            should_loop: false,
            playback_speed: ONE_RAW,
            is_playing: true,
            panning: 0,
            is_done: false,
            priority: SoundPriority::High,
            volume: 256,
            is_stereo: false,
            restart_point: 0,
        }
    }

    /// Makes the sound start again when it ends.
    pub fn should_loop(&mut self) -> (r: &mut Self)
        ensures
            r.state() == (ChannelState { should_loop: true, ..old(self).state() }),
            r.samples() == old(self).samples(),
            *final(self) == *final(r),
    {
        self.should_loop = true;
        self
    }

    /// Where a looping sound starts again; its whole part may not lie past
    /// the end of the samples.
    pub fn restart_point(&mut self, restart_point: u32) -> (r: &mut Self)
        requires
            (restart_point >> 8u32) <= old(self).state().len,
        ensures
            r.state() == (ChannelState { restart_point, ..old(self).state() }),
            r.samples() == old(self).samples(),
            *final(self) == *final(r),
    {
        self.restart_point = restart_point;
        self
    }

    /// The playback speed.
    pub fn playback(&mut self, playback_speed: u32) -> (r: &mut Self)
        ensures
            r.state() == (ChannelState { playback_speed, ..old(self).state() }),
            r.samples() == old(self).samples(),
            *final(self) == *final(r),
    {
        self.playback_speed = playback_speed;
        self
    }

    /// The balance, from -1 (left) to 1 (right).
    pub fn panning(&mut self, panning: i16) -> (r: &mut Self)
        requires
            -256 <= panning <= 256,
        ensures
            r.state() == (ChannelState { panning, ..old(self).state() }),
            r.samples() == old(self).samples(),
            *final(self) == *final(r),
    {
        self.panning = panning;
        self
    }

    /// The volume, which may not be negative.
    pub fn volume(&mut self, volume: i16) -> (r: &mut Self)
        requires
            volume >= 0,
        ensures
            r.state() == (ChannelState { volume, ..old(self).state() }),
            r.samples() == old(self).samples(),
            *final(self) == *final(r),
    {
        self.volume = volume;
        self
    }

    /// Plays the samples as stereo.
    pub fn stereo(&mut self) -> (r: &mut Self)
        ensures
            r.state() == (ChannelState { is_stereo: true, ..old(self).state() }),
            r.samples() == old(self).samples(),
            *final(self) == *final(r),
    {
        self.is_stereo = true;
        self
    }

    /// Stops the sound for good.
    pub fn stop(&mut self)
        ensures
            final(self).state() == (ChannelState { is_done: true, ..old(self).state() }),
            final(self).samples() == old(self).samples(),
    {
        self.is_done = true;
    }

    /// How far the sound has played.
    pub fn pos(&self) -> (r: u32)
        ensures
            r == self.state().pos,
    {
        self.pos
    }

    /// Sets the playback position.
    pub fn set_pos(&mut self, pos: u32) -> (r: &mut Self)
        ensures
            r.state() == (ChannelState { pos, ..old(self).state() }),
            r.samples() == old(self).samples(),
            *final(self) == *final(r),
    {
        self.pos = pos;
        self
    }

    /// Pauses the sound.
    pub fn pause(&mut self) -> (r: &mut Self)
        ensures
            r.state() == (ChannelState { is_playing: false, ..old(self).state() }),
            r.samples() == old(self).samples(),
            *final(self) == *final(r),
    {
        self.is_playing = false;
        self
    }

    /// Resumes a paused sound.
    pub fn resume(&mut self) -> (r: &mut Self)
        ensures
            r.state() == (ChannelState { is_playing: true, ..old(self).state() }),
            r.samples() == old(self).samples(),
            *final(self) == *final(r),
    {
        self.is_playing = true;
        self
    }

    /// The channel's priority.
    pub fn priority(&self) -> (r: SoundPriority)
        ensures
            r == self.state().priority,
    {
        self.priority
    }

    /// Whether the channel has stopped for good.
    pub fn is_done(&self) -> (r: bool)
        ensures
            r == self.state().is_done,
    {
        self.is_done
    }

    /// Whether the mixer adds this channel in: not stopped, not silent and not
    /// paused.
    pub fn is_audible(&self) -> (r: bool)
        ensures
            r == (!self.state().is_done && self.state().volume != 0 && self.state().is_playing),
    {
        !self.is_done && self.volume != 0 && self.is_playing
    }

    /// One frame of a stereo channel that plays `2 * buffer_size` bytes:
    /// when that would run past the end, a looping channel goes back to twice
    /// its restart point, and another stops. Returns whether samples are to be
    /// mixed, and from which position.
    pub fn advance_stereo(&mut self, buffer_size: u32) -> (r: Option<u32>)
        requires
            buffer_size <= 0x1000,
            old(self).state().pos + 2 * buffer_size <= u32::MAX,
            old(self).state().restart_point * 2 <= u32::MAX,
            old(self).state().restart_point * 2 + 2 * buffer_size <= u32::MAX,
        ensures
            ({
                let s = old(self).state();
                let ends = (((s.pos + 2 * buffer_size) as u32) >> 8u32) >= s.len;
                if ends && !s.should_loop {
                    r is None && final(self).state() == ChannelState { is_done: true, ..s }
                } else {
                    let start = if ends {
                        (s.restart_point * 2) as u32
                    } else {
                        s.pos
                    };
                    r == Some(start) && final(self).state() == ChannelState {
                        pos: (start + 2 * buffer_size) as u32,
                        ..s
                    }
                }
            }),
            final(self).samples() == old(self).samples(),
    {
        let advance = 2 * buffer_size;
        let len = self.data.len();
        if ((self.pos + advance) >> 8u32) as usize >= len {
            if self.should_loop {
                self.pos = self.restart_point * 2;
            } else {
                self.is_done = true;
                return None;
            }
        }
        let start = self.pos;
        self.pos = self.pos + advance;
        Some(start)
    }
}

/// Where the mixer reads a mono channel's samples from for one frame.
#[derive(Clone, Copy, Debug, PartialEq, Eq, Structural)]
pub enum PlaybackPlan {
    /// Straight from the sound data.
    Rom,
    /// From the temporary storage, after copying the whole sound there as
    /// `halfwords` half words.
    CopyAll { halfwords: usize },
    /// From the temporary storage, after copying `halfwords` half words of
    /// the sound from sample `start` there; reads are offset by `start`.
    CopyFrom { start: usize, halfwords: usize },
}

/// The raw playback speed above which copying the samples first costs more
/// than reading them where they are: 1.5 with 8 fractional bits.
pub const COPY_SPEED_LIMIT: u32 = 384;

impl SoundChannel {
    /// The number of samples one frame of `buffer_size` samples plays: the
    /// whole part of `playback_speed * buffer_size`, plus one.
    pub open spec fn total_to_play(s: ChannelState, buffer_size: int) -> int {
        (s.playback_speed * buffer_size) / 256 + 1
    }

    /// The inputs on which planning a frame computes without overflow and
    /// finds the temporary storage large enough for what it copies.
    pub open spec fn plan_ok(s: ChannelState, buffer_size: int, temp_len: int) -> bool {
        let total = Self::total_to_play(s, buffer_size);
        &&& s.len < 0x100_0000
        &&& s.playback_speed * buffer_size <= u32::MAX
        &&& total < 0x100_0000
        &&& s.pos + total * 256 <= u32::MAX
        &&& !(s.playback_speed > COPY_SPEED_LIMIT && s.len > temp_len) ==> {
            &&& s.len <= total ==> s.len / 2 * 2 <= temp_len
            &&& s.len > total && s.pos + total * 256 <= s.len * 256 ==> (total / 2 + 1) * 2
                <= temp_len
        }
    }

    /// Where one frame of `frequency` reads a mono channel from, given
    /// temporary storage of `temp_len` bytes: from the sound data when the
    /// speed is above 1.5 and the sound does not fit the storage, or when the
    /// frame wraps round the end of a sound it does not play whole;
    /// otherwise from the storage, copying the whole sound when one frame
    /// plays all of it, else the part the frame plays.
    pub fn playback_plan(&self, frequency: Frequency, temp_len: usize) -> (r: PlaybackPlan)
        requires
            Self::plan_ok(self.state(), frequency.buffer_size_spec(), temp_len as int),
        ensures
            ({
                let s = self.state();
                let total = Self::total_to_play(s, frequency.buffer_size_spec());
                r == if s.playback_speed > COPY_SPEED_LIMIT && s.len > temp_len {
                    PlaybackPlan::Rom
                } else if s.len <= total {
                    PlaybackPlan::CopyAll { halfwords: s.len / 2 }
                } else if s.pos + total * 256 > s.len * 256 {
                    PlaybackPlan::Rom
                } else {
                    PlaybackPlan::CopyFrom { start: (s.pos / 256) as usize, halfwords: (total / 2 + 1) as usize }
                }
            }),
    {
        let len = self.data.len();
        if self.playback_speed > COPY_SPEED_LIMIT && len > temp_len {
            return PlaybackPlan::Rom;
        }
        let buffer_size = frequency.buffer_size() as u32;
        let product = self.playback_speed * buffer_size;
        proof {
            assert(product >> 8u32 == product / 256) by (bit_vector);
        }
        let total_to_play = (product >> 8u32) + 1;
        let channel_len = (len as u32) << 8u32;
        proof {
            let l = len as u32;
            assert(l << 8u32 == l * 256) by (bit_vector)
                requires
                    l < 0x100_0000,
            ;
            let t = total_to_play;
            assert(t << 8u32 == t * 256) by (bit_vector)
                requires
                    t < 0x100_0000,
            ;
            let p = self.pos;
            assert(p >> 8u32 == p / 256) by (bit_vector);
            assert(len as u32 == len);
        }
        if len as u32 <= total_to_play {
            PlaybackPlan::CopyAll { halfwords: len / 2 }
        } else if self.pos + (total_to_play << 8u32) > channel_len {
            PlaybackPlan::Rom
        } else {
            PlaybackPlan::CopyFrom { start: (self.pos >> 8u32) as usize, halfwords: total_to_play as usize / 2 + 1 }
        }
    }
}

/// Names a playing channel: its slot and the number of sounds the slot had
/// started when this one began.
#[derive(Clone, Copy, Debug, PartialEq, Eq, Structural)]
pub struct ChannelId(pub usize, pub i32);

/// The eight channel slots of the mixer.
pub struct ChannelTable {
    channels: Vec<Option<SoundChannel>>,
    indices: Vec<i32>,
}

/// The number of channels mixed at once.
pub const NUM_CHANNELS: usize = 8;

impl ChannelTable {
    /// The channel in slot `i`, if any.
    pub closed spec fn slot(self, i: int) -> Option<SoundChannel> {
        self.channels@[i]
    }

    /// The number of sounds slot `i` has started.
    pub closed spec fn started(self, i: int) -> i32 {
        self.indices@[i]
    }

    /// Eight slots.
    pub closed spec fn wf(self) -> bool {
        self.channels@.len() == NUM_CHANNELS && self.indices@.len() == NUM_CHANNELS
    }

    /// Whether slot `i` may take a new sound: empty or finished.
    pub open spec fn is_free(self, i: int) -> bool {
        match self.slot(i) {
            None => true,
            Some(c) => c.state().is_done,
        }
    }

    /// Whether slot `i` holds a low priority sound.
    pub open spec fn is_low(self, i: int) -> bool {
        match self.slot(i) {
            None => false,
            Some(c) => c.state().priority == SoundPriority::Low,
        }
    }

    /// The first slot at or after `from` for which `free` holds.
    pub open spec fn first_free_from(self, from: int) -> int
        decreases NUM_CHANNELS - from,
    {
        if from >= NUM_CHANNELS {
            NUM_CHANNELS as int
        } else if self.is_free(from) {
            from
        } else {
            self.first_free_from(from + 1)
        }
    }

    /// The first slot at or after `from` that holds a low priority sound.
    pub open spec fn first_low_from(self, from: int) -> int
        decreases NUM_CHANNELS - from,
    {
        if from >= NUM_CHANNELS {
            NUM_CHANNELS as int
        } else if self.is_low(from) {
            from
        } else {
            self.first_low_from(from + 1)
        }
    }

    /// Eight empty slots.
    pub fn new() -> (r: Self)
        ensures
            r.wf(),
            forall|i: int| 0 <= i < NUM_CHANNELS ==> #[trigger] r.slot(i) is None && r.started(i) == 0,
    {
        let mut channels: Vec<Option<SoundChannel>> = Vec::new();
        let mut indices: Vec<i32> = Vec::new();
        let mut i: usize = 0;
        while i < NUM_CHANNELS
            invariant
                i <= NUM_CHANNELS,
                channels@.len() == i,
                indices@.len() == i,
                forall|j: int| 0 <= j < i ==> channels@[j] == None::<SoundChannel> && indices@[j] == 0,
            decreases NUM_CHANNELS - i,
        {
            channels.push(None);
            indices.push(0);
            i = i + 1;
        }
        let r = ChannelTable { channels, indices };
        assert forall|i: int| 0 <= i < NUM_CHANNELS implies #[trigger] r.slot(i) is None && r.started(i) == 0 by {
            assert(r.channels@[i] == None::<SoundChannel>);
        }
        r
    }

    /// The slot a new sound goes to: the first free one, else, for a high
    /// priority sound, the first holding a low priority one; eight when none.
    pub open spec fn target_slot(self, priority: SoundPriority) -> int {
        let free = self.first_free_from(0);
        if free < NUM_CHANNELS {
            free
        } else if priority == SoundPriority::High {
            self.first_low_from(0)
        } else {
            NUM_CHANNELS as int
        }
    }

    /// Whether slot `i` holds a sound that has not finished.
    pub open spec fn busy(self, i: int) -> bool {
        self.slot(i) matches Some(c) && !c.state().is_done
    }

    /// Whether slot `i` holds a sound still playing with priority `p`.
    pub open spec fn playing_with(self, i: int, p: SoundPriority) -> bool {
        self.slot(i) matches Some(c) && !c.state().is_done && c.state().priority == p
    }

    proof fn lemma_first_free_from(self, from: int)
        requires
            0 <= from <= NUM_CHANNELS,
        ensures
            from <= self.first_free_from(from) <= NUM_CHANNELS,
            self.first_free_from(from) < NUM_CHANNELS ==> self.is_free(self.first_free_from(from)),
            forall|j: int| from <= j < self.first_free_from(from) ==> !#[trigger] self.is_free(j),
        decreases NUM_CHANNELS - from,
    {
        if from < NUM_CHANNELS && !self.is_free(from) {
            self.lemma_first_free_from(from + 1);
        }
    }

    proof fn lemma_first_low_from(self, from: int)
        requires
            0 <= from <= NUM_CHANNELS,
        ensures
            from <= self.first_low_from(from) <= NUM_CHANNELS,
            self.first_low_from(from) < NUM_CHANNELS ==> self.is_low(self.first_low_from(from)),
            forall|j: int| from <= j < self.first_low_from(from) ==> !#[trigger] self.is_low(j),
        decreases NUM_CHANNELS - from,
    {
        if from < NUM_CHANNELS && !self.is_low(from) {
            self.lemma_first_low_from(from + 1);
        }
    }

    /// Where a new sound of priority `p` goes: the first slot that is empty
    /// or holds a finished sound; when there is none, a high priority sound
    /// takes the first slot holding a low priority one and a low priority
    /// sound gets no slot. A sound still playing with high priority is never
    /// replaced.
    pub proof fn lemma_target_slot(self, p: SoundPriority)
        ensures
            0 <= self.target_slot(p) <= NUM_CHANNELS,
            forall|j: int| 0 <= j < self.target_slot(p) ==> #[trigger] self.busy(j),
            forall|j: int|
                0 <= j < NUM_CHANNELS && #[trigger] self.playing_with(j, SoundPriority::High) ==> j
                    != self.target_slot(p),
            self.target_slot(p) < NUM_CHANNELS ==> match self.slot(self.target_slot(p)) {
                None => true,
                Some(c) => c.state().is_done || (p == SoundPriority::High && c.state().priority
                    == SoundPriority::Low),
            },
            self.target_slot(p) < NUM_CHANNELS && self.busy(self.target_slot(p)) ==> forall|j: int|
                0 <= j < self.target_slot(p) ==> #[trigger] self.playing_with(j, SoundPriority::High),
            self.target_slot(p) == NUM_CHANNELS <==> (forall|j: int|
                0 <= j < NUM_CHANNELS ==> #[trigger] self.busy(j))
                && (p == SoundPriority::Low || forall|j: int|
                0 <= j < NUM_CHANNELS ==> #[trigger] self.playing_with(j, SoundPriority::High)),
    {
        self.lemma_first_free_from(0);
        self.lemma_first_low_from(0);
        let u = self.target_slot(p);
        let f = self.first_free_from(0);
        assert forall|j: int| 0 <= j < f implies #[trigger] self.busy(j) by {
            assert(!self.is_free(j));
        }
        if f == NUM_CHANNELS {
            assert forall|j: int| 0 <= j < self.first_low_from(0) implies #[trigger] self.playing_with(
                j,
                SoundPriority::High,
            ) by {
                assert(!self.is_free(j));
                assert(!self.is_low(j));
            }
            assert forall|j: int|
                0 <= j < NUM_CHANNELS && #[trigger] self.playing_with(j, SoundPriority::High) implies j
                != u by {
                if j == u {
                    assert(self.is_low(j));
                }
            }
            if p == SoundPriority::High && self.first_low_from(0) == NUM_CHANNELS {
                assert(forall|j: int|
                    0 <= j < NUM_CHANNELS ==> #[trigger] self.playing_with(j, SoundPriority::High));
            }
            if p == SoundPriority::High && self.first_low_from(0) < NUM_CHANNELS {
                let l = self.first_low_from(0);
                assert(!self.playing_with(l, SoundPriority::High));
            }
        } else {
            assert(self.is_free(f));
            assert forall|j: int|
                0 <= j < NUM_CHANNELS && #[trigger] self.playing_with(j, SoundPriority::High) implies j
                != u by {
                if j == u {
                    assert(self.is_free(j));
                }
            }
            assert(!self.busy(f));
        }
    }

    /// Starts `new_channel` in the first free slot, else, for a high priority
    /// sound, in the first slot holding a low priority one. Returns the id of
    /// the slot used, or `None` for a low priority sound when no slot is free.
    pub fn play_sound(&mut self, new_channel: SoundChannel) -> (r: Option<ChannelId>)
        requires
            old(self).wf(),
            new_channel.state().priority == SoundPriority::High ==> old(self).target_slot(
                new_channel.state().priority,
            ) < NUM_CHANNELS,
            old(self).target_slot(new_channel.state().priority) < NUM_CHANNELS ==> old(self).started(
                old(self).target_slot(new_channel.state().priority),
            ) < i32::MAX,
        ensures
            final(self).wf(),
            ({
                let used = old(self).target_slot(new_channel.state().priority);
                if used == NUM_CHANNELS {
                    r is None && final(self).channels_same(*old(self))
                } else {
                    &&& r == Some(ChannelId(used as usize, (old(self).started(used) + 1) as i32))
                    &&& final(self).slot(used) == Some(new_channel)
                    &&& final(self).started(used) == old(self).started(used) + 1
                    &&& forall|j: int|
                        0 <= j < NUM_CHANNELS && j != used ==> #[trigger] final(self).slot(j)
                            == old(self).slot(j) && final(self).started(j) == old(self).started(j)
                }
            }),
            forall|j: int|
                0 <= j < NUM_CHANNELS && #[trigger] old(self).playing_with(j, SoundPriority::High)
                    ==> final(self).slot(j) == old(self).slot(j),
    {
        proof {
            old(self).lemma_target_slot(new_channel.state().priority);
        }
        let ghost old_self = *self;
        let ghost used = old_self.target_slot(new_channel.state().priority);
        let mut i: usize = 0;
        while i < NUM_CHANNELS
            invariant
                i <= NUM_CHANNELS,
                *self == old_self,
                *old(self) == old_self,
                self.wf(),
                old_self.first_free_from(0) == old_self.first_free_from(i as int),
                used == old_self.target_slot(new_channel.state().priority),
                used < NUM_CHANNELS ==> old_self.started(used) < i32::MAX,
            decreases NUM_CHANNELS - i,
        {
            let free = match &self.channels[i] {
                None => true,
                Some(c) => c.is_done(),
            };
            assert(free == old_self.is_free(i as int));
            if free {
                assert(used == i);
                return self.replace_slot(i, new_channel);
            }
            i = i + 1;
        }
        proof {
            assert(old_self.first_free_from(NUM_CHANNELS as int) == NUM_CHANNELS);
        }
        if new_channel.priority() == SoundPriority::Low {
            return None;
        }
        let mut i: usize = 0;
        while i < NUM_CHANNELS
            invariant
                i <= NUM_CHANNELS,
                *self == old_self,
                *old(self) == old_self,
                self.wf(),
                old_self.first_free_from(0) == NUM_CHANNELS,
                new_channel.state().priority == SoundPriority::High,
                old_self.first_low_from(0) == old_self.first_low_from(i as int),
                used == old_self.first_low_from(0),
                used < NUM_CHANNELS,
                old_self.started(used) < i32::MAX,
            decreases NUM_CHANNELS - i,
        {
            let low = match &self.channels[i] {
                None => false,
                Some(c) => c.priority() == SoundPriority::Low,
            };
            assert(low == old_self.is_low(i as int));
            if low {
                assert(used == i);
                return self.replace_slot(i, new_channel);
            }
            i = i + 1;
        }
        proof {
            assert(old_self.first_low_from(NUM_CHANNELS as int) == NUM_CHANNELS);
        }
        None
    }

    /// Whether both tables hold the same channels and counts.
    pub open spec fn channels_same(self, other: Self) -> bool {
        &&& self.wf() == other.wf()
        &&& forall|j: int|
            0 <= j < NUM_CHANNELS ==> #[trigger] self.slot(j) == other.slot(j) && self.started(j)
                == other.started(j)
    }

    fn replace_slot(&mut self, i: usize, new_channel: SoundChannel) -> (r: Option<ChannelId>)
        requires
            old(self).wf(),
            i < NUM_CHANNELS,
            old(self).started(i as int) < i32::MAX,
        ensures
            final(self).wf(),
            r == Some(ChannelId(i, (old(self).started(i as int) + 1) as i32)),
            final(self).slot(i as int) == Some(new_channel),
            final(self).started(i as int) == old(self).started(i as int) + 1,
            forall|j: int|
                0 <= j < NUM_CHANNELS && j != i ==> #[trigger] final(self).slot(j) == old(self).slot(j)
                    && final(self).started(j) == old(self).started(j),
    {
        self.channels.set(i, Some(new_channel));
        let n = self.indices[i] + 1;
        self.indices.set(i, n);
        Some(ChannelId(i, n))
    }

    /// Whether `id` names a channel still playing.
    pub open spec fn is_live(self, id: ChannelId) -> bool {
        &&& id.0 < NUM_CHANNELS
        &&& self.slot(id.0 as int) is Some
        &&& self.started(id.0 as int) == id.1
        &&& !self.slot(id.0 as int)->Some_0.state().is_done
    }

    /// The channel `id` names, if it is still playing.
    pub fn channel(&mut self, id: &ChannelId) -> (r: Option<&mut SoundChannel>)
        requires
            old(self).wf(),
            id.0 < NUM_CHANNELS,
        ensures
            r is Some <==> old(self).is_live(*id),
            r is Some ==> *r->Some_0 == old(self).slot(id.0 as int)->Some_0 && final(self).slot(
                id.0 as int,
            ) == Some(*final(r->Some_0)),
            r is None ==> *final(self) == *old(self),
            final(self).wf(),
            forall|j: int|
                0 <= j < NUM_CHANNELS && j != id.0 ==> #[trigger] final(self).slot(j) == old(self).slot(j),
            forall|j: int| 0 <= j < NUM_CHANNELS ==> #[trigger] final(self).started(j) == old(self).started(j),
    {
        let live = match &self.channels[id.0] {
            Some(c) => self.indices[id.0] == id.1 && !c.is_done(),
            None => false,
        };
        if live {
            let slot = &mut self.channels[id.0];
            match slot {
                Some(c) => Some(c),
                None => None,
            }
        } else {
            None
        }
    }
}

/// Which of the three buffers is being played and which was last written.
#[derive(Clone, Copy, Debug, PartialEq, Eq, Structural)]
pub struct MixerBufferState {
    active_buffer: usize,
    playing_buffer: usize,
}

/// `x` modulo 3 for `x` up to 3.
pub fn mod3_estimate(x: usize) -> (r: usize)
    requires
        x <= 3,
    ensures
        r == x % 3,
{
    if x == 3 {
        0
    } else {
        x
    }
}

impl MixerBufferState {
    /// The buffer last written.
    pub closed spec fn active(self) -> int {
        self.active_buffer as int
    }

    /// The buffer being played.
    pub closed spec fn playing(self) -> int {
        self.playing_buffer as int
    }

    /// Both indices name one of the three buffers.
    pub open spec fn wf(self) -> bool {
        0 <= self.active() < 3 && 0 <= self.playing() < 3
    }

    /// Both start at buffer 0.
    pub fn new() -> (r: Self)
        ensures
            r.wf(),
            r.active() == 0,
            r.playing() == 0,
    {
        MixerBufferState { active_buffer: 0, playing_buffer: 0 }
    }

    /// Whether there is a buffer to write: the one after the active one is not
    /// being played.
    pub fn should_calculate(&self) -> (r: bool)
        requires
            self.wf(),
        ensures
            r == ((self.active() + 1) % 3 != self.playing()),
    {
        mod3_estimate(self.active_buffer + 1) != self.playing_buffer
    }

    /// Moves playback to the next buffer and returns its index.
    pub fn playing_advanced(&mut self) -> (r: usize)
        requires
            old(self).wf(),
        ensures
            final(self).wf(),
            final(self).playing() == (old(self).playing() + 1) % 3,
            final(self).active() == old(self).active(),
            r == final(self).playing(),
    {
        self.playing_buffer = mod3_estimate(self.playing_buffer + 1);
        self.playing_buffer
    }

    /// Moves writing to the next buffer and returns its index.
    pub fn active_advanced(&mut self) -> (r: usize)
        requires
            old(self).wf(),
        ensures
            final(self).wf(),
            final(self).active() == (old(self).active() + 1) % 3,
            final(self).playing() == old(self).playing(),
            r == final(self).active(),
    {
        self.active_buffer = mod3_estimate(self.active_buffer + 1);
        self.active_buffer
    }
}

} // verus!

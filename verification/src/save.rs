//! Save media: what kind is fitted, its size, the errors it gives, the
//! bounds checks made before each access, and the layout of a saved game.
use vstd::prelude::*;

pub mod flash;
pub mod framing;

verus! {

/// A list of save media types.
#[derive(Clone, Copy, Debug, PartialEq, Eq, Structural)]
pub enum MediaType {
    /// 32KiB Battery-Backed SRAM or FRAM
    Sram32K,
    /// 8KiB EEPROM
    Eeprom8K,
    /// 512B EEPROM
    Eeprom512B,
    /// 64KiB flash chip
    Flash64K,
    /// 128KiB flash chip
    Flash128K,
}

/// The errors encountered while reading or writing save media.
#[derive(Clone, Copy, Debug, PartialEq, Eq, Structural)]
pub enum StorageError {
    /// There is no save media attached to this game cart.
    NoMedia,
    /// Failed to write the data to save media.
    WriteError,
    /// An operation on save media timed out.
    OperationTimedOut,
    /// An attempt was made to access save media at an invalid offset.
    OutOfBounds,
    /// The media is already in use.
    MediaInUse,
    /// This command cannot be used with the save media in use.
    IncompatibleCommand,
}

/// Information about the save media used.
#[derive(Clone, Copy, Debug, PartialEq, Eq, Structural)]
pub struct MediaInfo {
    /// The type of save media installed.
    pub media_type: MediaType,
    /// The power-of-two size of each sector: 9 for 512 byte sectors, 0 when
    /// sectors are not in use.
    pub sector_shift: usize,
    /// The size of the save media, in sectors.
    pub sector_count: usize,
    /// Whether the save media type requires media be prepared before writing.
    pub uses_prepare_write: bool,
}

impl MediaInfo {
    /// The sector size, `1 << sector_shift`.
    pub fn sector_size(&self) -> (r: usize)
        requires
            self.sector_shift < 32,
        ensures
            r == 1usize << self.sector_shift,
    {
        1usize << self.sector_shift
    }

    /// The total length, `sector_count << sector_shift`.
    pub fn len(&self) -> (r: usize)
        requires
            self.sector_shift < 32,
        ensures
            r == self.sector_count << self.sector_shift,
    {
        self.sector_count << self.sector_shift
    }

    /// Whether the range from `start` up to `end` lies in media of `len`
    /// bytes: it must start inside the media, so that even an empty range at
    /// the very end is refused.
    pub fn check_bounds(len: usize, start: usize, end: usize) -> (r: Result<(), StorageError>)
        ensures
            r is Ok <==> start < len && end <= len,
            r is Err ==> r == Err::<(), StorageError>(StorageError::OutOfBounds),
    {
        if start >= len || end > len {
            Err(StorageError::OutOfBounds)
        } else {
            Ok(())
        }
    }

    /// [`MediaInfo::check_bounds`] for `len` bytes from `offset`.
    pub fn check_bounds_len(media_len: usize, offset: usize, len: usize) -> (r: Result<(), StorageError>)
        requires
            offset + len <= usize::MAX,
        ensures
            r is Ok <==> offset < media_len && offset + len <= media_len,
            r is Err ==> r == Err::<(), StorageError>(StorageError::OutOfBounds),
    {
        Self::check_bounds(media_len, offset, offset + len)
    }
}

/// The size of battery backed SRAM: 32 KiB.
pub const SRAM_SIZE: usize = 32 * 1024;

/// Whether `len` bytes from `offset` lie in the SRAM, the sum computed
/// without overflow.
pub fn sram_check_bounds(offset: usize, len: usize) -> (r: Result<(), StorageError>)
    ensures
        r is Ok <==> offset + len <= SRAM_SIZE,
        r is Err ==> r == Err::<(), StorageError>(StorageError::OutOfBounds),
{
    match offset.checked_add(len) {
        None => Err(StorageError::OutOfBounds),
        Some(end) => if end > SRAM_SIZE {
            Err(StorageError::OutOfBounds)
        } else {
            Ok(())
        },
    }
}

/// The information of battery backed SRAM: one byte sectors, no preparing.
pub fn sram_info() -> (r: MediaInfo)
    ensures
        r == (MediaInfo {
            media_type: MediaType::Sram32K,
            sector_shift: 0,
            sector_count: SRAM_SIZE,
            uses_prepare_write: false,
        }),
{
    MediaInfo {
        media_type: MediaType::Sram32K,
        sector_shift: 0,
        sector_count: SRAM_SIZE,
        uses_prepare_write: false,
    }
}

/// Ticks of the timer, counting at 1024 cycles a tick, in one millisecond,
/// rounded down.
pub const TICKS_PER_MS: u16 = 17;

/// A timeout that keeps save media errors from hanging the game: with a
/// timer it can run out, without one it never does.
pub struct Timeout {
    has_timer: bool,
}

impl Timeout {
    /// Whether the timeout has a timer.
    pub closed spec fn has_timer_spec(self) -> bool {
        self.has_timer
    }

    /// A timeout driven by a timer when `has_timer` holds.
    pub fn new(has_timer: bool) -> (r: Self)
        ensures
            r.has_timer_spec() == has_timer,
    {
        Timeout { has_timer }
    }

    /// Whether `check_ms` milliseconds have passed since the start, given
    /// the timer's current value: never without a timer.
    pub fn check_timeout_met(&self, check_ms: u16, timer_value: u16) -> (r: bool)
        requires
            self.has_timer_spec() ==> check_ms * 17 <= u16::MAX,
        ensures
            r == (self.has_timer_spec() && check_ms * 17 < timer_value),
    {
        if self.has_timer {
            check_ms * TICKS_PER_MS < timer_value
        } else {
            false
        }
    }
}

} // verus!

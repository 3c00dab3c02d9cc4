//! Flash save media: which chip is fitted, what it holds, and how accesses
//! are split by bank and by sector.
use vstd::prelude::*;
use crate::save::{MediaInfo, MediaType, StorageError};

verus! {

/// The size of one bank of flash: 64 KiB.
pub const BANK_LEN: usize = 0x1_0000;

/// The size of an Atmel sector: 128 bytes.
pub const ATMEL_SECTOR_LEN: usize = 128;

/// Identifies a particular flash chip in use by a Game Pak.
#[derive(Clone, Copy, Debug, PartialEq, Eq, Structural)]
pub enum FlashChipType {
    /// 64KiB SST chip
    Sst64K,
    /// 64KiB Macronix chip
    Macronix64K,
    /// 64KiB Panasonic chip
    Panasonic64K,
    /// 64KiB Atmel chip
    Atmel64K,
    /// 128KiB Sanyo chip
    Sanyo128K,
    /// 128KiB Macronix chip
    Macronix128K,
    /// An unidentified chip
    Unknown,
}

/// The chip with the identifier `id`.
pub open spec fn chip_of_id(id: u16) -> FlashChipType {
    if id == 0xD4BF {
        FlashChipType::Sst64K
    } else if id == 0x1CC2 {
        FlashChipType::Macronix64K
    } else if id == 0x1B32 {
        FlashChipType::Panasonic64K
    } else if id == 0x3D1F {
        FlashChipType::Atmel64K
    } else if id == 0x1362 {
        FlashChipType::Sanyo128K
    } else if id == 0x09C2 {
        FlashChipType::Macronix128K
    } else {
        FlashChipType::Unknown
    }
}

/// The identifier the chip reports: the byte at offset 1 above the byte at
/// offset 0.
pub fn chip_id(high: u8, low: u8) -> (r: u16)
    ensures
        r == high * 256 + low,
{
    let r = ((high as u16) << 8u16) | low as u16;
    assert(((high as u16) << 8u16) | (low as u16) == high * 256 + low) by (bit_vector);
    r
}

impl FlashChipType {
    /// Determines the flash chip type from an ID.
    pub fn from_id(id: u16) -> (r: Self)
        ensures
            r == chip_of_id(id),
    {
        match id {
            0xD4BF => FlashChipType::Sst64K,
            0x1CC2 => FlashChipType::Macronix64K,
            0x1B32 => FlashChipType::Panasonic64K,
            0x3D1F => FlashChipType::Atmel64K,
            0x1362 => FlashChipType::Sanyo128K,
            0x09C2 => FlashChipType::Macronix128K,
            _ => FlashChipType::Unknown,
        }
    }

    /// The chip type from the two bytes the chip reports for its identifier.
    pub fn detect(high: u8, low: u8) -> (r: Self)
        ensures
            r == chip_of_id((high * 256 + low) as u16),
    {
        Self::from_id(chip_id(high, low))
    }

    /// The information about this chip.
    pub fn chip_info(self) -> (r: ChipInfo)
        ensures
            r == chip_info_of(self),
    {
        match self {
            FlashChipType::Sst64K => ChipInfo {
                read_wait: 2,
                write_wait: 1,
                write_timeout: 10,
                erase_sector_timeout: 40,
                erase_chip_timeout: 200,
                bank_count: 1,
                uses_atmel_api: false,
                requires_cancel_command: false,
                info: info_64k(),
            },
            FlashChipType::Macronix64K => ChipInfo {
                read_wait: 1,
                write_wait: 3,
                write_timeout: 10,
                erase_sector_timeout: 2000,
                erase_chip_timeout: 2000,
                bank_count: 1,
                uses_atmel_api: false,
                requires_cancel_command: true,
                info: info_64k(),
            },
            FlashChipType::Panasonic64K => ChipInfo {
                read_wait: 2,
                write_wait: 0,
                write_timeout: 10,
                erase_sector_timeout: 500,
                erase_chip_timeout: 500,
                bank_count: 1,
                uses_atmel_api: false,
                requires_cancel_command: false,
                info: info_64k(),
            },
            FlashChipType::Atmel64K => ChipInfo {
                read_wait: 3,
                write_wait: 3,
                write_timeout: 40,
                erase_sector_timeout: 40,
                erase_chip_timeout: 40,
                bank_count: 1,
                uses_atmel_api: true,
                requires_cancel_command: false,
                info: info_64k_atmel(),
            },
            FlashChipType::Sanyo128K | FlashChipType::Macronix128K => generic_128k(),
            FlashChipType::Unknown => ChipInfo {
                read_wait: 3,
                write_wait: 3,
                write_timeout: 40,
                erase_sector_timeout: 2000,
                erase_chip_timeout: 2000,
                bank_count: 1,
                uses_atmel_api: false,
                requires_cancel_command: true,
                info: info_128k(),
            },
        }
    }
}

/// 64 KiB in sixteen 4 KiB sectors, erased before writing.
pub open spec fn info_64k_spec() -> MediaInfo {
    MediaInfo {
        media_type: MediaType::Flash64K,
        sector_shift: 12,
        sector_count: 16,
        uses_prepare_write: true,
    }
}

/// 64 KiB in 512 sectors of 128 bytes, written a sector at a time.
pub open spec fn info_64k_atmel_spec() -> MediaInfo {
    MediaInfo {
        media_type: MediaType::Flash64K,
        sector_shift: 7,
        sector_count: 512,
        uses_prepare_write: false,
    }
}

/// 128 KiB in thirty-two 4 KiB sectors, erased before writing.
pub open spec fn info_128k_spec() -> MediaInfo {
    MediaInfo {
        media_type: MediaType::Flash128K,
        sector_shift: 12,
        sector_count: 32,
        uses_prepare_write: true,
    }
}

fn info_64k() -> (r: MediaInfo)
    ensures
        r == info_64k_spec(),
{
    MediaInfo {
        media_type: MediaType::Flash64K,
        sector_shift: 12,
        sector_count: 16,
        uses_prepare_write: true,
    }
}

fn info_64k_atmel() -> (r: MediaInfo)
    ensures
        r == info_64k_atmel_spec(),
{
    MediaInfo {
        media_type: MediaType::Flash64K,
        sector_shift: 7,
        sector_count: 512,
        uses_prepare_write: false,
    }
}

fn info_128k() -> (r: MediaInfo)
    ensures
        r == info_128k_spec(),
{
    MediaInfo {
        media_type: MediaType::Flash128K,
        sector_shift: 12,
        sector_count: 32,
        uses_prepare_write: true,
    }
}

fn generic_128k() -> (r: ChipInfo)
    ensures
        r == generic_128k_spec(),
{
    ChipInfo {
        read_wait: 1,
        write_wait: 3,
        write_timeout: 10,
        erase_sector_timeout: 2000,
        erase_chip_timeout: 2000,
        bank_count: 2,
        uses_atmel_api: false,
        requires_cancel_command: false,
        info: info_128k(),
    }
}

/// The two-bank 128 KiB chips.
pub open spec fn generic_128k_spec() -> ChipInfo {
    ChipInfo {
        read_wait: 1,
        write_wait: 3,
        write_timeout: 10,
        erase_sector_timeout: 2000,
        erase_chip_timeout: 2000,
        bank_count: 2,
        uses_atmel_api: false,
        requires_cancel_command: false,
        info: info_128k_spec(),
    }
}

/// The information about each chip: the unknown chip is taken for a 128 KiB
/// chip with one bank.
pub open spec fn chip_info_of(c: FlashChipType) -> ChipInfo {
    match c {
        FlashChipType::Sst64K => ChipInfo {
            read_wait: 2,
            write_wait: 1,
            write_timeout: 10,
            erase_sector_timeout: 40,
            erase_chip_timeout: 200,
            bank_count: 1,
            uses_atmel_api: false,
            requires_cancel_command: false,
            info: info_64k_spec(),
        },
        FlashChipType::Macronix64K => ChipInfo {
            read_wait: 1,
            write_wait: 3,
            write_timeout: 10,
            erase_sector_timeout: 2000,
            erase_chip_timeout: 2000,
            bank_count: 1,
            uses_atmel_api: false,
            requires_cancel_command: true,
            info: info_64k_spec(),
        },
        FlashChipType::Panasonic64K => ChipInfo {
            read_wait: 2,
            write_wait: 0,
            write_timeout: 10,
            erase_sector_timeout: 500,
            erase_chip_timeout: 500,
            bank_count: 1,
            uses_atmel_api: false,
            requires_cancel_command: false,
            info: info_64k_spec(),
        },
        FlashChipType::Atmel64K => ChipInfo {
            read_wait: 3,
            write_wait: 3,
            write_timeout: 40,
            erase_sector_timeout: 40,
            erase_chip_timeout: 40,
            bank_count: 1,
            uses_atmel_api: true,
            requires_cancel_command: false,
            info: info_64k_atmel_spec(),
        },
        FlashChipType::Sanyo128K => generic_128k_spec(),
        FlashChipType::Macronix128K => generic_128k_spec(),
        FlashChipType::Unknown => ChipInfo {
            read_wait: 3,
            write_wait: 3,
            write_timeout: 40,
            erase_sector_timeout: 2000,
            erase_chip_timeout: 2000,
            bank_count: 1,
            uses_atmel_api: false,
            requires_cancel_command: true,
            info: info_128k_spec(),
        },
    }
}

/// Information relating to a particular flash chip.
#[derive(Clone, Copy, Debug, PartialEq, Eq, Structural)]
pub struct ChipInfo {
    /// The wait state required to read from the chip.
    pub read_wait: u8,
    /// The wait state required to write to the chip.
    pub write_wait: u8,
    /// The timeout in milliseconds for writes to this chip.
    pub write_timeout: u16,
    /// The timeout in milliseconds for erasing a sector in this chip.
    pub erase_sector_timeout: u16,
    /// The timeout in milliseconds for erasing the entire chip.
    pub erase_chip_timeout: u16,
    /// The number of 64KiB banks in this chip.
    pub bank_count: u8,
    /// Whether this is an Atmel chip, which has 128 byte sectors instead of 4K.
    pub uses_atmel_api: bool,
    /// Whether this chip needs a command to cancel an action after a timeout.
    pub requires_cancel_command: bool,
    /// The media information of this chip.
    pub info: MediaInfo,
}

/// The pieces `len` bytes from `offset` fall into, one per bank: the bank,
/// the offset in it, and the length.
pub open spec fn bank_chunks(offset: int, len: int) -> Seq<(int, int, int)>
    decreases len,
{
    if len <= 0 || offset < 0 {
        Seq::empty()
    } else {
        let start = offset % (BANK_LEN as int);
        let n = if BANK_LEN - start < len {
            BANK_LEN - start
        } else {
            len
        };
        seq![(offset / (BANK_LEN as int), start, n)] + bank_chunks(offset + n, len - n)
    }
}

/// The pieces `len` bytes from `offset` fall into, one per Atmel sector: the
/// offset of the sector, the offset in it, and the length.
pub open spec fn sector_chunks(offset: int, len: int) -> Seq<(int, int, int)>
    decreases len,
{
    if len <= 0 || offset < 0 {
        Seq::empty()
    } else {
        let start = offset % (ATMEL_SECTOR_LEN as int);
        let n = if ATMEL_SECTOR_LEN - start < len {
            ATMEL_SECTOR_LEN - start
        } else {
            len
        };
        seq![(offset - start, start, n)] + sector_chunks(offset + n, len - n)
    }
}

/// What preparing sectors for writing takes.
#[derive(Clone, Copy, Debug, PartialEq, Eq, Structural)]
pub enum PrepareAction {
    /// Nothing: Atmel chips erase as they write.
    Nothing,
    /// Erasing the whole chip.
    EraseChip,
    /// Erasing `count` sectors from `first`, one by one.
    EraseSectors { first: usize, count: usize },
}

impl ChipInfo {
    /// The total length of the chip.
    pub fn total_len(&self) -> (r: usize)
        requires
            self.info.sector_shift < 32,
        ensures
            r == self.info.sector_count << self.info.sector_shift,
    {
        self.info.sector_count << self.info.sector_shift
    }

    /// Whether `len` bytes from `offset` lie on the chip, the sum computed
    /// without overflow.
    pub fn check_len(&self, offset: usize, len: usize) -> (r: Result<(), StorageError>)
        requires
            self.info.sector_shift < 32,
        ensures
            r is Ok <==> offset + len <= (self.info.sector_count << self.info.sector_shift),
            r is Err ==> r == Err::<(), StorageError>(StorageError::OutOfBounds),
    {
        match offset.checked_add(len) {
            Some(end) => if end <= self.total_len() {
                Ok(())
            } else {
                Err(StorageError::OutOfBounds)
            },
            None => Err(StorageError::OutOfBounds),
        }
    }

    /// Whether `len` sectors from sector `offset` lie on the chip.
    pub fn check_sector_len(&self, offset: usize, len: usize) -> (r: Result<(), StorageError>)
        ensures
            r is Ok <==> offset + len <= self.info.sector_count,
            r is Err ==> r == Err::<(), StorageError>(StorageError::OutOfBounds),
    {
        match offset.checked_add(len) {
            Some(end) => if end <= self.info.sector_count {
                Ok(())
            } else {
                Err(StorageError::OutOfBounds)
            },
            None => Err(StorageError::OutOfBounds),
        }
    }

    /// Whether bank `bank` can be selected, and whether selecting it takes a
    /// command: only chips with more than one bank switch banks.
    pub fn set_bank(&self, bank: usize) -> (r: Result<bool, StorageError>)
        ensures
            r is Ok <==> bank < self.bank_count,
            r is Ok ==> r->Ok_0 == (self.bank_count > 1),
            r is Err ==> r == Err::<bool, StorageError>(StorageError::OutOfBounds),
    {
        if bank >= self.bank_count as usize {
            Err(StorageError::OutOfBounds)
        } else {
            Ok(self.bank_count > 1)
        }
    }

    /// The pieces of a read or write of `len` bytes from `offset`, one per
    /// bank.
    pub fn bank_pieces(&self, offset: usize, len: usize) -> (r: Vec<(usize, usize, usize)>)
        requires
            offset + len <= usize::MAX,
        ensures
            r@.len() == bank_chunks(offset as int, len as int).len(),
            forall|i: int|
                0 <= i < r@.len() ==> {
                    let c = bank_chunks(offset as int, len as int)[i];
                    #[trigger] r@[i] == (c.0 as usize, c.1 as usize, c.2 as usize)
                },
    {
        let mut out: Vec<(usize, usize, usize)> = Vec::new();
        let mut off = offset;
        let mut rest = len;
        let ghost mut done: Seq<(int, int, int)> = Seq::empty();
        while rest > 0
            invariant
                off + rest == offset + len,
                off + rest <= usize::MAX,
                done + bank_chunks(off as int, rest as int) == bank_chunks(offset as int, len as int),
                out@.len() == done.len(),
                forall|i: int|
                    0 <= i < done.len() ==> #[trigger] out@[i] == (
                        done[i].0 as usize,
                        done[i].1 as usize,
                        done[i].2 as usize,
                    ),
            decreases rest,
        {
            let start = off % BANK_LEN;
            let n = if BANK_LEN - start < rest {
                BANK_LEN - start
            } else {
                rest
            };
            let ghost tail = bank_chunks(off as int, rest as int);
            let ghost later = bank_chunks((off + n) as int, (rest - n) as int);
            let ghost head = ((off / BANK_LEN) as int, start as int, n as int);
            proof {
                assert(tail == seq![head] + later);
            }
            out.push((off / BANK_LEN, start, n));
            off = off + n;
            rest = rest - n;
            proof {
                assert(done + tail =~= done.push(head) + later);
                done = done.push(head);
            }
        }
        proof {
            assert(done =~= bank_chunks(offset as int, len as int));
        }
        out
    }

    /// The pieces of an Atmel write of `len` bytes from `offset`, one per
    /// 128 byte sector.
    pub fn sector_pieces(&self, offset: usize, len: usize) -> (r: Vec<(usize, usize, usize)>)
        requires
            offset + len <= usize::MAX,
        ensures
            r@.len() == sector_chunks(offset as int, len as int).len(),
            forall|i: int|
                0 <= i < r@.len() ==> {
                    let c = sector_chunks(offset as int, len as int)[i];
                    #[trigger] r@[i] == (c.0 as usize, c.1 as usize, c.2 as usize)
                },
    {
        let mut out: Vec<(usize, usize, usize)> = Vec::new();
        let mut off = offset;
        let mut rest = len;
        let ghost mut done: Seq<(int, int, int)> = Seq::empty();
        while rest > 0
            invariant
                off + rest == offset + len,
                off + rest <= usize::MAX,
                done + sector_chunks(off as int, rest as int) == sector_chunks(offset as int, len as int),
                out@.len() == done.len(),
                forall|i: int|
                    0 <= i < done.len() ==> #[trigger] out@[i] == (
                        done[i].0 as usize,
                        done[i].1 as usize,
                        done[i].2 as usize,
                    ),
            decreases rest,
        {
            let start = off % ATMEL_SECTOR_LEN;
            let n = if ATMEL_SECTOR_LEN - start < rest {
                ATMEL_SECTOR_LEN - start
            } else {
                rest
            };
            let ghost tail = sector_chunks(off as int, rest as int);
            let ghost later = sector_chunks((off + n) as int, (rest - n) as int);
            let ghost head = ((off - start) as int, start as int, n as int);
            proof {
                assert(tail == seq![head] + later);
            }
            out.push((off - start, start, n));
            off = off + n;
            rest = rest - n;
            proof {
                assert(done + tail =~= done.push(head) + later);
                done = done.push(head);
            }
        }
        proof {
            assert(done =~= sector_chunks(offset as int, len as int));
        }
        out
    }

    /// What preparing `count` sectors from `sector` for writing takes:
    /// nothing on Atmel chips, erasing the whole chip when all its sectors
    /// are asked for, else erasing them one by one.
    pub fn prepare_write(&self, sector: usize, count: usize) -> (r: Result<PrepareAction, StorageError>)
        ensures
            !(sector + count <= self.info.sector_count) ==> r == Err::<PrepareAction, StorageError>(
                StorageError::OutOfBounds,
            ),
            sector + count <= self.info.sector_count ==> r == Ok::<PrepareAction, StorageError>(
                if self.uses_atmel_api {
                    PrepareAction::Nothing
                } else if count == self.info.sector_count {
                    PrepareAction::EraseChip
                } else {
                    PrepareAction::EraseSectors { first: sector, count }
                },
            ),
    {
        match self.check_sector_len(sector, count) {
            Err(e) => Err(e),
            Ok(()) => {
                if self.uses_atmel_api {
                    Ok(PrepareAction::Nothing)
                } else if count == self.info.sector_count {
                    Ok(PrepareAction::EraseChip)
                } else {
                    Ok(PrepareAction::EraseSectors { first: sector, count })
                }
            },
        }
    }

    /// The bank of sector `sector`, and its offset in the bank.
    pub fn sector_location(&self, sector: usize) -> (r: (usize, usize))
        requires
            self.info.sector_shift < 32,
        ensures
            r == ((sector << self.info.sector_shift) / BANK_LEN, (sector << self.info.sector_shift)
                % BANK_LEN),
    {
        let offset = sector << self.info.sector_shift;
        (offset / BANK_LEN, offset % BANK_LEN)
    }
}

/// The 128 bytes to write to an Atmel sector when `data` goes at `start`:
/// `data` there, what the sector held elsewhere.
pub fn merge_sector(existing: &[u8], data: &[u8], start: usize) -> (r: Vec<u8>)
    requires
        existing@.len() == ATMEL_SECTOR_LEN,
        start + data@.len() <= ATMEL_SECTOR_LEN,
    ensures
        r@.len() == ATMEL_SECTOR_LEN,
        forall|i: int|
            0 <= i < ATMEL_SECTOR_LEN ==> #[trigger] r@[i] == if start <= i < start + data@.len() {
                data@[i - start]
            } else {
                existing@[i]
            },
{
    let mut out: Vec<u8> = Vec::new();
    let mut i: usize = 0;
    while i < ATMEL_SECTOR_LEN
        invariant
            i <= ATMEL_SECTOR_LEN,
            existing@.len() == ATMEL_SECTOR_LEN,
            start + data@.len() <= ATMEL_SECTOR_LEN,
            out@.len() == i,
            forall|j: int|
                0 <= j < i ==> #[trigger] out@[j] == if start <= j < start + data@.len() {
                    data@[j - start]
                } else {
                    existing@[j]
                },
        decreases ATMEL_SECTOR_LEN - i,
    {
        if start <= i && i < start + data.len() {
            out.push(data[i - start]);
        } else {
            out.push(existing[i]);
        }
        i = i + 1;
    }
    out
}

} // verus!

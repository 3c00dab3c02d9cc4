//! Direct memory access: the register addresses of each channel, the
//! control words of the transfers this library makes, and the values a
//! horizontal blank transfer steps through.
use vstd::prelude::*;

verus! {

/// The source address register of channel `dma`.
pub fn dma_source_addr(dma: usize) -> (r: usize)
    requires
        dma < 4,
    ensures
        r == 0x0400_00b0 + 0x0c * dma,
{
    0x0400_00b0 + 0x0c * dma
}

/// The destination address register of channel `dma`.
pub fn dma_dest_addr(dma: usize) -> (r: usize)
    requires
        dma < 4,
    ensures
        r == 0x0400_00b4 + 0x0c * dma,
{
    0x0400_00b4 + 0x0c * dma
}

/// The control register of channel `dma`.
pub fn dma_control_addr(dma: usize) -> (r: usize)
    requires
        dma < 4,
    ensures
        r == 0x0400_00b8 + 0x0c * dma,
{
    0x0400_00b8 + 0x0c * dma
}

/// The control word of a copy of `count` half words on channel 3: the count
/// with the enable bit.
pub fn dma_copy16_control(count: usize) -> (r: u32)
    requires
        count < u16::MAX,
    ensures
        r == count + 0x8000_0000,
{
    let r = count as u32 | (1u32 << 31u32);
    assert((count as u32) < 0x10000 ==> (count as u32) | (1u32 << 31u32) == (count as u32) + 0x8000_0000u32) by (bit_vector);
    r
}

/// The high half of a control register with the enable bit cleared, so that
/// the channel pauses while channel 3 runs.
pub fn paused_control(ctl: u16) -> (r: u16)
    ensures
        r == ctl & !(1u16 << 15u16),
{
    ctl & !(1u16 << 15u16)
}

/// The control word of a transfer of `n_transfers` half words at every
/// horizontal blank: destination fixed, source stepping on, repeating, and
/// enabled.
pub open spec fn hblank_control_spec(n_transfers: u32) -> u32 {
    (3u32 << 0x15u32) | (1u32 << 0x19u32) | (2u32 << 0x1cu32) | (1u32 << 0x1fu32) | n_transfers
}

/// Something whose memory a horizontal blank transfer writes to: its
/// address.
#[derive(Clone, Copy, Debug, PartialEq, Eq, Structural)]
pub struct DmaControllable {
    memory_location: usize,
}

impl DmaControllable {
    /// The address written to.
    pub closed spec fn location(self) -> usize {
        self.memory_location
    }

    /// Something at `memory_location`.
    pub fn new(memory_location: usize) -> (r: Self)
        ensures
            r.location() == memory_location,
    {
        DmaControllable { memory_location }
    }
}

/// What committing a horizontal blank transfer writes: the first value at
/// the destination, the destination, and the control word; the source is
/// the second value onwards.
pub struct HBlankCommit<Item> {
    /// The value written before the first line.
    pub first: Item,
    /// The address written to at each horizontal blank.
    pub dest: usize,
    /// The control word.
    pub control: u32,
}

/// A value for each of the 160 lines of the screen, written at the
/// horizontal blank before the line, and the first again for the blank
/// after the last line.
pub struct HBlankDmaDefinition<Item> {
    controllable: DmaControllable,
    values: Vec<Item>,
}

impl<Item: Copy> HBlankDmaDefinition<Item> {
    /// The 161 values stepped through.
    pub closed spec fn values_spec(self) -> Seq<Item> {
        self.values@
    }

    /// Where they are written.
    pub closed spec fn controllable_spec(self) -> DmaControllable {
        self.controllable
    }

    /// The first 160 of `values`, then the first again.
    pub fn new(controllable: DmaControllable, values: &[Item]) -> (r: Self)
        requires
            values@.len() >= 160,
        ensures
            r.values_spec() == values@.subrange(0, 160).push(values@[0]),
            r.controllable_spec() == controllable,
    {
        let mut copied: Vec<Item> = Vec::new();
        let mut i: usize = 0;
        while i < 160
            invariant
                i <= 160,
                values@.len() >= 160,
                copied@ == values@.subrange(0, i as int),
            decreases 160 - i,
        {
            copied.push(values[i]);
            i = i + 1;
            proof {
                assert(copied@ =~= values@.subrange(0, i as int));
            }
        }
        copied.push(values[0]);
        HBlankDmaDefinition { controllable, values: copied }
    }

    /// What to write to start the transfer, for values of `item_size` bytes.
    pub fn commit(&self, item_size: usize) -> (r: HBlankCommit<Item>)
        requires
            self.values_spec().len() == 161,
            item_size / 2 < 0x20_0000,
        ensures
            r.first == self.values_spec()[0],
            r.dest == self.controllable_spec().location(),
            r.control == hblank_control_spec((item_size / 2) as u32),
    {
        let n_transfers = (item_size / 2) as u32;
        let control = (3u32 << 0x15u32) | (1u32 << 0x19u32) | (2u32 << 0x1cu32) | (1u32 << 0x1fu32)
            | n_transfers;
        HBlankCommit { first: self.values[0], dest: self.controllable.memory_location, control }
    }
}

} // verus!

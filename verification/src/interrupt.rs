//! Interrupts: their numbers, the register values that enable them, how
//! many handlers each has, which handlers a raised interrupt runs, and the
//! wait for the vertical blank.
use vstd::prelude::*;
use crate::memory_mapped::{set_bits, set_bits_spec};

verus! {

/// The sources of interrupts.
#[derive(Clone, Copy, Debug, PartialEq, Eq, Structural)]
pub enum Interrupt {
    /// Vertical blank.
    VBlank,
    /// Horizontal blank.
    HBlank,
    /// The line counter matched.
    VCounter,
    /// Timer 0 overflowed.
    Timer0,
    /// Timer 1 overflowed.
    Timer1,
    /// Timer 2 overflowed.
    Timer2,
    /// Timer 3 overflowed.
    Timer3,
    /// Serial communication.
    Serial,
    /// DMA 0 finished.
    Dma0,
    /// DMA 1 finished.
    Dma1,
    /// DMA 2 finished.
    Dma2,
    /// DMA 3 finished.
    Dma3,
    /// A key was pressed.
    Keypad,
    /// The game pak was removed.
    Gamepak,
}

/// The number of interrupt sources.
pub const NUM_INTERRUPTS: usize = 14;

impl Interrupt {
    /// The bit of the interrupt in the interrupt registers.
    pub open spec fn number_spec(self) -> u16 {
        match self {
            Interrupt::VBlank => 0,
            Interrupt::HBlank => 1,
            Interrupt::VCounter => 2,
            Interrupt::Timer0 => 3,
            Interrupt::Timer1 => 4,
            Interrupt::Timer2 => 5,
            Interrupt::Timer3 => 6,
            Interrupt::Serial => 7,
            Interrupt::Dma0 => 8,
            Interrupt::Dma1 => 9,
            Interrupt::Dma2 => 10,
            Interrupt::Dma3 => 11,
            Interrupt::Keypad => 12,
            Interrupt::Gamepak => 13,
        }
    }

    /// The bit of the interrupt in the interrupt registers.
    pub fn number(self) -> (r: u16)
        ensures
            r == self.number_spec(),
    {
        match self {
            Interrupt::VBlank => 0,
            Interrupt::HBlank => 1,
            Interrupt::VCounter => 2,
            Interrupt::Timer0 => 3,
            Interrupt::Timer1 => 4,
            Interrupt::Timer2 => 5,
            Interrupt::Timer3 => 6,
            Interrupt::Serial => 7,
            Interrupt::Dma0 => 8,
            Interrupt::Dma1 => 9,
            Interrupt::Dma2 => 10,
            Interrupt::Dma3 => 11,
            Interrupt::Keypad => 12,
            Interrupt::Gamepak => 13,
        }
    }

    /// The enable register with this interrupt's bit set.
    pub fn enable(self, enabled: u16) -> (r: u16)
        ensures
            r == enabled | (1u16 << self.number_spec()),
    {
        enabled | (1u16 << self.number())
    }

    /// The enable register with this interrupt's bit cleared.
    pub fn disable(self, enabled: u16) -> (r: u16)
        ensures
            r == enabled & !(1u16 << self.number_spec()),
    {
        enabled & !(1u16 << self.number())
    }

    /// The bit of the display status register that makes the display raise
    /// this interrupt: bit 3 for the vertical blank, 4 for the horizontal.
    pub open spec fn status_bit(self) -> Option<u16> {
        match self {
            Interrupt::VBlank => Some(3u16),
            Interrupt::HBlank => Some(4u16),
            _ => None,
        }
    }

    /// The display status register after enabling this interrupt.
    pub fn status_on_enable(self, status: u16) -> (r: u16)
        ensures
            r == match self.status_bit() {
                Some(b) => set_bits_spec(status, 1, 1, b),
                None => status,
            },
    {
        match self {
            Interrupt::VBlank => set_bits(status, 1, 1, 3),
            Interrupt::HBlank => set_bits(status, 1, 1, 4),
            _ => status,
        }
    }

    /// The display status register after disabling this interrupt.
    pub fn status_on_disable(self, status: u16) -> (r: u16)
        ensures
            r == match self.status_bit() {
                Some(b) => set_bits_spec(status, 0, 1, b),
                None => status,
            },
    {
        match self {
            Interrupt::VBlank => set_bits(status, 0, 1, 3),
            Interrupt::HBlank => set_bits(status, 0, 1, 4),
            _ => status,
        }
    }
}

/// The handlers of one interrupt: how many there are, and whether the
/// interrupt is enabled.
pub struct InterruptRoot {
    count: i32,
    interrupt: Interrupt,
    enabled: Ghost<bool>,
}

impl InterruptRoot {
    /// The number of handlers.
    pub closed spec fn count_spec(self) -> i32 {
        self.count
    }

    /// Whether the interrupt has been enabled by the actions asked for.
    pub closed spec fn enabled_spec(self) -> bool {
        self.enabled@
    }

    /// The interrupt.
    pub closed spec fn interrupt_spec(self) -> Interrupt {
        self.interrupt
    }

    /// The interrupt is enabled exactly while it has a handler.
    pub open spec fn wf(self) -> bool {
        self.enabled_spec() == (self.count_spec() > 0)
    }

    /// No handler, interrupt disabled.
    pub fn new(interrupt: Interrupt) -> (r: Self)
        ensures
            r.wf(),
            r.count_spec() == 0,
            r.interrupt_spec() == interrupt,
    {
        InterruptRoot { count: 0, interrupt, enabled: Ghost(false) }
    }

    /// One more handler; returns whether the interrupt must now be enabled:
    /// when it had none.
    pub fn add(&mut self) -> (r: bool)
        requires
            old(self).wf(),
            old(self).count_spec() < i32::MAX,
        ensures
            final(self).wf(),
            r == (old(self).count_spec() == 0),
            final(self).count_spec() == old(self).count_spec() + 1,
            final(self).interrupt_spec() == old(self).interrupt_spec(),
            final(self).enabled_spec() == (r || old(self).enabled_spec()),
    {
        let count = self.count;
        let enable = count == 0;
        if enable {
            proof {
                self.enabled@ = true;
            }
        }
        self.count = count + 1;
        proof {
            self.enabled@ = self.count > 0;
        }
        enable
    }

    /// One handler fewer; returns whether the interrupt must now be
    /// disabled: when none is left.
    pub fn reduce(&mut self) -> (r: bool)
        requires
            old(self).wf(),
            old(self).count_spec() > i32::MIN,
        ensures
            final(self).wf(),
            r == (old(self).count_spec() - 1 == 0),
            final(self).count_spec() == old(self).count_spec() - 1,
            final(self).interrupt_spec() == old(self).interrupt_spec(),
            final(self).enabled_spec() == (!r && old(self).enabled_spec()),
    {
        let new_count = self.count - 1;
        let disable = new_count == 0;
        self.count = new_count;
        proof {
            self.enabled@ = self.count > 0;
        }
        disable
    }
}

/// Which handler lists a raised set of interrupt bits runs: those of the
/// bits set, lowest first.
pub fn interrupts_to_run(flags: u16) -> (r: Vec<usize>)
    ensures
        forall|k: int| 0 <= k < r@.len() ==> #[trigger] r@[k] < NUM_INTERRUPTS && (flags >> (r@[k] as u16)) & 1 == 1,
        forall|k: int, l: int| 0 <= k < l < r@.len() ==> r@[k] < r@[l],
        forall|i: usize| i < NUM_INTERRUPTS && (flags >> (i as u16)) & 1 == 1 ==> r@.contains(i),
{
    let mut out: Vec<usize> = Vec::new();
    let mut i: usize = 0;
    while i < NUM_INTERRUPTS
        invariant
            i <= NUM_INTERRUPTS,
            forall|k: int| 0 <= k < out@.len() ==> #[trigger] out@[k] < i && (flags >> (out@[k] as u16)) & 1 == 1,
            forall|k: int, l: int| 0 <= k < l < out@.len() ==> out@[k] < out@[l],
            forall|j: usize| j < i && (flags >> (j as u16)) & 1 == 1 ==> out@.contains(j),
        decreases NUM_INTERRUPTS - i,
    {
        let bit: u16 = 1u16 << (i as u16);
        if bit & flags != 0 {
            proof {
                crate::bits::lemma_bit_test_u16(flags, i as u16);
            }
            let ghost before = out@;
            out.push(i);
            proof {
                assert forall|j: usize| j < i + 1 && (flags >> (j as u16)) & 1 == 1 implies out@.contains(j) by {
                    if j == i {
                        assert(out@[out@.len() - 1] == j);
                    } else {
                        assert(before.contains(j));
                        let k = choose|k: int| 0 <= k < before.len() && before[k] == j;
                        assert(out@[k] == j);
                    }
                }
            }
        } else {
            proof {
                crate::bits::lemma_bit_test_u16(flags, i as u16);
            }
        }
        i = i + 1;
    }
    out
}

/// Waits for the vertical blank by counting them: the count it last waited
/// for.
pub struct VBlank {
    last_waited_number: usize,
}

impl VBlank {
    /// The count last waited for.
    pub closed spec fn last_waited(self) -> usize {
        self.last_waited_number
    }

    /// A waiter, given the number of vertical blanks so far.
    pub fn get(num_vblanks: usize) -> (r: Self)
        ensures
            r.last_waited() == num_vblanks,
    {
        VBlank { last_waited_number: num_vblanks }
    }

    /// Given the number of vertical blanks so far, whether the processor
    /// must sleep until the next one: not when one has passed since the
    /// last wait. The next wait is for the blank after this one.
    pub fn wait_for_vblank(&mut self, num_vblanks: usize) -> (r: bool)
        requires
            num_vblanks < usize::MAX,
        ensures
            r == !(old(self).last_waited() < num_vblanks),
            final(self).last_waited() == num_vblanks + 1,
    {
        let last_waited_number = self.last_waited_number;
        self.last_waited_number = num_vblanks + 1;
        !(last_waited_number < num_vblanks)
    }
}

} // verus!

//! The GBA's tone and noise channels.
//!
//! Playing a sound is a matter of writing a few sound registers; the functions
//! here compute the values that are written.
use vstd::prelude::*;

verus! {

/// The value of the master volume and enable register after `enable`.
pub const MASTER_VOLUME_ENABLE: u16 = 0b1111_1111_0_111_0_111;

/// The value of the master mixing register after `enable`.
pub const MASTER_VOLUME_MIXING: u16 = 0b10;

/// Access to the tone and noise channels.
pub struct Sound {}

/// The register writes that enable the sound hardware.
#[derive(Clone, Copy, Debug, PartialEq, Eq, Structural)]
pub struct SoundEnable {
    /// Bit of the sound status register to set.
    pub status_bit: u16,
    /// Value of the master volume and enable register.
    pub volume_enable: u16,
    /// Value of the master mixing register.
    pub volume_mixing: u16,
}

impl Sound {
    /// Access to the sound hardware.
    pub fn new() -> (r: Self) {
        Sound {}
    }

    /// The first tone channel, which can sweep its frequency.
    pub fn channel1(&self) -> (r: Channel1) {
        Channel1 {}
    }

    /// The second tone channel.
    pub fn channel2(&self) -> (r: Channel2) {
        Channel2 {}
    }

    /// The noise channel.
    pub fn noise(&self) -> (r: Noise) {
        Noise {}
    }

    /// The register writes that turn sound on: bit 7 of the status register,
    /// every channel at full volume on both sides, and full mixing volume.
    pub fn enable(&self) -> (r: SoundEnable)
        ensures
            r == (SoundEnable {
                status_bit: 7,
                volume_enable: MASTER_VOLUME_ENABLE,
                volume_mixing: MASTER_VOLUME_MIXING,
            }),
    {
        SoundEnable {
            status_bit: 7,
            volume_enable: MASTER_VOLUME_ENABLE,
            volume_mixing: MASTER_VOLUME_MIXING,
        }
    }
}

/// Whether a sweep or envelope goes up or down.
#[derive(Clone, Copy, Debug, PartialEq, Eq, Structural)]
pub enum SoundDirection {
    /// Goes up.
    Increase,
    /// Goes down.
    Decrease,
}

impl SoundDirection {
    /// The direction's bit: 1 for up.
    pub open spec fn bits_spec(self) -> u16 {
        match self {
            SoundDirection::Increase => 1,
            SoundDirection::Decrease => 0,
        }
    }

    /// The direction's bit: 1 for up.
    pub fn as_bits(&self) -> (r: u16)
        ensures
            r == self.bits_spec(),
    {
        match self {
            SoundDirection::Increase => 1,
            SoundDirection::Decrease => 0,
        }
    }
}

/// How the first tone channel sweeps its frequency.
#[derive(Clone, Copy, Debug, PartialEq, Eq, Structural)]
pub struct SweepSettings {
    number_of_sweep_shifts: u8,
    sound_direction: SoundDirection,
    sweep_time: u8,
}

impl SweepSettings {
    /// The register value: the shift count in bits 0 to 2, a set bit 3 for a
    /// decreasing sweep, and the sweep time in bits 4 to 6.
    pub closed spec fn bits_spec(self) -> u16 {
        ((self.number_of_sweep_shifts as u16) & 0b111) | (((1 - self.sound_direction.bits_spec()) as u16) << 3u16)
            | (((self.sweep_time as u16) & 0b111) << 4u16)
    }

    /// Sweep settings; both numbers must be below 8.
    pub fn new(number_of_sweep_shifts: u8, sound_direction: SoundDirection, sweep_time: u8) -> (r: Self)
        requires
            number_of_sweep_shifts < 8,
            sweep_time < 8,
        ensures
            r.bits_spec() == (number_of_sweep_shifts as u16) | (((1 - sound_direction.bits_spec()) as u16) << 3u16) | ((
            sweep_time as u16) << 4u16),
    {
        let r = SweepSettings { number_of_sweep_shifts, sound_direction, sweep_time };
        let a = number_of_sweep_shifts as u16;
        let c = sweep_time as u16;
        assert(a & 0b111 == a && c & 0b111 == c) by (bit_vector)
            requires
                a < 8,
                c < 8,
        ;
        r
    }

    /// No sweep.
    pub fn default() -> (r: Self)
        ensures
            r.bits_spec() == 0,
    {
        let r = Self::new(0, SoundDirection::Increase, 0);
        proof {
            crate::bits::lemma_u16_constants();
        }
        r
    }

    /// The register value.
    pub fn as_bits(&self) -> (r: u16)
        ensures
            r == self.bits_spec(),
    {
        ((self.number_of_sweep_shifts as u16) & 0b111) | ((1 - self.sound_direction.as_bits()) << 3u16)
            | (((self.sweep_time as u16) & 0b111) << 4u16)
    }
}

/// How the volume of a channel changes over time.
#[derive(Clone, Copy, Debug, PartialEq, Eq, Structural)]
pub struct EnvelopeSettings {
    step_time: u8,
    direction: SoundDirection,
    initial_volume: u8,
}

impl EnvelopeSettings {
    /// The register value: step time in bits 8 to 10, direction in bit 11 and
    /// initial volume in bits 12 to 15.
    pub closed spec fn bits_spec(self) -> u16 {
        ((self.step_time as u16) << 8u16) | (self.direction.bits_spec() << 11u16) | ((
        self.initial_volume as u16) << 12u16)
    }

    /// An envelope; the step time must be below 8 and the volume below 16.
    pub fn new(step_time: u8, direction: SoundDirection, initial_volume: u8) -> (r: Self)
        requires
            step_time < 8,
            initial_volume < 16,
        ensures
            r.bits_spec() == ((step_time as u16) << 8u16) | (direction.bits_spec() << 11u16) | ((
            initial_volume as u16) << 12u16),
    {
        EnvelopeSettings { step_time, direction, initial_volume }
    }

    /// A steady full volume.
    pub fn default() -> (r: Self)
        ensures
            r.bits_spec() == ((0u16 << 8u16) | (1u16 << 11u16) | (15u16 << 12u16)),
    {
        Self::new(0, SoundDirection::Increase, 15)
    }

    /// The register value.
    pub fn as_bits(&self) -> (r: u16)
        ensures
            r == self.bits_spec(),
    {
        ((self.step_time as u16) << 8u16) | (self.direction.as_bits() << 11u16) | ((
        self.initial_volume as u16) << 12u16)
    }
}

/// The share of each period that a tone is high.
#[derive(Clone, Copy, Debug, PartialEq, Eq, Structural)]
pub enum DutyCycle {
    /// 12.5%
    OneEighth,
    /// 25%
    OneQuarter,
    /// 50%
    Half,
    /// 75%
    ThreeQuarters,
}

impl DutyCycle {
    /// The register value.
    pub open spec fn bits_spec(self) -> u16 {
        match self {
            DutyCycle::OneEighth => 0,
            DutyCycle::OneQuarter => 1,
            DutyCycle::Half => 2,
            DutyCycle::ThreeQuarters => 3,
        }
    }

    /// The register value.
    pub fn as_bits(self) -> (r: u16)
        ensures
            r == self.bits_spec(),
    {
        match self {
            DutyCycle::OneEighth => 0,
            DutyCycle::OneQuarter => 1,
            DutyCycle::Half => 2,
            DutyCycle::ThreeQuarters => 3,
        }
    }
}

/// The length bits of a channel: the length itself, or 0 when none is given.
pub open spec fn length_bits(length: Option<u8>) -> u16 {
    match length {
        Some(l) => l as u16,
        None => 0,
    }
}

/// The flag that makes a channel stop after its length: bit 14 when a length
/// is given.
pub open spec fn length_flag(length: Option<u8>) -> u16 {
    match length {
        Some(_) => 1u16 << 14u16,
        None => 0,
    }
}

/// The bit that restarts a sound.
pub const INITIAL: u16 = 0x8000;

fn length_parts(length: Option<u8>) -> (r: (u16, u16))
    ensures
        r == (length_bits(length), length_flag(length)),
{
    match length {
        Some(l) => (l as u16, 1u16 << 14u16),
        None => (0, 0),
    }
}

/// The register values of one sound on a tone channel.
#[derive(Clone, Copy, Debug, PartialEq, Eq, Structural)]
pub struct ToneRegisters {
    /// The sweep register (channel 1 only).
    pub sweep: u16,
    /// The length, duty cycle and envelope register.
    pub length_duty_envelope: u16,
    /// The frequency and control register.
    pub frequency_control: u16,
}

/// The first tone channel.
pub struct Channel1 {}

impl Channel1 {
    /// The register values that play a tone of `frequency` (below 2048),
    /// stopping after `length` (below 64) if given.
    pub fn play_sound(
        &self,
        frequency: u16,
        length: Option<u8>,
        sweep_settings: &SweepSettings,
        envelope_settings: &EnvelopeSettings,
        duty_cycle: DutyCycle,
    ) -> (r: ToneRegisters)
        requires
            length_bits(length) < 64,
            frequency < 2048,
        ensures
            r.sweep == sweep_settings.bits_spec(),
            r.length_duty_envelope == envelope_settings.bits_spec() | duty_cycle.bits_spec()
                | length_bits(length),
            r.frequency_control == frequency | length_flag(length) | INITIAL,
    {
        let sweep = sweep_settings.as_bits();
        let (length_bits, length_flag) = length_parts(length);
        let initial: u16 = 1u16 << 15u16;
        proof {
            crate::bits::lemma_u16_constants();
        }
        ToneRegisters {
            sweep,
            length_duty_envelope: envelope_settings.as_bits() | duty_cycle.as_bits() | length_bits,
            frequency_control: frequency | length_flag | initial,
        }
    }
}

/// The second tone channel.
pub struct Channel2 {}

impl Channel2 {
    /// The register values that play a tone of `frequency` (below 2048),
    /// stopping after `length` (below 64) if given. The sweep register is left
    /// at 0, as this channel has none.
    pub fn play_sound(
        &self,
        frequency: u16,
        length: Option<u8>,
        envelope_settings: &EnvelopeSettings,
        duty_cycle: DutyCycle,
    ) -> (r: ToneRegisters)
        requires
            length_bits(length) < 64,
            frequency < 2048,
        ensures
            r.sweep == 0,
            r.length_duty_envelope == envelope_settings.bits_spec() | duty_cycle.bits_spec()
                | length_bits(length),
            r.frequency_control == frequency | length_flag(length) | INITIAL,
    {
        let (length_bits, length_flag) = length_parts(length);
        let initial: u16 = 1u16 << 15u16;
        proof {
            crate::bits::lemma_u16_constants();
        }
        ToneRegisters {
            sweep: 0,
            length_duty_envelope: envelope_settings.as_bits() | duty_cycle.as_bits() | length_bits,
            frequency_control: frequency | length_flag | initial,
        }
    }
}

/// The register values of one sound on the noise channel.
#[derive(Clone, Copy, Debug, PartialEq, Eq, Structural)]
pub struct NoiseRegisters {
    /// The length and envelope register.
    pub length_envelope: u16,
    /// The frequency and control register.
    pub frequency_control: u16,
}

/// The noise channel.
pub struct Noise {}

impl Noise {
    /// The register values that play noise: the divider (below 8) in bits 0
    /// to 2, bit 3 set for a 7 bit counter, the shift clock (below 16) in bits
    /// 4 to 7, and the length (below 64) if given.
    pub fn play_sound(
        &self,
        length: Option<u8>,
        envelope_setting: &EnvelopeSettings,
        frequency_divider: u8,
        counter_step_width_15: bool,
        shift_clock_frequency: u8,
    ) -> (r: NoiseRegisters)
        requires
            length_bits(length) < 64,
            frequency_divider < 8,
            shift_clock_frequency < 16,
        ensures
            r.length_envelope == length_bits(length) | envelope_setting.bits_spec(),
            r.frequency_control == (frequency_divider as u16) | (if counter_step_width_15 {
                0u16
            } else {
                8u16
            }) | ((shift_clock_frequency as u16) << 4u16) | length_flag(length) | INITIAL,
    {
        let (length_bits, length_flag) = length_parts(length);
        let initial: u16 = 1u16 << 15u16;
        proof {
            crate::bits::lemma_u16_constants();
        }
        let counter_step_bit: u16 = if counter_step_width_15 {
            0
        } else {
            1u16 << 3u16
        };
        proof {
            crate::bits::lemma_u16_constants();
        }
        NoiseRegisters {
            length_envelope: length_bits | envelope_setting.as_bits(),
            frequency_control: (frequency_divider as u16) | counter_step_bit | ((
            shift_clock_frequency as u16) << 4u16) | length_flag | initial,
        }
    }
}

/// The envelope bits keep the step time, direction and volume apart: each can
/// be read back from the register value.
pub proof fn lemma_envelope_fields(e: EnvelopeSettings, step: u8, dir: SoundDirection, vol: u8)
    requires
        step < 8,
        vol < 16,
        e.bits_spec() == ((step as u16) << 8u16) | (dir.bits_spec() << 11u16) | ((vol as u16) << 12u16),
    ensures
        (e.bits_spec() >> 8u16) & 0b111 == step as u16,
        (e.bits_spec() >> 11u16) & 1 == dir.bits_spec(),
        e.bits_spec() >> 12u16 == vol as u16,
{
    let s = step as u16;
    let d = dir.bits_spec();
    let v = vol as u16;
    let b = e.bits_spec();
    assert((b >> 8u16) & 0b111 == s && (b >> 11u16) & 1 == d && b >> 12u16 == v) by (bit_vector)
        requires
            b == (s << 8u16) | (d << 11u16) | (v << 12u16),
            s < 8,
            d < 2,
            v < 16,
    ;
}

} // verus!

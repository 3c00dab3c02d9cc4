//! Printing to the mGBA emulator's debug output: the handshake that tells
//! the emulator is there, the debug levels, and the register writes that
//! carry a message.
use vstd::prelude::*;

verus! {

/// The severity of a message.
#[derive(Clone, Copy, Debug, PartialEq, Eq, Structural)]
pub enum DebugLevel {
    /// The emulator stops.
    Fatal,
    /// An error.
    Error,
    /// A warning.
    Warning,
    /// Information.
    Info,
    /// Debugging output.
    Debug,
}

impl DebugLevel {
    /// The number of the level.
    pub open spec fn value_spec(self) -> u16 {
        match self {
            DebugLevel::Fatal => 0,
            DebugLevel::Error => 1,
            DebugLevel::Warning => 2,
            DebugLevel::Info => 3,
            DebugLevel::Debug => 4,
        }
    }

    /// The number of the level.
    pub fn value(self) -> (r: u16)
        ensures
            r == self.value_spec(),
    {
        match self {
            DebugLevel::Fatal => 0,
            DebugLevel::Error => 1,
            DebugLevel::Warning => 2,
            DebugLevel::Info => 3,
            DebugLevel::Debug => 4,
        }
    }
}

/// Written to the enable register to ask whether the emulator is there.
pub const ENABLE_HANDSHAKE_IN: u16 = 0xC0DE;

/// Read back from the enable register when the emulator is there.
pub const ENABLE_HANDSHAKE_OUT: u16 = 0x1DEA;

/// The flag that makes a write of the level register print the message.
pub const DEBUG_FLAG_CODE: u16 = 0x0100;

/// The number of bytes the emulator's message buffer holds.
pub const OUTPUT_LEN: usize = 256;

/// One write to the emulator's registers.
#[derive(Clone, Copy, Debug, PartialEq, Eq, Structural)]
pub enum MgbaWrite {
    /// A byte into the message buffer at `index`.
    Byte { index: usize, byte: u8 },
    /// The level register: prints the buffer at that level.
    Level(u16),
}

/// The value of the level register that prints at `level`.
pub open spec fn level_register(level: DebugLevel) -> u16 {
    DEBUG_FLAG_CODE | level.value_spec()
}

/// The writes that put `bytes` out when `count` bytes are in the buffer: a
/// full buffer is printed at the information level and started again.
pub open spec fn writer_actions(bytes: Seq<u8>, count: nat) -> Seq<MgbaWrite>
    decreases bytes.len(),
{
    if bytes.len() == 0 {
        Seq::empty()
    } else {
        let flush = count > 255;
        let at: nat = if flush {
            0
        } else {
            count
        };
        let pre = if flush {
            seq![MgbaWrite::Level(level_register(DebugLevel::Info))]
        } else {
            Seq::empty()
        };
        pre + seq![MgbaWrite::Byte { index: at as usize, byte: bytes[0] }] + writer_actions(
            bytes.drop_first(),
            at + 1,
        )
    }
}

/// A handle on the emulator's debug output.
pub struct Mgba {}

impl Mgba {
    /// The handle, when the enable register answered the handshake.
    pub fn new(handshake_reply: u16) -> (r: Option<Mgba>)
        ensures
            r is Some <==> handshake_reply == ENABLE_HANDSHAKE_OUT,
    {
        if handshake_reply == ENABLE_HANDSHAKE_OUT {
            Some(Mgba {})
        } else {
            None
        }
    }

    /// The level register value that prints at `level`.
    pub fn set_level(&mut self, level: DebugLevel) -> (r: u16)
        ensures
            r == level_register(level),
    {
        DEBUG_FLAG_CODE | level.value()
    }

    /// The writes that print the formatted message `bytes` at `level`: the
    /// bytes into the buffer, printed at the information level whenever it
    /// fills, then the level register.
    pub fn print(&mut self, bytes: &[u8], level: DebugLevel) -> (r: Vec<MgbaWrite>)
        ensures
            r@ == writer_actions(bytes@, 0) + seq![MgbaWrite::Level(level_register(level))],
    {
        let mut out: Vec<MgbaWrite> = Vec::new();
        let mut count: usize = 0;
        let mut i: usize = 0;
        proof {
            assert(bytes@.subrange(0, bytes@.len() as int) =~= bytes@);
            assert(out@ =~= Seq::<MgbaWrite>::empty());
            assert(out@ + writer_actions(bytes@, 0) =~= writer_actions(bytes@, 0));
        }
        while i < bytes.len()
            invariant
                i <= bytes@.len(),
                count <= 256,
                out@ + writer_actions(bytes@.subrange(i as int, bytes@.len() as int), count as nat)
                    == writer_actions(bytes@, 0),
            decreases bytes@.len() - i,
        {
            let ghost rest = bytes@.subrange(i as int, bytes@.len() as int);
            let ghost before = out@;
            let ghost c0 = count as nat;
            proof {
                assert(rest.drop_first() =~= bytes@.subrange(i + 1, bytes@.len() as int));
                assert(rest[0] == bytes@[i as int]);
            }
            if count > 255 {
                out.push(MgbaWrite::Level(DEBUG_FLAG_CODE | DebugLevel::Info.value()));
                count = 0;
            }
            let ghost mid = out@;
            out.push(MgbaWrite::Byte { index: count, byte: bytes[i] });
            count = count + 1;
            i = i + 1;
            proof {
                let at: nat = if c0 > 255 {
                    0
                } else {
                    c0
                };
                let pre = if c0 > 255 {
                    seq![MgbaWrite::Level(level_register(DebugLevel::Info))]
                } else {
                    Seq::empty()
                };
                assert(mid =~= before + pre);
                assert(writer_actions(rest, c0) == pre + seq![MgbaWrite::Byte { index: at as usize, byte: rest[0] }] + writer_actions(rest.drop_first(), at + 1));
                assert(out@ + writer_actions(bytes@.subrange(i as int, bytes@.len() as int), count as nat)
                    =~= before + writer_actions(rest, c0));
            }
        }
        proof {
            assert(bytes@.subrange(i as int, bytes@.len() as int) =~= Seq::<u8>::empty());
        }
        out.push(MgbaWrite::Level(self.set_level(level)));
        proof {
            assert(out@ =~= writer_actions(bytes@, 0) + seq![MgbaWrite::Level(level_register(level))]);
        }
        out
    }
}

} // verus!

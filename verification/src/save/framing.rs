//! The layout of a saved game: its length, the game's identifier and the
//! serialised state, and the checks made when loading it back.
use vstd::prelude::*;

verus! {

/// The four bytes of `x`, lowest first.
pub open spec fn le32(x: nat) -> Seq<u8> {
    seq![(x % 256) as u8, (x / 256 % 256) as u8, (x / 65536 % 256) as u8, (x / 16777216 % 256) as u8]
}

/// The number made of the first four bytes of `s`, lowest first.
pub open spec fn le32_value(s: Seq<u8>) -> nat {
    (s[0] + 256 * s[1] + 65536 * s[2] + 16777216 * s[3]) as nat
}

/// `n` rounded up to a multiple of four.
pub open spec fn round_up4(n: nat) -> nat {
    ((n + 3) / 4 * 4) as nat
}

/// A saved game: the total length `8 + id + state` and the identifier's
/// length, four bytes each, the identifier, the serialised state, then
/// zeros up to a multiple of four bytes.
pub open spec fn frame_spec(id: Seq<u8>, state: Seq<u8>) -> Seq<u8> {
    let n = (8 + id.len() + state.len()) as nat;
    le32(n) + le32(id.len()) + id + state + Seq::new((round_up4(n) - n) as nat, |i: int| 0u8)
}

/// Why a saved game cannot be loaded, as far as its layout tells.
#[derive(Clone, Copy, Debug, PartialEq, Eq, Structural)]
pub enum LoadError {
    /// The identifier saved is not this game's.
    IdMismatch,
    /// Nothing was ever saved.
    UninitialisedSave,
}

fn push_le32(out: &mut Vec<u8>, x: u32)
    ensures
        final(out)@ == old(out)@ + le32(x as nat),
{
    let b0 = (x & 0xff) as u8;
    let b1 = ((x >> 8u32) & 0xff) as u8;
    let b2 = ((x >> 16u32) & 0xff) as u8;
    let b3 = ((x >> 24u32) & 0xff) as u8;
    proof {
        assert((x & 0xff) == x % 256 && ((x >> 8u32) & 0xff) == x / 256 % 256 && ((x >> 16u32)
            & 0xff) == x / 65536 % 256 && ((x >> 24u32) & 0xff) == x / 16777216 % 256) by (bit_vector);
    }
    out.push(b0);
    out.push(b1);
    out.push(b2);
    out.push(b3);
    proof {
        assert(out@ =~= old(out)@ + le32(x as nat));
    }
}

/// The number in the first four bytes of `bytes`, lowest first.
pub fn read_le32(bytes: &[u8]) -> (r: u32)
    requires
        bytes@.len() >= 4,
    ensures
        r == le32_value(bytes@),
{
    let r = (bytes[0] as u32) | ((bytes[1] as u32) << 8u32) | ((bytes[2] as u32) << 16u32) | ((
    bytes[3] as u32) << 24u32);
    let (a, b, c, d) = (bytes[0], bytes[1], bytes[2], bytes[3]);
    proof {
        assert((a as u32) | ((b as u32) << 8u32) | ((c as u32) << 16u32) | ((d as u32) << 24u32)
            == a + 256 * b + 65536 * c + 16777216 * d) by (bit_vector);
    }
    r
}

/// Reading back the four bytes of a number gives the number.
pub proof fn lemma_le32_round_trip(x: nat)
    requires
        x <= u32::MAX,
    ensures
        le32_value(le32(x)) == x,
{
    let b0 = x % 256;
    let b1 = x / 256 % 256;
    let b2 = x / 65536 % 256;
    let b3 = x / 16777216 % 256;
    assert(x == b0 + 256 * b1 + 65536 * b2 + 16777216 * b3) by (nonlinear_arith)
        requires
            x <= 0xffff_ffff,
            b0 == x % 256,
            b1 == x / 256 % 256,
            b2 == x / 65536 % 256,
            b3 == x / 16777216 % 256,
    ;
}

/// A game's saver: the identifier written with every save and checked at
/// every load.
pub struct Save {
    unique_id: Vec<u8>,
}

impl Save {
    /// The identifier.
    pub closed spec fn id(self) -> Seq<u8> {
        self.unique_id@
    }

    /// A saver for the game with identifier `unique_id`.
    pub fn new(unique_id: &[u8]) -> (r: Self)
        ensures
            r.id() == unique_id@,
    {
        let mut v: Vec<u8> = Vec::new();
        let mut i: usize = 0;
        while i < unique_id.len()
            invariant
                i <= unique_id@.len(),
                v@ == unique_id@.subrange(0, i as int),
            decreases unique_id@.len() - i,
        {
            v.push(unique_id[i]);
            i = i + 1;
            proof {
                assert(v@ =~= unique_id@.subrange(0, i as int));
            }
        }
        Save { unique_id: v }
    }

    /// The bytes to write for the serialised state `state`.
    pub fn frame(&self, state: &[u8]) -> (r: Vec<u8>)
        requires
            8 + self.id().len() + state@.len() + 3 <= u32::MAX,
        ensures
            r@ == frame_spec(self.id(), state@),
            r@.len() % 4 == 0,
    {
        let id_len = self.unique_id.len();
        let n = 8 + id_len + state.len();
        let mut out: Vec<u8> = Vec::new();
        push_le32(&mut out, n as u32);
        push_le32(&mut out, id_len as u32);
        let ghost head = out@;
        let mut i: usize = 0;
        while i < id_len
            invariant
                i <= id_len,
                id_len == self.unique_id@.len(),
                out@ == head + self.unique_id@.subrange(0, i as int),
            decreases id_len - i,
        {
            out.push(self.unique_id[i]);
            i = i + 1;
            proof {
                assert(out@ =~= head + self.unique_id@.subrange(0, i as int));
            }
        }
        let ghost with_id = out@;
        let mut j: usize = 0;
        while j < state.len()
            invariant
                j <= state@.len(),
                out@ == with_id + state@.subrange(0, j as int),
            decreases state@.len() - j,
        {
            out.push(state[j]);
            j = j + 1;
            proof {
                assert(out@ =~= with_id + state@.subrange(0, j as int));
            }
        }
        let ghost with_state = out@;
        let target = (n + 3) / 4 * 4;
        while out.len() < target
            invariant
                n <= out@.len() <= target,
                target == round_up4(n as nat),
                with_state.len() == n,
                out@.subrange(0, n as int) == with_state,
                forall|k: int| n <= k < out@.len() ==> out@[k] == 0u8,
            decreases target - out@.len(),
        {
            out.push(0u8);
            proof {
                assert(out@.subrange(0, n as int) =~= with_state);
            }
        }
        proof {
            assert(with_id =~= head + self.unique_id@);
            assert(with_state =~= head + self.unique_id@ + state@);
            assert(out@ =~= frame_spec(self.id(), state@));
        }
        out
    }

    /// Checks the total length read first: all ones means nothing was ever
    /// saved.
    pub fn check_size(&self, buffer_size: u32) -> (r: Result<(), LoadError>)
        ensures
            r is Ok <==> buffer_size != 0xffff_ffff,
            r is Err ==> r == Err::<(), LoadError>(LoadError::UninitialisedSave),
    {
        if buffer_size == 0xffff_ffff {
            Err(LoadError::UninitialisedSave)
        } else {
            Ok(())
        }
    }

    /// Checks the identifier's length read second against this game's.
    pub fn check_id_length(&self, id_length: u32) -> (r: Result<(), LoadError>)
        ensures
            r is Ok <==> id_length == self.id().len(),
            r is Err ==> r == Err::<(), LoadError>(LoadError::IdMismatch),
    {
        if id_length as usize != self.unique_id.len() || id_length as u64 != self.unique_id.len() as u64 {
            Err(LoadError::IdMismatch)
        } else {
            Ok(())
        }
    }

    /// Checks the identifier read against this game's.
    pub fn check_id(&self, saved_id: &[u8]) -> (r: Result<(), LoadError>)
        ensures
            r is Ok <==> saved_id@ == self.id(),
            r is Err ==> r == Err::<(), LoadError>(LoadError::IdMismatch),
    {
        if saved_id.len() != self.unique_id.len() {
            proof {
                assert(saved_id@.len() != self.id().len());
            }
            return Err(LoadError::IdMismatch);
        }
        let mut i: usize = 0;
        while i < saved_id.len()
            invariant
                i <= saved_id@.len(),
                saved_id@.len() == self.unique_id@.len(),
                forall|k: int| 0 <= k < i ==> saved_id@[k] == self.unique_id@[k],
            decreases saved_id@.len() - i,
        {
            if saved_id[i] != self.unique_id[i] {
                return Err(LoadError::IdMismatch);
            }
            i = i + 1;
        }
        proof {
            assert(saved_id@ =~= self.id());
        }
        Ok(())
    }

    /// The number of bytes to read for the state, from offset `8 + id`: the
    /// total length less the identifier and one length word.
    pub fn state_length(&self, buffer_size: u32, id_length: u32) -> (r: usize)
        requires
            buffer_size >= id_length + 4,
        ensures
            r == buffer_size - id_length - 4,
    {
        (buffer_size - id_length - 4) as usize
    }
}

/// What a load reads back of a save: the length words, the identifier and
/// the state sit where the load looks for them, and the checks pass.
pub proof fn lemma_save_then_load(id: Seq<u8>, state: Seq<u8>)
    requires
        8 + id.len() + state.len() + 3 <= u32::MAX,
    ensures
        ({
            let f = frame_spec(id, state);
            let size = le32_value(f.subrange(0, 4));
            let id_length = le32_value(f.subrange(4, 8));
            &&& size == 8 + id.len() + state.len()
            &&& size != 0xffff_ffff
            &&& id_length == id.len()
            &&& f.subrange(8, 8 + id.len() as int) == id
            &&& size - id_length - 4 >= state.len()
            &&& f.subrange(8 + id.len() as int, 8 + id.len() + state.len() as int) == state
        }),
{
    let n = (8 + id.len() + state.len()) as nat;
    let f = frame_spec(id, state);
    lemma_le32_round_trip(n);
    lemma_le32_round_trip(id.len());
    assert(f.subrange(0, 4) =~= le32(n));
    assert(f.subrange(4, 8) =~= le32(id.len()));
    assert(f.subrange(8, 8 + id.len() as int) =~= id);
    assert(f.subrange(8 + id.len() as int, 8 + id.len() + state.len() as int) =~= state);
}

} // verus!

use vstd::prelude::*;

verus! {

/// `x` rotated left by `k` bits, for `0 < k < 32`.
pub open spec fn rotl(x: u32, k: u32) -> u32 {
    (x << k) | (x >> ((32 - k) as u32))
}

fn rotate_left(x: u32, k: u32) -> (r: u32)
    requires
        0 < k < 32,
    ensures
        r == rotl(x, k),
{
    (x << k) | (x >> (32 - k))
}

/// The four words of state after one step.
pub open spec fn next_state(s: Seq<u32>) -> Seq<u32> {
    let t = s[1] >> 9u32;
    let s2 = s[2] ^ s[0];
    let s3 = s[3] ^ s[1];
    let s1 = s[1] ^ s2;
    let s0 = s[0] ^ s3;
    seq![s0, s1, s2 ^ t, rotl(s3, 11)]
}

/// The number produced from state `s`.
pub open spec fn output(s: Seq<u32>) -> i32 {
    vstd::wrapping::u32_specs::wrapping_mul(
        rotl(vstd::wrapping::u32_specs::wrapping_add(s[0], s[3]), 7),
        9,
    ) as i32
}

/// Whether some word of the state is nonzero.
pub open spec fn nonzero(s: Seq<u32>) -> bool {
    s[0] != 0 || s[1] != 0 || s[2] != 0 || s[3] != 0
}

/// A fast pseudo-random number generator over four words of state.
pub struct RandomNumberGenerator {
    state: [u32; 4],
}

impl View for RandomNumberGenerator {
    type V = Seq<u32>;

    closed spec fn view(&self) -> Seq<u32> {
        self.state@
    }
}

/// The seed of `RandomNumberGenerator::new`.
pub open spec fn default_seed() -> Seq<u32> {
    seq![1014776995u32, 476057059u32, 3301633994u32, 706340607u32]
}

impl RandomNumberGenerator {
    /// The generator with the fixed default seed.
    pub fn new() -> (r: Self)
        ensures
            r@ == default_seed(),
    {
        Self::new_with_seed([1014776995, 476057059, 3301633994, 706340607])
    }

    /// The generator whose state is `seed`; no word of it may be zero.
    pub fn new_with_seed(seed: [u32; 4]) -> (r: Self)
        requires
            seed[0] != 0,
            seed[1] != 0,
            seed[2] != 0,
            seed[3] != 0,
        ensures
            r@ == seed@,
    {
        RandomNumberGenerator { state: seed }
    }

    /// The next value: computed from the current state, which then steps.
    pub fn gen(&mut self) -> (r: i32)
        ensures
            r == output(old(self)@),
            final(self)@ == next_state(old(self)@),
            final(self)@.len() == 4,
    {
        let s0 = self.state[0];
        let s1 = self.state[1];
        let s2 = self.state[2];
        let s3 = self.state[3];
        let result = rotate_left(s0.wrapping_add(s3), 7).wrapping_mul(9);
        let t = s1 >> 9;
        let n2 = s2 ^ s0;
        let n3 = s3 ^ s1;
        let n1 = s1 ^ n2;
        let n0 = s0 ^ n3;
        let n2 = n2 ^ t;
        let n3 = rotate_left(n3, 11);
        self.state = [n0, n1, n2, n3];
        proof {
            assert(self.state@ =~= next_state(old(self)@));
        }
        result as i32
    }
}

/// Stepping a state with a nonzero word gives a state with a nonzero word:
/// the generator never falls into the all-zero state, from which it would
/// produce zeros for ever.
pub proof fn lemma_step_keeps_nonzero(s: Seq<u32>)
    requires
        s.len() == 4,
        nonzero(s),
    ensures
        nonzero(next_state(s)),
{
    let (a, b, c, d) = (s[0], s[1], s[2], s[3]);
    assert((a ^ (d ^ b)) == 0u32 && (b ^ (c ^ a)) == 0u32 && ((c ^ a) ^ (b >> 9u32)) == 0u32 && (((
    d ^ b) << 11u32) | ((d ^ b) >> 21u32)) == 0u32 ==> a == 0u32 && b == 0u32 && c == 0u32 && d
        == 0u32) by (bit_vector);
}

impl Default for RandomNumberGenerator {
    fn default() -> (r: Self)
        ensures
            r@ == default_seed(),
    {
        Self::new()
    }
}

} // verus!

//! Copying 16 colour pixel data.
use vstd::prelude::*;
use vstd::slice::SliceAdditionalExecFns;

verus! {

/// Nibble `k` of `w`.
pub open spec fn nibble(w: u32, k: u32) -> u32 {
    (w >> (k * 4)) & 0xf
}

/// The word of 4 bit pixels `b` drawn over `a`: where a pixel of `b` is the
/// transparent colour 0, the pixel of `a` shows through.
pub open spec fn blit_word(a: u32, b: u32) -> u32 {
    let hi = b & 0x8888_8888;
    let lo = b & 0x7777_7777;
    let set_nybbles = (hi | (((lo + 0x7777_7777) as u32) & 0x8888_8888)) >> 3u32;
    let mask = (set_nybbles * 0xf) as u32;
    (a & !mask) | b
}

/// The sums made in drawing over a word do not overflow.
proof fn lemma_blit_parts(b: u32)
    by (bit_vector)
    ensures
        b & 0x7777_7777 <= 0x7777_7777,
        ((b & 0x8888_8888) | ((((b & 0x7777_7777) + 0x7777_7777) as u32) & 0x8888_8888)) >> 3u32
            <= 0x1111_1111,
        (((b & 0x8888_8888) | ((((b & 0x7777_7777) + 0x7777_7777) as u32) & 0x8888_8888)) >> 3u32)
            * 0xf <= 0xffff_ffff,
{
}

/// Draws one word of pixels over another.
fn blit_one(a: u32, b: u32) -> (r: u32)
    ensures
        r == blit_word(a, b),
{
    let hi = b & 0x8888_8888;
    let lo = b & 0x7777_7777;
    proof {
        lemma_blit_parts(b);
    }
    let s = hi | ((lo + 0x7777_7777) & 0x8888_8888);
    let set_nybbles = s >> 3;
    let mask = set_nybbles * 0xf;
    (a & !mask) | b
}

/// Copies `src` over `target`, skipping transparent pixels: each 4 bit pixel of
/// `src` replaces the one of `target` unless it is 0.
pub fn blit_16_colour(target: &mut [u32], src: &[u32])
    requires
        old(target)@.len() == src@.len(),
    ensures
        final(target)@.len() == old(target)@.len(),
        forall|i: int|
            0 <= i < src@.len() ==> #[trigger] final(target)@[i] == blit_word(old(target)@[i], src@[i]),
{
    let n = src.len();
    let mut i: usize = 0;
    while i < n
        invariant
            n == src@.len(),
            target@.len() == n,
            i <= n,
            forall|j: int| 0 <= j < i ==> #[trigger] target@[j] == blit_word(old(target)@[j], src@[j]),
            forall|j: int| i <= j < n ==> #[trigger] target@[j] == old(target)@[j],
        decreases n - i,
    {
        let v = blit_one(target[i], src[i]);
        target[i] = v;
        i = i + 1;
    }
}

/// Every pixel of the result is the pixel of `b` where that is not 0, and the
/// pixel of `a` where it is.
pub proof fn lemma_blit_word(a: u32, b: u32, k: u32)
    requires
        k < 8,
    ensures
        nibble(blit_word(a, b), k) == (if nibble(b, k) != 0 {
            nibble(b, k)
        } else {
            nibble(a, k)
        }),
{
    let hi = b & 0x8888_8888;
    let lo = b & 0x7777_7777;
    lemma_blit_parts(b);
    let s = hi | (((lo + 0x7777_7777) as u32) & 0x8888_8888);
    let set_nybbles = s >> 3u32;
    let mask = (set_nybbles * 0xf) as u32;
    assert(((((a & !mask) | b) >> (k * 4)) & 0xf) == (if ((b >> (k * 4)) & 0xf) != 0 {
        (b >> (k * 4)) & 0xf
    } else {
        (a >> (k * 4)) & 0xf
    })) by (bit_vector)
        requires
            k < 8,
            mask == (set_nybbles * 0xf) as u32,
            set_nybbles * 0xf <= 0xffff_ffff,
            set_nybbles == s >> 3u32,
            s == hi | (((lo + 0x7777_7777) as u32) & 0x8888_8888),
            hi == b & 0x8888_8888,
            lo == b & 0x7777_7777,
            lo <= 0x7777_7777,
    ;
}

} // verus!

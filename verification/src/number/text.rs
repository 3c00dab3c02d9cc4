//! The decimal text of fixed point numbers.
use vstd::arithmetic::power::pow;
use vstd::arithmetic::power2::pow2;
use vstd::prelude::*;

use super::{one_shl, Num};

verus! {

/// The ASCII code of decimal digit `d`.
pub open spec fn digit_byte(d: int) -> u8 {
    (d + 48) as u8
}

/// The decimal digits of `n`, most significant first, without leading
/// zeros (`"0"` for zero).
pub open spec fn dec_nat(n: nat) -> Seq<u8>
    decreases n,
{
    if n < 10 {
        seq![digit_byte(n as int)]
    } else {
        dec_nat(n / 10).push(digit_byte((n % 10) as int))
    }
}

/// The decimal text of `i`: its digits, after a minus sign when negative.
pub open spec fn int_text(i: int) -> Seq<u8> {
    if i < 0 {
        seq![45u8] + dec_nat((-i) as nat)
    } else {
        dec_nat(i as nat)
    }
}

/// Whether every byte of `ds` is a decimal digit.
pub open spec fn all_digits(ds: Seq<u8>) -> bool {
    forall|i: int| 0 <= i < ds.len() ==> 48 <= #[trigger] ds[i] <= 57
}

/// The number the decimal digits `ds` spell.
pub open spec fn digits_value(ds: Seq<u8>) -> int
    decreases ds.len(),
{
    if ds.len() == 0 {
        0
    } else {
        digits_value(ds.drop_last()) * 10 + (ds.last() - 48)
    }
}

/// Whether `ds` are the decimal digits after the point of the fraction
/// `f / p`: written out exactly, with no trailing zero.
pub open spec fn fraction_digits(f: int, p: int, ds: Seq<u8>) -> bool {
    &&& ds.len() >= 1
    &&& all_digits(ds)
    &&& ds.last() != 48
    &&& f * pow(10, ds.len()) == digits_value(ds) * p
}

impl<const N: usize> Num<N> {
    /// The integral part shown: the floor, or one more when the number is
    /// negative with a fraction, so that the text reads `-integral.fraction`.
    pub open spec fn shown_integral(self) -> int {
        if self.frac_spec() != 0 && self.floor_spec() < 0 {
            self.floor_spec() + 1
        } else {
            self.floor_spec() as int
        }
    }

    /// The fraction shown, in `N` bits: the fractional bits, or what they
    /// lack of a whole when the integral part was rounded up.
    pub open spec fn shown_fraction(self) -> int {
        if self.frac_spec() != 0 && self.floor_spec() < 0 {
            one_shl(N) - self.frac_spec()
        } else {
            self.frac_spec() as int
        }
    }

    /// Whether `text` is the decimal text of this number: the shown
    /// integral part, then, when the shown fraction is not zero, a point and
    /// its digits.
    pub open spec fn is_text(self, text: Seq<u8>) -> bool {
        let it = int_text(self.shown_integral());
        &&& text.len() >= it.len()
        &&& text.subrange(0, it.len() as int) == it
        &&& self.shown_fraction() == 0 ==> text.len() == it.len()
        &&& self.shown_fraction() != 0 ==> {
            &&& text.len() > it.len()
            &&& text[it.len() as int] == 46u8
            &&& fraction_digits(
                self.shown_fraction(),
                one_shl(N) as int,
                text.subrange(it.len() as int + 1, text.len() as int),
            )
        }
    }

    /// The decimal text of the number, as `Display` writes it.
    pub fn to_string(&self) -> (r: String)
        requires
            N <= 27,
        ensures
            exists|text: Seq<u8>|
                self.is_text(text) && r@ == text.map_values(|b: u8| b as char),
    {
        let text = self.text_bytes();
        let ghost t = text@;
        let r = ascii_string(text);
        assert(self.is_text(t) && r@ == t.map_values(|b: u8| b as char));
        r
    }

    /// The decimal text of the number, as ASCII bytes.
    pub fn text_bytes(&self) -> (r: Vec<u8>)
        requires
            N <= 27,
        ensures
            self.is_text(r@),
            forall|i: int| 0 <= i < r@.len() ==> #[trigger] r@[i] < 128,
    {
        proof {
            super::lemma_floor_frac(*self);
            lemma_shl_mul(self.floor_spec(), N);
            lemma_one_shl_pow2(N);
        }
        let mut integral = self.floor();
        let mut fractional = self.frac();
        let one: i32 = 1;
        let n: usize = N;
        let p = one << n;
        if fractional != 0 && integral < 0 {
            integral = integral + 1;
            fractional = p - fractional;
        }
        let mut out: Vec<u8> = Vec::new();
        push_int(&mut out, integral);
        let ghost it = out@;
        proof {
            lemma_int_text_ascii(integral as int);
            assert(it == int_text(self.shown_integral()));
            assert(out@.subrange(0, it.len() as int) =~= it);
        }
        if fractional != 0 {
            out.push(46u8);
            let start = out.len();
            let ghost f0 = fractional as int;
            let mut f: i64 = fractional as i64;
            let pp: i64 = p as i64;
            let ghost mut k: nat = 0;
            proof {
                assert(out@.subrange(start as int, out@.len() as int) =~= Seq::<u8>::empty());
                vstd::arithmetic::power::lemma_pow0(10);
                assert(pow2(0) == 1) by {
                    vstd::arithmetic::power2::lemma2_to64();
                }
            }
            while f != 0
                invariant
                    N <= 27,
                    pp == one_shl(N),
                    pp == pow2(N as nat),
                    0 < f0 < pp,
                    0 <= f < pp,
                    start == it.len() + 1,
                    out@.len() >= start,
                    out@.subrange(0, it.len() as int) == it,
                    out@[it.len() as int] == 46u8,
                    k == out@.len() - start,
                    k <= N,
                    k == 0 ==> f == f0,
                    (f as int) % (pow2(k) as int) == 0,
                    all_digits(out@.subrange(start as int, out@.len() as int)),
                    f0 * pow(10, k) == digits_value(out@.subrange(start as int, out@.len() as int))
                        * pp + f,
                    k > 0 && f == 0 ==> out@.last() != 48u8,
                    forall|i: int| 0 <= i < out@.len() ==> #[trigger] out@[i] < 128,
                decreases N - k,
            {
                proof {
                    if k == N {
                        vstd::arithmetic::div_mod::lemma_small_mod(f as nat, pp as nat);
                    }
                }
                let ten_f = f * 10;
                let d = ten_f / pp;
                let rest = ten_f % pp;
                let ghost before = out@;
                proof {
                    vstd::arithmetic::div_mod::lemma_fundamental_div_mod(ten_f as int, pp as int);
                    assert(ten_f == d * pp + rest) by (nonlinear_arith)
                        requires
                            ten_f == pp * (ten_f / pp) + ten_f % pp,
                            d == ten_f / pp,
                            rest == ten_f % pp,
                    ;
                    lemma_digit_step(f as int, pp as int, d as int, rest as int);
                    lemma_frac_step(f as int, k, N as nat, d as int, rest as int);
                }
                out.push((d + 48) as u8);
                proof {
                    let ds = before.subrange(start as int, before.len() as int);
                    let ds2 = out@.subrange(start as int, out@.len() as int);
                    assert(ds2 =~= ds.push((d + 48) as u8));
                    assert(ds2.drop_last() =~= ds);
                    assert(digits_value(ds2) == digits_value(ds) * 10 + d);
                    vstd::arithmetic::power::lemma_pow_adds(10, k, 1);
                    vstd::arithmetic::power::lemma_pow1(10);
                    assert(f0 * pow(10, k + 1) == f0 * pow(10, k) * 10) by (nonlinear_arith)
                        requires
                            pow(10, k + 1) == pow(10, k) * pow(10, 1),
                            pow(10, 1) == 10,
                    ;
                    assert(f0 * pow(10, k + 1) == (digits_value(ds) * 10 + d) * pp + rest) by (nonlinear_arith)
                        requires
                            f0 * pow(10, k + 1) == f0 * pow(10, k) * 10,
                            f0 * pow(10, k) == digits_value(ds) * pp + f,
                            f * 10 == d * pp + rest,
                    ;
                    assert(out@.subrange(0, it.len() as int) =~= before.subrange(0, it.len() as int));
                    k = k + 1;
                }
                f = rest;
            }
            proof {
                let ds = out@.subrange(start as int, out@.len() as int);
                assert(out@.last() == ds.last());
                assert(fraction_digits(f0, pp as int, ds));
            }
        }
        out
    }
}

/// Appends the decimal digits of `n`.
fn push_nat(out: &mut Vec<u8>, n: u32)
    ensures
        final(out)@ == old(out)@ + dec_nat(n as nat),
    decreases n,
{
    if n >= 10 {
        push_nat(out, n / 10);
    }
    out.push((n % 10 + 48) as u8);
    proof {
        if n >= 10 {
            assert(final(out)@ =~= old(out)@ + dec_nat(n as nat));
        }
    }
}

/// Appends the decimal text of `i`.
fn push_int(out: &mut Vec<u8>, i: i32)
    ensures
        final(out)@ == old(out)@ + int_text(i as int),
{
    if i < 0 {
        out.push(45u8);
        let m = (0 - (i as i64)) as u32;
        push_nat(out, m);
    } else {
        push_nat(out, i as u32);
    }
}

/// The decimal digits of a number are digits.
proof fn lemma_dec_nat_digits(n: nat)
    ensures
        all_digits(dec_nat(n)),
    decreases n,
{
    if n >= 10 {
        lemma_dec_nat_digits(n / 10);
        let s = dec_nat(n / 10).push(digit_byte((n % 10) as int));
        assert forall|i: int| 0 <= i < s.len() implies 48 <= #[trigger] s[i] <= 57 by {
            if i < s.len() - 1 {
                assert(s[i] == dec_nat(n / 10)[i]);
            }
        }
    }
}

/// The decimal text of an integer is ASCII.
proof fn lemma_int_text_ascii(i: int)
    ensures
        forall|j: int| 0 <= j < int_text(i).len() ==> #[trigger] int_text(i)[j] < 128,
{
    if i < 0 {
        lemma_dec_nat_digits((-i) as nat);
        let t = int_text(i);
        assert forall|j: int| 0 <= j < t.len() implies #[trigger] t[j] < 128 by {
            if j > 0 {
                assert(t[j] == dec_nat((-i) as nat)[j - 1]);
            }
        }
    } else {
        lemma_dec_nat_digits(i as nat);
    }
}

/// One digit of a fraction: ten times a fraction below `p` gives a digit
/// below ten and a remainder below `p`.
proof fn lemma_digit_step(f: int, p: int, d: int, rest: int)
    requires
        0 <= f < p,
        0 <= rest < p,
        f * 10 == d * p + rest,
    ensures
        0 <= d < 10,
        rest == 0 && f > 0 ==> d > 0,
{
    assert(0 <= d < 10) by (nonlinear_arith)
        requires
            0 <= f < p,
            0 <= rest < p,
            f * 10 == d * p + rest,
    ;
}

/// The fraction after `k + 1` digits is a multiple of `2^(k+1)`: ten times
/// a multiple of `2^k`, less a multiple of `2^n`.
proof fn lemma_frac_step(f: int, k: nat, n: nat, d: int, rest: int)
    requires
        k < n,
        f % (pow2(k) as int) == 0,
        f * 10 == d * (pow2(n) as int) + rest,
    ensures
        rest % (pow2(k + 1) as int) == 0,
{
    let a = pow2(k) as int;
    let b = pow2(k + 1) as int;
    vstd::arithmetic::power2::lemma_pow2_pos(k);
    vstd::arithmetic::power2::lemma_pow2_unfold(k + 1);
    vstd::arithmetic::power2::lemma_pow2_adds((n - k - 1) as nat, k + 1);
    let c = pow2((n - k - 1) as nat) as int;
    vstd::arithmetic::div_mod::lemma_fundamental_div_mod(f, a);
    let q = f / a;
    assert(rest == b * (5 * q - d * c)) by (nonlinear_arith)
        requires
            f == a * q + f % a,
            f % a == 0,
            b == 2 * a,
            pow2(n) as int == c * b,
            f * 10 == d * (pow2(n) as int) + rest,
    ;
    vstd::arithmetic::div_mod::lemma_mod_multiples_basic(5 * q - d * c, b);
    assert(b * (5 * q - d * c) == (5 * q - d * c) * b) by (nonlinear_arith);
}

/// The raw floor shifted back up is the floor times `2^n`.
proof fn lemma_shl_mul(x: i32, n: usize)
    requires
        n < 31,
    ensures
        (((x >> n) << n) as int) == (x >> n) * (one_shl(n) as int),
        0 < one_shl(n),
{
    assert((((x >> n) << n) as int) == (x >> n) * ((1i32 << n) as int) && 0 < (1i32 << n)) by (bit_vector)
        requires
            n < 31,
    ;
}

/// `1 << n` is `2^n`.
proof fn lemma_one_shl_pow2(n: usize)
    requires
        n < 31,
    ensures
        one_shl(n) as int == pow2(n as nat),
    decreases n,
{
    let m: usize = if n == 0 {
        0
    } else {
        (n - 1) as usize
    };
    assert((n == 0 ==> (1i32 << n) == 1) && (n > 0 ==> (1i32 << n) as int == 2 * ((1i32 << m) as int)))
        by (bit_vector)
        requires
            n < 31,
            n > 0 ==> m == n - 1,
    ;
    if n == 0 {
        vstd::arithmetic::power2::lemma2_to64();
    } else {
        lemma_one_shl_pow2(m);
        vstd::arithmetic::power2::lemma_pow2_unfold(n as nat);
    }
}

/// The `String` of the ASCII bytes `bytes`, as `String::from_utf8` makes
/// it: each byte one character. The bytes are ASCII, so valid UTF-8, and the
/// call cannot fail.
#[verifier::external_body]
fn ascii_string(bytes: Vec<u8>) -> (r: String)
    requires
        forall|i: int| 0 <= i < bytes@.len() ==> #[trigger] bytes@[i] < 128,
    ensures
        r@ == bytes@.map_values(|b: u8| b as char),
{
    String::from_utf8(bytes).unwrap()
}

} // verus!

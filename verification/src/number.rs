//! Fixed point numbers, two dimensional vectors and rectangles.
//!
//! A `Num<N>` holds a raw `i32` whose low `N` bits are the fractional part.
//! Its value is `raw / 2^N`. Contracts speak of the raw integer, since that is
//! the exact state of a value; the arithmetic meaning is given by the laws at
//! the end of this module.
use vstd::prelude::*;

pub mod text;

verus! {

/// `1 << n` as an `i32`.
pub open spec fn one_shl(n: usize) -> i32 {
    1i32 << n
}

/// Absolute value on mathematical integers.
pub open spec fn abs_int(x: int) -> int {
    if x < 0 {
        -x
    } else {
        x
    }
}

/// Division rounding towards zero, as `/` on Rust's signed integers.
pub open spec fn div_trunc(a: int, b: int) -> int {
    if (a >= 0) == (b > 0) || a == 0 {
        abs_int(a) / abs_int(b)
    } else {
        -(abs_int(a) / abs_int(b))
    }
}

/// Remainder of [`div_trunc`], taking the sign of the dividend, as `%` on
/// Rust's signed integers.
pub open spec fn rem_trunc(a: int, b: int) -> int {
    if a >= 0 {
        abs_int(a) % abs_int(b)
    } else {
        -(abs_int(a) % abs_int(b))
    }
}

/// Whether an integer fits in an `i32`.
pub open spec fn fits_i32(x: int) -> bool {
    i32::MIN <= x <= i32::MAX
}

/// `a / b` on `i32`, rounding towards zero.
pub fn i32_div(a: i32, b: i32) -> (r: i32)
    requires
        b != 0,
        !(a == i32::MIN && b == -1),
    ensures
        r == div_trunc(a as int, b as int),
{
    if b > 0 {
        a / b
    } else if b == i32::MIN {
        proof {
            lemma_div_by_large(a as int, b as int);
        }
        if a == i32::MIN {
            1
        } else {
            0
        }
    } else {
        let m = 0 - b;
        let q = a / m;
        proof {
            vstd::arithmetic::div_mod::lemma_div_is_ordered_by_denominator(abs_int(a as int), 1, m as int);
            assert(abs_int(a as int) / 1 == abs_int(a as int));
            if a == i32::MIN {
                assert(m >= 2);
                vstd::arithmetic::div_mod::lemma_div_is_ordered_by_denominator(abs_int(a as int), 2, m as int);
            }
        }
        0 - q
    }
}

/// Dividing by `i32::MIN` leaves 1 for `i32::MIN` and 0 for everything else.
proof fn lemma_div_by_large(a: int, b: int)
    requires
        b == i32::MIN,
        fits_i32(a),
    ensures
        div_trunc(a, b) == (if a == i32::MIN { 1int } else { 0int }),
        rem_trunc(a, b) == (if a == i32::MIN { 0int } else { a }),
{
    let m = abs_int(b);
    assert(m == 0x8000_0000);
    if a == i32::MIN {
        vstd::arithmetic::div_mod::lemma_fundamental_div_mod_converse(m, m, 1, 0);
    } else {
        vstd::arithmetic::div_mod::lemma_fundamental_div_mod_converse(abs_int(a), m, 0, abs_int(a));
    }
}

/// `a % b` on `i32`, taking the sign of `a`.
pub fn i32_rem(a: i32, b: i32) -> (r: i32)
    requires
        b != 0,
        !(a == i32::MIN && b == -1),
    ensures
        r == rem_trunc(a as int, b as int),
        abs_int(r as int) < abs_int(b as int),
{
    if b > 0 {
        a % b
    } else if b == i32::MIN {
        proof {
            lemma_div_by_large(a as int, b as int);
        }
        if a == i32::MIN {
            0
        } else {
            a
        }
    } else {
        a % (0 - b)
    }
}

/// A fixed point number with `N` fractional bits, stored in an `i32`.
#[derive(Clone, Copy, PartialEq, Eq, Debug)]
pub struct Num<const N: usize>(i32);

/// A fixed point number with `N` fractional bits.
pub type FixedNum<const N: usize> = Num<N>;

/// A whole number held as a fixed point number.
pub type Integer = Num<0>;

impl<const N: usize> Num<N> {
    /// The raw integer held: the value times `2^N`.
    pub closed spec fn raw_i32(self) -> i32 {
        self.0
    }

    /// The raw integer held, as a mathematical integer.
    pub open spec fn raw(self) -> int {
        self.raw_i32() as int
    }

    /// The raw value of `integral` as a number of this base, `integral << N`.
    pub open spec fn from_spec(integral: i32) -> i32 {
        integral << N
    }

    /// The integral part, rounded towards negative infinity.
    pub open spec fn floor_spec(self) -> i32 {
        self.raw_i32() >> N
    }

    /// The fractional bits.
    pub open spec fn frac_spec(self) -> i32 {
        self.raw_i32() & ((one_shl(N) - 1) as i32)
    }

    /// Builds a number from its raw representation.
    pub fn from_raw(n: i32) -> (r: Self)
        ensures
            r.raw() == n,
    {
        Num(n)
    }

    /// The raw representation.
    pub fn to_raw(self) -> (r: i32)
        ensures
            r == self.raw(),
    {
        self.0
    }

    /// The number whose integral part is `integral` and whose fraction is zero.
    pub fn new(integral: i32) -> (r: Self)
        requires
            N < 32,
        ensures
            r.raw_i32() == Self::from_spec(integral),
    {
        Num(integral << N)
    }

    /// Conversion of an integer, as `From<i32>`.
    pub fn from(integral: i32) -> (r: Self)
        requires
            N < 32,
        ensures
            r.raw_i32() == Self::from_spec(integral),
    {
        Num(integral << N)
    }

    /// Zero.
    pub fn default() -> (r: Self)
        ensures
            r.raw() == 0,
    {
        Num(0)
    }

    /// The integral part, rounded towards zero.
    pub fn trunc(self) -> (r: i32)
        requires
            N < 32,
        ensures
            r == div_trunc(self.raw(), one_shl(N) as int),
    {
        let one: i32 = 1;
        let n: usize = N;
        let d = one << n;
        proof {
            lemma_shl_one_nonzero(n);
        }
        i32_div(self.0, d)
    }

    /// The integral part, rounded towards negative infinity.
    pub fn floor(self) -> (r: i32)
        requires
            N < 32,
        ensures
            r == self.floor_spec(),
    {
        self.0 >> N
    }

    /// The fractional part as a raw number of `N` bits.
    pub fn frac(self) -> (r: i32)
        requires
            N < 31,
        ensures
            r == self.frac_spec(),
            0 <= r < one_shl(N),
    {
        let one: i32 = 1;
        let n: usize = N;
        let p = one << n;
        proof {
            lemma_shl_one_nonzero(n);
            lemma_mask_range(self.0, n);
        }
        let m = p - 1;
        self.0 & m
    }

    /// Builds a number from the two parts produced by the `num!` macro: an
    /// integral part and a fraction scaled by `2^30`.
    pub fn new_from_parts(num: (i32, i32)) -> (r: Self)
        requires
            N <= 30,
            fits_i32((num.0 << N) + (num.1 >> ((30 - N) as usize))),
        ensures
            r.raw() == (num.0 << N) + (num.1 >> ((30 - N) as usize)),
    {
        let shift: usize = 30 - N;
        Num((num.0 << N) + (num.1 >> shift))
    }

    /// Sum of two numbers.
    pub fn add(self, rhs: Self) -> (r: Self)
        requires
            fits_i32(self.raw() + rhs.raw()),
        ensures
            r.raw() == self.raw() + rhs.raw(),
    {
        Num(self.0 + rhs.0)
    }

    /// Difference of two numbers.
    pub fn sub(self, rhs: Self) -> (r: Self)
        requires
            fits_i32(self.raw() - rhs.raw()),
        ensures
            r.raw() == self.raw() - rhs.raw(),
    {
        Num(self.0 - rhs.0)
    }

    /// Negation.
    pub fn neg(self) -> (r: Self)
        requires
            self.raw() != i32::MIN,
        ensures
            r.raw() == -self.raw(),
    {
        Num(0 - self.0)
    }

    /// Absolute value.
    pub fn abs(self) -> (r: Self)
        requires
            self.raw() != i32::MIN,
        ensures
            r.raw() == abs_int(self.raw()),
    {
        if self.0 < 0 {
            Num(0 - self.0)
        } else {
            self
        }
    }

    /// Product with an integer.
    pub fn mul_int(self, rhs: i32) -> (r: Self)
        requires
            fits_i32(self.raw() * rhs),
        ensures
            r.raw() == self.raw() * rhs,
    {
        Num(self.0 * rhs)
    }

    /// Quotient by an integer, rounding towards zero.
    pub fn div_int(self, rhs: i32) -> (r: Self)
        requires
            rhs != 0,
            !(self.raw() == i32::MIN && rhs == -1),
        ensures
            r.raw() == div_trunc(self.raw(), rhs as int),
    {
        Num(i32_div(self.0, rhs))
    }

    /// The raw result of multiplying `self` by `rhs`: the integral and the
    /// fractional parts are multiplied separately so that no intermediate
    /// product needs more than 32 bits.
    pub open spec fn mul_spec(self, rhs: Self) -> int {
        (((self.floor_spec() * rhs.floor_spec()) as i32) << N) + (self.floor_spec() * rhs.frac_spec()
            + rhs.floor_spec() * self.frac_spec()) + (((self.frac_spec() * rhs.frac_spec()) as i32) >> N)
    }

    /// Whether every intermediate result of [`Num::mul`] fits in an `i32`.
    pub open spec fn mul_fits(self, rhs: Self) -> bool {
        &&& fits_i32(self.floor_spec() * rhs.floor_spec())
        &&& fits_i32(self.floor_spec() * rhs.frac_spec())
        &&& fits_i32(rhs.floor_spec() * self.frac_spec())
        &&& fits_i32(self.floor_spec() * rhs.frac_spec() + rhs.floor_spec() * self.frac_spec())
        &&& fits_i32(self.frac_spec() * rhs.frac_spec())
        &&& fits_i32((((self.floor_spec() * rhs.floor_spec()) as i32) << N) + (self.floor_spec()
            * rhs.frac_spec() + rhs.floor_spec() * self.frac_spec()))
        &&& fits_i32(self.mul_spec(rhs))
    }

    /// Product of two numbers.
    pub fn mul(self, rhs: Self) -> (r: Self)
        requires
            N < 31,
            self.mul_fits(rhs),
        ensures
            r.raw() == self.mul_spec(rhs),
    {
        let af = self.floor();
        let bf = rhs.floor();
        let ag = self.frac();
        let bg = rhs.frac();
        let whole = (af * bf) << N;
        let mid = af * bg + bf * ag;
        let low = (ag * bg) >> N;
        Num(whole + mid + low)
    }

    /// The raw result of dividing `self` by `rhs`.
    pub open spec fn div_spec(self, rhs: Self) -> int {
        div_trunc((self.raw_i32() << N) as int, rhs.raw())
    }

    /// Quotient of two numbers, rounding towards zero.
    pub fn div(self, rhs: Self) -> (r: Self)
        requires
            N < 32,
            rhs.raw() != 0,
            !((self.raw_i32() << N) == i32::MIN && rhs.raw() == -1),
        ensures
            r.raw() == self.div_spec(rhs),
            N < 31 && fits_i32(self.raw() * one_shl(N)) ==> r.raw() == div_trunc(
                self.raw() * one_shl(N),
                rhs.raw(),
            ),
    {
        proof {
            if N < 31 && fits_i32(self.raw() * one_shl(N)) {
                lemma_div_quotient(self, rhs);
            }
        }
        Num(i32_div(self.0 << N, rhs.0))
    }

    /// Remainder of the division rounding towards zero.
    pub fn rem(self, modulus: Self) -> (r: Self)
        requires
            modulus.raw() != 0,
            !(self.raw() == i32::MIN && modulus.raw() == -1),
        ensures
            r.raw() == rem_trunc(self.raw(), modulus.raw()),
    {
        Num(i32_rem(self.0, modulus.0))
    }

    /// The least non-negative remainder of dividing `self` by `rhs`.
    pub fn rem_euclid(self, rhs: Self) -> (r: Self)
        requires
            rhs.raw() != 0,
            !(self.raw() == i32::MIN && rhs.raw() == -1),
        ensures
            r.raw() == self.raw() % abs_int(rhs.raw()),
            0 <= r.raw() < abs_int(rhs.raw()),
    {
        let r = self.rem(rhs);
        proof {
            lemma_rem_trunc_euclid(self.raw(), rhs.raw());
        }
        if r.0 < 0 {
            if rhs.0 < 0 {
                Num(r.0 - rhs.0)
            } else {
                Num(r.0 + rhs.0)
            }
        } else {
            r
        }
    }

    /// This number in base `M`, shifting the raw value left or right.
    pub open spec fn change_base_spec<const M: usize>(self) -> i32 {
        if N < M {
            self.raw_i32() << ((M - N) as usize)
        } else {
            self.raw_i32() >> ((N - M) as usize)
        }
    }

    /// Converts to a number with `M` fractional bits.
    pub fn change_base<const M: usize>(self) -> (r: Num<M>)
        requires
            N < 32,
            M < 32,
        ensures
            r.raw() == self.change_base_spec::<M>(),
    {
        if N < M {
            Num(self.0 << (M - N))
        } else {
            Num(self.0 >> (N - M))
        }
    }

    /// The square root: the integer square root of the raw value, shifted
    /// left by half the fractional bits. `N` must be even and the number
    /// not negative.
    pub fn sqrt(self) -> (r: Self)
        requires
            N % 2 == 0,
            N < 64,
            self.raw() >= 0,
        ensures
            r.raw_i32() == (isqrt(self.raw()) as i32) << ((N / 2) as usize),
            0 <= isqrt(self.raw()) < 46341,
    {
        let c = isqrt_i32(self.0);
        proof {
            assert(c < 46341) by (nonlinear_arith)
                requires c >= 0, c * c <= self.raw(), self.raw() <= i32::MAX;
        }
        let half: usize = N / 2;
        Num(c << half)
    }
}

/// Whether `c` is the integer square root of `n`: the largest integer whose
/// square is at most `n`.
pub open spec fn is_isqrt(c: int, n: int) -> bool {
    0 <= c && c * c <= n < (c + 1) * (c + 1)
}

/// The integer square root of `n`.
pub open spec fn isqrt(n: int) -> int {
    choose|c: int| is_isqrt(c, n)
}

/// There is one integer square root.
pub proof fn lemma_isqrt_unique(a: int, b: int, n: int)
    requires
        is_isqrt(a, n),
        is_isqrt(b, n),
    ensures
        a == b,
{
    if a < b {
        assert((a + 1) * (a + 1) <= b * b) by (nonlinear_arith)
            requires 0 <= a + 1 <= b;
    } else if b < a {
        assert((b + 1) * (b + 1) <= a * a) by (nonlinear_arith)
            requires 0 <= b + 1 <= a;
    }
}

/// `4^k`.
pub open spec fn pow4(k: nat) -> int
    decreases k,
{
    if k == 0 {
        1
    } else {
        4 * pow4((k - 1) as nat)
    }
}

proof fn lemma_pow4_positive(k: nat)
    ensures
        pow4(k) >= 1,
    decreases k,
{
    if k > 0 {
        lemma_pow4_positive((k - 1) as nat);
    }
}

proof fn lemma_root_digit(n: int, r: int, d: int, x: int, c: int)
    requires
        d >= 1,
        r >= 0,
        c == r * (4 * d),
        x == n - r * r * (4 * d),
        n < (r + 1) * (r + 1) * (4 * d),
    ensures
        x >= c + d ==> {
            &&& x - (c + d) == n - (2 * r + 1) * (2 * r + 1) * d
            &&& c / 2 + d == (2 * r + 1) * d
            &&& n < (2 * r + 2) * (2 * r + 2) * d
            &&& (2 * r + 1) * d <= (2 * r + 1) * (2 * r + 1) * d
        },
        x < c + d ==> {
            &&& x == n - (2 * r) * (2 * r) * d
            &&& c / 2 == (2 * r) * d
            &&& n < (2 * r + 1) * (2 * r + 1) * d
        },
{
    let m = 2 * r * d;
    assert(c == 2 * m) by (nonlinear_arith)
        requires c == r * (4 * d), m == 2 * r * d;
    assert(c / 2 == m);
    assert(m == (2 * r) * d) by (nonlinear_arith)
        requires m == 2 * r * d;
    assert((2 * r + 1) * d == m + d) by (nonlinear_arith)
        requires m == 2 * r * d;
    assert(x - (c + d) == n - (2 * r + 1) * (2 * r + 1) * d) by (nonlinear_arith)
        requires c == r * (4 * d), x == n - r * r * (4 * d);
    assert(x == n - (2 * r) * (2 * r) * d) by (nonlinear_arith)
        requires x == n - r * r * (4 * d);
    assert((2 * r + 2) * (2 * r + 2) * d == (r + 1) * (r + 1) * (4 * d)) by (nonlinear_arith);
    assert(x < c + d ==> n < (2 * r + 1) * (2 * r + 1) * d) by (nonlinear_arith)
        requires c == r * (4 * d), x == n - r * r * (4 * d);
    assert((2 * r + 1) * d <= (2 * r + 1) * (2 * r + 1) * d) by (nonlinear_arith)
        requires r >= 0, d >= 1;
}

/// The integer square root, digit by digit.
pub fn isqrt_i32(n: i32) -> (c: i32)
    requires
        n >= 0,
    ensures
        is_isqrt(c as int, n as int),
        c == isqrt(n as int),
{
    let mut d: i32 = 1 << 30;
    let ghost mut k: nat = 15;
    proof {
        reveal_with_fuel(pow4, 16);
        assert(pow4(15) == 0x4000_0000);
        crate::bits::lemma_u16_constants();
    }
    while d > n
        invariant
            n >= 0,
            (d >= 1 && d == pow4(k) && n < 4 * d) || (d == 0 && n == 0),
        decreases d,
    {
        proof {
            crate::bits::lemma_shr_div(d);
            if k > 0 {
                lemma_pow4_positive((k - 1) as nat);
            }
        }
        d = d >> 2;
        proof {
            if k > 0 {
                k = (k - 1) as nat;
            }
        }
    }
    let mut x = n;
    let mut c: i32 = 0;
    let ghost mut r: int = 0;
    let ghost mut e: int = if d == 0 {
        1
    } else {
        4 * d
    };
    let ghost mut j: nat = if d == 0 {
        0
    } else {
        k + 1
    };
    proof {
        lemma_pow4_positive(k);
        assert(r * r * e == 0);
        assert(pow4(k + 1) == 4 * pow4(k));
        assert((r + 1) * (r + 1) * e == e) by (nonlinear_arith)
            requires r == 0;
    }
    while d != 0
        invariant
            n >= 0,
            e == pow4(j),
            (e == 1 && d == 0) || (e >= 4 && e == 4 * d),
            r >= 0,
            c == r * e,
            x == n - r * r * e,
            r * r * e <= n < (r + 1) * (r + 1) * e,
        decreases d,
    {
        proof {
            lemma_root_digit(n as int, r, d as int, x as int, c as int);
            crate::bits::lemma_shr_div(c);
            crate::bits::lemma_shr_div(d);
            lemma_pow4_positive((j - 1) as nat);
            if j >= 2 {
                lemma_pow4_positive((j - 2) as nat);
            }
        }
        if x as i64 >= c as i64 + d as i64 {
            x = x - (c + d);
            c = (c >> 1) + d;
            proof {
                r = 2 * r + 1;
            }
        } else {
            c = c >> 1;
            proof {
                r = 2 * r;
            }
        }
        proof {
            e = d as int;
            j = (j - 1) as nat;
        }
        d = d >> 2;
    }
    proof {
        assert(e == 1);
        assert(r * e == r && r * r * e == r * r && (r + 1) * (r + 1) * e == (r + 1) * (r + 1))
            by (nonlinear_arith)
            requires e == 1;
        assert(c == r);
        assert(is_isqrt(c as int, n as int));
        assert(exists|cc: int| is_isqrt(cc, n as int));
        lemma_isqrt_unique(c as int, isqrt(n as int), n as int);
    }
    c
}

impl<const N: usize> Num<N> {
    /// The number whose raw value is `r`, truncated to 32 bits.
    pub closed spec fn of(r: int) -> Self {
        Num(r as i32)
    }

    /// The raw value of [`Num::of`] is the value it was given when it fits.
    pub proof fn lemma_of(r: int)
        requires
            fits_i32(r),
        ensures
            Self::of(r).raw() == r,
    {
    }

    /// The raw value of a quarter, `1 / 4`.
    pub open spec fn quarter_raw() -> int {
        div_trunc(one_shl(N) as int, 4)
    }

    /// The angle moved by whole turns into `[-1/4, 3/4)`: less a quarter and
    /// less the whole part of itself plus a quarter.
    pub open spec fn cos_x1(self) -> int {
        let q = Self::quarter_raw();
        let fl = Self::of(self.raw() + q).floor_spec();
        self.raw() - (q + Self::from_spec(fl))
    }

    /// The factor the moved angle is multiplied by: `(|x| - 1/2) * 16`.
    pub open spec fn cos_factor(self) -> int {
        (abs_int(self.cos_x1()) - div_trunc(one_shl(N) as int, 2)) * 16
    }

    /// The raw value of the parabola: the moved angle times the factor.
    pub open spec fn cos_base(self) -> int {
        Self::of(self.cos_x1()).mul_spec(Self::of(self.cos_factor()))
    }

    /// The raw value of `0.225`, the weight of the correction: `9 / 40` of
    /// one, rounded towards zero.
    pub open spec fn cos_weight() -> int {
        (9 * one_shl(N)) / 40
    }

    /// The raw value of `y * (|y| - 1)` for the parabola `y`.
    pub open spec fn cos_deviation(self) -> int {
        let y = self.cos_base();
        Self::of(y).mul_spec(Self::of(abs_int(y) - one_shl(N)))
    }

    /// The raw value of `cos`: the parabola `y` corrected by
    /// `y * (|y| - 1) * 0.225`.
    pub open spec fn cos_spec(self) -> int {
        self.cos_base() + Self::of(self.cos_deviation()).mul_spec(Self::of(Self::cos_weight()))
    }

    /// Whether every intermediate result of `cos` fits in an `i32`.
    pub open spec fn cos_ok(self) -> bool {
        let q = Self::quarter_raw();
        let fl = Self::of(self.raw() + q).floor_spec();
        let x1 = self.cos_x1();
        let x2 = self.cos_base();
        let d = abs_int(x2) - one_shl(N);
        &&& fits_i32(self.raw() + q)
        &&& fits_i32(q + Self::from_spec(fl))
        &&& fits_i32(x1)
        &&& x1 != i32::MIN
        &&& fits_i32(abs_int(x1) - div_trunc(one_shl(N) as int, 2))
        &&& fits_i32(self.cos_factor())
        &&& Self::of(x1).mul_fits(Self::of(self.cos_factor()))
        &&& x2 != i32::MIN
        &&& fits_i32(d)
        &&& Self::of(x2).mul_fits(Self::of(d))
        &&& Self::of(self.cos_deviation()).mul_fits(Self::of(Self::cos_weight()))
        &&& fits_i32(self.cos_spec())
    }

    /// Cosine of an angle in turns, approximated as micromath does: the
    /// angle is moved into `[-1/4, 3/4)`, multiplied by `(|x| - 1/2) * 16`
    /// to give a parabola `y`, which is then corrected by
    /// `y * (|y| - 1) * 0.225`.
    pub fn cos(self) -> (r: Self)
        requires
            2 <= N < 30,
            self.cos_ok(),
        ensures
            r.raw() == self.cos_spec(),
    {
        let one = Self::new(1);
        proof {
            let n: usize = N;
            assert(1i32 << n == one_shl(n));
            lemma_shl_one_nonzero(n);
        }
        let quarter = one.div_int(4);
        let fl = self.add(quarter).floor();
        let x1 = self.sub(quarter.add(Self::new(fl)));
        let half = one.div_int(2);
        let factor = x1.abs().sub(half).mul_int(16);
        proof {
            assert(x1 == Self::of(self.cos_x1()));
            assert(factor == Self::of(self.cos_factor()));
        }
        let x2 = x1.mul(factor);
        let d = x2.abs().sub(one);
        proof {
            assert(x2 == Self::of(self.cos_base()));
            assert(d == Self::of(abs_int(self.cos_base()) - one_shl(N)));
        }
        let deviation = x2.mul(d);
        let one_raw: i64 = one.to_raw() as i64;
        let weight_raw: i64 = (9 * one_raw) / 40;
        proof {
            assert(one_raw == one_shl(N));
            assert(0 <= weight_raw <= one_raw);
        }
        let weight = Self::from_raw(weight_raw as i32);
        proof {
            assert(deviation == Self::of(self.cos_deviation()));
            assert(weight == Self::of(Self::cos_weight()));
        }
        let extra = deviation.mul(weight);
        x2.add(extra)
    }

    /// Sine of an angle in turns, computed as the cosine of the angle plus a
    /// quarter turn.
    pub fn sin(self) -> (r: Self)
        requires
            2 <= N < 30,
            fits_i32(self.raw() + Self::quarter_raw()),
            Self::of(self.raw() + Self::quarter_raw()).cos_ok(),
        ensures
            r.raw() == Self::of(self.raw() + Self::quarter_raw()).cos_spec(),
    {
        let one = Self::new(1);
        proof {
            let n: usize = N;
            assert(1i32 << n == one_shl(n));
            lemma_shl_one_nonzero(n);
        }
        let quarter = one.div_int(4);
        let a = self.add(quarter);
        proof {
            assert(a == Self::of(self.raw() + Self::quarter_raw()));
        }
        a.cos()
    }
}

/// Shifting left by `n` multiplies by `2^n` when the product fits.
proof fn lemma_shl_exact(x: i32, n: usize)
    requires
        n < 31,
        fits_i32(x * one_shl(n)),
    ensures
        (x << n) as int == x * one_shl(n),
{
    let p: i32 = 1i32 << n;
    assert((x << n) as int == x * p) by (bit_vector)
        requires
            n < 31,
            p == 1i32 << n,
            -0x8000_0000 <= x * p <= 0x7fff_ffff,
    ;
}

/// The quotient rounding towards zero: the divisor times it stays on the
/// dividend's side of zero, no farther out than the dividend, and less than
/// one divisor short of it.
pub proof fn lemma_div_trunc_bounds(a: int, b: int)
    requires
        b != 0,
    ensures
        abs_int(a - div_trunc(a, b) * b) < abs_int(b),
        abs_int(div_trunc(a, b) * b) <= abs_int(a),
        a * (div_trunc(a, b) * b) >= 0,
{
    let aa = abs_int(a);
    let bb = abs_int(b);
    let q = aa / bb;
    let r = aa % bb;
    vstd::arithmetic::div_mod::lemma_fundamental_div_mod(aa, bb);
    assert(0 <= r < bb);
    assert(aa == bb * q + r);
    assert(q >= 0) by (nonlinear_arith)
        requires aa >= 0, bb > 0, q == aa / bb;
    assert(abs_int(q * b) == q * bb) by (nonlinear_arith)
        requires q >= 0, bb == abs_int(b);
    assert(abs_int(-q * b) == q * bb) by (nonlinear_arith)
        requires q >= 0, bb == abs_int(b);
    if (a >= 0) == (b > 0) || a == 0 {
        assert(div_trunc(a, b) == q);
        if a >= 0 {
            assert(b > 0 || a == 0);
            if a == 0 {
                assert(q == 0) by (nonlinear_arith)
                    requires aa == 0, bb > 0, q == aa / bb;
            }
            assert(a - q * b == r) by (nonlinear_arith)
                requires a == 0 ==> q == 0, a > 0 ==> b > 0, aa == abs_int(a), bb == abs_int(b),
                    aa == bb * q + r, a >= 0;
            assert(a * (q * b) >= 0) by (nonlinear_arith)
                requires a == 0 ==> q == 0, a > 0 ==> b > 0, q >= 0, a >= 0;
        } else {
            assert(b < 0);
            assert(a - q * b == -r) by (nonlinear_arith)
                requires a < 0, b < 0, aa == -a, bb == -b, aa == bb * q + r;
            assert(a * (q * b) >= 0) by (nonlinear_arith)
                requires a < 0, b < 0, q >= 0;
        }
    } else {
        assert(div_trunc(a, b) == -q);
        if a > 0 {
            assert(b < 0);
            assert(a - (-q) * b == r) by (nonlinear_arith)
                requires a > 0, b < 0, aa == a, bb == -b, aa == bb * q + r;
            assert(a * ((-q) * b) >= 0) by (nonlinear_arith)
                requires a > 0, b < 0, q >= 0;
        } else {
            assert(a < 0 && b > 0);
            assert(a - (-q) * b == -r) by (nonlinear_arith)
                requires a < 0, b > 0, aa == -a, bb == b, aa == bb * q + r;
            assert(a * ((-q) * b) >= 0) by (nonlinear_arith)
                requires a < 0, b > 0, q >= 0;
        }
    }
}

/// Dividing `x` by `d` gives the quotient of `x * 2^N` by `d`, rounded
/// towards zero: `d` times it is less than one `d` away from `x * 2^N`,
/// on the same side of zero and no farther from it.
pub proof fn lemma_div_quotient<const N: usize>(x: Num<N>, d: Num<N>)
    requires
        N < 31,
        d.raw() != 0,
        fits_i32(x.raw() * one_shl(N)),
    ensures
        x.div_spec(d) == div_trunc(x.raw() * one_shl(N), d.raw()),
        abs_int(x.raw() * one_shl(N) - x.div_spec(d) * d.raw()) < abs_int(d.raw()),
        abs_int(x.div_spec(d) * d.raw()) <= abs_int(x.raw() * one_shl(N)),
        (x.raw() * one_shl(N)) * (x.div_spec(d) * d.raw()) >= 0,
{
    lemma_shl_exact(x.raw_i32(), N);
    lemma_div_trunc_bounds(x.raw() * one_shl(N), d.raw());
}

/// The fast length does not depend on the order of the components, and the
/// larger component is the one weighted by `0.9604`, the smaller by
/// `0.3978`.
pub proof fn lemma_fast_magnitude_symmetric<const N: usize>(v: Vector2D<Num<N>>)
    ensures
        v.fast_magnitude_spec() == (Vector2D { x: v.y, y: v.x }).fast_magnitude_spec(),
        v.fast_magnitude_ok() == (Vector2D { x: v.y, y: v.x }).fast_magnitude_ok(),
        v.x.raw() >= v.y.raw() ==> v.fast_magnitude_spec() == v.x.mul_spec(
            Num::<N>::of((FAST_MAGNITUDE_MAX >> ((30 - N) as usize)) as int),
        ) + v.y.mul_spec(Num::<N>::of((FAST_MAGNITUDE_MIN >> ((30 - N) as usize)) as int)),
        v.y.raw() >= v.x.raw() ==> v.fast_magnitude_spec() == v.y.mul_spec(
            Num::<N>::of((FAST_MAGNITUDE_MAX >> ((30 - N) as usize)) as int),
        ) + v.x.mul_spec(Num::<N>::of((FAST_MAGNITUDE_MIN >> ((30 - N) as usize)) as int)),
{
    assert(Num::<N>::of(v.x.raw()) == v.x);
    assert(Num::<N>::of(v.y.raw()) == v.y);
    if v.x.raw() == v.y.raw() {
        assert(v.x == v.y);
    }
}

/// Adding a whole turn to an angle leaves its cosine as it was.
pub proof fn lemma_cos_period<const N: usize>(x: Num<N>)
    requires
        2 <= N < 30,
        fits_i32(x.raw() + one_shl(N) + Num::<N>::quarter_raw()),
        fits_i32(x.raw() + Num::<N>::quarter_raw()),
    ensures
        Num::<N>::of(x.raw() + one_shl(N)).cos_spec() == x.cos_spec(),
{
    let n: usize = N;
    let p = one_shl(N);
    assert(p == 1i32 << n);
    lemma_shl_one_nonzero(n);
    let q = Num::<N>::quarter_raw();
    assert(q == p / 4);
    assert(0 < q < p);
    let a: i32 = (x.raw() + q) as i32;
    let b: i32 = (x.raw() + p + q) as i32;
    assert(b == a + p);
    let y = Num::<N>::of(x.raw() + p);
    assert(y.raw() == x.raw() + p);
    assert(((b >> n) << n) == ((a >> n) << n) + p) by (bit_vector)
        requires
            b == a + p,
            p == 1i32 << n,
            2 <= n < 30,
    ;
    assert(Num::<N>::of(y.raw() + q).floor_spec() == b >> n);
    assert(Num::<N>::of(x.raw() + q).floor_spec() == a >> n);
    assert(y.cos_x1() == x.cos_x1());
    assert(y.cos_base() == x.cos_base());
}

/// `0.960433870103` with 30 fractional bits, the factor of the larger
/// component in [`Vector2D::fast_magnitude`].
pub const FAST_MAGNITUDE_MAX: i32 = 1031258015;

/// `0.397824734759` with 30 fractional bits, the factor of the smaller
/// component in [`Vector2D::fast_magnitude`].
pub const FAST_MAGNITUDE_MIN: i32 = 427161056;

/// `1 << n` is a positive power of two below `2^31`, or `i32::MIN` for `n == 31`.
pub proof fn lemma_shl_one_nonzero(n: usize)
    requires
        n < 32,
    ensures
        (1i32 << n) != 0,
        (1i32 << n) != -1,
        n < 31 ==> (1i32 << n) >= 1,
        2 <= n < 30 ==> (1i32 << n) >= 4,
{
    assert((1i32 << n) != 0 && (1i32 << n) != -1 && (n < 31 ==> (1i32 << n) >= 1) && (2 <= n < 30
        ==> (1i32 << n) >= 4)) by (bit_vector)
        requires
            n < 32,
    ;
}

/// The low `n` bits of `x` lie in `[0, 2^n)`.
pub proof fn lemma_mask_range(x: i32, n: usize)
    requires
        n < 31,
    ensures
        0 <= (x & (((1i32 << n) - 1) as i32)) < (1i32 << n),
{
    assert(0 <= (x & (((1i32 << n) - 1) as i32)) < (1i32 << n)) by (bit_vector)
        requires
            n < 31,
    ;
}

/// Relates the remainder rounding towards zero with the Euclidean one.
pub proof fn lemma_rem_trunc_euclid(a: int, b: int)
    requires
        b != 0,
    ensures
        rem_trunc(a, b) >= 0 ==> rem_trunc(a, b) == a % abs_int(b),
        rem_trunc(a, b) < 0 ==> rem_trunc(a, b) + abs_int(b) == a % abs_int(b),
        -abs_int(b) < rem_trunc(a, b) < abs_int(b),
{
    let m = abs_int(b);
    vstd::arithmetic::div_mod::lemma_fundamental_div_mod(a, m);
    vstd::arithmetic::div_mod::lemma_fundamental_div_mod(-a, m);
    if a < 0 {
        let r = (-a) % m;
        let q = (-a) / m;
        assert(-a == m * q + r);
        if r > 0 {
            assert(a == m * (-q - 1) + (m - r)) by (nonlinear_arith)
                requires
                    -a == m * q + r,
            ;
            vstd::arithmetic::div_mod::lemma_fundamental_div_mod_converse(a, m, -q - 1, m - r);
        } else {
            assert(a == m * (-q) + 0) by (nonlinear_arith)
                requires
                    -a == m * q + r,
                    r == 0,
            ;
            vstd::arithmetic::div_mod::lemma_fundamental_div_mod_converse(a, m, -q, 0);
        }
    }
}


/// A two dimensional vector.
#[derive(Clone, Copy, PartialEq, Eq, Debug, Structural)]
pub struct Vector2D<T> {
    /// The horizontal component.
    pub x: T,
    /// The vertical component.
    pub y: T,
}

impl<T: Copy> Vector2D<T> {
    /// The vector `(x, y)`.
    pub fn new(x: T, y: T) -> (r: Self)
        ensures
            r.x == x,
            r.y == y,
    {
        Vector2D { x, y }
    }

    /// The two components as a pair.
    pub fn get(self) -> (r: (T, T))
        ensures
            r == (self.x, self.y),
    {
        (self.x, self.y)
    }

    /// The vector with its components exchanged.
    pub fn swap(self) -> (r: Self)
        ensures
            r.x == self.y,
            r.y == self.x,
    {
        Vector2D { x: self.y, y: self.x }
    }
}

/// Shorthand for [`Vector2D::new`].
pub fn vec2<T: Copy>(x: T, y: T) -> (r: Vector2D<T>)
    ensures
        r.x == x,
        r.y == y,
{
    Vector2D { x, y }
}

impl Vector2D<i32> {
    /// Component-wise sum.
    pub fn add(self, rhs: Self) -> (r: Self)
        requires
            fits_i32(self.x + rhs.x),
            fits_i32(self.y + rhs.y),
        ensures
            r.x == self.x + rhs.x,
            r.y == self.y + rhs.y,
    {
        Vector2D { x: self.x + rhs.x, y: self.y + rhs.y }
    }

    /// Component-wise difference.
    pub fn sub(self, rhs: Self) -> (r: Self)
        requires
            fits_i32(self.x - rhs.x),
            fits_i32(self.y - rhs.y),
        ensures
            r.x == self.x - rhs.x,
            r.y == self.y - rhs.y,
    {
        Vector2D { x: self.x - rhs.x, y: self.y - rhs.y }
    }

    /// Both components multiplied by `rhs`.
    pub fn mul(self, rhs: i32) -> (r: Self)
        requires
            fits_i32(self.x * rhs),
            fits_i32(self.y * rhs),
        ensures
            r.x == self.x * rhs,
            r.y == self.y * rhs,
    {
        Vector2D { x: self.x * rhs, y: self.y * rhs }
    }

    /// Both components divided by `rhs`, rounding towards zero.
    pub fn div(self, rhs: i32) -> (r: Self)
        requires
            rhs != 0,
            !(rhs == -1 && (self.x == i32::MIN || self.y == i32::MIN)),
        ensures
            r.x == div_trunc(self.x as int, rhs as int),
            r.y == div_trunc(self.y as int, rhs as int),
    {
        Vector2D { x: i32_div(self.x, rhs), y: i32_div(self.y, rhs) }
    }

    /// Component-wise product.
    pub fn hadamard(self, other: Self) -> (r: Self)
        requires
            fits_i32(self.x * other.x),
            fits_i32(self.y * other.y),
        ensures
            r.x == self.x * other.x,
            r.y == self.y * other.y,
    {
        Vector2D { x: self.x * other.x, y: self.y * other.y }
    }

    /// Component-wise absolute value.
    pub fn abs(self) -> (r: Self)
        requires
            self.x != i32::MIN,
            self.y != i32::MIN,
        ensures
            r.x == abs_int(self.x as int),
            r.y == abs_int(self.y as int),
    {
        Vector2D {
            x: if self.x < 0 {
                0 - self.x
            } else {
                self.x
            },
            y: if self.y < 0 {
                0 - self.y
            } else {
                self.y
            },
        }
    }

    /// This vector with fixed point components.
    pub fn change_base<const N: usize>(self) -> (r: Vector2D<Num<N>>)
        requires
            N < 32,
        ensures
            r.x.raw_i32() == Num::<N>::from_spec(self.x),
            r.y.raw_i32() == Num::<N>::from_spec(self.y),
    {
        Vector2D { x: Num::from(self.x), y: Num::from(self.y) }
    }
}

impl<const N: usize> Vector2D<Num<N>> {
    /// Component-wise sum.
    pub fn add(self, rhs: Self) -> (r: Self)
        requires
            fits_i32(self.x.raw() + rhs.x.raw()),
            fits_i32(self.y.raw() + rhs.y.raw()),
        ensures
            r.x.raw() == self.x.raw() + rhs.x.raw(),
            r.y.raw() == self.y.raw() + rhs.y.raw(),
    {
        Vector2D { x: self.x.add(rhs.x), y: self.y.add(rhs.y) }
    }

    /// Component-wise difference.
    pub fn sub(self, rhs: Self) -> (r: Self)
        requires
            fits_i32(self.x.raw() - rhs.x.raw()),
            fits_i32(self.y.raw() - rhs.y.raw()),
        ensures
            r.x.raw() == self.x.raw() - rhs.x.raw(),
            r.y.raw() == self.y.raw() - rhs.y.raw(),
    {
        Vector2D { x: self.x.sub(rhs.x), y: self.y.sub(rhs.y) }
    }

    /// Both components multiplied by the fixed point number `rhs`.
    pub fn mul(self, rhs: Num<N>) -> (r: Self)
        requires
            N < 31,
            self.x.mul_fits(rhs),
            self.y.mul_fits(rhs),
        ensures
            r.x.raw() == self.x.mul_spec(rhs),
            r.y.raw() == self.y.mul_spec(rhs),
    {
        Vector2D { x: self.x.mul(rhs), y: self.y.mul(rhs) }
    }

    /// Both components multiplied by the integer `rhs`.
    pub fn mul_int(self, rhs: i32) -> (r: Self)
        requires
            fits_i32(self.x.raw() * rhs),
            fits_i32(self.y.raw() * rhs),
        ensures
            r.x.raw() == self.x.raw() * rhs,
            r.y.raw() == self.y.raw() * rhs,
    {
        Vector2D { x: self.x.mul_int(rhs), y: self.y.mul_int(rhs) }
    }

    /// Both components divided by the fixed point number `rhs`.
    pub fn div(self, rhs: Num<N>) -> (r: Self)
        requires
            N < 32,
            rhs.raw() != 0,
            !((self.x.raw_i32() << N) == i32::MIN && rhs.raw() == -1),
            !((self.y.raw_i32() << N) == i32::MIN && rhs.raw() == -1),
        ensures
            r.x.raw() == self.x.div_spec(rhs),
            r.y.raw() == self.y.div_spec(rhs),
    {
        Vector2D { x: self.x.div(rhs), y: self.y.div(rhs) }
    }

    /// Both components divided by the integer `rhs`.
    pub fn div_int(self, rhs: i32) -> (r: Self)
        requires
            rhs != 0,
            !(rhs == -1 && (self.x.raw() == i32::MIN || self.y.raw() == i32::MIN)),
        ensures
            r.x.raw() == div_trunc(self.x.raw(), rhs as int),
            r.y.raw() == div_trunc(self.y.raw(), rhs as int),
    {
        Vector2D { x: self.x.div_int(rhs), y: self.y.div_int(rhs) }
    }

    /// Component-wise product.
    pub fn hadamard(self, other: Self) -> (r: Self)
        requires
            N < 31,
            self.x.mul_fits(other.x),
            self.y.mul_fits(other.y),
        ensures
            r.x.raw() == self.x.mul_spec(other.x),
            r.y.raw() == self.y.mul_spec(other.y),
    {
        Vector2D { x: self.x.mul(other.x), y: self.y.mul(other.y) }
    }

    /// The integral parts, rounding towards zero.
    pub fn trunc(self) -> (r: Vector2D<i32>)
        requires
            N < 32,
        ensures
            r.x == div_trunc(self.x.raw(), one_shl(N) as int),
            r.y == div_trunc(self.y.raw(), one_shl(N) as int),
    {
        Vector2D { x: self.x.trunc(), y: self.y.trunc() }
    }

    /// The integral parts, rounding towards negative infinity.
    pub fn floor(self) -> (r: Vector2D<i32>)
        requires
            N < 32,
        ensures
            r.x == self.x.floor_spec(),
            r.y == self.y.floor_spec(),
    {
        Vector2D { x: self.x.floor(), y: self.y.floor() }
    }

    /// `x * x + y * y`.
    pub fn magnitude_squared(self) -> (r: Num<N>)
        requires
            N < 31,
            self.x.mul_fits(self.x),
            self.y.mul_fits(self.y),
            fits_i32(self.x.mul_spec(self.x) + self.y.mul_spec(self.y)),
        ensures
            r.raw() == self.x.mul_spec(self.x) + self.y.mul_spec(self.y),
    {
        let a = self.x.mul(self.x);
        let b = self.y.mul(self.y);
        a.add(b)
    }

    /// The length: the square root of `x * x + y * y`.
    pub fn magnitude(self) -> (r: Num<N>)
        requires
            N < 31,
            N % 2 == 0,
            self.x.mul_fits(self.x),
            self.y.mul_fits(self.y),
            fits_i32(self.x.mul_spec(self.x) + self.y.mul_spec(self.y)),
            self.x.mul_spec(self.x) + self.y.mul_spec(self.y) >= 0,
        ensures
            r.raw_i32() == (isqrt(self.x.mul_spec(self.x) + self.y.mul_spec(self.y)) as i32) << ((N
                / 2) as usize),
    {
        self.magnitude_squared().sqrt()
    }

    /// The raw value of the larger component: the second when they are equal.
    pub open spec fn max_raw(self) -> int {
        if self.y.raw() >= self.x.raw() {
            self.y.raw()
        } else {
            self.x.raw()
        }
    }

    /// The raw value of the smaller component: the first when they are equal.
    pub open spec fn min_raw(self) -> int {
        if self.x.raw() <= self.y.raw() {
            self.x.raw()
        } else {
            self.y.raw()
        }
    }

    /// The length estimated as `0.9604 * max + 0.3978 * min` of the two
    /// components, the two factors written with 30 fractional bits and cut
    /// down to `N`.
    pub open spec fn fast_magnitude_spec(self) -> int {
        let a = Num::<N>::of((FAST_MAGNITUDE_MAX >> ((30 - N) as usize)) as int);
        let b = Num::<N>::of((FAST_MAGNITUDE_MIN >> ((30 - N) as usize)) as int);
        Num::<N>::of(self.max_raw()).mul_spec(a) + Num::<N>::of(self.min_raw()).mul_spec(b)
    }

    /// Whether every intermediate result of `fast_magnitude` fits.
    pub open spec fn fast_magnitude_ok(self) -> bool {
        let a = Num::<N>::of((FAST_MAGNITUDE_MAX >> ((30 - N) as usize)) as int);
        let b = Num::<N>::of((FAST_MAGNITUDE_MIN >> ((30 - N) as usize)) as int);
        &&& Num::<N>::of(self.max_raw()).mul_fits(a)
        &&& Num::<N>::of(self.min_raw()).mul_fits(b)
        &&& fits_i32(self.fast_magnitude_spec())
    }

    /// The length estimated by the alpha max plus beta min method, within
    /// about four percent.
    pub fn fast_magnitude(self) -> (r: Num<N>)
        requires
            N <= 30,
            self.fast_magnitude_ok(),
        ensures
            r.raw() == self.fast_magnitude_spec(),
    {
        let max = if self.y.to_raw() >= self.x.to_raw() {
            self.y
        } else {
            self.x
        };
        let min = if self.x.to_raw() <= self.y.to_raw() {
            self.x
        } else {
            self.y
        };
        let shift: usize = 30 - N;
        proof {
            let n: usize = N;
            assert(0 <= FAST_MAGNITUDE_MAX >> shift <= FAST_MAGNITUDE_MAX && 0 <= FAST_MAGNITUDE_MIN
                >> shift <= FAST_MAGNITUDE_MIN && (0i32 << n) == 0) by (bit_vector);
        }
        let a = Num::<N>::new_from_parts((0, FAST_MAGNITUDE_MAX));
        let b = Num::<N>::new_from_parts((0, FAST_MAGNITUDE_MIN));
        proof {
            assert(max == Num::<N>::of(self.max_raw()));
            assert(min == Num::<N>::of(self.min_raw()));
            assert(a == Num::<N>::of((FAST_MAGNITUDE_MAX >> shift) as int));
            assert(b == Num::<N>::of((FAST_MAGNITUDE_MIN >> shift) as int));
        }
        max.mul(a).add(min.mul(b))
    }

    /// Each component divided by `m`.
    pub open spec fn divided_by(self, m: Num<N>) -> (int, int) {
        (self.x.div_spec(m), self.y.div_spec(m))
    }

    /// Whether both components can be divided by `m`.
    pub open spec fn can_divide_by(self, m: Num<N>) -> bool {
        &&& m.raw() != 0
        &&& !((self.x.raw_i32() << N) == i32::MIN && m.raw() == -1)
        &&& !((self.y.raw_i32() << N) == i32::MIN && m.raw() == -1)
    }

    /// The vector divided by its length.
    pub fn normalise(self) -> (r: Self)
        requires
            N < 31,
            N % 2 == 0,
            self.x.mul_fits(self.x),
            self.y.mul_fits(self.y),
            fits_i32(self.x.mul_spec(self.x) + self.y.mul_spec(self.y)),
            self.x.mul_spec(self.x) + self.y.mul_spec(self.y) >= 0,
            self.can_divide_by(
                Num::<N>::of(
                    ((isqrt(self.x.mul_spec(self.x) + self.y.mul_spec(self.y)) as i32) << ((N / 2) as usize)) as int,
                ),
            ),
        ensures
            (r.x.raw(), r.y.raw()) == self.divided_by(
                Num::<N>::of(
                    ((isqrt(self.x.mul_spec(self.x) + self.y.mul_spec(self.y)) as i32) << ((N / 2) as usize)) as int,
                ),
            ),
    {
        let m = self.magnitude();
        proof {
            assert(m == Num::<N>::of(((isqrt(self.x.mul_spec(self.x) + self.y.mul_spec(self.y)) as i32) << ((N / 2) as usize)) as int));
        }
        Vector2D { x: self.x.div(m), y: self.y.div(m) }
    }

    /// The vector divided by its estimated length.
    pub fn fast_normalise(self) -> (r: Self)
        requires
            N <= 30,
            self.fast_magnitude_ok(),
            self.can_divide_by(Num::<N>::of(self.fast_magnitude_spec())),
        ensures
            (r.x.raw(), r.y.raw()) == self.divided_by(Num::<N>::of(self.fast_magnitude_spec())),
    {
        let m = self.fast_magnitude();
        proof {
            assert(m == Num::<N>::of(self.fast_magnitude_spec()));
        }
        Vector2D { x: self.x.div(m), y: self.y.div(m) }
    }

    /// The unit vector at `angle` turns: its cosine and its sine.
    pub fn new_from_angle(angle: Num<N>) -> (r: Self)
        requires
            2 <= N < 30,
            angle.cos_ok(),
            fits_i32(angle.raw() + Num::<N>::quarter_raw()),
            Num::<N>::of(angle.raw() + Num::<N>::quarter_raw()).cos_ok(),
        ensures
            r.x.raw() == angle.cos_spec(),
            r.y.raw() == Num::<N>::of(angle.raw() + Num::<N>::quarter_raw()).cos_spec(),
    {
        Vector2D { x: angle.cos(), y: angle.sin() }
    }

    /// `|x| + |y|`.
    pub fn manhattan_distance(self) -> (r: Num<N>)
        requires
            self.x.raw() != i32::MIN,
            self.y.raw() != i32::MIN,
            fits_i32(abs_int(self.x.raw()) + abs_int(self.y.raw())),
        ensures
            r.raw() == abs_int(self.x.raw()) + abs_int(self.y.raw()),
    {
        self.x.abs().add(self.y.abs())
    }
}

/// The vector of two integers as fixed point numbers.
pub fn vector_from_ints<const N: usize>(n: Vector2D<i32>) -> (r: Vector2D<Num<N>>)
    requires
        N < 32,
    ensures
        r.x.raw_i32() == Num::<N>::from_spec(n.x),
        r.y.raw_i32() == Num::<N>::from_spec(n.y),
{
    n.change_base()
}

/// A rectangle given by its top left corner and its size.
#[derive(Clone, Copy, PartialEq, Eq, Debug)]
pub struct Rect<T> {
    /// The top left corner.
    pub position: Vector2D<T>,
    /// The width and height.
    pub size: Vector2D<T>,
}

impl<T: Copy> Rect<T> {
    /// The rectangle at `position` of the given `size`.
    pub fn new(position: Vector2D<T>, size: Vector2D<T>) -> (r: Self)
        ensures
            r.position == position,
            r.size == size,
    {
        Rect { position, size }
    }
}

impl Rect<i32> {
    /// Whether the sums `position + size` fit in an `i32`.
    pub open spec fn ends_fit(self) -> bool {
        fits_i32(self.position.x + self.size.x) && fits_i32(self.position.y + self.size.y)
    }

    /// Whether `p` lies strictly inside the rectangle.
    pub open spec fn contains_spec(self, p: Vector2D<i32>) -> bool {
        &&& p.x > self.position.x
        &&& p.x < self.position.x + self.size.x
        &&& p.y > self.position.y
        &&& p.y < self.position.y + self.size.y
    }

    /// Whether the two rectangles overlap.
    pub open spec fn touches_spec(self, other: Self) -> bool {
        &&& self.position.x < other.position.x + other.size.x
        &&& self.position.x + self.size.x > other.position.x
        &&& self.position.y < other.position.y + other.size.y
        &&& self.position.y + self.size.y > other.position.y
    }

    /// Whether `point` lies strictly inside the rectangle.
    pub fn contains_point(&self, point: Vector2D<i32>) -> (r: bool)
        requires
            self.ends_fit(),
        ensures
            r == self.contains_spec(point),
    {
        point.x > self.position.x && point.x < self.position.x + self.size.x && point.y
            > self.position.y && point.y < self.position.y + self.size.y
    }

    /// The rectangle computed by [`Rect::overlapping_rect`]: from the larger of
    /// the two top left corners to the smaller of the two bottom right ones.
    pub open spec fn overlapping_rect_spec(self, other: Self) -> Self {
        let left = max_int(self.position.x as int, other.position.x as int);
        let top = max_int(self.position.y as int, other.position.y as int);
        let right = min_int(self.position.x + self.size.x, other.position.x + other.size.x);
        let bottom = min_int(self.position.y + self.size.y, other.position.y + other.size.y);
        Rect {
            position: Vector2D { x: left as i32, y: top as i32 },
            size: Vector2D { x: (right - left) as i32, y: (bottom - top) as i32 },
        }
    }

    /// Whether the two rectangles overlap.
    pub fn touches(&self, other: Rect<i32>) -> (r: bool)
        requires
            self.ends_fit(),
            other.ends_fit(),
        ensures
            r == self.touches_spec(other),
    {
        self.position.x < other.position.x + other.size.x && self.position.x + self.size.x
            > other.position.x && self.position.y < other.position.y + other.size.y
            && self.position.y + self.size.y > other.position.y
    }

    /// The rectangle where the two overlap. Where they do not overlap its
    /// size is negative or zero in some direction.
    pub fn overlapping_rect(&self, other: Rect<i32>) -> (r: Self)
        requires
            self.ends_fit(),
            other.ends_fit(),
            fits_i32(min_int(self.position.x + self.size.x, other.position.x + other.size.x)
                - max_int(self.position.x as int, other.position.x as int)),
            fits_i32(min_int(self.position.y + self.size.y, other.position.y + other.size.y)
                - max_int(self.position.y as int, other.position.y as int)),
        ensures
            r == self.overlapping_rect_spec(other),
            r.position.x == max_int(self.position.x as int, other.position.x as int),
            r.position.y == max_int(self.position.y as int, other.position.y as int),
            r.position.x + r.size.x == min_int(
                self.position.x + self.size.x,
                other.position.x + other.size.x,
            ),
            r.position.y + r.size.y == min_int(
                self.position.y + self.size.y,
                other.position.y + other.size.y,
            ),
    {
        let left = max_i32(self.position.x, other.position.x);
        let top = max_i32(self.position.y, other.position.y);
        let right = min_i32(self.position.x + self.size.x, other.position.x + other.size.x);
        let bottom = min_i32(self.position.y + self.size.y, other.position.y + other.size.y);
        Rect::new(Vector2D { x: left, y: top }, Vector2D { x: right - left, y: bottom - top })
    }

    /// The points of the rectangle, both ends included, column by column;
    /// none when a size is negative.
    pub open spec fn cells(self) -> Seq<(i32, i32)> {
        if self.size.x < 0 || self.size.y < 0 {
            Seq::empty()
        } else {
            let h = self.size.y + 1;
            Seq::new(
                ((self.size.x + 1) * h) as nat,
                |k: int| ((self.position.x + k / h) as i32, (self.position.y + k % h) as i32),
            )
        }
    }

    /// Every point `(x, y)` with `x` from `position.x` to `position.x + size.x`
    /// and `y` from `position.y` to `position.y + size.y`, both ends included,
    /// column by column.
    pub fn iter(self) -> (r: Vec<(i32, i32)>)
        requires
            self.ends_fit(),
            self.position.x + self.size.x < i32::MAX,
            self.position.y + self.size.y < i32::MAX,
            self.size.x >= 0,
            self.size.y >= 0,
            (self.size.x + 1) * (self.size.y + 1) <= usize::MAX,
        ensures
            r@ == self.cells(),
            r@.len() == (self.size.x + 1) * (self.size.y + 1),
            forall|i: int, j: int|
                0 <= i <= self.size.x && 0 <= j <= self.size.y ==> pair_is(
                #[trigger] r@[i * (self.size.y + 1) + j],
                self.position.x + i,
                self.position.y + j,
            ),
    {
        let mut out: Vec<(i32, i32)> = Vec::new();
        let x_end = self.position.x + self.size.x;
        let y_end = self.position.y + self.size.y;
        let ghost h: int = self.size.y + 1;
        let mut x = self.position.x;
        while x <= x_end
            invariant
                self.position.x <= x <= x_end + 1,
                x_end == self.position.x + self.size.x,
                y_end == self.position.y + self.size.y,
                x_end < i32::MAX,
                y_end < i32::MAX,
                self.size.y >= 0,
                self.size.x >= 0,
                h == self.size.y + 1,
                (self.size.x + 1) * h <= usize::MAX,
                out@.len() == (x - self.position.x) * h,
                forall|i: int, j: int|
                    0 <= i < x - self.position.x && 0 <= j < h ==> pair_is(
                        #[trigger] out@[i * h + j],
                        self.position.x + i,
                        self.position.y + j,
                    ),
            decreases x_end + 1 - x,
        {
            let mut y = self.position.y;
            let ghost base = out@.len();
            let ghost prefix = out@;
            let ghost ix: int = x - self.position.x;
            proof {
                assert((ix + 1) * h <= (self.size.x + 1) * h) by (nonlinear_arith)
                    requires ix <= self.size.x, h >= 1;
                assert((ix + 1) * h == ix * h + h) by (nonlinear_arith);
            }
            while y <= y_end
                invariant
                    self.position.y <= y <= y_end + 1,
                    y_end == self.position.y + self.size.y,
                    y_end < i32::MAX,
                    x_end < i32::MAX,
                    x <= x_end,
                    ix == x - self.position.x,
                    h == self.size.y + 1,
                    base == ix * h,
                    base + h <= usize::MAX,
                    out@.len() == base + (y - self.position.y),
                    prefix.len() == base,
                    forall|k: int| 0 <= k < base ==> #[trigger] out@[k] == prefix[k],
                    forall|j: int|
                        0 <= j < y - self.position.y ==> pair_is(
                            #[trigger] out@[base + j],
                            x as int,
                            self.position.y + j,
                        ),
                decreases y_end + 1 - y,
            {
                out.push((x, y));
                y = y + 1;
            }
            proof {
                assert forall|i: int, j: int|
                    0 <= i < ix + 1 && 0 <= j < h implies pair_is(
                    #[trigger] out@[i * h + j],
                    self.position.x + i,
                    self.position.y + j,
                ) by {
                    if i == ix {
                        assert(i * h + j == base + j);
                    } else {
                        assert(0 <= i * h + j < ix * h) by (nonlinear_arith)
                            requires 0 <= i < ix, 0 <= j < h;
                        assert(out@[i * h + j] == prefix[i * h + j]);
                    }
                }
            }
            x = x + 1;
        }
        proof {
            let cells = self.cells();
            assert(out@.len() == cells.len());
            assert forall|k: int| 0 <= k < out@.len() implies out@[k] == cells[k] by {
                let i = k / h;
                let j = k % h;
                vstd::arithmetic::div_mod::lemma_fundamental_div_mod(k, h);
                assert(0 <= i <= self.size.x) by (nonlinear_arith)
                    requires
                        0 <= k < (self.size.x + 1) * h,
                        h >= 1,
                        i == k / h,
                ;
                assert(k == i * h + j) by (nonlinear_arith)
                    requires k == h * (k / h) + k % h, i == k / h, j == k % h;
                assert(pair_is(out@[i * h + j], self.position.x + i, self.position.y + j));
            }
            assert(out@ =~= cells);
        }
        out
    }
}

/// Whether the pair `p` holds `a` and `b`.
pub open spec fn pair_is(p: (i32, i32), a: int, b: int) -> bool {
    p.0 == a && p.1 == b
}

/// The larger of two integers.
pub open spec fn max_int(a: int, b: int) -> int {
    if a > b {
        a
    } else {
        b
    }
}

/// The smaller of two integers.
pub open spec fn min_int(a: int, b: int) -> int {
    if a > b {
        b
    } else {
        a
    }
}

fn max_i32(a: i32, b: i32) -> (r: i32)
    ensures
        r == max_int(a as int, b as int),
{
    if a > b {
        a
    } else {
        b
    }
}

fn min_i32(a: i32, b: i32) -> (r: i32)
    ensures
        r == min_int(a as int, b as int),
{
    if a > b {
        b
    } else {
        a
    }
}


/// Splitting a raw value into its integral and fractional bits loses nothing:
/// `raw == (floor << N) + frac`.
pub proof fn lemma_floor_frac<const N: usize>(a: Num<N>)
    requires
        N < 31,
    ensures
        a.raw() == ((a.floor_spec() << N) as int) + a.frac_spec(),
{
    let n: usize = N;
    let x = a.raw_i32();
    assert(x == ((x >> n) << n) + (x & (((1i32 << n) - 1) as i32))) by (bit_vector)
        requires
            n < 31,
    ;
}

/// An integer small enough to be held in base `N` comes back unchanged from
/// [`Num::new`] followed by [`Num::floor`], and its fractional part is zero.
pub proof fn lemma_new_floor<const N: usize>(x: i32)
    requires
        N < 31,
        -(one_shl((31 - N) as usize) as int) <= x < one_shl((31 - N) as usize),
    ensures
        (Num::<N>::from_spec(x) >> N) == x,
        Num::<N>::from_spec(x) & ((one_shl(N) - 1) as i32) == 0,
{
    let n: usize = N;
    let m: usize = (31 - N) as usize;
    assert(((x << n) >> n) == x && ((x << n) & (((1i32 << n) - 1) as i32)) == 0) by (bit_vector)
        requires
            n < 31,
            m == 31 - n,
            -(1i32 << m) <= x < (1i32 << m),
    ;
}

/// The rectangle computed by [`Rect::overlapping_rect`] holds exactly the
/// points held by both rectangles.
pub proof fn lemma_overlap_contains(a: Rect<i32>, b: Rect<i32>, p: Vector2D<i32>)
    requires
        a.ends_fit(),
        b.ends_fit(),
        fits_i32(min_int(a.position.x + a.size.x, b.position.x + b.size.x) - max_int(
            a.position.x as int,
            b.position.x as int,
        )),
        fits_i32(min_int(a.position.y + a.size.y, b.position.y + b.size.y) - max_int(
            a.position.y as int,
            b.position.y as int,
        )),
    ensures
        a.overlapping_rect_spec(b).contains_spec(p) == (a.contains_spec(p) && b.contains_spec(p)),
{
}

/// Whether two rectangles touch does not depend on their order.
pub proof fn lemma_touches_symmetric(a: Rect<i32>, b: Rect<i32>)
    ensures
        a.touches_spec(b) == b.touches_spec(a),
{
}

/// Two rectangles of positive size touch exactly when the rectangle where they
/// overlap has a positive width and height.
pub proof fn lemma_touches_iff_overlap_nonempty(a: Rect<i32>, b: Rect<i32>)
    requires
        a.ends_fit(),
        b.ends_fit(),
        fits_i32(min_int(a.position.x + a.size.x, b.position.x + b.size.x) - max_int(
            a.position.x as int,
            b.position.x as int,
        )),
        fits_i32(min_int(a.position.y + a.size.y, b.position.y + b.size.y) - max_int(
            a.position.y as int,
            b.position.y as int,
        )),
        a.size.x > 0,
        a.size.y > 0,
        b.size.x > 0,
        b.size.y > 0,
    ensures
        a.touches_spec(b) == (a.overlapping_rect_spec(b).size.x > 0 && a.overlapping_rect_spec(
            b,
        ).size.y > 0),
{
}

} // verus!

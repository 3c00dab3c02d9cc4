use agb::number::{isqrt_i32, vec2, Num, Rect, Vector2D};

#[test]
fn test_numbers() {
    let n: Num<8> = Num::from(1);
    assert_eq!(n.add(Num::from(2)), Num::from(3));
    let n: Num<8> = Num::from(5);
    assert_eq!(n.mul_int(3), Num::from(15));
    let n: Num<8> = Num::from(30);
    let p: Num<8> = Num::from(3);
    assert_eq!(n.div_int(20), p.div_int(2));
    assert_ne!(n, p);
}

#[test]
fn test_division_by_one() {
    let one: Num<8> = Num::from(1);
    for i in -40..40 {
        let n: Num<8> = Num::from(i);
        assert_eq!(n.div(one), n);
    }
}

#[test]
fn test_division_and_multiplication_by_16() {
    let sixteen: Num<8> = Num::from(16);
    for i in -40..40 {
        let n: Num<8> = Num::from(i);
        let m = n.div(sixteen);
        assert_eq!(m.mul(sixteen), n);
    }
}

#[test]
fn test_division_by_2_and_15() {
    let two: Num<8> = Num::from(2);
    let fifteen: Num<8> = Num::from(15);
    let thirty: Num<8> = Num::from(30);
    for i in -128..128 {
        let n: Num<8> = Num::from(i);
        assert_eq!(n.div(two).div(fifteen), n.div(thirty));
        assert_eq!(n.div(fifteen).div(two), n.div(thirty));
    }
}

#[test]
fn test_change_base() {
    let two: Num<9> = Num::from(2);
    let three: Num<4> = Num::from(3);
    assert_eq!(two.add(three.change_base::<9>()), Num::from(5));
    assert_eq!(three.add(two.change_base::<4>()), Num::from(5));
}

#[test]
fn test_rem_returns_sensible_values_for_integers() {
    for i in -50..50 {
        for j in -50..50 {
            if j == 0 {
                continue;
            }
            let i_rem_j_normally = i % j;
            let i_fixnum: Num<8> = Num::from(i);
            assert_eq!(i_fixnum.rem(Num::from(j)), Num::from(i_rem_j_normally));
        }
    }
}

#[test]
fn test_rem_returns_sensible_values_for_non_integers() {
    let one: Num<8> = Num::from(1);
    let third = one.div_int(3);
    for i in -50..50 {
        for j in -50..50 {
            if j == 0 {
                continue;
            }
            let x: Num<8> = third.add(Num::from(i));
            let y: Num<8> = Num::from(j);
            let truncated_division: Num<8> = Num::from(x.div(y).trunc());
            let remainder = x.sub(truncated_division.mul(y));
            assert_eq!(x.rem(y), remainder);
        }
    }
}

#[test]
fn test_rem_euclid_is_always_positive_and_sensible() {
    let one: Num<8> = Num::from(1);
    let third = one.div_int(3);
    for i in -50..50 {
        for j in -50..50 {
            if j == 0 {
                continue;
            }
            let x: Num<8> = third.add(Num::from(i));
            let y: Num<8> = Num::from(j);
            let rem_euclid = x.rem_euclid(y);
            assert!(rem_euclid.to_raw() > 0);
        }
    }
}

#[test]
fn sqrt() {
    for x in 1..1024 {
        let n: Num<8> = Num::new(x * x);
        assert_eq!(n.sqrt(), Num::from(x));
    }
}

#[test]
fn integer_square_roots() {
    assert_eq!(isqrt_i32(0), 0);
    assert_eq!(isqrt_i32(1), 1);
    assert_eq!(isqrt_i32(15), 3);
    assert_eq!(isqrt_i32(16), 4);
    assert_eq!(isqrt_i32(17), 4);
    assert_eq!(isqrt_i32(i32::MAX), 46340);
}

#[test]
fn magnitude_accuracy() {
    let n: Vector2D<Num<16>> = vec2(Num::from(3), Num::from(4));
    let tenth16: Num<16> = Num::from_raw(6553);
    assert!(n.magnitude().sub(Num::from(5)).abs().to_raw() < tenth16.to_raw());

    let n: Vector2D<Num<8>> = vec2(Num::from(3), Num::from(4));
    let tenth8: Num<8> = Num::from_raw(25);
    assert!(n.magnitude().sub(Num::from(5)).abs().to_raw() < tenth8.to_raw());
}

#[test]
fn fast_magnitude_is_close() {
    let n: Vector2D<Num<8>> = vec2(Num::from(3), Num::from(4));
    let m = n.fast_magnitude();
    // within four percent of 5
    assert!((m.to_raw() - 5 * 256).abs() < 5 * 256 * 4 / 100);
    // 4 * 0.9604 + 3 * 0.3978, each factor cut down to 8 bits
    let a = 1031258015 >> 22;
    let b = 427161056 >> 22;
    assert_eq!(m.to_raw(), 4 * a + 3 * b);
}

#[test]
fn normalise_gives_unit_length() {
    let n: Vector2D<Num<8>> = vec2(Num::from(3), Num::from(4));
    let u = n.normalise();
    assert_eq!(u.x, Num::from_raw(3 * 256 / 5));
    assert_eq!(u.y, Num::from_raw(4 * 256 / 5));
    let f = n.fast_normalise();
    assert!(f.x.to_raw() > 0 && f.y.to_raw() > f.x.to_raw());
}

#[test]
fn cos_and_sin_of_quarter_turns() {
    let zero: Num<8> = Num::from(0);
    let quarter: Num<8> = Num::from_raw(64);
    let half: Num<8> = Num::from_raw(128);
    assert_eq!(zero.cos(), Num::from(1));
    assert_eq!(half.cos(), Num::from(-1));
    assert_eq!(quarter.cos(), Num::from(0));
    assert_eq!(zero.sin(), Num::from(0));
    // the sine is taken as the cosine a quarter turn further on
    assert_eq!(quarter.sin(), half.cos());
    assert_eq!(quarter.sin(), Num::from(-1));
    let v = Vector2D::<Num<8>>::new_from_angle(zero);
    assert_eq!(v.x, Num::from(1));
    assert_eq!(v.y, Num::from(0));
}

#[test]
fn cos_follows_the_corrected_parabola() {
    let eighth: Num<8> = Num::from_raw(32);
    let c = eighth.cos().to_raw() as f64 / 256.0;
    assert!((c - 0.7071).abs() < 0.02);
    assert_eq!(eighth.cos().to_raw(), 181);
    for raw in 0..=256 {
        let x: Num<8> = Num::from_raw(raw);
        let exact = (2.0 * std::f64::consts::PI * raw as f64 / 256.0).cos();
        let got = x.cos().to_raw() as f64 / 256.0;
        assert!((got - exact).abs() < 0.02, "cos of {} is {}, not {}", raw, got, exact);
    }
}

#[test]
fn cos_repeats_every_turn() {
    for raw in -600..600 {
        let x: Num<8> = Num::from_raw(raw);
        let y: Num<8> = Num::from_raw(raw + 256);
        assert_eq!(x.cos(), y.cos());
    }
}

#[test]
fn test_vector_multiplication_and_division() {
    let a: Vector2D<i32> = vec2(1, 2);
    let b = a.mul(5);
    let c = b.div(5);
    assert_eq!(b, vec2(5, 10));
    assert_eq!(a, c);
}

#[test]
fn test_vector_changing() {
    let v1: Vector2D<Num<8>> = Vector2D::new(Num::from(1), Num::from(2));
    let v2 = v1.trunc();
    assert_eq!(v2.get(), (1, 2));
    assert_eq!(v1.add(v1), v2.add(v2).change_base::<8>());
}

#[test]
fn rect_overlap_and_points() {
    let a = Rect::new(vec2(0, 0), vec2(10, 10));
    let b = Rect::new(vec2(5, 5), vec2(10, 10));
    assert!(a.touches(b));
    let o = a.overlapping_rect(b);
    assert_eq!(o.position, vec2(5, 5));
    assert_eq!(o.size, vec2(5, 5));
    assert!(a.contains_point(vec2(1, 1)));
    assert!(!a.contains_point(vec2(0, 0)));
    let c = Rect::new(vec2(20, 20), vec2(1, 1));
    assert!(!a.touches(c));
    let cells = Rect::new(vec2(1, 2), vec2(1, 1)).iter();
    assert_eq!(cells, vec![(1, 2), (1, 3), (2, 2), (2, 3)]);
}

#[test]
fn floor_and_fraction() {
    let n: Num<8> = Num::from_raw(-384);
    assert_eq!(n.floor(), -2);
    assert_eq!(n.trunc(), -1);
    assert_eq!(n.frac(), 128);
    let m: Num<8> = Num::new_from_parts((1, 1 << 29));
    assert_eq!(m.to_raw(), 256 + 128);
}

#[test]
fn formats_whole_numbers_correctly() {
    let a = Num::<8>::new(-4);
    assert_eq!(a.to_string(), "-4");
    assert_eq!(Num::<8>::new(0).to_string(), "0");
    assert_eq!(Num::<0>::from_raw(i32::MIN).to_string(), "-2147483648");
}

#[test]
fn formats_fractions_correctly() {
    let a = Num::<8>::new(5);
    let two = Num::<8>::new(4);
    let minus_one = Num::<8>::new(-1);
    let b: Num<8> = a.div(two);
    let c: Num<8> = b.mul(minus_one);
    assert_eq!(b.add(c), Num::from(0));
    assert_eq!(b.to_string(), "1.25");
    assert_eq!(c.to_string(), "-1.25");
    assert_eq!(Num::<8>::from_raw(1).to_string(), "0.00390625");
    assert_eq!(Num::<4>::from_raw(-33).to_string(), "-2.0625");
}

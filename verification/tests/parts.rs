use wavesim::absorb::mult_of_dist;
use wavesim::bool_field::BoolField;
use wavesim::cell::Cell;
use wavesim::color::Color;
use wavesim::complex::Complex;
use wavesim::complex_field::ComplexField;
use wavesim::coord::Coord;
use wavesim::fixed::{fx_add, fx_div, fx_mul, fx_neg, fx_sub, FX_MAX, FX_MIN, FX_ONE};
use wavesim::fixmath::{cos_fx, exp_neg, isqrt_u128, sin_fx, FX_PI};
use wavesim::float_field::FloatField;
use wavesim::pixel::Pixel;

#[test]
fn fixed_point_arithmetic_is_exact_on_small_values() {
    // 2 * 1.5 == 3 and 3 / 2 == 1.5, exactly.
    assert_eq!(fx_mul(131072, 98304), 196608);
    assert_eq!(fx_div(196608, 131072), 98304);
    assert_eq!(fx_add(65536, -32768), 32768);
    assert_eq!(fx_sub(65536, 98304), -32768);
    assert_eq!(fx_neg(-65536), 65536);
    // Multiplying by one changes nothing; by zero gives zero.
    assert_eq!(fx_mul(FX_ONE, -123456789), -123456789);
    assert_eq!(fx_mul(0, i64::MAX), 0);
}

#[test]
fn fixed_point_arithmetic_saturates() {
    assert_eq!(fx_add(FX_MAX, 1), FX_MAX);
    assert_eq!(fx_sub(FX_MIN, 1), FX_MIN);
    assert_eq!(fx_neg(i64::MIN), FX_MAX);
    assert_eq!(fx_mul(FX_MAX, 131072), FX_MAX);
    assert_eq!(fx_mul(FX_MAX, -131072), FX_MIN);
}

#[test]
fn exponential_is_one_at_zero_and_decays() {
    assert_eq!(exp_neg(0), FX_ONE);
    let a = exp_neg(81);
    let b = exp_neg(8100);
    assert!(a < FX_ONE);
    assert!(b < a);
    assert!(b > 0);
    assert_eq!(exp_neg(0x100_0000), 0);
}

#[test]
fn integer_square_root_brackets_its_input() {
    assert_eq!(isqrt_u128(0), 0);
    assert_eq!(isqrt_u128(144), 12);
    assert_eq!(isqrt_u128(145), 12);
    assert_eq!(isqrt_u128(168), 12);
    assert_eq!(isqrt_u128(169), 13);
    // One cell of distance, scaled into the fixed-point format.
    assert_eq!(isqrt_u128(1u128 << 32), 65536);
}

#[test]
fn trig_is_exact_at_zero_and_bounded() {
    assert_eq!(cos_fx(0), FX_ONE);
    assert_eq!(sin_fx(0), 0);
    for t in [-411775i64, -205887, -100000, -1, 1, 100000, 205887, 411775, 1000000] {
        assert!(cos_fx(t) <= FX_ONE && cos_fx(t) >= -FX_ONE);
        assert!(sin_fx(t) <= FX_ONE && sin_fx(t) >= -FX_ONE);
    }
    // A quarter turn to the left and to the right agree in cosine.
    assert_eq!(cos_fx(FX_PI / 2), cos_fx(-(FX_PI / 2)));
}

#[test]
fn multiplier_conversion_matches_the_exponential() {
    assert_eq!(mult_of_dist(0, 25), FX_ONE);
    assert_eq!(mult_of_dist(25, 25), 0);
    let one_step = mult_of_dist(1, 25);
    assert!(one_step < FX_ONE);
    assert!(one_step > 60000);
    assert!(mult_of_dist(2, 25) < one_step);
}

#[test]
fn complex_arithmetic_follows_the_field_rules() {
    // (1 + 2i) * (3 + 4i) == -5 + 10i, exactly in fixed point.
    let a = Complex::new(65536, 131072);
    let b = Complex::new(196608, 262144);
    assert_eq!(a.mul(&b), Complex::new(-327680, 655360));
    assert_eq!(a.add(&b), Complex::new(262144, 393216));
    assert_eq!(a.sub(&b), Complex::new(-131072, -131072));
    assert_eq!(a.conj(), Complex::new(65536, -131072));
    // |1 + 2i|^2 == 5.
    assert_eq!(a.norm(), 327680);
    assert_eq!(Complex::zero(), Complex::default());
}

#[test]
fn complex_field_process_with_zero_timestep_swaps() {
    let mut f = ComplexField::new(3, 3);
    f.set(1, 1, Complex::new(100, 200));
    f.process(1, 1, FX_ONE, 0, 0);
    assert_eq!(*f.get(1, 1), Complex::new(200, 100));
    assert_eq!(f.height(), 3);
    f.reset();
    assert_eq!(*f.get(1, 1), Complex::new(0, 0));
}

#[test]
fn complex_field_process_applies_the_stencil() {
    // dt = 1, potential 0, multiplier 1, center (re=1, im=0), neighbors 0:
    // laplacian_re = -4, so re' = 0 + 1 * (-1/2 * -4) = 2; im' = 1.
    let mut f = ComplexField::new(3, 3);
    f.set(1, 1, Complex::new(65536, 0));
    f.process(1, 1, FX_ONE, 65536, 0);
    assert_eq!(*f.get(1, 1), Complex::new(131072, 65536));
}

#[test]
fn float_field_laplacian_reader() {
    let mut f = FloatField::new(3, 3);
    f.set(1, 1, 65536);
    assert_eq!(f.del2(1, 1), -262144);
    f.set(1, 0, 65536);
    assert_eq!(f.del2(1, 1), -196608);
    let copy = f.set_equal_to(f.clone());
    assert_eq!(copy.get(1, 0), 65536);
    assert_eq!(copy.width, 3);
}

#[test]
fn bool_field_stores_and_derives_height() {
    let mut f = BoolField::new(4, 2);
    assert_eq!(f.height(), 2);
    assert!(!f.get(3, 1));
    f.set(3, 1, true);
    assert!(f.get(3, 1));
    assert!(!f.get(2, 1));
}

#[test]
fn colors_and_cells() {
    let w = Color::white();
    assert!(w.is_white());
    let c = Color::new(10, 20, 30);
    assert!(!c.is_white());
    assert_eq!(c.complementary(), Color::new(245, 235, 225));
    let _anything = Color::random();
    let mut cell = Cell::new(c);
    cell.toggle();
    assert_eq!(cell.color, Color::new(245, 235, 225));
    cell.toggle();
    assert_eq!(cell.color, c);
}

#[test]
fn pixel_carries_coord_and_value() {
    let p = Pixel::new(Coord::new(3, 4), 7);
    assert_eq!(p.coord, Coord::new(3, 4));
    assert_eq!(p.val, 7);
}

#[test]
fn coord_neighbors_are_the_four_axis_cells() {
    let c = Coord::new(2, 3);
    assert_eq!(c.top(), Coord::new(2, 2));
    assert_eq!(c.bottom(), Coord::new(2, 4));
    assert_eq!(c.left(), Coord::new(1, 3));
    assert_eq!(c.right(), Coord::new(3, 3));
    let n = c.neighbors();
    assert_eq!(n[0], c.top());
    assert_eq!(n[1], c.bottom());
    assert_eq!(n[2], c.left());
    assert_eq!(n[3], c.right());
}

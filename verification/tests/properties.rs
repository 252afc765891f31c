use wavesim::coord::Coord;
use wavesim::complex::Complex;
use wavesim::fixed::FX_ONE;
use wavesim::Universe;

/// On an open grid with no walls and no sinks, every cell's multiplier is
/// exactly 1: distance 0 gives exp(0) = 1 with no rounding.
#[test]
fn open_grid_multiplier_is_exactly_one() {
    let mut u = Universe::new(5, 5);
    u.setup_sink_mult();
    for v in u.sink_mult.data.iter() {
        assert_eq!(*v, FX_ONE);
    }
}

/// With one sink cell surrounded by free cells, the multiplier at the sink
/// is strictly below 1 while every free cell keeps exactly 1.
#[test]
fn single_sink_is_damped_more_than_free_cells() {
    let mut u = Universe::new(5, 5);
    u.sinks.set(Coord::new(2, 2), true);
    u.setup_sink_mult();
    for y in 0..5i32 {
        for x in 0..5i32 {
            let m = *u.sink_mult.get(Coord::new(x, y)).unwrap();
            if x == 2 && y == 2 {
                assert!(m < FX_ONE);
                assert!(m > 60000);
            } else {
                assert_eq!(m, FX_ONE);
            }
        }
    }
}

/// Deeper inside a sink region the multiplier only falls: it never
/// increases with distance from the free cells.
#[test]
fn multiplier_never_increases_with_depth() {
    let mut u = Universe::new(7, 7);
    for y in 1..6i32 {
        for x in 1..6i32 {
            u.sinks.set(Coord::new(x, y), true);
        }
    }
    u.setup_sink_mult();
    let edge = *u.sink_mult.get(Coord::new(1, 1)).unwrap(); // distance 1
    let mid = *u.sink_mult.get(Coord::new(2, 2)).unwrap(); // distance 2
    let core = *u.sink_mult.get(Coord::new(3, 3)).unwrap(); // distance 3
    let free = *u.sink_mult.get(Coord::new(0, 0)).unwrap();
    assert_eq!(free, FX_ONE);
    assert!(edge < free);
    assert!(mid < edge);
    assert!(core < mid);
}

/// Normalization pins the maximum at exactly 0 and keeps all pairwise
/// differences.
#[test]
fn normalization_zeroes_the_maximum_and_keeps_differences() {
    let mut u = Universe::new(5, 5);
    u.add_potential_cone(2, 2, 196608, 65536);
    u.add_potential_well(1, 1, 131072, 65536);
    let before = u.potential_level.data.clone();
    u.ensure_no_positive_potential();
    let after = u.potential_level.data.clone();
    assert_eq!(u.potential_level.max(), 0);
    for i in 0..before.len() {
        for j in 0..before.len() {
            assert_eq!(after[i] - after[j], before[i] - before[j]);
        }
    }
}

/// With both slopes zero the tilt contribution is zero everywhere: the
/// potential cache equals the level potential exactly.
#[test]
fn zero_slope_cache_equals_level() {
    let mut u = Universe::new(5, 5);
    u.add_potential_cone(2, 2, 196608, 65536);
    u.ensure_no_positive_potential();
    u.reset_potential_cache(0, 0);
    assert_eq!(u.potential_cache.data, u.potential_level.data);
}

/// An unmodulated Gaussian is purely real, radially symmetric around its
/// center, and decreasing outward.
#[test]
fn gaussian_is_radial_and_decreasing() {
    let mut u = Universe::new(5, 5);
    u.add_gaussian(Coord::new(2, 2), 65536, 0, 0, 65536);
    let at = |x: i32, y: i32| -> Complex { *u.quantum.get(Coord::new(x, y)).unwrap() };
    for y in 0..5i32 {
        for x in 0..5i32 {
            assert_eq!(at(x, y).im, 0);
        }
    }
    let center = at(2, 2).re;
    let ring = at(1, 2).re;
    let diag = at(1, 1).re;
    assert!(center > 0);
    // Equal squared distance, equal contribution.
    assert_eq!(ring, at(3, 2).re);
    assert_eq!(ring, at(2, 1).re);
    assert_eq!(ring, at(2, 3).re);
    assert_eq!(diag, at(3, 3).re);
    assert_eq!(diag, at(1, 3).re);
    assert_eq!(diag, at(3, 1).re);
    // Farther out, smaller.
    assert!(center > ring);
    assert!(ring > diag);
    assert!(diag >= 0);
}

/// With a zero timestep one step swaps the components through the
/// multiplier: `(re, im)` becomes `(im, re)` wherever the multiplier is 1,
/// so the magnitude is unchanged.
#[test]
fn zero_timestep_swaps_components() {
    let mut u = Universe::new(5, 5);
    u.setup();
    u.quantum.set(Coord::new(2, 2), Complex::new(1000, -2000));
    u.quantum.set(Coord::new(1, 2), Complex::new(300, 77));
    u.dt = 0;
    u.step();
    assert_eq!(*u.quantum.get(Coord::new(2, 2)).unwrap(), Complex::new(-2000, 1000));
    assert_eq!(*u.quantum.get(Coord::new(1, 2)).unwrap(), Complex::new(77, 300));
}

/// A wall cell's field value is exactly zero after setup and stays zero
/// through any number of steps.
#[test]
fn wall_cells_stay_zero() {
    let mut u = Universe::new(6, 6);
    u.walls.set(Coord::new(2, 2), true);
    u.walls.set(Coord::new(3, 4), true);
    u.add_gaussian(Coord::new(2, 2), 65536, 0, 0, 65536);
    u.setup();
    assert_eq!(*u.quantum.get(Coord::new(2, 2)).unwrap(), Complex::new(0, 0));
    assert_eq!(*u.quantum.get(Coord::new(3, 4)).unwrap(), Complex::new(0, 0));
    for _ in 0..10 {
        u.step();
    }
    assert_eq!(*u.quantum.get(Coord::new(2, 2)).unwrap(), Complex::new(0, 0));
    assert_eq!(*u.quantum.get(Coord::new(3, 4)).unwrap(), Complex::new(0, 0));
}

/// The outer ring acts as a fixed boundary: a step never touches it.
#[test]
fn border_ring_never_evolves() {
    let mut u = Universe::new(5, 5);
    u.setup();
    u.quantum.set(Coord::new(0, 3), Complex::new(123, 456));
    u.quantum.set(Coord::new(4, 0), Complex::new(-9, 8));
    u.step();
    assert_eq!(*u.quantum.get(Coord::new(0, 3)).unwrap(), Complex::new(123, 456));
    assert_eq!(*u.quantum.get(Coord::new(4, 0)).unwrap(), Complex::new(-9, 8));
}

/// The interactive perturbation injects a real packet at the given cell.
#[test]
fn toggle_cell_injects_a_packet() {
    let mut u = Universe::new(7, 7);
    u.setup();
    u.toggle_cell(3, 3);
    let c = *u.quantum.get(Coord::new(3, 3)).unwrap();
    assert!(c.re > 0);
    assert_eq!(c.im, 0);
}

/// A fresh universe renders as full white in both grayscale buffers.
#[test]
fn zero_potential_renders_white() {
    let u = Universe::new(3, 3);
    let level = u.potential_level();
    let cache = u.potential_cache();
    assert_eq!(level.len(), 27);
    assert_eq!(cache.len(), 27);
    for b in level.iter() {
        assert_eq!(*b, 255u8);
    }
    for b in cache.iter() {
        assert_eq!(*b, 255u8);
    }
}

/// Wall and sink mutators flip exactly the addressed cell.
#[test]
fn wall_and_sink_mutators() {
    let mut u = Universe::new(4, 4);
    u.set_wall(Coord::new(1, 2), true);
    u.set_sink(Coord::new(3, 0), true);
    assert!(u.is_wall(Coord::new(1, 2)));
    assert!(!u.is_wall(Coord::new(2, 1)));
    assert!(u.is_sink(Coord::new(3, 0)));
    assert!(!u.is_sink(Coord::new(0, 3)));
    u.set_wall(Coord::new(1, 2), false);
    assert!(!u.is_wall(Coord::new(1, 2)));
}

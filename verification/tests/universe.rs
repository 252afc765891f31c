use wavesim::coord::Coord;
use wavesim::Universe;

#[test]
fn test_universe_creation() {
    let u = Universe::new(5, 5);
    assert_eq!(u.width, 5);
    assert_eq!(u.height, 5);
    assert_eq!(u.quantum.data.len(), 25);
}

#[test]
fn test_setup_walls_submask() {
    let mut u = Universe::new(5, 5);
    u.walls.set(Coord::new(1, 1), true);
    u.walls.set(Coord::new(2, 2), true);
    u.setup_walls();
    println!("{:?}", u.walls.data);
    assert_eq!(u.quantum.data.len(), 25);
}

#[test]
fn setup_sink_mult() {
    let mut u = Universe::new(5, 5);
    u.setup_sink_mult();
    println!("{:?}", u.sink_mult.data);
}

/// Injecting Gaussian packets superposes onto the field.
#[test]
fn adding_gaussian_to_quantum() {
    let mut u = Universe::new(10, 10);
    u.add_gaussian(Coord::new(4, 4), 78643, 0, 0, 65536);
    u.add_gaussian(Coord::new(8, 8), 65536, 0, 0, 45875);
    println!("{:?}", u.quantum.data);
}

#[test]
fn adding_potential_cone() {
    let mut u = Universe::new(5, 5);
    u.add_potential_cone(2, 2, 196608, 65536);
    u.ensure_no_positive_potential();
    println!("{:?}", u.potential_level.data);
}

#[test]
fn adding_potential_well() {
    let mut u = Universe::new(5, 5);
    u.add_potential_well(2, 2, 196608, 65536);
    u.ensure_no_positive_potential();
    println!("{:?}", u.potential_level.data);
}

#[test]
fn adding_potential_well_and_cone() {
    let mut u = Universe::new(5, 5);
    u.add_potential_cone(2, 2, 196608, 65536);
    u.add_potential_well(2, 2, 196608, 65536);
    u.ensure_no_positive_potential();
    println!("{:?}", u.potential_level.data);
}

#[test]
fn reset_potential_cache() {
    let mut u = Universe::new(5, 5);
    u.add_potential_cone(2, 2, 196608, 65536);
    u.add_potential_well(2, 2, 196608, 65536);
    u.ensure_no_positive_potential();
    u.reset_potential_cache(0, 0);
    println!("{:?}", u.potential_cache.data);
}

#[test]
fn setup() {
    let mut u = Universe::new(5, 5);
    u.setup();
    println!("{:?}", u.quantum.data);
}

#[test]
fn steps() {
    let mut u = Universe::new(5, 5);
    u.setup();
    u.add_gaussian(Coord::new(2, 2), 65536, 0, 0, 65536);
    for _i in 0..20 {
        u.step();
        println!("{:?}", u.quantum.data);
    }
}

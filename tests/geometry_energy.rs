use solar_swarm::energy::{pair_energy, total_energy};
use solar_swarm::engine::calculate_energy;
use solar_swarm::geometry::{isqrt, Point, COORD_LIMIT};
use solar_swarm::model::SolarPanel;

fn panel_at(x: i64, y: i64, z: i64) -> SolarPanel {
    SolarPanel::new(Point::new(x, y, z), 100, 80_000, 0, 1000)
}

#[test]
fn squared_distance_is_exact() {
    let a = Point::new(1000, 2000, -3000);
    let b = Point::new(-2000, 6000, 9000);
    assert_eq!(a.distance_sq(&b), 9_000_000 + 16_000_000 + 144_000_000);
    assert_eq!(b.distance_sq(&a), a.distance_sq(&b));
    assert_eq!(a.distance_sq(&a), 0);
}

#[test]
fn squared_distance_across_the_whole_box() {
    let a = Point::new(COORD_LIMIT, COORD_LIMIT, COORD_LIMIT);
    let b = Point::new(-COORD_LIMIT, -COORD_LIMIT, -COORD_LIMIT);
    let side = 2 * COORD_LIMIT as u128;
    assert_eq!(a.distance_sq(&b), 3 * side * side);
}

#[test]
fn offset_moves_each_axis() {
    let p = Point::new(10, 20, 30).offset_by(-5, 0, 7);
    assert_eq!(p, Point::new(5, 20, 37));
}

#[test]
fn integer_square_roots() {
    assert_eq!(isqrt(0), 0);
    assert_eq!(isqrt(1), 1);
    assert_eq!(isqrt(15), 3);
    assert_eq!(isqrt(16), 4);
    assert_eq!(isqrt(500_000_000_000), 707_106);
    assert_eq!(isqrt(u64::MAX as u128), 4_294_967_295);
    assert_eq!(isqrt(u128::MAX), u64::MAX as u128);
}

#[test]
fn pair_energy_is_inverse_distance() {
    // one distance unit apart: energy one, in units of 10^-16
    assert_eq!(pair_energy(1_000_000), 10_000_000_000_000_000);
    // two units apart: one half
    assert_eq!(pair_energy(4_000_000), 5_000_000_000_000_000);
    // one fixed-point unit apart: the largest pair energy
    assert_eq!(pair_energy(1), 10_000_000_000_000_000_000);
}

#[test]
fn energy_of_three_panels_at_known_coordinates() {
    let points = vec![Point::new(0, 0, 0), Point::new(1000, 0, 0), Point::new(0, 1000, 0)];
    let e = total_energy(&points).unwrap();
    // 1/1 + 1/1 + 1/sqrt(2), each term in units of 10^-16 rounded down
    assert_eq!(e, 10_000_000_000_000_000 + 10_000_000_000_000_000 + 7_071_067_811_865_475);
    let exact = 1.0 + 1.0 + 1.0 / 2f64.sqrt();
    assert!((e as f64 / 1e16 - exact).abs() < 1e-12);
}

#[test]
fn energy_of_panels_matches_energy_of_positions() {
    let panels = vec![panel_at(0, 0, 0), panel_at(1000, 0, 0), panel_at(0, 1000, 0)];
    assert_eq!(calculate_energy(&panels), Some(27_071_067_811_865_475));
}

#[test]
fn energy_of_coincident_points_is_undefined() {
    let points = vec![Point::new(0, 0, 0), Point::new(5000, 0, 0), Point::new(0, 0, 0)];
    assert_eq!(total_energy(&points), None);
}

#[test]
fn energy_of_empty_and_single_configurations_is_zero() {
    assert_eq!(total_energy(&vec![]), Some(0));
    assert_eq!(total_energy(&vec![Point::new(3, 4, 5)]), Some(0));
}

#[test]
fn far_apart_panels_still_have_positive_energy() {
    // two million distance units apart
    let panels = vec![panel_at(0, 0, 0), panel_at(2_000_000_000, 0, 0)];
    assert_eq!(calculate_energy(&panels), Some(5_000_000_000));
    // opposite corners of the coordinate box
    let corners = vec![
        Point::new(COORD_LIMIT, COORD_LIMIT, COORD_LIMIT),
        Point::new(-COORD_LIMIT, -COORD_LIMIT, -COORD_LIMIT),
    ];
    assert_eq!(total_energy(&corners), Some(2));
}

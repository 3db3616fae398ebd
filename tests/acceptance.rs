use rand::rngs::StdRng;
use rand::SeedableRng;
use solar_swarm::energy::ENERGY_SCALE;
use solar_swarm::metropolis::{accepts, boltzmann, cool_down, PROBABILITY_ONE};
use solar_swarm::model::Config;
use solar_swarm::simulation::draw_trials;

#[test]
fn boltzmann_factor_edges() {
    assert_eq!(boltzmann(0, 1500), PROBABILITY_ONE);
    assert_eq!(boltzmann(1, 0), 0);
    assert_eq!(boltzmann(1, -20), 0);
    // exponent 64 and beyond counts as zero
    assert_eq!(boltzmann(64 * ENERGY_SCALE as u128 * 1500, 1500), 0);
    // a rise far below the temperature leaves the factor at one
    assert_eq!(boltzmann(1, 1), PROBABILITY_ONE);
}

#[test]
fn boltzmann_factor_tracks_the_exponential() {
    for (a, temp) in [(1.0f64, 1500i64), (0.3, 1), (2.0, 1), (10.0, 1000)] {
        let delta = (a * temp as f64 * ENERGY_SCALE as f64) as u128;
        let f = boltzmann(delta, temp) as f64 / PROBABILITY_ONE as f64;
        let exact = (-a).exp();
        assert!((f - exact).abs() <= 2e-3 * exact + 1e-9, "{} {} {}", delta, f, exact);
    }
}

#[test]
fn energy_that_does_not_rise_is_always_accepted() {
    let top = (PROBABILITY_ONE - 1) as i64;
    assert!(accepts(10, 10, 1500, top));
    assert!(accepts(10, 3, 1500, top));
    assert!(accepts(10, 3, 0, top));
    assert!(accepts(10, 3, -5, 0));
}

#[test]
fn rise_is_accepted_exactly_below_the_boltzmann_factor() {
    let f = boltzmann(15_000_000_000_000_000_000, 1500) as i64;
    assert!(accepts(0, 15_000_000_000_000_000_000, 1500, f - 1));
    assert!(!accepts(0, 15_000_000_000_000_000_000, 1500, f));
    assert!(accepts(0, 15_000_000_000_000_000_000, 1500, 0));
}

#[test]
fn rise_is_never_accepted_without_positive_temperature() {
    assert!(!accepts(0, 1, 0, 0));
    assert!(!accepts(0, 1, -100, 0));
}

#[test]
fn seeded_draw_decides_acceptance_against_exponential() {
    let mut rng = StdRng::seed_from_u64(2024);
    let draws = draw_trials(&mut rng, 0, 64);
    let delta: u128 = 15_000_000_000_000_000_000;
    let f = boltzmann(delta, 1500) as i64;
    let bound = (-1.0f64).exp();
    for d in draws {
        let accepted = accepts(0, delta, 1500, d.u);
        assert_eq!(accepted, d.u < f);
        let u = d.u as f64 / PROBABILITY_ONE as f64;
        if (u - bound).abs() > 1e-4 {
            assert_eq!(accepted, u <= bound);
        }
    }
}

#[test]
fn recovery_from_1600_cools_to_target() {
    let cfg = Config::reference();
    assert_eq!(cool_down(1600, &cfg), (1000, 40));
}

#[test]
fn recovery_stops_at_its_bound_and_still_reaches_target() {
    let mut cfg = Config::reference();
    cfg.cooling_bound = 5;
    let (t, steps) = cool_down(1600, &cfg);
    assert_eq!(steps, 5);
    assert_eq!(t, 1000);
    cfg.overheat_decrement = 0;
    cfg.cooling_bound = 100;
    assert_eq!(cool_down(1600, &cfg), (1000, 100));
}

#[test]
fn cooling_overshoots_below_target_by_less_than_a_step() {
    let cfg = Config::reference();
    assert_eq!(cool_down(1507, &cfg), (997, 34));
    assert_eq!(cool_down(900, &cfg), (900, 0));
}

#[test]
fn reference_settings() {
    let cfg = Config::reference();
    assert_eq!(cfg.star_exclusion, 6000);
    assert_eq!(cfg.min_separation, 2000);
    assert_eq!(cfg.neighbor_radius, 20000);
    assert_eq!(cfg.energy_warn, 5000);
    assert_eq!(cfg.overheat_threshold, 1500);
    assert_eq!(cfg.cool_target, 1000);
    assert_eq!(cfg.overheat_decrement, 15);
    assert_eq!(cfg.standoff_margin, 5000);
    assert_eq!(cfg.trials, 100);
    assert_eq!(cfg.rounds, 10);
    assert_eq!(cfg.repair_bound, 10);
    assert_eq!(cfg.cooling_bound, 100);
}

#[test]
fn draws_stay_within_thruster_range() {
    let mut rng = StdRng::seed_from_u64(9);
    let draws = draw_trials(&mut rng, 1000, 200);
    assert_eq!(draws.len(), 200);
    for d in &draws {
        assert!(-1000 <= d.dx && d.dx <= 1000);
        assert!(-1000 <= d.dy && d.dy <= 1000);
        assert!(-1000 <= d.dz && d.dz <= 1000);
        assert!(0 <= d.u && (d.u as u64) < PROBABILITY_ONE);
    }
    assert!(draws.iter().any(|d| d.dx != draws[0].dx));
}

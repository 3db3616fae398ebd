use solar_swarm::driver::{count_neighbors, process_panel, run_round};
use solar_swarm::engine::{
    positions_of, push_clear, recover, trial, TrialDraw, Verdict,
};
use solar_swarm::geometry::{Point, COORD_LIMIT};
use solar_swarm::metropolis::PROBABILITY_ONE;
use solar_swarm::model::{CelestialBody, Config, SolarPanel};

const FAR: Point = Point { x: 1_000_000_000, y: 0, z: 0 };
const TOP: i64 = (PROBABILITY_ONE - 1) as i64;

fn panel(x: i64, y: i64, z: i64, temperature: i64) -> SolarPanel {
    SolarPanel::new(Point::new(x, y, z), temperature, 80_000, 0, 1000)
}

fn draw(dx: i64, dy: i64, dz: i64, u: i64) -> TrialDraw {
    TrialDraw { dx, dy, dz, u }
}

fn min_pair_distance_sq(panels: &[SolarPanel]) -> u128 {
    let mut m = u128::MAX;
    for i in 0..panels.len() {
        for j in i + 1..panels.len() {
            m = m.min(panels[i].position.distance_sq(&panels[j].position));
        }
    }
    m
}

#[test]
fn energy_lowering_move_is_taken() {
    let cfg = Config::reference();
    let mut panels = vec![panel(0, 0, 0, 1), panel(3000, 0, 0, 1)];
    let out = trial(&mut panels, 1, &FAR, &cfg, &draw(1000, 0, 0, TOP));
    assert_eq!(out.verdict, Verdict::Accepted);
    assert!(!out.recovered);
    assert_eq!(panels[1].position, Point::new(4000, 0, 0));
    assert_eq!(panels[0].position, Point::new(0, 0, 0));
}

#[test]
fn energy_raising_move_is_refused_by_a_high_draw() {
    let cfg = Config::reference();
    let mut panels = vec![panel(0, 0, 0, 1), panel(3000, 0, 0, 1)];
    let out = trial(&mut panels, 1, &FAR, &cfg, &draw(-500, 0, 0, TOP));
    assert_eq!(out.verdict, Verdict::Uphill);
    assert_eq!(panels[1].position, Point::new(3000, 0, 0));
}

#[test]
fn energy_raising_move_is_taken_on_a_low_draw() {
    let cfg = Config::reference();
    let mut panels = vec![panel(0, 0, 0, 1), panel(3000, 0, 0, 1)];
    let out = trial(&mut panels, 1, &FAR, &cfg, &draw(-500, 0, 0, 0));
    assert_eq!(out.verdict, Verdict::Accepted);
    assert_eq!(panels[1].position, Point::new(2500, 0, 0));
}

#[test]
fn move_into_exclusion_zone_is_reverted() {
    let cfg = Config::reference();
    let center = Point::new(10_000, 0, 0);
    let mut panels = vec![panel(0, 0, 0, 100)];
    let out = trial(&mut panels, 0, &center, &cfg, &draw(5000, 0, 0, 0));
    assert_eq!(out.verdict, Verdict::NearStar);
    assert_eq!(panels[0].position, Point::new(0, 0, 0));
}

#[test]
fn move_out_of_the_box_is_reverted() {
    let cfg = Config::reference();
    let mut panels = vec![panel(COORD_LIMIT, 0, 0, 100)];
    let out = trial(&mut panels, 0, &Point::new(0, 0, 0), &cfg, &draw(1, 0, 0, 0));
    assert_eq!(out.verdict, Verdict::OutOfRange);
    assert_eq!(panels[0].position, Point::new(COORD_LIMIT, 0, 0));
}

#[test]
fn repair_pushes_candidate_to_minimum_separation() {
    let cfg = Config::reference();
    let mut panels = vec![panel(0, 0, 0, 1), panel(5000, 0, 0, 1)];
    let out = trial(&mut panels, 1, &FAR, &cfg, &draw(-4000, 0, 0, 0));
    assert_eq!(out.verdict, Verdict::Accepted);
    assert_eq!(panels[1].position, Point::new(2000, 0, 0));
    assert!(min_pair_distance_sq(&panels) >= 2000 * 2000);
}

#[test]
fn exhausted_repair_rejects_the_move() {
    let cfg = Config::reference();
    let mut panels = vec![panel(0, 0, 0, 1), panel(5000, 0, 0, 1)];
    let out = trial(&mut panels, 1, &FAR, &cfg, &draw(-5000, 0, 0, 0));
    assert_eq!(out.verdict, Verdict::RepairExhausted);
    assert_eq!(panels[1].position, Point::new(5000, 0, 0));
}

#[test]
fn push_away_from_coincident_point_runs_out() {
    let cfg = Config::reference();
    let p = Point::new(7, 7, 7);
    assert_eq!(push_clear(p, p, &cfg), None);
    assert_eq!(push_clear(Point::new(500, 0, 0), Point::new(0, 0, 0), &cfg), Some(Point::new(2000, 0, 0)));
    assert_eq!(push_clear(Point::new(9000, 0, 0), Point::new(0, 0, 0), &cfg), Some(Point::new(9000, 0, 0)));
}

#[test]
fn repair_that_breaks_an_earlier_separation_is_rejected() {
    let cfg = Config::reference();
    let mut panels = vec![panel(0, 0, 0, 1), panel(3000, 0, 0, 1), panel(1000, 10_000, 0, 1)];
    let out = trial(&mut panels, 2, &FAR, &cfg, &draw(0, -10_000, 0, 0));
    assert_eq!(out.verdict, Verdict::Unsafe);
    assert_eq!(panels[2].position, Point::new(1000, 10_000, 0));
}

#[test]
fn undefined_energy_skips_the_move() {
    let cfg = Config::reference();
    let mut panels = vec![panel(0, 0, 0, 1), panel(0, 0, 0, 1), panel(100_000, 0, 0, 1)];
    let out = trial(&mut panels, 2, &FAR, &cfg, &draw(1000, 0, 0, 0));
    assert_eq!(out.verdict, Verdict::Degenerate);
    assert_eq!(panels[2].position, Point::new(100_000, 0, 0));
}

#[test]
fn overheating_panel_moves_to_stand_off() {
    let cfg = Config::reference();
    let mut panels = vec![panel(0, 0, 0, 1600)];
    let out = trial(&mut panels, 0, &FAR, &cfg, &draw(0, 0, 0, 0));
    assert_eq!(out.verdict, Verdict::Accepted);
    assert!(out.recovered);
    assert_eq!(panels[0].position, Point::new(-5000, -5000, -5000));
    assert_eq!(panels[0].temperature, 1000);
}

#[test]
fn stand_off_inside_exclusion_zone_keeps_position() {
    let cfg = Config::reference();
    let points = vec![Point::new(0, 0, 0)];
    let center = Point::new(-8000, -8000, -8000);
    let (p, t, ran) = recover(&points, 0, Point::new(0, 0, 0), &panel(0, 0, 0, 1600), &center, &cfg);
    assert!(ran);
    assert_eq!(p, Point::new(0, 0, 0));
    assert_eq!(t, 1000);
}

#[test]
fn recovery_does_not_run_at_threshold() {
    let cfg = Config::reference();
    let points = vec![Point::new(0, 0, 0)];
    let (p, t, ran) = recover(&points, 0, Point::new(0, 0, 0), &panel(0, 0, 0, 1500), &FAR, &cfg);
    assert!(!ran);
    assert_eq!(p, Point::new(0, 0, 0));
    assert_eq!(t, 1500);
}

#[test]
fn neighbours_are_counted_without_the_panel_itself() {
    let cfg = Config::reference();
    let points = vec![Point::new(0, 0, 0), Point::new(19_999, 0, 0), Point::new(20_000, 0, 0)];
    assert_eq!(count_neighbors(&points, 0, &cfg), 1);
    assert_eq!(count_neighbors(&points, 1, &cfg), 2);
}

#[test]
fn processing_refreshes_connectivity_and_flags_low_energy() {
    let cfg = Config::reference();
    let mut low = panel(3000, 0, 0, 1);
    low.energy_level = 1000;
    let mut panels = vec![panel(0, 0, 0, 1), low, panel(50_000, 0, 0, 1)];
    let report = process_panel(&mut panels, 1, &FAR, &cfg, &vec![draw(1000, 0, 0, TOP)]);
    assert!(report.low_energy);
    assert_eq!(report.outcomes.len(), 1);
    assert_eq!(report.outcomes[0].verdict, Verdict::Accepted);
    assert_eq!(panels[1].connectivity, 1);
    assert_eq!(panels[1].position, Point::new(4000, 0, 0));
    let report = process_panel(&mut panels, 0, &FAR, &cfg, &vec![]);
    assert!(!report.low_energy);
    assert!(report.outcomes.is_empty());
}

#[test]
fn round_processes_every_panel_in_order() {
    let cfg = Config::reference();
    let mut panels = vec![panel(0, 0, 0, 1), panel(3000, 0, 0, 1)];
    let draws = vec![vec![draw(-1000, 0, 0, TOP)], vec![draw(1000, 0, 0, TOP)]];
    let reports = run_round(&mut panels, &FAR, &cfg, &draws);
    assert_eq!(reports.len(), 2);
    assert_eq!(panels[0].position, Point::new(-1000, 0, 0));
    assert_eq!(panels[1].position, Point::new(4000, 0, 0));
    assert_eq!(panels[0].connectivity, 1);
}

#[test]
fn positions_are_listed_in_order() {
    let panels = vec![panel(1, 2, 3, 1), panel(4, 5, 6, 1)];
    assert_eq!(positions_of(&panels), vec![Point::new(1, 2, 3), Point::new(4, 5, 6)]);
}

#[test]
fn body_advances_by_its_velocity() {
    let mut body = CelestialBody::new(0, 0, 0, 1, 2, 3);
    assert!(body.update_position(2));
    assert_eq!(body.position, Point::new(2, 4, 6));
    let mut edge = CelestialBody::new(COORD_LIMIT, 0, 0, 1, 0, 0);
    assert!(!edge.update_position(1));
    assert_eq!(edge.position, Point::new(COORD_LIMIT, 0, 0));
}

#[test]
fn panel_accessors_split_the_temperature_roles() {
    let cfg = Config::reference();
    let hot = panel(0, 0, 0, 1501);
    assert!(hot.is_overheating(&cfg));
    assert_eq!(hot.annealing_denominator(), 1501);
    assert!(!panel(0, 0, 0, 1500).is_overheating(&cfg));
    assert!(!hot.is_low_energy(&cfg));
}

#[test]
fn downhill_move_is_taken_within_a_round() {
    let cfg = Config::reference();
    let center = Point::new(100_000, 100_000, 100_000);
    let mut panels = vec![panel(0, 0, 0, 1200), panel(3000, 0, 0, 1200)];
    let draws = vec![vec![draw(-500, 0, 0, TOP)], vec![]];
    let reports = run_round(&mut panels, &center, &cfg, &draws);
    assert_eq!(reports[0].outcomes[0].verdict, Verdict::Accepted);
    assert_eq!(panels[0].position, Point::new(-500, 0, 0));
    assert_eq!(panels[1].position, Point::new(3000, 0, 0));
}

#[test]
fn overheating_panels_end_a_round_cooled() {
    let cfg = Config::reference();
    let mut panels = vec![panel(0, 0, 0, 1600), panel(30_000, 0, 0, 1_000_000_000), panel(60_000, 0, 0, 1400)];
    let draws = vec![vec![draw(0, 0, 0, 0)], vec![draw(10, 0, 0, TOP), draw(0, 10, 0, TOP)], vec![draw(0, 0, 10, 0)]];
    run_round(&mut panels, &FAR, &cfg, &draws);
    assert!(panels[0].temperature <= 1000);
    assert_eq!(panels[1].temperature, 1000);
    assert_eq!(panels[2].temperature, 1400);
}

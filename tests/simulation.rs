use rand::rngs::StdRng;
use rand::SeedableRng;
use solar_swarm::geometry::Point;
use solar_swarm::model::{CelestialBody, Config, SolarPanel, SolarSwarm};
use solar_swarm::simulation::{rearrange_panels_hyperion, simulate};

fn ring() -> Vec<SolarPanel> {
    let mut panels = Vec::new();
    for k in 0..8i64 {
        let p = Point::new(10_000 + 3000 * k, (k % 3) * 4000, -(k % 2) * 5000);
        panels.push(SolarPanel::new(p, 1300 + 50 * k, 70_000 + k, 0, 1000));
    }
    panels
}

fn separated(panels: &[SolarPanel], min: u128) -> bool {
    for i in 0..panels.len() {
        for j in i + 1..panels.len() {
            if panels[i].position.distance_sq(&panels[j].position) < min * min {
                return false;
            }
        }
    }
    true
}

#[test]
fn same_seed_gives_same_swarm() {
    let cfg = Config::reference();
    let mut a = SolarSwarm::new("Hyperion", ring());
    let mut b = SolarSwarm::new("Hyperion", ring());
    let mut body_a = CelestialBody::new(0, 0, 0, 0, 47, 0);
    let mut body_b = body_a;
    simulate(&mut a, &mut body_a, &cfg, &mut StdRng::seed_from_u64(11));
    simulate(&mut b, &mut body_b, &cfg, &mut StdRng::seed_from_u64(11));
    assert_eq!(a.solar_panels, b.solar_panels);
    assert_eq!(body_a, body_b);
    assert_eq!(a.name, "Hyperion");
    assert_ne!(a.solar_panels, ring());
}

#[test]
fn a_round_keeps_constraints_and_advances_the_body() {
    let cfg = Config::reference();
    let mut swarm = SolarSwarm::new("Hyperion", ring());
    let mut body = CelestialBody::new(0, 0, 0, 0, 5, 0);
    assert!(separated(&swarm.solar_panels, 2000));
    let reports = rearrange_panels_hyperion(&mut swarm, &mut body, &cfg, &mut StdRng::seed_from_u64(3));
    assert_eq!(reports.len(), 8);
    assert!(reports.iter().all(|r| r.outcomes.len() == 100 && !r.low_energy));
    assert_eq!(body.position, Point::new(0, 5, 0));
    assert!(separated(&swarm.solar_panels, 2000));
    let center = Point::new(0, 0, 0);
    for p in &swarm.solar_panels {
        assert!(p.position.distance_sq(&center) >= 6000 * 6000);
        assert!(p.temperature <= 1500);
    }
}

use vstd::prelude::*;

use crate::geometry::{in_box, in_range, Point, COORD_LIMIT};

verus! {

/// Largest magnitude a temperature (in degrees) may take.
pub const TEMP_LIMIT: i64 = 1_000_000_000;

/// Tunable constants of the repositioning engine. Lengths are in fixed-point
/// length units (thousandths of a distance unit), temperatures in degrees.
#[derive(Clone, Copy, Debug, PartialEq, Eq, Structural)]
pub struct Config {
    /// Minimum allowed distance between a panel and the central body.
    pub star_exclusion: i64,
    /// Minimum allowed distance between two panels.
    pub min_separation: i64,
    /// Radius within which another panel counts as a neighbour.
    pub neighbor_radius: i64,
    /// Energy level below which a panel reports low energy.
    pub energy_warn: i64,
    /// Temperature above which the overheat recovery runs.
    pub overheat_threshold: i64,
    /// Temperature the recovery cools a panel down to.
    pub cool_target: i64,
    /// Temperature drop of one cooling step.
    pub overheat_decrement: i64,
    /// Per-axis offset of the stand-off position after a recovery.
    pub standoff_margin: i64,
    /// Candidate moves tried per panel and round.
    pub trials: usize,
    /// Outer rounds of a simulation.
    pub rounds: usize,
    /// Most pushes the separation repair makes against one other panel.
    pub repair_bound: usize,
    /// Most cooling steps of one recovery.
    pub cooling_bound: usize,
}

pub open spec fn length_ok(v: i64) -> bool {
    0 <= v <= COORD_LIMIT
}

pub open spec fn temp_ok(t: i64) -> bool {
    -TEMP_LIMIT <= t <= TEMP_LIMIT
}

impl Config {
    pub open spec fn wf(&self) -> bool {
        length_ok(self.star_exclusion) && length_ok(self.min_separation) && length_ok(
            self.neighbor_radius,
        ) && length_ok(self.standoff_margin) && temp_ok(self.overheat_threshold) && 0
            <= self.overheat_decrement <= TEMP_LIMIT && -TEMP_LIMIT <= self.cool_target
            - self.overheat_decrement && self.cool_target <= TEMP_LIMIT
    }

    /// The reference settings: exclusion 6, separation 2, neighbour radius
    /// 20, energy warning 5, overheat above 1500, cool to 1000 in steps of 15,
    /// stand-off 5, 100 trials, 10 rounds, 10 repair pushes, 100 cooling steps.
    pub fn reference() -> (r: Config)
        ensures
            r.wf(),
            r == (Config {
                star_exclusion: 6000,
                min_separation: 2000,
                neighbor_radius: 20000,
                energy_warn: 5000,
                overheat_threshold: 1500,
                cool_target: 1000,
                overheat_decrement: 15,
                standoff_margin: 5000,
                trials: 100,
                rounds: 10,
                repair_bound: 10,
                cooling_bound: 100,
            }),
    {
        Config {
            star_exclusion: 6000,
            min_separation: 2000,
            neighbor_radius: 20000,
            energy_warn: 5000,
            overheat_threshold: 1500,
            cool_target: 1000,
            overheat_decrement: 15,
            standoff_margin: 5000,
            trials: 100,
            rounds: 10,
            repair_bound: 10,
            cooling_bound: 100,
        }
    }
}

/// One mobile panel of the swarm.
#[derive(Clone, Copy, Debug, PartialEq, Eq, Structural)]
pub struct SolarPanel {
    pub position: Point,
    /// Hull temperature in degrees; also the annealing temperature.
    pub temperature: i64,
    /// Energy gauge, in thousandths.
    pub energy_level: i64,
    /// Number of other panels within the neighbour radius.
    pub connectivity: usize,
    /// Largest displacement per axis of one candidate move.
    pub thruster: i64,
}

impl SolarPanel {
    pub open spec fn wf(&self) -> bool {
        in_box(self.position) && temp_ok(self.temperature) && length_ok(self.thruster)
    }

    pub fn new(
        position: Point,
        temperature: i64,
        energy_level: i64,
        connectivity: usize,
        thruster: i64,
    ) -> (r: SolarPanel)
        ensures
            r == (SolarPanel { position, temperature, energy_level, connectivity, thruster }),
    {
        SolarPanel { position, temperature, energy_level, connectivity, thruster }
    }

    /// The temperature in its role of annealing denominator.
    pub fn annealing_denominator(&self) -> (r: i64)
        ensures
            r == self.temperature,
    {
        self.temperature
    }

    /// Whether the overheat recovery is due.
    pub fn is_overheating(&self, cfg: &Config) -> (r: bool)
        ensures
            r == (self.temperature > cfg.overheat_threshold),
    {
        self.temperature > cfg.overheat_threshold
    }

    /// Whether the energy gauge is below the warning level.
    pub fn is_low_energy(&self, cfg: &Config) -> (r: bool)
        ensures
            r == (self.energy_level < cfg.energy_warn),
    {
        self.energy_level < cfg.energy_warn
    }
}

pub open spec fn panels_wf(s: Seq<SolarPanel>) -> bool {
    forall|k: int| 0 <= k < s.len() ==> (#[trigger] s[k]).wf()
}

/// The positions of the panels, in order.
pub open spec fn positions(s: Seq<SolarPanel>) -> Seq<Point> {
    s.map_values(|p: SolarPanel| p.position)
}

/// A named, ordered collection of panels.
#[derive(Clone, Debug)]
pub struct SolarSwarm {
    pub name: String,
    pub solar_panels: Vec<SolarPanel>,
}

impl SolarSwarm {
    pub fn new(name: &str, solar_panels: Vec<SolarPanel>) -> (r: SolarSwarm)
        ensures
            r.name@ == name@,
            r.solar_panels@ == solar_panels@,
    {
        SolarSwarm { name: name.to_string(), solar_panels }
    }
}

/// The central body the panels orbit: an exclusion-zone anchor that drifts
/// with a constant velocity (fixed-point length units per time step).
#[derive(Clone, Copy, Debug, PartialEq, Eq, Structural)]
pub struct CelestialBody {
    pub position: Point,
    pub velocity: Point,
}

/// Whether advancing `b` by `dt` time steps keeps it in the coordinate box.
pub open spec fn advance_in_range(b: CelestialBody, dt: int) -> bool {
    in_range(b.position.x + b.velocity.x * dt) && in_range(b.position.y + b.velocity.y * dt)
        && in_range(b.position.z + b.velocity.z * dt)
}

/// The body after `dt` time steps at constant velocity; it stays where it is
/// when the move would leave the coordinate box.
pub open spec fn advanced(b: CelestialBody, dt: int) -> CelestialBody {
    if advance_in_range(b, dt) {
        CelestialBody {
            position: Point {
                x: (b.position.x + b.velocity.x * dt) as i64,
                y: (b.position.y + b.velocity.y * dt) as i64,
                z: (b.position.z + b.velocity.z * dt) as i64,
            },
            velocity: b.velocity,
        }
    } else {
        b
    }
}

fn advance_axis(p: i64, v: i64, dt: i64) -> (r: i128)
    ensures
        r == p + v * dt,
{
    assert(-0x4000_0000_0000_0000_0000_0000_0000_0000 <= v * dt <= 0x4000_0000_0000_0000_0000_0000_0000_0000)
        by (nonlinear_arith)
        requires
            i64::MIN <= v <= i64::MAX,
            i64::MIN <= dt <= i64::MAX,
    ;
    let m: i128 = v as i128 * dt as i128;
    p as i128 + m
}

impl CelestialBody {
    pub fn new(x: i64, y: i64, z: i64, vx: i64, vy: i64, vz: i64) -> (r: CelestialBody)
        ensures
            r.position == (Point { x, y, z }),
            r.velocity == (Point { x: vx, y: vy, z: vz }),
    {
        CelestialBody { position: Point { x, y, z }, velocity: Point { x: vx, y: vy, z: vz } }
    }

    /// Advances the body by `dt` time steps. The body moves only when its new
    /// position stays within the coordinate box; the result says whether it
    /// moved.
    pub fn update_position(&mut self, dt: i64) -> (moved: bool)
        ensures
            *final(self) == advanced(*old(self), dt as int),
            moved == advance_in_range(*old(self), dt as int),
    {
        let p = self.position;
        let v = self.velocity;
        let nx = advance_axis(p.x, v.x, dt);
        let ny = advance_axis(p.y, v.y, dt);
        let nz = advance_axis(p.z, v.z, dt);
        let lim = COORD_LIMIT as i128;
        if -lim <= nx && nx <= lim && -lim <= ny && ny <= lim && -lim <= nz && nz <= lim {
            self.position = Point { x: nx as i64, y: ny as i64, z: nz as i64 };
            true
        } else {
            false
        }
    }
}

} // verus!

use vstd::prelude::*;

use crate::energy::{all_distinct, all_in_box, total_energy, total_energy_of, MAX_PANELS};
use crate::geometry::{dist_sq, in_box, in_range, Point, COORD_LIMIT};
use crate::metropolis::{accepts, cool_down, cooled, metropolis};
use crate::model::{length_ok, panels_wf, positions, temp_ok, Config, SolarPanel};

verus! {

/// The random numbers one candidate move consumes: a displacement per axis and
/// a uniform draw in `[0, PROBABILITY_ONE)` for the acceptance test.
#[derive(Clone, Copy, Debug, PartialEq, Eq, Structural)]
pub struct TrialDraw {
    pub dx: i64,
    pub dy: i64,
    pub dz: i64,
    pub u: i64,
}

/// What became of a candidate move.
#[derive(Clone, Copy, Debug, PartialEq, Eq, Structural)]
pub enum Verdict {
    /// The panel moved to the (repaired) candidate.
    Accepted,
    /// The candidate left the coordinate box.
    OutOfRange,
    /// The candidate fell inside the central body's exclusion zone.
    NearStar,
    /// A separation repair ran out of pushes.
    RepairExhausted,
    /// The repaired candidate still broke a constraint.
    Unsafe,
    /// The energy of one of the two configurations is undefined.
    Degenerate,
    /// The energy rose and the Metropolis draw refused the move.
    Uphill,
}

#[derive(Clone, Copy, Debug, PartialEq, Eq, Structural)]
pub struct TrialOutcome {
    pub verdict: Verdict,
    /// Whether the overheat recovery ran after the move.
    pub recovered: bool,
}

pub open spec fn too_close(p: Point, o: Point, cfg: Config) -> bool {
    dist_sq(p, o) < cfg.min_separation * cfg.min_separation
}

pub open spec fn near_star(p: Point, center: Point, cfg: Config) -> bool {
    dist_sq(p, center) < cfg.star_exclusion * cfg.star_exclusion
}

/// Position `p` for panel `i` keeps every constraint: it is in the box, out of
/// the exclusion zone, and at least the minimum separation from every other
/// panel of `s`.
pub open spec fn safe_at(s: Seq<Point>, i: int, p: Point, center: Point, cfg: Config) -> bool {
    in_box(p) && !near_star(p, center, cfg) && forall|j: int|
        0 <= j < s.len() && j != i ==> !too_close(p, #[trigger] s[j], cfg)
}

/// No panel lies inside the central body's exclusion zone.
pub open spec fn star_clear(s: Seq<Point>, center: Point, cfg: Config) -> bool {
    forall|k: int| 0 <= k < s.len() ==> !near_star(#[trigger] s[k], center, cfg)
}

/// Every two distinct panels are at least the minimum separation apart.
pub open spec fn separated(s: Seq<Point>, cfg: Config) -> bool {
    forall|a: int, b: int|
        0 <= a < s.len() && 0 <= b < s.len() && a != b ==> !too_close(
            #[trigger] s[a],
            #[trigger] s[b],
            cfg,
        )
}

/// Whether pushing `p` away from `o` (by the vector `p - o`) stays representable.
pub open spec fn push_in_range(p: Point, o: Point) -> bool {
    in_range(2 * p.x - o.x) && in_range(2 * p.y - o.y) && in_range(2 * p.z - o.z)
}

pub open spec fn pushed(p: Point, o: Point) -> Point {
    Point { x: (2 * p.x - o.x) as i64, y: (2 * p.y - o.y) as i64, z: (2 * p.z - o.z) as i64 }
}

/// The separation repair against one panel at `o`: while too close, push
/// away, at most `k` times. `None` when the pushes run out (or leave the box).
pub open spec fn push_away(p: Point, o: Point, k: nat, cfg: Config) -> Option<Point>
    decreases k,
{
    if !too_close(p, o, cfg) {
        Some(p)
    } else if k == 0 || !push_in_range(p, o) {
        None
    } else {
        push_away(pushed(p, o), o, (k - 1) as nat, cfg)
    }
}

/// The separation repair of candidate `p` of panel `i` against the panels
/// `0 .. j` of `s` other than `i`, in order.
pub open spec fn repair_upto(s: Seq<Point>, i: int, p: Point, j: int, cfg: Config) -> Option<
    Point,
>
    decreases j,
{
    if j <= 0 {
        Some(p)
    } else {
        match repair_upto(s, i, p, j - 1, cfg) {
            None => None,
            Some(q) => if j - 1 == i {
                Some(q)
            } else {
                push_away(q, s[j - 1], cfg.repair_bound as nat, cfg)
            },
        }
    }
}

/// The energy of a configuration where it is defined and fits in a `u128`.
pub open spec fn energy_value(s: Seq<Point>) -> Option<int> {
    if all_distinct(s) && total_energy_of(s) <= u128::MAX {
        Some(total_energy_of(s))
    } else {
        None
    }
}

/// The candidate move of a trial for panel `i` at temperature `temp`: the position
/// the panel ends at and the verdict.
pub open spec fn move_step(
    s: Seq<Point>,
    i: int,
    temp: int,
    center: Point,
    cfg: Config,
    d: TrialDraw,
) -> (Point, Verdict) {
    let old = s[i];
    let cx = old.x + d.dx;
    let cy = old.y + d.dy;
    let cz = old.z + d.dz;
    if !(in_range(cx) && in_range(cy) && in_range(cz)) {
        (old, Verdict::OutOfRange)
    } else {
        let c = Point { x: cx as i64, y: cy as i64, z: cz as i64 };
        if near_star(c, center, cfg) {
            (old, Verdict::NearStar)
        } else {
            match repair_upto(s, i, c, s.len() as int, cfg) {
                None => (old, Verdict::RepairExhausted),
                Some(r) => if !safe_at(s, i, r, center, cfg) {
                    (old, Verdict::Unsafe)
                } else {
                    match (energy_value(s), energy_value(s.update(i, r))) {
                        (Some(before), Some(after)) => if metropolis(before, after, temp, d.u as int) {
                            (r, Verdict::Accepted)
                        } else {
                            (old, Verdict::Uphill)
                        },
                        _ => (old, Verdict::Degenerate),
                    }
                },
            }
        }
    }
}

/// The overheat recovery of panel `i`, at `p` with temperature
/// `temp`. It cools the panel and moves it to the stand-off position, `p`
/// minus the margin on each axis, where that position keeps every constraint;
/// otherwise the panel stays at `p`. Returns position, temperature and whether
/// the recovery ran.
pub open spec fn recovery_step(
    s: Seq<Point>,
    i: int,
    p: Point,
    temp: int,
    center: Point,
    cfg: Config,
) -> (Point, int, bool) {
    if temp > cfg.overheat_threshold {
        let t = cooled(temp, cfg.cooling_bound as nat, cfg);
        let sx = p.x - cfg.standoff_margin;
        let sy = p.y - cfg.standoff_margin;
        let sz = p.z - cfg.standoff_margin;
        let q = Point { x: sx as i64, y: sy as i64, z: sz as i64 };
        if in_range(sx) && in_range(sy) && in_range(sz) && safe_at(s, i, q, center, cfg) {
            (q, t, true)
        } else {
            (p, t, true)
        }
    } else {
        (p, temp, false)
    }
}

/// One trial for panel `i` of `panels`: the panel afterwards and the outcome.
pub open spec fn trial_result(
    panels: Seq<SolarPanel>,
    i: int,
    center: Point,
    cfg: Config,
    d: TrialDraw,
) -> (SolarPanel, TrialOutcome) {
    let pn = panels[i];
    let s = positions(panels);
    let (p1, v) = move_step(s, i, pn.temperature as int, center, cfg, d);
    let (p2, t2, rec) = recovery_step(s, i, p1, pn.temperature as int, center, cfg);
    (
        SolarPanel { position: p2, temperature: t2 as i64, ..pn },
        TrialOutcome { verdict: v, recovered: rec },
    )
}

/// A draw whose displacements keep every sum with a coordinate representable.
pub open spec fn draw_ok(d: TrialDraw) -> bool {
    in_range(d.dx as int) && in_range(d.dy as int) && in_range(d.dz as int)
}

pub proof fn lemma_repair_none_stays(s: Seq<Point>, i: int, p: Point, j: int, k: int, cfg: Config)
    requires
        j <= k,
        repair_upto(s, i, p, j, cfg) is None,
    ensures
        repair_upto(s, i, p, k, cfg) is None,
    decreases k - j,
{
    if j < k {
        lemma_repair_none_stays(s, i, p, j, k - 1, cfg);
    }
}

proof fn lemma_push_in_box(p: Point, o: Point, k: nat, cfg: Config)
    requires
        in_box(p),
    ensures
        push_away(p, o, k, cfg) matches Some(q) ==> in_box(q),
    decreases k,
{
    if too_close(p, o, cfg) && k > 0 && push_in_range(p, o) {
        lemma_push_in_box(pushed(p, o), o, (k - 1) as nat, cfg);
    }
}

pub(crate) fn square_len(v: i64) -> (r: u128)
    requires
        length_ok(v),
    ensures
        r == v * v,
{
    assert(v * v <= COORD_LIMIT * COORD_LIMIT) by (nonlinear_arith)
        requires
            0 <= v <= COORD_LIMIT,
    ;
    v as u128 * v as u128
}

/// Pushes `p` away from `o` until they are the minimum separation apart, with
/// at most `cfg.repair_bound` pushes.
pub fn push_clear(p: Point, o: Point, cfg: &Config) -> (r: Option<Point>)
    requires
        in_box(p),
        in_box(o),
        cfg.wf(),
    ensures
        r == push_away(p, o, cfg.repair_bound as nat, *cfg),
        r matches Some(q) ==> in_box(q),
{
    let sep = square_len(cfg.min_separation);
    let mut cur = p;
    let mut k: usize = 0;
    let lim = COORD_LIMIT as i128;
    proof {
        lemma_push_in_box(p, o, cfg.repair_bound as nat, *cfg);
    }
    loop
        invariant
            in_box(cur),
            in_box(o),
            cfg.wf(),
            sep == cfg.min_separation * cfg.min_separation,
            lim == COORD_LIMIT,
            k <= cfg.repair_bound,
            push_away(cur, o, (cfg.repair_bound - k) as nat, *cfg) == push_away(
                p,
                o,
                cfg.repair_bound as nat,
                *cfg,
            ),
        decreases cfg.repair_bound - k,
    {
        if cur.distance_sq(&o) >= sep {
            return Some(cur);
        }
        if k == cfg.repair_bound {
            return None;
        }
        let nx: i128 = 2 * cur.x as i128 - o.x as i128;
        let ny: i128 = 2 * cur.y as i128 - o.y as i128;
        let nz: i128 = 2 * cur.z as i128 - o.z as i128;
        if !(-lim <= nx && nx <= lim && -lim <= ny && ny <= lim && -lim <= nz && nz <= lim) {
            return None;
        }
        cur = Point { x: nx as i64, y: ny as i64, z: nz as i64 };
        k = k + 1;
    }
}

/// The separation repair of candidate `p` for panel `i` against every other
/// panel, in order.
pub fn repair(points: &Vec<Point>, i: usize, p: Point, cfg: &Config) -> (r: Option<Point>)
    requires
        all_in_box(points@),
        in_box(p),
        cfg.wf(),
    ensures
        r == repair_upto(points@, i as int, p, points@.len() as int, *cfg),
        r matches Some(q) ==> in_box(q),
{
    let n = points.len();
    let mut cur = p;
    let mut j: usize = 0;
    while j < n
        invariant
            n == points@.len(),
            all_in_box(points@),
            cfg.wf(),
            0 <= j <= n,
            in_box(cur),
            repair_upto(points@, i as int, p, j as int, *cfg) == Some(cur),
        decreases n - j,
    {
        if j != i {
            match push_clear(cur, points[j], cfg) {
                Some(q) => {
                    cur = q;
                },
                None => {
                    proof {
                        lemma_repair_none_stays(points@, i as int, p, j + 1, n as int, *cfg);
                    }
                    return None;
                },
            }
        }
        j = j + 1;
    }
    Some(cur)
}

/// Whether position `p` for panel `i` keeps every constraint.
pub fn is_safe(points: &Vec<Point>, i: usize, p: Point, center: &Point, cfg: &Config) -> (r: bool)
    requires
        all_in_box(points@),
        in_box(p),
        in_box(*center),
        cfg.wf(),
    ensures
        r == safe_at(points@, i as int, p, *center, *cfg),
{
    let star = square_len(cfg.star_exclusion);
    let sep = square_len(cfg.min_separation);
    if p.distance_sq(center) < star {
        return false;
    }
    let n = points.len();
    let mut j: usize = 0;
    while j < n
        invariant
            n == points@.len(),
            all_in_box(points@),
            in_box(p),
            sep == cfg.min_separation * cfg.min_separation,
            0 <= j <= n,
            forall|k: int| 0 <= k < j && k != i ==> !too_close(p, #[trigger] points@[k], *cfg),
        decreases n - j,
    {
        if j != i && p.distance_sq(&points[j]) < sep {
            return false;
        }
        j = j + 1;
    }
    true
}

/// The positions of the panels, in order.
pub fn positions_of(panels: &Vec<SolarPanel>) -> (r: Vec<Point>)
    requires
        panels_wf(panels@),
    ensures
        r@ == positions(panels@),
        all_in_box(r@),
{
    let mut r: Vec<Point> = Vec::new();
    let mut k: usize = 0;
    while k < panels.len()
        invariant
            panels_wf(panels@),
            0 <= k <= panels@.len(),
            r@ == positions(panels@).subrange(0, k as int),
        decreases panels@.len() - k,
    {
        r.push(panels[k].position);
        k = k + 1;
        proof {
            assert(r@ =~= positions(panels@).subrange(0, k as int));
        }
    }
    proof {
        assert(r@ =~= positions(panels@));
    }
    r
}

/// Total potential energy of the panels' current positions; `None` when two
/// panels coincide or the sum does not fit in a `u128`.
pub fn calculate_energy(panels: &Vec<SolarPanel>) -> (r: Option<u128>)
    requires
        panels_wf(panels@),
    ensures
        r matches Some(e) ==> energy_value(positions(panels@)) == Some(e as int),
        r is None ==> energy_value(positions(panels@)) is None,
        all_distinct(positions(panels@)) && panels@.len() <= MAX_PANELS ==> r is Some,
        panels@.len() >= 2 ==> (r matches Some(e) ==> e > 0),
{
    let points = positions_of(panels);
    total_energy(&points)
}

/// The candidate move of a trial: proposes the candidate of draw `d`, checks and
/// repairs it, and runs the acceptance test.
pub fn propose(
    points: &Vec<Point>,
    i: usize,
    temp: i64,
    center: &Point,
    cfg: &Config,
    d: &TrialDraw,
) -> (r: (Point, Verdict))
    requires
        all_in_box(points@),
        i < points@.len(),
        temp_ok(temp),
        in_box(*center),
        cfg.wf(),
        draw_ok(*d),
    ensures
        r == move_step(points@, i as int, temp as int, *center, *cfg, *d),
        in_box(r.0),
{
    let old = points[i];
    let lim = COORD_LIMIT as i128;
    let cx: i128 = old.x as i128 + d.dx as i128;
    let cy: i128 = old.y as i128 + d.dy as i128;
    let cz: i128 = old.z as i128 + d.dz as i128;
    if !(-lim <= cx && cx <= lim && -lim <= cy && cy <= lim && -lim <= cz && cz <= lim) {
        return (old, Verdict::OutOfRange);
    }
    let c = Point { x: cx as i64, y: cy as i64, z: cz as i64 };
    let star = square_len(cfg.star_exclusion);
    if c.distance_sq(center) < star {
        return (old, Verdict::NearStar);
    }
    let r = match repair(points, i, c, cfg) {
        None => {
            return (old, Verdict::RepairExhausted);
        },
        Some(r) => r,
    };
    if !is_safe(points, i, r, center, cfg) {
        return (old, Verdict::Unsafe);
    }
    let before = total_energy(points);
    let mut moved = points.clone();
    proof {
        assert(moved@ =~= points@);
    }
    moved.set(i, r);
    proof {
        assert forall|k: int| 0 <= k < moved@.len() implies in_box(#[trigger] moved@[k]) by {
            if k != i {
                assert(moved@[k] == points@[k]);
            }
        }
    }
    let after = total_energy(&moved);
    match (before, after) {
        (Some(b), Some(a)) => {
            if accepts(b, a, temp, d.u) {
                (r, Verdict::Accepted)
            } else {
                (old, Verdict::Uphill)
            }
        },
        _ => (old, Verdict::Degenerate),
    }
}

/// The overheat recovery of panel `i`, now at `p`.
pub fn recover(
    points: &Vec<Point>,
    i: usize,
    p: Point,
    panel: &SolarPanel,
    center: &Point,
    cfg: &Config,
) -> (r: (Point, i64, bool))
    requires
        all_in_box(points@),
        in_box(p),
        temp_ok(panel.temperature),
        in_box(*center),
        cfg.wf(),
    ensures
        r.0 == recovery_step(points@, i as int, p, panel.temperature as int, *center, *cfg).0,
        r.1 == recovery_step(points@, i as int, p, panel.temperature as int, *center, *cfg).1,
        r.2 == recovery_step(points@, i as int, p, panel.temperature as int, *center, *cfg).2,
        in_box(r.0),
        temp_ok(r.1),
{
    if panel.is_overheating(cfg) {
        let (t, _steps) = cool_down(panel.temperature, cfg);
        let lim = COORD_LIMIT as i128;
        let sx: i128 = p.x as i128 - cfg.standoff_margin as i128;
        let sy: i128 = p.y as i128 - cfg.standoff_margin as i128;
        let sz: i128 = p.z as i128 - cfg.standoff_margin as i128;
        if -lim <= sx && sx <= lim && -lim <= sy && sy <= lim && -lim <= sz && sz <= lim {
            let q = Point { x: sx as i64, y: sy as i64, z: sz as i64 };
            if is_safe(points, i, q, center, cfg) {
                return (q, t, true);
            }
        }
        (p, t, true)
    } else {
        (p, panel.temperature, false)
    }
}

/// One trial for panel `i`: a candidate move, its checks, repair and
/// acceptance test, then the overheat recovery where it is due.
pub fn trial(
    panels: &mut Vec<SolarPanel>,
    i: usize,
    center: &Point,
    cfg: &Config,
    d: &TrialDraw,
) -> (r: TrialOutcome)
    requires
        panels_wf(old(panels)@),
        i < old(panels)@.len(),
        in_box(*center),
        cfg.wf(),
        draw_ok(*d),
    ensures
        final(panels)@ == old(panels)@.update(
            i as int,
            trial_result(old(panels)@, i as int, *center, *cfg, *d).0,
        ),
        r == trial_result(old(panels)@, i as int, *center, *cfg, *d).1,
        panels_wf(final(panels)@),
{
    let points = positions_of(panels);
    let pn = panels[i];
    let (p1, v) = propose(&points, i, pn.annealing_denominator(), center, cfg, d);
    let (p2, t2, rec) = recover(&points, i, p1, &pn, center, cfg);
    let np = SolarPanel { position: p2, temperature: t2, ..pn };
    panels.set(i, np);
    proof {
        assert forall|k: int| 0 <= k < final(panels)@.len() implies (
        #[trigger] final(panels)@[k]).wf() by {
            if k != i {
                assert(final(panels)@[k] == old(panels)@[k]);
            }
        }
    }
    TrialOutcome { verdict: v, recovered: rec }
}

} // verus!

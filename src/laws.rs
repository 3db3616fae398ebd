use vstd::prelude::*;

use crate::driver::{processed, refreshed, round_upto, trials_upto};
use crate::engine::{
    energy_value, move_step, near_star, recovery_step, repair_upto, safe_at, separated,
    star_clear, too_close, trial_result, TrialDraw, Verdict,
};
use crate::geometry::{in_range, lemma_dist_sq_symmetric, Point};
use crate::metropolis::cooled;
use crate::model::{positions, Config, SolarPanel};

verus! {

/// A trial leaves panel `i` where it was, or puts it at a position that keeps
/// every constraint: in the box, outside the exclusion zone, and at least the
/// minimum separation from every other panel. In particular a trial whose
/// repair runs out of pushes never moves the panel by itself.
pub proof fn lemma_trial_position_safe(
    s: Seq<SolarPanel>,
    i: int,
    center: Point,
    cfg: Config,
    d: TrialDraw,
)
    requires
        0 <= i < s.len(),
    ensures
        ({
            let p = trial_result(s, i, center, cfg, d).0.position;
            p == s[i].position || safe_at(positions(s), i, p, center, cfg)
        }),
        move_step(positions(s), i, s[i].temperature as int, center, cfg, d).1
            != Verdict::Accepted ==> move_step(
            positions(s),
            i,
            s[i].temperature as int,
            center,
            cfg,
            d,
        ).0 == s[i].position,
{
    assert(positions(s)[i] == s[i].position);
}

proof fn lemma_move_keeps_constraints(s: Seq<Point>, i: int, p: Point, center: Point, cfg: Config)
    requires
        0 <= i < s.len(),
        p == s[i] || safe_at(s, i, p, center, cfg),
    ensures
        star_clear(s, center, cfg) ==> star_clear(s.update(i, p), center, cfg),
        separated(s, cfg) ==> separated(s.update(i, p), cfg),
{
    let t = s.update(i, p);
    if star_clear(s, center, cfg) {
        assert forall|k: int| 0 <= k < t.len() implies !near_star(#[trigger] t[k], center, cfg) by {
            if k != i {
                assert(t[k] == s[k]);
            }
        }
    }
    if separated(s, cfg) {
        assert forall|a: int, b: int|
            0 <= a < t.len() && 0 <= b < t.len() && a != b implies !too_close(
            #[trigger] t[a],
            #[trigger] t[b],
            cfg,
        ) by {
            if a == i {
                assert(t[b] == s[b]);
                if p != s[i] {
                    assert(!too_close(p, s[b], cfg));
                }
            } else if b == i {
                assert(t[a] == s[a]);
                if p != s[i] {
                    assert(!too_close(p, s[a], cfg));
                    lemma_dist_sq_symmetric(p, s[a]);
                }
            } else {
                assert(t[a] == s[a] && t[b] == s[b]);
            }
        }
    }
}

proof fn lemma_positions_update(s: Seq<SolarPanel>, i: int, q: SolarPanel)
    requires
        0 <= i < s.len(),
    ensures
        positions(s.update(i, q)) == positions(s).update(i, q.position),
{
    assert(positions(s.update(i, q)) =~= positions(s).update(i, q.position));
}

proof fn lemma_cooled_bounds(t: int, n: nat, cfg: Config)
    requires
        cfg.wf(),
    ensures
        cooled(t, n, cfg) <= t,
        cooled(t, n, cfg) >= t || cooled(t, n, cfg) >= cfg.cool_target - cfg.overheat_decrement,
    decreases n,
{
    if t > cfg.cool_target && n > 0 {
        lemma_cooled_bounds(t - cfg.overheat_decrement, (n - 1) as nat, cfg);
    }
}

/// What one trial does to the swarm: only panel `i` changes; the exclusion
/// zone and the separation stay clear where they were; the panel's
/// temperature never rises, and ends at or below the cool target where it was
/// above the overheat threshold or already at or below the target.
pub proof fn lemma_trial_effects(s: Seq<SolarPanel>, i: int, center: Point, cfg: Config, d: TrialDraw)
    requires
        0 <= i < s.len(),
        cfg.wf(),
    ensures
        ({
            let t = s.update(i, trial_result(s, i, center, cfg, d).0);
            &&& star_clear(positions(s), center, cfg) ==> star_clear(positions(t), center, cfg)
            &&& separated(positions(s), cfg) ==> separated(positions(t), cfg)
            &&& t[i].temperature <= s[i].temperature
            &&& s[i].temperature > cfg.overheat_threshold ==> t[i].temperature <= cfg.cool_target
            &&& s[i].temperature <= cfg.cool_target ==> t[i].temperature <= cfg.cool_target
        }),
{
    let q = trial_result(s, i, center, cfg, d).0;
    lemma_trial_position_safe(s, i, center, cfg, d);
    lemma_positions_update(s, i, q);
    lemma_move_keeps_constraints(positions(s), i, q.position, center, cfg);
    let temp = s[i].temperature as int;
    lemma_cooled_bounds(temp, cfg.cooling_bound as nat, cfg);
    lemma_cooling_reaches_target(temp, cfg.cooling_bound as nat, cfg);
}

proof fn lemma_trials_effects(
    s: Seq<SolarPanel>,
    i: int,
    center: Point,
    cfg: Config,
    draws: Seq<TrialDraw>,
    m: int,
)
    requires
        0 <= i < s.len(),
        cfg.wf(),
    ensures
        ({
            let t = trials_upto(s, i, center, cfg, draws, m);
            &&& t.len() == s.len()
            &&& forall|k: int| 0 <= k < s.len() && k != i ==> #[trigger] t[k] == s[k]
            &&& star_clear(positions(s), center, cfg) ==> star_clear(positions(t), center, cfg)
            &&& separated(positions(s), cfg) ==> separated(positions(t), cfg)
            &&& t[i].temperature <= s[i].temperature
            &&& m >= 1 && s[i].temperature > cfg.overheat_threshold ==> t[i].temperature
                <= cfg.cool_target
        }),
    decreases m,
{
    if m > 0 {
        lemma_trials_effects(s, i, center, cfg, draws, m - 1);
        let prev = trials_upto(s, i, center, cfg, draws, m - 1);
        lemma_trial_effects(prev, i, center, cfg, draws[m - 1]);
    }
}

/// What processing panel `i` does to the swarm: only panel `i` changes; the
/// exclusion zone and the separation stay clear where they were; the panel's
/// temperature never rises, and after at least one trial a panel that was
/// overheating is at or below the cool target.
pub proof fn lemma_processing_effects(
    s: Seq<SolarPanel>,
    i: int,
    center: Point,
    cfg: Config,
    draws: Seq<TrialDraw>,
)
    requires
        0 <= i < s.len(),
        cfg.wf(),
    ensures
        ({
            let t = processed(s, i, center, cfg, draws);
            &&& t.len() == s.len()
            &&& forall|k: int| 0 <= k < s.len() && k != i ==> #[trigger] t[k] == s[k]
            &&& star_clear(positions(s), center, cfg) ==> star_clear(positions(t), center, cfg)
            &&& separated(positions(s), cfg) ==> separated(positions(t), cfg)
            &&& t[i].temperature <= s[i].temperature
            &&& draws.len() >= 1 && s[i].temperature > cfg.overheat_threshold ==> t[i].temperature
                <= cfg.cool_target
        }),
{
    let r = refreshed(s, i, cfg);
    assert(positions(r) =~= positions(s));
    lemma_trials_effects(r, i, center, cfg, draws, draws.len() as int);
}

/// Constraint invariant and thermal recovery over a round with any draws:
/// where no panel was inside the exclusion zone, none is afterwards; where
/// every two panels were at least the minimum separation apart, they still
/// are; no temperature rises; and every panel that was overheating and had at
/// least one trial ends at or below the cool target.
pub proof fn lemma_round_effects(
    s: Seq<SolarPanel>,
    center: Point,
    cfg: Config,
    draws: Seq<Vec<TrialDraw>>,
    j: int,
)
    requires
        0 <= j <= s.len(),
        cfg.wf(),
    ensures
        ({
            let t = round_upto(s, center, cfg, draws, j);
            &&& t.len() == s.len()
            &&& forall|k: int| j <= k < s.len() ==> #[trigger] t[k] == s[k]
            &&& star_clear(positions(s), center, cfg) ==> star_clear(positions(t), center, cfg)
            &&& separated(positions(s), cfg) ==> separated(positions(t), cfg)
            &&& forall|k: int| 0 <= k < s.len() ==> (#[trigger] t[k]).temperature <= s[k].temperature
            &&& forall|k: int|
                0 <= k < j && draws[k]@.len() >= 1 && s[k].temperature > cfg.overheat_threshold
                    ==> (#[trigger] t[k]).temperature <= cfg.cool_target
        }),
    decreases j,
{
    if j > 0 {
        lemma_round_effects(s, center, cfg, draws, j - 1);
        let prev = round_upto(s, center, cfg, draws, j - 1);
        lemma_processing_effects(prev, j - 1, center, cfg, draws[j - 1]@);
        let t = round_upto(s, center, cfg, draws, j);
        assert forall|k: int| 0 <= k < s.len() implies (#[trigger] t[k]).temperature
            <= s[k].temperature by {
            if k != j - 1 {
                assert(t[k] == prev[k]);
            }
        }
        assert forall|k: int|
            0 <= k < j && draws[k]@.len() >= 1 && s[k].temperature
                > cfg.overheat_threshold implies (#[trigger] t[k]).temperature
            <= cfg.cool_target by {
            if k != j - 1 {
                assert(t[k] == prev[k]);
            } else {
                assert(prev[k] == s[k]);
            }
        }
        assert forall|k: int| j <= k < s.len() implies #[trigger] t[k] == s[k] by {
            assert(t[k] == prev[k]);
        }
    }
}

/// A candidate that clears the exclusion zone and every other panel, and that
/// does not raise the energy, is always taken when a panel that is not
/// overheating is processed with that single draw.
pub proof fn lemma_downhill_processed(
    s: Seq<SolarPanel>,
    i: int,
    center: Point,
    cfg: Config,
    d: TrialDraw,
    c: Point,
)
    requires
        0 <= i < s.len(),
        c.x == s[i].position.x + d.dx,
        c.y == s[i].position.y + d.dy,
        c.z == s[i].position.z + d.dz,
        in_range(c.x as int) && in_range(c.y as int) && in_range(c.z as int),
        !near_star(c, center, cfg),
        forall|j: int| 0 <= j < s.len() && j != i ==> !too_close(c, #[trigger] s[j].position, cfg),
        energy_value(positions(s)) is Some,
        energy_value(positions(s).update(i, c)) is Some,
        energy_value(positions(s).update(i, c))->Some_0 <= energy_value(positions(s))->Some_0,
        s[i].temperature <= cfg.overheat_threshold,
    ensures
        processed(s, i, center, cfg, seq![d])[i].position == c,
{
    let r = refreshed(s, i, cfg);
    let pos = positions(s);
    assert(positions(r) =~= pos);
    assert(pos[i] == s[i].position);
    lemma_repair_clear(pos, i, c, pos.len() as int, cfg);
    assert forall|j: int| 0 <= j < pos.len() && j != i implies !too_close(c, #[trigger] pos[j], cfg) by {
        assert(pos[j] == s[j].position);
    }
    lemma_downhill_accepted(pos, i, r[i].temperature as int, center, cfg, d, c);
    assert(seq![d][0] == d);
    assert(trials_upto(r, i, center, cfg, seq![d], 0) == r);
}

proof fn lemma_repair_clear(s: Seq<Point>, i: int, c: Point, j: int, cfg: Config)
    requires
        j <= s.len(),
        forall|k: int| 0 <= k < s.len() && k != i ==> !too_close(c, #[trigger] s[k], cfg),
    ensures
        repair_upto(s, i, c, j, cfg) == Some(c),
    decreases j,
{
    if j > 0 {
        lemma_repair_clear(s, i, c, j - 1, cfg);
        if j - 1 != i {
            assert(!too_close(c, s[j - 1], cfg));
        }
    }
}

/// A candidate move that passes every constraint check and does not raise
/// the energy is always taken, whatever the uniform draw.
pub proof fn lemma_downhill_accepted(
    s: Seq<Point>,
    i: int,
    temp: int,
    center: Point,
    cfg: Config,
    d: TrialDraw,
    r: Point,
)
    requires
        0 <= i < s.len(),
        in_range(s[i].x + d.dx),
        in_range(s[i].y + d.dy),
        in_range(s[i].z + d.dz),
        !near_star(
            Point {
                x: (s[i].x + d.dx) as i64,
                y: (s[i].y + d.dy) as i64,
                z: (s[i].z + d.dz) as i64,
            },
            center,
            cfg,
        ),
        repair_upto(
            s,
            i,
            Point {
                x: (s[i].x + d.dx) as i64,
                y: (s[i].y + d.dy) as i64,
                z: (s[i].z + d.dz) as i64,
            },
            s.len() as int,
            cfg,
        ) == Some(r),
        safe_at(s, i, r, center, cfg),
        energy_value(s) is Some,
        energy_value(s.update(i, r)) is Some,
        energy_value(s.update(i, r))->Some_0 <= energy_value(s)->Some_0,
    ensures
        move_step(s, i, temp, center, cfg, d) == (r, Verdict::Accepted),
{
}

/// Cooling always ends at or below the target temperature, within the
/// configured number of steps, even where the decrement could not get there.
pub proof fn lemma_cooling_reaches_target(t: int, n: nat, cfg: Config)
    ensures
        cooled(t, n, cfg) <= cfg.cool_target || cooled(t, n, cfg) == t,
        t > cfg.cool_target ==> cooled(t, n, cfg) <= cfg.cool_target,
    decreases n,
{
    if t > cfg.cool_target && n > 0 {
        lemma_cooling_reaches_target(t - cfg.overheat_decrement, (n - 1) as nat, cfg);
    }
}

/// Stand-off: an overheating panel recovered at `p` ends exactly the
/// stand-off margin below `p` on each axis, wherever that position keeps
/// every constraint.
pub proof fn lemma_standoff(s: Seq<Point>, i: int, p: Point, temp: int, center: Point, cfg: Config)
    requires
        temp > cfg.overheat_threshold,
        in_range(p.x - cfg.standoff_margin),
        in_range(p.y - cfg.standoff_margin),
        in_range(p.z - cfg.standoff_margin),
        safe_at(
            s,
            i,
            Point {
                x: (p.x - cfg.standoff_margin) as i64,
                y: (p.y - cfg.standoff_margin) as i64,
                z: (p.z - cfg.standoff_margin) as i64,
            },
            center,
            cfg,
        ),
    ensures
        ({
            let q = recovery_step(s, i, p, temp, center, cfg).0;
            &&& q.x == p.x - cfg.standoff_margin
            &&& q.y == p.y - cfg.standoff_margin
            &&& q.z == p.z - cfg.standoff_margin
            &&& recovery_step(s, i, p, temp, center, cfg).1 <= cfg.cool_target
        }),
{
    lemma_cooling_reaches_target(temp, cfg.cooling_bound as nat, cfg);
}

/// Determinism: the same panels, central body position, settings and draws
/// give the same swarm after a round.
pub proof fn lemma_round_deterministic(
    s1: Seq<SolarPanel>,
    s2: Seq<SolarPanel>,
    center: Point,
    cfg: Config,
    d1: Seq<Vec<TrialDraw>>,
    d2: Seq<Vec<TrialDraw>>,
)
    requires
        s1 == s2,
        d1.len() == s1.len(),
        d1.len() == d2.len(),
        forall|k: int| 0 <= k < d1.len() ==> (#[trigger] d1[k])@ == d2[k]@,
    ensures
        round_upto(s1, center, cfg, d1, s1.len() as int) == round_upto(
            s2,
            center,
            cfg,
            d2,
            s2.len() as int,
        ),
{
    lemma_round_same_draws(s1, center, cfg, d1, d2, s1.len() as int);
}

proof fn lemma_round_same_draws(
    s: Seq<SolarPanel>,
    center: Point,
    cfg: Config,
    d1: Seq<Vec<TrialDraw>>,
    d2: Seq<Vec<TrialDraw>>,
    k: int,
)
    requires
        k <= d1.len(),
        d1.len() == d2.len(),
        forall|j: int| 0 <= j < d1.len() ==> (#[trigger] d1[j])@ == d2[j]@,
    ensures
        round_upto(s, center, cfg, d1, k) == round_upto(s, center, cfg, d2, k),
    decreases k,
{
    if k > 0 {
        lemma_round_same_draws(s, center, cfg, d1, d2, k - 1);
        assert(d1[k - 1]@ == d2[k - 1]@);
    }
}

} // verus!

use vstd::prelude::*;

use crate::energy::all_in_box;
use crate::engine::{draw_ok, positions_of, separated, star_clear, square_len, trial, trial_result, TrialDraw, TrialOutcome};
use crate::geometry::{dist_sq, in_box, Point};
use crate::laws::lemma_round_effects;
use crate::model::{panels_wf, positions, Config, SolarPanel};

verus! {

/// Number of panels among `0 .. j`, other than `i`, within the neighbour
/// radius of panel `i`.
pub open spec fn neighbors_upto(s: Seq<Point>, i: int, j: int, cfg: Config) -> nat
    decreases j,
{
    if j <= 0 {
        0
    } else {
        neighbors_upto(s, i, j - 1, cfg) + if j - 1 != i && dist_sq(s[i], s[j - 1])
            < cfg.neighbor_radius * cfg.neighbor_radius {
            1nat
        } else {
            0nat
        }
    }
}

/// The panels with the connectivity of panel `i` recomputed.
pub open spec fn refreshed(s: Seq<SolarPanel>, i: int, cfg: Config) -> Seq<SolarPanel> {
    s.update(
        i,
        SolarPanel {
            connectivity: neighbors_upto(positions(s), i, s.len() as int, cfg) as usize,
            ..s[i]
        },
    )
}

/// The panels after the first `k` trials for panel `i`.
pub open spec fn trials_upto(
    s: Seq<SolarPanel>,
    i: int,
    center: Point,
    cfg: Config,
    draws: Seq<TrialDraw>,
    k: int,
) -> Seq<SolarPanel>
    decreases k,
{
    if k <= 0 {
        s
    } else {
        let t = trials_upto(s, i, center, cfg, draws, k - 1);
        t.update(i, trial_result(t, i, center, cfg, draws[k - 1]).0)
    }
}

/// The panels after panel `i` is processed with the given draws.
pub open spec fn processed(
    s: Seq<SolarPanel>,
    i: int,
    center: Point,
    cfg: Config,
    draws: Seq<TrialDraw>,
) -> Seq<SolarPanel> {
    trials_upto(refreshed(s, i, cfg), i, center, cfg, draws, draws.len() as int)
}

/// The outcome of each trial while panel `i` is processed.
pub open spec fn panel_outcomes(
    s: Seq<SolarPanel>,
    i: int,
    center: Point,
    cfg: Config,
    draws: Seq<TrialDraw>,
) -> Seq<TrialOutcome> {
    Seq::new(
        draws.len(),
        |k: int|
            trial_result(
                trials_upto(refreshed(s, i, cfg), i, center, cfg, draws, k),
                i,
                center,
                cfg,
                draws[k],
            ).1,
    )
}

/// What processing one panel reported.
#[derive(Clone, Debug)]
pub struct PanelReport {
    /// The panel's energy level was below the warning level.
    pub low_energy: bool,
    /// The outcome of each trial, in order.
    pub outcomes: Vec<TrialOutcome>,
}

pub open spec fn report_of(
    r: PanelReport,
    s: Seq<SolarPanel>,
    i: int,
    center: Point,
    cfg: Config,
    draws: Seq<TrialDraw>,
) -> bool {
    r.low_energy == (s[i].energy_level < cfg.energy_warn) && r.outcomes@ == panel_outcomes(
        s,
        i,
        center,
        cfg,
        draws,
    )
}

pub open spec fn draws_ok(draws: Seq<TrialDraw>) -> bool {
    forall|k: int| 0 <= k < draws.len() ==> draw_ok(#[trigger] draws[k])
}

/// Number of panels other than `i` within the neighbour radius of panel `i`.
pub fn count_neighbors(points: &Vec<Point>, i: usize, cfg: &Config) -> (r: usize)
    requires
        all_in_box(points@),
        i < points@.len(),
        cfg.wf(),
    ensures
        r == neighbors_upto(points@, i as int, points@.len() as int, *cfg),
{
    let radius = square_len(cfg.neighbor_radius);
    let n = points.len();
    let mut count: usize = 0;
    let mut j: usize = 0;
    while j < n
        invariant
            n == points@.len(),
            all_in_box(points@),
            i < n,
            0 <= j <= n,
            radius == cfg.neighbor_radius * cfg.neighbor_radius,
            count == neighbors_upto(points@, i as int, j as int, *cfg),
            count <= j,
        decreases n - j,
    {
        if j != i && points[i].distance_sq(&points[j]) < radius {
            count = count + 1;
        }
        j = j + 1;
    }
    count
}

/// Processes panel `i` for one round: refreshes its connectivity, checks its
/// energy level, then runs one trial per draw, in order.
pub fn process_panel(
    panels: &mut Vec<SolarPanel>,
    i: usize,
    center: &Point,
    cfg: &Config,
    draws: &Vec<TrialDraw>,
) -> (r: PanelReport)
    requires
        panels_wf(old(panels)@),
        i < old(panels)@.len(),
        in_box(*center),
        cfg.wf(),
        draws_ok(draws@),
    ensures
        final(panels)@ == processed(old(panels)@, i as int, *center, *cfg, draws@),
        report_of(r, old(panels)@, i as int, *center, *cfg, draws@),
        panels_wf(final(panels)@),
{
    let ghost s0 = panels@;
    let points = positions_of(panels);
    let conn = count_neighbors(&points, i, cfg);
    let low_energy = panels[i].is_low_energy(cfg);
    let pn = panels[i];
    panels.set(i, SolarPanel { connectivity: conn, ..pn });
    let ghost s1 = panels@;
    proof {
        assert(s1 == refreshed(s0, i as int, *cfg));
        assert forall|k: int| 0 <= k < s1.len() implies (#[trigger] s1[k]).wf() by {
            if k != i {
                assert(s1[k] == s0[k]);
            }
        }
    }
    let mut outcomes: Vec<TrialOutcome> = Vec::new();
    let mut k: usize = 0;
    while k < draws.len()
        invariant
            s1 == refreshed(s0, i as int, *cfg),
            panels_wf(panels@),
            i < panels@.len(),
            in_box(*center),
            cfg.wf(),
            draws_ok(draws@),
            0 <= k <= draws@.len(),
            panels@ == trials_upto(s1, i as int, *center, *cfg, draws@, k as int),
            outcomes@ == panel_outcomes(s0, i as int, *center, *cfg, draws@).subrange(0, k as int),
        decreases draws@.len() - k,
    {
        let o = trial(panels, i, center, cfg, &draws[k]);
        outcomes.push(o);
        k = k + 1;
        proof {
            assert(outcomes@ =~= panel_outcomes(s0, i as int, *center, *cfg, draws@).subrange(
                0,
                k as int,
            ));
        }
    }
    proof {
        assert(outcomes@ =~= panel_outcomes(s0, i as int, *center, *cfg, draws@));
    }
    PanelReport { low_energy, outcomes }
}

/// The panels after panels `0 .. k` are processed in order, panel `j` with
/// the draws `draws[j]`.
pub open spec fn round_upto(
    s: Seq<SolarPanel>,
    center: Point,
    cfg: Config,
    draws: Seq<Vec<TrialDraw>>,
    k: int,
) -> Seq<SolarPanel>
    decreases k,
{
    if k <= 0 {
        s
    } else {
        processed(round_upto(s, center, cfg, draws, k - 1), k - 1, center, cfg, draws[k - 1]@)
    }
}

pub open spec fn round_draws_ok(draws: Seq<Vec<TrialDraw>>) -> bool {
    forall|k: int| 0 <= k < draws.len() ==> draws_ok((#[trigger] draws[k])@)
}

proof fn lemma_processed_len(s: Seq<SolarPanel>, i: int, center: Point, cfg: Config, draws: Seq<TrialDraw>, k: int)
    requires
        0 <= i < s.len(),
    ensures
        trials_upto(refreshed(s, i, cfg), i, center, cfg, draws, k).len() == s.len(),
    decreases k,
{
    if k > 0 {
        lemma_processed_len(s, i, center, cfg, draws, k - 1);
    }
}

/// One round of the engine with given draws: every panel is processed in
/// order, each against the current positions of the others.
pub fn run_round(
    panels: &mut Vec<SolarPanel>,
    center: &Point,
    cfg: &Config,
    draws: &Vec<Vec<TrialDraw>>,
) -> (r: Vec<PanelReport>)
    requires
        panels_wf(old(panels)@),
        in_box(*center),
        cfg.wf(),
        draws@.len() == old(panels)@.len(),
        round_draws_ok(draws@),
    ensures
        final(panels)@ == round_upto(old(panels)@, *center, *cfg, draws@, old(panels)@.len() as int),
        panels_wf(final(panels)@),
        final(panels)@.len() == old(panels)@.len(),
        star_clear(positions(old(panels)@), *center, *cfg) ==> star_clear(
            positions(final(panels)@),
            *center,
            *cfg,
        ),
        separated(positions(old(panels)@), *cfg) ==> separated(positions(final(panels)@), *cfg),
        forall|k: int|
            0 <= k < old(panels)@.len() ==> (#[trigger] final(panels)@[k]).temperature
                <= old(panels)@[k].temperature,
        forall|k: int|
            0 <= k < old(panels)@.len() && draws@[k]@.len() >= 1 && old(panels)@[k].temperature
                > cfg.overheat_threshold ==> (#[trigger] final(panels)@[k]).temperature
                <= cfg.cool_target,
        r@.len() == old(panels)@.len(),
        forall|k: int|
            0 <= k < r@.len() ==> report_of(
                #[trigger] r@[k],
                round_upto(old(panels)@, *center, *cfg, draws@, k),
                k,
                *center,
                *cfg,
                draws@[k]@,
            ),
{
    let ghost s0 = panels@;
    let n = panels.len();
    let mut reports: Vec<PanelReport> = Vec::new();
    let mut k: usize = 0;
    while k < n
        invariant
            n == s0.len(),
            draws@.len() == n,
            round_draws_ok(draws@),
            in_box(*center),
            cfg.wf(),
            panels_wf(panels@),
            0 <= k <= n,
            panels@ == round_upto(s0, *center, *cfg, draws@, k as int),
            panels@.len() == n,
            reports@.len() == k,
            forall|j: int|
                0 <= j < k ==> report_of(
                    #[trigger] reports@[j],
                    round_upto(s0, *center, *cfg, draws@, j),
                    j,
                    *center,
                    *cfg,
                    draws@[j]@,
                ),
        decreases n - k,
    {
        proof {
            assert(draws_ok(draws@[k as int]@));
            lemma_processed_len(panels@, k as int, *center, *cfg, draws@[k as int]@, draws@[k as int]@.len() as int);
        }
        let rep = process_panel(panels, k, center, cfg, &draws[k]);
        reports.push(rep);
        k = k + 1;
    }
    proof {
        lemma_round_effects(s0, *center, *cfg, draws@, n as int);
    }
    reports
}

} // verus!

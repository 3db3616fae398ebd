use vstd::prelude::*;

use rand::rngs::StdRng;
use rand::Rng;

use crate::driver::{report_of, round_draws_ok, round_upto, run_round, PanelReport};
use crate::engine::{separated, star_clear, TrialDraw};
use crate::geometry::in_box;
use crate::metropolis::PROBABILITY_ONE;
use crate::model::{advanced, length_ok, panels_wf, positions, CelestialBody, Config, SolarPanel, SolarSwarm};

verus! {

/// rand's standard generator, carried through as an opaque random source.
#[verifier::external_type_specification]
#[verifier::external_body]
pub struct ExStdRng(StdRng);

/// Relies on rand's `Rng::gen_range` over an inclusive `i64` range: the value
/// lies within the range. It panics on an empty range, which `requires`
/// rules out.
#[verifier::external_body]
fn draw_between(rng: &mut StdRng, lo: i64, hi: i64) -> (r: i64)
    requires
        lo <= hi,
    ensures
        lo <= r <= hi,
{
    rng.gen_range(lo..=hi)
}

/// A draw fit for a panel with the given thruster range: each displacement
/// within `[-thruster, thruster]`, the uniform draw within
/// `[0, PROBABILITY_ONE)`.
pub open spec fn draw_within(d: TrialDraw, thruster: int) -> bool {
    -thruster <= d.dx <= thruster && -thruster <= d.dy <= thruster && -thruster <= d.dz
        <= thruster && 0 <= d.u < PROBABILITY_ONE
}

/// Draws for one round: one list of `trials` draws per panel, each fit for
/// that panel's thruster range.
pub open spec fn round_draws_for(
    draws: Seq<Vec<TrialDraw>>,
    s: Seq<SolarPanel>,
    trials: nat,
) -> bool {
    draws.len() == s.len() && forall|k: int|
        0 <= k < draws.len() ==> (#[trigger] draws[k])@.len() == trials && forall|j: int|
            0 <= j < trials ==> draw_within(#[trigger] draws[k]@[j], s[k].thruster as int)
}

/// Draws `n` candidate moves for a panel with the given thruster range.
pub fn draw_trials(rng: &mut StdRng, thruster: i64, n: usize) -> (r: Vec<TrialDraw>)
    requires
        length_ok(thruster),
    ensures
        r@.len() == n,
        forall|j: int| 0 <= j < n ==> draw_within(#[trigger] r@[j], thruster as int),
{
    let mut r: Vec<TrialDraw> = Vec::new();
    let mut k: usize = 0;
    while k < n
        invariant
            length_ok(thruster),
            0 <= k <= n,
            r@.len() == k,
            forall|j: int| 0 <= j < k ==> draw_within(#[trigger] r@[j], thruster as int),
        decreases n - k,
    {
        let dx = draw_between(rng, -thruster, thruster);
        let dy = draw_between(rng, -thruster, thruster);
        let dz = draw_between(rng, -thruster, thruster);
        let u = draw_between(rng, 0, (PROBABILITY_ONE - 1) as i64);
        r.push(TrialDraw { dx, dy, dz, u });
        k = k + 1;
    }
    r
}

/// Draws for one round of the given panels.
pub fn draw_round(rng: &mut StdRng, panels: &Vec<SolarPanel>, trials: usize) -> (r: Vec<
    Vec<TrialDraw>,
>)
    requires
        panels_wf(panels@),
    ensures
        round_draws_for(r@, panels@, trials as nat),
        round_draws_ok(r@),
{
    let mut r: Vec<Vec<TrialDraw>> = Vec::new();
    let mut k: usize = 0;
    while k < panels.len()
        invariant
            panels_wf(panels@),
            0 <= k <= panels@.len(),
            r@.len() == k,
            forall|i: int|
                0 <= i < k ==> (#[trigger] r@[i])@.len() == trials && forall|j: int|
                    0 <= j < trials ==> draw_within(
                        #[trigger] r@[i]@[j],
                        panels@[i].thruster as int,
                    ),
        decreases panels@.len() - k,
    {
        assert(panels@[k as int].wf());
        let d = draw_trials(rng, panels[k].thruster, trials);
        r.push(d);
        k = k + 1;
    }
    proof {
        assert forall|i: int| 0 <= i < r@.len() implies crate::driver::draws_ok(
            (#[trigger] r@[i])@,
        ) by {
            assert forall|j: int| 0 <= j < r@[i]@.len() implies crate::engine::draw_ok(
                #[trigger] r@[i]@[j],
            ) by {
                assert(draw_within(r@[i]@[j], panels@[i].thruster as int));
            }
        }
    }
    r
}

/// One round of the simulation: every panel is processed with `cfg.trials`
/// fresh random candidate moves, against the central body where it stands,
/// then the body advances by one time step.
pub fn rearrange_panels_hyperion(
    solar_swarm: &mut SolarSwarm,
    celestial_body: &mut CelestialBody,
    cfg: &Config,
    rng: &mut StdRng,
) -> (r: Vec<PanelReport>)
    requires
        panels_wf(old(solar_swarm).solar_panels@),
        in_box(old(celestial_body).position),
        cfg.wf(),
    ensures
        final(solar_swarm).name == old(solar_swarm).name,
        *final(celestial_body) == advanced(*old(celestial_body), 1),
        panels_wf(final(solar_swarm).solar_panels@),
        final(solar_swarm).solar_panels@.len() == old(solar_swarm).solar_panels@.len(),
        in_box(final(celestial_body).position),
        star_clear(positions(old(solar_swarm).solar_panels@), old(celestial_body).position, *cfg)
            ==> star_clear(
            positions(final(solar_swarm).solar_panels@),
            old(celestial_body).position,
            *cfg,
        ),
        separated(positions(old(solar_swarm).solar_panels@), *cfg) ==> separated(
            positions(final(solar_swarm).solar_panels@),
            *cfg,
        ),
        forall|k: int|
            0 <= k < old(solar_swarm).solar_panels@.len()
                ==> (#[trigger] final(solar_swarm).solar_panels@[k]).temperature
                <= old(solar_swarm).solar_panels@[k].temperature,
        forall|k: int|
            0 <= k < old(solar_swarm).solar_panels@.len() && cfg.trials >= 1
                && old(solar_swarm).solar_panels@[k].temperature > cfg.overheat_threshold
                ==> (#[trigger] final(solar_swarm).solar_panels@[k]).temperature
                <= cfg.cool_target,
        exists|draws: Seq<Vec<TrialDraw>>|
            {
                &&& round_draws_for(draws, old(solar_swarm).solar_panels@, cfg.trials as nat)
                &&& final(solar_swarm).solar_panels@ == round_upto(
                    old(solar_swarm).solar_panels@,
                    old(celestial_body).position,
                    *cfg,
                    draws,
                    draws.len() as int,
                )
                &&& r@.len() == draws.len()
                &&& forall|k: int|
                    0 <= k < r@.len() ==> report_of(
                        #[trigger] r@[k],
                        round_upto(
                            old(solar_swarm).solar_panels@,
                            old(celestial_body).position,
                            *cfg,
                            draws,
                            k,
                        ),
                        k,
                        old(celestial_body).position,
                        *cfg,
                        draws[k]@,
                    )
            },
{
    let draws = draw_round(rng, &solar_swarm.solar_panels, cfg.trials);
    let center = celestial_body.position;
    let reports = run_round(&mut solar_swarm.solar_panels, &center, cfg, &draws);
    let _moved = celestial_body.update_position(1);
    assert(round_draws_for(draws@, old(solar_swarm).solar_panels@, cfg.trials as nat));
    reports
}

/// The panels and the central body after the first `k` rounds, round `r`
/// using the draws `draws[r]`.
pub open spec fn rounds_upto(
    s: Seq<SolarPanel>,
    b: CelestialBody,
    cfg: Config,
    draws: Seq<Seq<Vec<TrialDraw>>>,
    k: int,
) -> (Seq<SolarPanel>, CelestialBody)
    decreases k,
{
    if k <= 0 {
        (s, b)
    } else {
        let (s1, b1) = rounds_upto(s, b, cfg, draws, k - 1);
        (round_upto(s1, b1.position, cfg, draws[k - 1], s1.len() as int), advanced(b1, 1))
    }
}

/// Each round's draws are fit for the panels at the start of that round.
pub open spec fn rounds_draws_for(
    s: Seq<SolarPanel>,
    b: CelestialBody,
    cfg: Config,
    draws: Seq<Seq<Vec<TrialDraw>>>,
) -> bool {
    forall|r: int|
        0 <= r < draws.len() ==> round_draws_for(
            #[trigger] draws[r],
            rounds_upto(s, b, cfg, draws, r).0,
            cfg.trials as nat,
        )
}

proof fn lemma_rounds_prefix(
    s: Seq<SolarPanel>,
    b: CelestialBody,
    cfg: Config,
    draws: Seq<Seq<Vec<TrialDraw>>>,
    more: Seq<Vec<TrialDraw>>,
    k: int,
)
    requires
        0 <= k <= draws.len(),
    ensures
        rounds_upto(s, b, cfg, draws.push(more), k) == rounds_upto(s, b, cfg, draws, k),
    decreases k,
{
    if k > 0 {
        lemma_rounds_prefix(s, b, cfg, draws, more, k - 1);
        assert(draws.push(more)[k - 1] == draws[k - 1]);
    }
}

/// Runs `cfg.rounds` rounds of the simulation.
pub fn simulate(
    solar_swarm: &mut SolarSwarm,
    celestial_body: &mut CelestialBody,
    cfg: &Config,
    rng: &mut StdRng,
)
    requires
        panels_wf(old(solar_swarm).solar_panels@),
        in_box(old(celestial_body).position),
        cfg.wf(),
    ensures
        final(solar_swarm).name == old(solar_swarm).name,
        final(solar_swarm).solar_panels@.len() == old(solar_swarm).solar_panels@.len(),
        panels_wf(final(solar_swarm).solar_panels@),
        in_box(final(celestial_body).position),
        exists|draws: Seq<Seq<Vec<TrialDraw>>>|
            {
                &&& draws.len() == cfg.rounds
                &&& rounds_draws_for(
                    old(solar_swarm).solar_panels@,
                    *old(celestial_body),
                    *cfg,
                    draws,
                )
                &&& (final(solar_swarm).solar_panels@, *final(celestial_body)) == rounds_upto(
                    old(solar_swarm).solar_panels@,
                    *old(celestial_body),
                    *cfg,
                    draws,
                    cfg.rounds as int,
                )
            },
{
    let ghost s0 = solar_swarm.solar_panels@;
    let ghost b0 = *celestial_body;
    let ghost mut all: Seq<Seq<Vec<TrialDraw>>> = Seq::empty();
    let mut k: usize = 0;
    while k < cfg.rounds
        invariant
            panels_wf(solar_swarm.solar_panels@),
            in_box(celestial_body.position),
            cfg.wf(),
            solar_swarm.name == old(solar_swarm).name,
            solar_swarm.solar_panels@.len() == s0.len(),
            0 <= k <= cfg.rounds,
            all.len() == k,
            rounds_draws_for(s0, b0, *cfg, all),
            (solar_swarm.solar_panels@, *celestial_body) == rounds_upto(s0, b0, *cfg, all, k as int),
        decreases cfg.rounds - k,
    {
        let ghost sk = solar_swarm.solar_panels@;
        let ghost bk = *celestial_body;
        let _reports = rearrange_panels_hyperion(solar_swarm, celestial_body, cfg, rng);
        proof {
            let d = choose|d: Seq<Vec<TrialDraw>>|
                {
                    &&& round_draws_for(d, sk, cfg.trials as nat)
                    &&& solar_swarm.solar_panels@ == round_upto(
                        sk,
                        bk.position,
                        *cfg,
                        d,
                        d.len() as int,
                    )
                    &&& _reports@.len() == d.len()
                    &&& forall|j: int|
                        0 <= j < _reports@.len() ==> report_of(
                            #[trigger] _reports@[j],
                            round_upto(sk, bk.position, *cfg, d, j),
                            j,
                            bk.position,
                            *cfg,
                            d[j]@,
                        )
                };
            let prev = all;
            all = all.push(d);
            lemma_rounds_prefix(s0, b0, *cfg, prev, d, k as int);
            assert forall|r: int| 0 <= r < all.len() implies round_draws_for(
                #[trigger] all[r],
                rounds_upto(s0, b0, *cfg, all, r).0,
                cfg.trials as nat,
            ) by {
                lemma_rounds_prefix(s0, b0, *cfg, prev, d, r);
                if r < k {
                    assert(all[r] == prev[r]);
                }
            }
        }
        k = k + 1;
    }
}

} // verus!

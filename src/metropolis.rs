use vstd::prelude::*;

use crate::energy::ENERGY_SCALE;
use crate::model::{temp_ok, Config, TEMP_LIMIT};

verus! {

/// Fixed-point representation of probability one: a uniform draw is an
/// integer in `[0, PROBABILITY_ONE)`.
pub const PROBABILITY_ONE: u64 = 4_294_967_296;

/// Exponent beyond which the Boltzmann factor counts as zero
/// (`exp(-64)` is far below one part in `PROBABILITY_ONE`).
pub const EXPONENT_CUTOFF: u64 = 64;

/// Number of squarings in the evaluation of `exp(-a)` as
/// `(1 - a / 2^SQUARINGS)^(2^SQUARINGS)`.
pub const SQUARINGS: u64 = 16;

/// `2^SQUARINGS`.
pub const SQUARING_BASE: u64 = 65_536;

/// `y` squared `k` times in fixed point, rounding down at each step.
pub open spec fn square_steps(y: int, k: nat) -> int
    decreases k,
{
    if k == 0 {
        y
    } else {
        square_steps(y * y / PROBABILITY_ONE as int, (k - 1) as nat)
    }
}

/// The Boltzmann factor `exp(-delta / temperature)` in fixed point, where
/// `delta` is an energy increase in energy units. It is one for `delta <= 0`,
/// zero for a non-positive temperature or an exponent of at least
/// `EXPONENT_CUTOFF`, and otherwise `(1 - a / 2^16)^(2^16)` for the exponent
/// `a`, evaluated by sixteen squarings.
pub open spec fn boltzmann_factor(delta: int, temperature: int) -> int {
    if delta <= 0 {
        PROBABILITY_ONE as int
    } else if temperature <= 0 {
        0
    } else if delta >= EXPONENT_CUTOFF * ENERGY_SCALE * temperature {
        0
    } else {
        let a = delta * PROBABILITY_ONE / (ENERGY_SCALE * temperature);
        square_steps(PROBABILITY_ONE - a / SQUARING_BASE as int, SQUARINGS as nat)
    }
}

/// The Metropolis rule: a move from energy `before` to energy `after` is taken
/// when the energy does not rise, and otherwise when the uniform draw `u`
/// falls below the Boltzmann factor of the rise.
pub open spec fn metropolis(before: int, after: int, temperature: int, u: int) -> bool {
    after <= before || u < boltzmann_factor(after - before, temperature)
}

proof fn lemma_square_step_bounded(y: int)
    requires
        0 <= y <= PROBABILITY_ONE,
    ensures
        0 <= y * y / PROBABILITY_ONE as int <= y,
{
    let one = PROBABILITY_ONE as int;
    assert(0 <= y * y <= y * one) by (nonlinear_arith)
        requires
            0 <= y <= one,
    ;
    vstd::arithmetic::div_mod::lemma_div_is_ordered(y * y, y * one, one);
    vstd::arithmetic::div_mod::lemma_div_multiples_vanish(y, one);
    vstd::arithmetic::div_mod::lemma_div_pos_is_pos(y * y, one);
}

/// The Boltzmann factor of an energy increase `delta`.
pub fn boltzmann(delta: u128, temperature: i64) -> (r: u64)
    requires
        temp_ok(temperature),
    ensures
        r == boltzmann_factor(delta as int, temperature as int),
        r <= PROBABILITY_ONE,
{
    if delta == 0 {
        return PROBABILITY_ONE;
    }
    if temperature <= 0 {
        return 0;
    }
    let denom: u128 = ENERGY_SCALE as u128 * temperature as u128;
    assert(0 < denom <= 10_000_000_000_000_000_000_000_000) by (nonlinear_arith)
        requires
            denom == 10_000_000_000_000_000 * temperature,
            0 < temperature <= TEMP_LIMIT,
    ;
    let cut: u128 = EXPONENT_CUTOFF as u128 * denom;
    assert(cut == EXPONENT_CUTOFF * ENERGY_SCALE * temperature) by (nonlinear_arith)
        requires
            cut == 64 * denom,
            denom == 10_000_000_000_000_000 * temperature,
    ;
    if delta >= cut {
        return 0;
    }
    assert(delta * PROBABILITY_ONE <= 640_000_000_000_000_000_000_000_000 * 4_294_967_296)
        by (nonlinear_arith)
        requires
            delta < cut,
            cut <= 640_000_000_000_000_000_000_000_000,
    ;
    let a: u128 = delta * PROBABILITY_ONE as u128 / denom;
    proof {
        let d = denom as int;
        let one = PROBABILITY_ONE as int;
        vstd::arithmetic::div_mod::lemma_fundamental_div_mod(delta * one, d);
        vstd::arithmetic::div_mod::lemma_mod_pos_bound(delta * one, d);
        assert(a < 64 * one) by (nonlinear_arith)
            requires
                a * d <= delta * one,
                delta < 64 * d,
                d > 0,
                one > 0,
        ;
    }
    let mut y: u64 = PROBABILITY_ONE - (a / SQUARING_BASE as u128) as u64;
    let mut k: u64 = 0;
    while k < SQUARINGS
        invariant
            0 <= k <= SQUARINGS,
            y <= PROBABILITY_ONE,
            square_steps(y as int, (SQUARINGS - k) as nat) == boltzmann_factor(
                delta as int,
                temperature as int,
            ),
        decreases SQUARINGS - k,
    {
        proof {
            lemma_square_step_bounded(y as int);
        }
        y = ((y as u128 * y as u128) / PROBABILITY_ONE as u128) as u64;
        k = k + 1;
    }
    y
}

/// The acceptance test of a candidate move (uniform draw `u`).
pub fn accepts(before: u128, after: u128, temperature: i64, u: i64) -> (r: bool)
    requires
        temp_ok(temperature),
    ensures
        r == metropolis(before as int, after as int, temperature as int, u as int),
        after <= before ==> r,
{
    if after <= before {
        true
    } else {
        let f = boltzmann(after - before, temperature);
        (u as i128) < f as i128
    }
}

/// The temperature after cooling from `t` with at most `n` steps of
/// `cfg.overheat_decrement`: steps stop once the temperature is at or below
/// `cfg.cool_target`, and a temperature still above it when the steps run out
/// is set to the target.
pub open spec fn cooled(t: int, n: nat, cfg: Config) -> int
    decreases n,
{
    if t <= cfg.cool_target {
        t
    } else if n == 0 {
        cfg.cool_target as int
    } else {
        cooled(t - cfg.overheat_decrement, (n - 1) as nat, cfg)
    }
}

/// Cools an overheating temperature; returns the new temperature and the
/// number of cooling steps taken, which never exceeds `cfg.cooling_bound`.
pub fn cool_down(t: i64, cfg: &Config) -> (r: (i64, usize))
    requires
        cfg.wf(),
        temp_ok(t),
    ensures
        r.0 == cooled(t as int, cfg.cooling_bound as nat, *cfg),
        r.0 <= cfg.cool_target || r.0 == t,
        t > cfg.cool_target ==> r.0 <= cfg.cool_target,
        r.0 <= t,
        temp_ok(r.0),
        r.1 <= cfg.cooling_bound,
{
    let mut temp: i64 = t;
    let mut steps: usize = 0;
    while temp > cfg.cool_target && steps < cfg.cooling_bound
        invariant
            cfg.wf(),
            temp_ok(t),
            steps <= cfg.cooling_bound,
            -TEMP_LIMIT <= temp <= t,
            temp == t || temp > cfg.cool_target - cfg.overheat_decrement,
            cooled(temp as int, (cfg.cooling_bound - steps) as nat, *cfg) == cooled(
                t as int,
                cfg.cooling_bound as nat,
                *cfg,
            ),
        decreases cfg.cooling_bound - steps,
    {
        temp = temp - cfg.overheat_decrement;
        steps = steps + 1;
    }
    if temp > cfg.cool_target {
        temp = cfg.cool_target;
    }
    (temp, steps)
}

} // verus!

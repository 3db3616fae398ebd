use vstd::prelude::*;

use crate::geometry::{
    dist_sq, in_box, is_isqrt, isqrt, lemma_dist_sq_nonneg, lemma_isqrt_unique, Point,
    COORD_LIMIT,
};

verus! {

/// Number of fixed-point energy units in one unit of inverse distance.
pub const ENERGY_SCALE: u64 = 10_000_000_000_000_000;

/// `(ENERGY_SCALE * LENGTH_SCALE)^2 = 10^38`: the energy of a pair at squared
/// fixed-point distance `d` is the integer square root of this over `d`. It
/// exceeds every squared distance within the coordinate box, so every pair of
/// distinct points there has an energy of at least one unit.
pub const PAIR_NUMERATOR: u128 = 100_000_000_000_000_000_000_000_000_000_000_000_000;

/// Largest energy of one pair: two points one fixed-point unit apart.
pub const MAX_PAIR_ENERGY: u128 = 10_000_000_000_000_000_000;

/// Number of points up to which the total energy of distinct points always
/// fits in a `u128`.
pub const MAX_PANELS: usize = 1_000_000_000;

/// Energy of one pair at squared fixed-point distance `d > 0`: the inverse
/// distance `1 / sqrt(d / LENGTH_SCALE^2)`, in energy units, rounded down.
pub open spec fn inv_distance(d: int) -> nat {
    if d <= 0 {
        0
    } else {
        choose|r: nat| #[trigger] is_isqrt(PAIR_NUMERATOR as int / (d as int), r as int)
    }
}

/// Sum of the energies of the pairs `(i, k)` with `i < k < j`.
pub open spec fn row_energy(s: Seq<Point>, i: int, j: int) -> int
    decreases j - i,
{
    if j <= i + 1 {
        0
    } else {
        row_energy(s, i, j - 1) + inv_distance(dist_sq(s[i], s[j - 1]))
    }
}

/// Sum of the energies of the pairs whose lower index is below `m`.
pub open spec fn energy_upto(s: Seq<Point>, m: int) -> int
    decreases m,
{
    if m <= 0 {
        0
    } else {
        energy_upto(s, m - 1) + row_energy(s, m - 1, s.len() as int)
    }
}

/// Potential energy of a configuration: the inverse distances summed over
/// all unordered pairs.
pub open spec fn total_energy_of(s: Seq<Point>) -> int {
    energy_upto(s, s.len() as int)
}

/// No two points of `s` coincide.
pub open spec fn all_distinct(s: Seq<Point>) -> bool {
    forall|a: int, b: int| 0 <= a < b < s.len() ==> s[a] != s[b]
}

pub open spec fn all_in_box(s: Seq<Point>) -> bool {
    forall|k: int| 0 <= k < s.len() ==> in_box(#[trigger] s[k])
}

proof fn lemma_row_monotone(s: Seq<Point>, i: int, j: int, k: int)
    requires
        j <= k,
    ensures
        row_energy(s, i, j) <= row_energy(s, i, k),
        row_energy(s, i, j) >= 0,
    decreases k - j,
{
    if j < k {
        lemma_row_monotone(s, i, j, k - 1);
    } else {
        lemma_row_nonneg(s, i, j);
    }
}

proof fn lemma_row_nonneg(s: Seq<Point>, i: int, j: int)
    ensures
        row_energy(s, i, j) >= 0,
    decreases j - i,
{
    if j > i + 1 {
        lemma_row_nonneg(s, i, j - 1);
    }
}

proof fn lemma_upto_monotone(s: Seq<Point>, m: int, k: int)
    requires
        m <= k,
    ensures
        energy_upto(s, m) <= energy_upto(s, k),
    decreases k - m,
{
    if m < k {
        lemma_upto_monotone(s, m, k - 1);
        if k > 0 {
            lemma_row_nonneg(s, k - 1, s.len() as int);
        }
    }
}

/// Energy of a pair at squared fixed-point distance `d`; at least one unit
/// for any two distinct points of the coordinate box.
pub fn pair_energy(d: u128) -> (r: u64)
    requires
        d > 0,
    ensures
        r == inv_distance(d as int),
        r <= MAX_PAIR_ENERGY,
        d <= 12 * COORD_LIMIT * COORD_LIMIT ==> r >= 1,
{
    let q: u128 = PAIR_NUMERATOR / d;
    let r = isqrt(q);
    proof {
        let c = choose|c: nat| #[trigger] is_isqrt(PAIR_NUMERATOR as int / (d as int), c as int);
        assert(is_isqrt(PAIR_NUMERATOR as int / (d as int), r as int));
        lemma_isqrt_unique(q as int, r as int, c as int);
        let n = PAIR_NUMERATOR as int;
        vstd::arithmetic::div_mod::lemma_div_is_ordered_by_denominator(n, 1, d as int);
        vstd::arithmetic::div_mod::lemma_div_basics(n);
        if r > 10_000_000_000_000_000_000 {
            assert(r * r > n) by (nonlinear_arith)
                requires
                    r > 10_000_000_000_000_000_000,
                    n == 100_000_000_000_000_000_000_000_000_000_000_000_000,
            ;
        }
        if d <= 12 * COORD_LIMIT * COORD_LIMIT {
            vstd::arithmetic::div_mod::lemma_div_is_ordered(d as int, n, d as int);
            vstd::arithmetic::div_mod::lemma_div_by_self(d as int);
        }
    }
    r as u64
}

/// Total potential energy of a configuration: `None` when two points
/// coincide (the energy is unbounded) or when the sum does not fit in a `u128`.
pub fn total_energy(points: &Vec<Point>) -> (r: Option<u128>)
    requires
        all_in_box(points@),
    ensures
        r matches Some(e) ==> all_distinct(points@) && e == total_energy_of(points@),
        r is None ==> !all_distinct(points@) || total_energy_of(points@) > u128::MAX,
        all_distinct(points@) && points@.len() <= MAX_PANELS ==> r is Some,
        points@.len() >= 2 ==> (r matches Some(e) ==> e > 0),
{
    let n = points.len();
    let ghost s = points@;
    let mut acc: u128 = 0;
    let mut i: usize = 0;
    while i < n
        invariant
            n == s.len(),
            s == points@,
            all_in_box(s),
            0 <= i <= n,
            acc == energy_upto(s, i as int),
            forall|a: int, b: int| 0 <= a < i && a < b < n ==> s[a] != s[b],
            i > 0 && n >= 2 ==> acc > 0,
            acc <= (i * n + i + 1) * MAX_PAIR_ENERGY,
        decreases n - i,
    {
        let mut j: usize = i + 1;
        while j < n
            invariant
                n == s.len(),
                s == points@,
                all_in_box(s),
                0 <= i < n,
                i + 1 <= j <= n,
                acc == energy_upto(s, i as int) + row_energy(s, i as int, j as int),
                forall|a: int, b: int| 0 <= a < i && a < b < n ==> s[a] != s[b],
                forall|b: int| i < b < j ==> s[i as int] != s[b],
                (i > 0 && n >= 2) || j > i + 1 ==> acc > 0,
                acc <= (i * n + j) * MAX_PAIR_ENERGY,
            decreases n - j,
        {
            let d = points[i].distance_sq(&points[j]);
            proof {
                lemma_dist_sq_nonneg(s[i as int], s[j as int]);
            }
            if d == 0 {
                return None;
            }
            let e = pair_energy(d);
            proof {
                assert((i * n + j) * MAX_PAIR_ENERGY + MAX_PAIR_ENERGY == (i * n + j + 1)
                    * MAX_PAIR_ENERGY) by (nonlinear_arith);
                if n <= MAX_PANELS {
                    assert((i * n + j + 1) * MAX_PAIR_ENERGY <= u128::MAX) by (nonlinear_arith)
                        requires
                            i < n,
                            j < n,
                            n <= MAX_PANELS,
                    ;
                }
            }
            match acc.checked_add(e as u128) {
                Some(v) => {
                    acc = v;
                },
                None => {
                    proof {
                        lemma_row_monotone(s, i as int, j + 1, n as int);
                        lemma_upto_monotone(s, i + 1, n as int);
                    }
                    return None;
                },
            }
            j = j + 1;
        }
        proof {
            assert((i * n + n) * MAX_PAIR_ENERGY <= ((i + 1) * n + (i + 1) + 1) * MAX_PAIR_ENERGY)
                by (nonlinear_arith);
            assert forall|a: int, b: int| 0 <= a < i + 1 && a < b < n implies s[a] != s[b] by {
                if a < i {
                    assert(s[a] != s[b]);
                }
            }
        }
        i = i + 1;
    }
    Some(acc)
}

} // verus!

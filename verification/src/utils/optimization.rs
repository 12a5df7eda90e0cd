//! Adaptive one-dimensional search and the hybrid minimum scan.
//!
//! All quantities are non-negative integers counted in the caller's
//! resolution unit, so every sum, halving and comparison below is exact.

use vstd::prelude::*;
use vstd::string::StringExecFns;

verus! {

/// Number of successes in a row after which the step is doubled.
pub const CONSECUTIVE_SUCCESSES_THRESHOLD: u32 = 3;

/// The point that is tried from `x` with step `step`: `x + step`, clipped to `limit`.
pub open spec fn probe(x: u64, step: int, limit: u64) -> u64 {
    if x + step > limit {
        limit
    } else {
        (x + step) as u64
    }
}

/// `k` is a power of two.
pub open spec fn is_dyadic(k: int) -> bool
    decreases k,
{
    k == 1 || (k >= 2 && k % 2 == 0 && is_dyadic(k / 2))
}

/// What a finished search has established about `x`, where `verdict(v, b)`
/// says that the condition may answer `b` at the point `v`.
///
/// * `x` lies in `[0, limit]` and is either `0` or a point that the condition accepted;
/// * a non-zero `x` short of the limit is at least one `min_step` long, and a whole
///   number of them when the search started with `min_step`;
/// * the search stopped either on the limit, which the condition accepted, or on a
///   refusal at `x + s` (clipped to the limit) for some `s` in `[min_step, 2 * min_step]`,
///   and `s` is exactly `min_step` when the search started with `min_step`.
pub open spec fn search_outcome(
    verdict: spec_fn(u64, bool) -> bool,
    min_step: u64,
    initial_step: u64,
    limit: u64,
    x: u64,
) -> bool {
    &&& x <= limit
    &&& (x == 0 || verdict(x, true))
    &&& (x == 0 || x == limit || x >= min_step)
    &&& (initial_step == min_step && min_step > 0 ==> x == limit || x % min_step == 0)
    &&& ({
        ||| x == limit && verdict(limit, true)
        ||| exists|s: int|
            min_step <= s <= 2 * min_step && (initial_step == min_step ==> s == min_step)
                && verdict(#[trigger] probe(x, s, limit), false)
    })
}

/// The answers that an executable condition may give.
pub open spec fn verdict_of<F: Fn(u64) -> bool>(condition: &F) -> spec_fn(u64, bool) -> bool {
    |v: u64, b: bool| call_ensures(condition, (v,), b)
}

/// An outcome established with one condition holds of every condition that
/// may give the same answers.
pub proof fn lemma_search_outcome_transfers(
    verdict: spec_fn(u64, bool) -> bool,
    other: spec_fn(u64, bool) -> bool,
    min_step: u64,
    initial_step: u64,
    limit: u64,
    x: u64,
)
    requires
        search_outcome(verdict, min_step, initial_step, limit, x),
        forall|v: u64, b: bool| #[trigger] verdict(v, b) ==> other(v, b),
    ensures
        search_outcome(other, min_step, initial_step, limit, x),
{
    if !(x == limit && verdict(limit, true)) {
        let s = choose|s: int|
            min_step <= s <= 2 * min_step && (initial_step == min_step ==> s == min_step)
                && verdict(#[trigger] probe(x, s, limit), false);
        assert(other(probe(x, s, limit), false));
    }
}

proof fn lemma_halve_multiple(m: int, k: int)
    requires
        m > 0,
        k >= 2,
        k % 2 == 0,
    ensures
        (m * k) / 2 == m * (k / 2),
        (m * k) % 2 == 0,
        m * k >= 2 * m,
{
    let j = k / 2;
    assert(k == 2 * j);
    assert(m * k == 2 * (m * j)) by (nonlinear_arith)
        requires
            k == 2 * j,
    ;
    assert(m * j >= m) by (nonlinear_arith)
        requires
            m > 0,
            j >= 1,
    ;
}

proof fn lemma_double_multiple(m: int, k: int)
    requires
        is_dyadic(k),
    ensures
        is_dyadic(2 * k),
        m * (2 * k) == 2 * (m * k),
{
    assert((2 * k) / 2 == k);
    assert(k >= 1) by {
        reveal_with_fuel(is_dyadic, 1);
    }
    assert(m * (2 * k) == 2 * (m * k)) by (nonlinear_arith);
}

/// Largest admissible step within a limit, found by adaptive doubling and halving.
///
/// Starting from `x = 0` with step `initial_step`, the search tries `x + step`
/// clipped to `limit`. An accepted point becomes the new `x`; after three
/// acceptances in a row the step doubles, and the first acceptance after a
/// refusal halves it once. A refusal halves the step. The search ends when `x`
/// has reached `limit` or the step has fallen below `min_step`.
pub fn get_maximum_condition_from<F: Fn(u64) -> bool>(
    condition: &F,
    min_step: u64,
    initial_step: u64,
    limit: u64,
) -> (x: u64)
    requires
        min_step > 0,
        initial_step >= min_step,
        forall|v: u64| v <= limit ==> call_requires(condition, (v,)),
    ensures
        search_outcome(verdict_of(condition), min_step, initial_step, limit, x),
{
    let mut step: u128 = initial_step as u128;
    let mut consecutive_successes: u32 = 0;
    let mut x: u64 = 0;
    let mut last_attempt_successful = true;
    // `step == min_step * k` with `k` a power of two, when the search started at `min_step`
    let ghost mut k: int = 1;
    // offset from `x` of the last refused point, while the last attempt was a refusal
    let ghost mut refused: int = 0;
    // `x == min_step * j`, when the search started at `min_step`
    let ghost mut j: int = 0;
    proof {
        assert(min_step * 1 == min_step) by (nonlinear_arith);
        assert(min_step * 0 == 0) by (nonlinear_arith);
    }

    loop
        invariant_except_break
            min_step <= step <= 2 * 0xffff_ffff_ffff_ffff,
            x < limit || (x == 0 && limit == 0),
            initial_step == min_step ==> is_dyadic(k) && step == min_step * k,
            !last_attempt_successful ==> consecutive_successes == 0 && 2 * step <= refused <= 2
                * step + 1 && (initial_step == min_step ==> refused == 2 * step)
                && call_ensures(condition, (probe(x, refused, limit),), false),
        invariant
            min_step > 0,
            initial_step >= min_step,
            forall|v: u64| v <= limit ==> call_requires(condition, (v,)),
            x <= limit,
            x == 0 || call_ensures(condition, (x,), true),
            x == 0 || x == limit || x >= min_step,
            initial_step == min_step ==> x == limit || (j >= 0 && x == min_step * j),
            initial_step == min_step ==> x == limit || x % min_step == 0,
            consecutive_successes <= CONSECUTIVE_SUCCESSES_THRESHOLD,
        ensures
            search_outcome(verdict_of(condition), min_step, initial_step, limit, x),
        decreases limit - x, step,
    {
        let sum: u128 = x as u128 + step;
        let x_try: u64 = if sum > limit as u128 {
            limit
        } else {
            sum as u64
        };
        assert(x_try == probe(x, step as int, limit));

        if condition(x_try) {
            // accept the new value
            let ghost x_old = x;
            x = x_try;

            // nothing lies beyond the limit
            if x == limit {
                break ;
            }
            assert(x == x_old + step);
            proof {
                if initial_step == min_step {
                    assert(min_step * (j + k) == min_step * j + min_step * k)
                        by (nonlinear_arith);
                    assert(k >= 1) by {
                        reveal_with_fuel(is_dyadic, 1);
                    }
                    j = j + k;
                    assert(x == min_step * j);
                    assert(x == j * min_step) by (nonlinear_arith)
                        requires
                            x == min_step * j,
                    ;
                    vstd::arithmetic::div_mod::lemma_mod_multiples_basic(j, min_step as int);
                }
            }

            // the point refused last time is now one step ahead: do not try it again
            let ghost step_old = step as int;
            if !last_attempt_successful {
                proof {
                    if initial_step == min_step && step / 2 >= min_step as u128 {
                        if k == 1 {
                            assert(min_step * 1 == min_step) by (nonlinear_arith);
                        }
                        lemma_halve_multiple(min_step as int, k);
                        k = k / 2;
                    }
                    assert(probe(x, refused - step_old, limit) == probe(x_old, refused, limit));
                    refused = refused - step_old;
                }
                step = step / 2;
            }
            last_attempt_successful = true;
            if consecutive_successes < CONSECUTIVE_SUCCESSES_THRESHOLD {
                consecutive_successes += 1;
            }
            // after enough successes in a row, take longer steps
            if consecutive_successes >= CONSECUTIVE_SUCCESSES_THRESHOLD {
                proof {
                    if initial_step == min_step {
                        lemma_double_multiple(min_step as int, k);
                        k = 2 * k;
                    }
                }
                step = step * 2;
            }
            if step < min_step as u128 {
                proof {
                    // only the halving after a refusal can have brought the step this low
                    assert(step_old / 2 < min_step);
                    assert(min_step <= refused <= 2 * min_step);
                    if initial_step == min_step {
                        lemma_step_is_min(min_step as int, k, step_old);
                        assert(refused == min_step);
                    }
                }
                break ;
            }
        } else {
            // refused: take shorter steps
            proof {
                refused = step as int;
                if initial_step == min_step {
                    if step / 2 >= min_step as u128 {
                        if k == 1 {
                            assert(min_step * 1 == min_step) by (nonlinear_arith);
                        }
                        lemma_halve_multiple(min_step as int, k);
                        k = k / 2;
                    } else {
                        lemma_step_is_min(min_step as int, k, step as int);
                    }
                }
            }
            step = step / 2;
            consecutive_successes = 0;
            last_attempt_successful = false;
            if step < min_step as u128 {
                break ;
            }
        }
    }
    x
}

proof fn lemma_step_is_min(m: int, k: int, step: int)
    requires
        m > 0,
        is_dyadic(k),
        step == m * k,
        step / 2 < m,
    ensures
        step == m,
{
    if k >= 2 {
        lemma_halve_multiple(m, k);
    } else {
        assert(m * 1 == m) by (nonlinear_arith);
    }
}

/// The search of [`get_maximum_condition_from`] started with the smallest step.
pub fn get_maximum_condition<F: Fn(u64) -> bool>(condition: F, min_step: u64, limit: u64) -> (x:
    u64)
    requires
        min_step > 0,
        forall|v: u64| v <= limit ==> call_requires(condition, (v,)),
    ensures
        search_outcome(verdict_of(&condition), min_step, min_step, limit, x),
{
    get_maximum_condition_from(&condition, min_step, min_step, limit)
}

/// Index window around the coarse minimum in which the fine scan runs.
///
/// The window reaches one sample to each side of `index_of_logmin` (and starts
/// at the minimum itself when that is the first sample). A minimum on the last
/// sample has no upper neighbour: it is out of bounds and there is no window.
pub open spec fn linsearch_interval<T>(index_of_logmin: int, log_space: Seq<T>) -> Option<(T, T)> {
    if index_of_logmin == log_space.len() - 1 {
        None
    } else if index_of_logmin == 0 {
        Some((log_space[0], log_space[1]))
    } else {
        Some((log_space[index_of_logmin - 1], log_space[index_of_logmin + 1]))
    }
}

/// End points of the fine scan around the coarse minimum, `None` when the
/// minimum sits on the last sample.
pub fn get_linsearch_interval<T: Copy>(index_of_logmin: usize, log_space: &[T]) -> (r: Option<
    (T, T),
>)
    requires
        index_of_logmin < log_space@.len(),
    ensures
        r == linsearch_interval(index_of_logmin as int, log_space@),
{
    let last_index = log_space.len() - 1;
    let w_min = if index_of_logmin == 0 {
        log_space[0]
    } else {
        log_space[index_of_logmin - 1]
    };

    let w_max = if index_of_logmin == last_index {
        return None;
    } else {
        log_space[index_of_logmin + 1]
    };
    Some((w_min, w_max))
}


/// For a search started with the smallest step on a monotone predicate that
/// holds at `0`: the result lies in `[0, limit]` and satisfies the predicate;
/// short of the limit, the predicate fails one `min_step` further on; on the
/// limit, the predicate holds at the limit.
pub proof fn lemma_maximum_condition_is_maximal(
    verdict: spec_fn(u64, bool) -> bool,
    p: spec_fn(int) -> bool,
    min_step: u64,
    limit: u64,
    x: u64,
)
    requires
        min_step > 0,
        forall|v: u64, r: bool| #[trigger] verdict(v, r) ==> r == p(v as int),
        forall|a: int, b: int| 0 <= a <= b && #[trigger] p(b) ==> #[trigger] p(a),
        p(0),
        search_outcome(verdict, min_step, min_step, limit, x),
    ensures
        0 <= x <= limit,
        p(x as int),
        x < limit ==> !p(x + min_step),
        x == limit ==> p(limit as int),
{
    if !(x == limit && verdict(limit, true)) {
        let s = choose|s: int|
            min_step <= s <= 2 * min_step && s == min_step && verdict(
                #[trigger] probe(x, s, limit),
                false,
            );
        assert(!p(probe(x, s, limit) as int));
        assert(probe(x, s, limit) <= x + min_step);
    }
}

/// Two searches started with the smallest step on the same monotone
/// predicate, which holds at `0`, end on the same point.
pub proof fn lemma_maximum_condition_unique(
    verdict: spec_fn(u64, bool) -> bool,
    p: spec_fn(int) -> bool,
    min_step: u64,
    limit: u64,
    x1: u64,
    x2: u64,
)
    requires
        min_step > 0,
        forall|v: u64, r: bool| #[trigger] verdict(v, r) ==> r == p(v as int),
        forall|a: int, b: int| 0 <= a <= b && #[trigger] p(b) ==> #[trigger] p(a),
        p(0),
        search_outcome(verdict, min_step, min_step, limit, x1),
        search_outcome(verdict, min_step, min_step, limit, x2),
    ensures
        x1 == x2,
{
    lemma_maximum_condition_is_maximal(verdict, p, min_step, limit, x1);
    lemma_maximum_condition_is_maximal(verdict, p, min_step, limit, x2);
    if x1 < x2 {
        lemma_next_multiple(x1 as int, x2 as int, min_step as int, limit as int);
    } else if x2 < x1 {
        lemma_next_multiple(x2 as int, x1 as int, min_step as int, limit as int);
    }
}

proof fn lemma_next_multiple(low: int, high: int, m: int, limit: int)
    requires
        m > 0,
        0 <= low < high <= limit,
        low % m == 0,
        high == limit || high % m == 0,
    ensures
        high == limit || low + m <= high,
{
    if high % m == 0 {
        vstd::arithmetic::div_mod::lemma_fundamental_div_mod(low, m);
        vstd::arithmetic::div_mod::lemma_fundamental_div_mod(high, m);
        let a = low / m;
        let b = high / m;
        assert(low == m * a);
        assert(high == m * b);
        assert(a < b) by (nonlinear_arith)
            requires
                m > 0,
                m * a < m * b,
        ;
        assert(m * (a + 1) <= m * b) by (nonlinear_arith)
            requires
                m > 0,
                a + 1 <= b,
        ;
        assert(m * (a + 1) == m * a + m) by (nonlinear_arith);
    }
}

/// For a monotone predicate that already fails one `min_step` from `0` (or at
/// the limit, where that is nearer), the search returns `0`, whatever step it
/// started with.
pub proof fn lemma_refused_at_min_step_gives_zero(
    verdict: spec_fn(u64, bool) -> bool,
    p: spec_fn(int) -> bool,
    min_step: u64,
    initial_step: u64,
    limit: u64,
    x: u64,
)
    requires
        min_step > 0,
        forall|v: u64, r: bool| #[trigger] verdict(v, r) ==> r == p(v as int),
        forall|a: int, b: int| 0 <= a <= b && #[trigger] p(b) ==> #[trigger] p(a),
        !p(probe(0, min_step as int, limit) as int),
        search_outcome(verdict, min_step, initial_step, limit, x),
    ensures
        x == 0,
{
    if x != 0 {
        assert(p(x as int));
        assert(probe(0, min_step as int, limit) <= x);
    }
}

/// `i` is the first position of a least element of `values`.
pub open spec fn is_first_minimum(values: Seq<u64>, i: int) -> bool {
    &&& 0 <= i < values.len()
    &&& forall|j: int| 0 <= j < values.len() ==> values[i] <= #[trigger] values[j]
    &&& forall|j: int| 0 <= j < i ==> values[i] < #[trigger] values[j]
}

/// `m` is the least element of the non-empty sequence `values`.
pub open spec fn is_minimum(values: Seq<u64>, m: u64) -> bool {
    &&& exists|i: int| 0 <= i < values.len() && #[trigger] values[i] == m
    &&& forall|j: int| 0 <= j < values.len() ==> m <= #[trigger] values[j]
}

/// Position of the least sample; of several equal ones, the first.
pub fn index_of_minimum(values: &[u64]) -> (index: usize)
    requires
        values@.len() > 0,
    ensures
        is_first_minimum(values@, index as int),
        index == first_minimum_index(values@),
{
    let mut index: usize = 0;
    let mut i: usize = 1;
    while i < values.len()
        invariant
            1 <= i <= values@.len(),
            index < i,
            forall|j: int| 0 <= j < i ==> values@[index as int] <= #[trigger] values@[j],
            forall|j: int| 0 <= j < index ==> values@[index as int] < #[trigger] values@[j],
        decreases values@.len() - i,
    {
        if values[i] < values[index] {
            index = i;
        }
        i += 1;
    }
    proof {
        lemma_first_minimum_unique(values@, index as int);
    }
    index
}

/// A coarse scan already evaluated, with the means to refine it.
///
/// `log_space` is the coarse frequency grid and `logspace_fraction` the ratio
/// on it, sample by sample. `linear_grid` builds the fine grid of `lin_steps`
/// points between two frequencies, and `linspace_fraction_generator` evaluates
/// the ratio on such a grid. The frequency type `W` is carried, never read.
pub struct MinimizationProblemFast<'b, W, L, G> {
    pub log_space: &'b [W],
    pub lin_steps: usize,
    pub logspace_fraction: Vec<u64>,
    pub linear_grid: L,
    pub linspace_fraction_generator: G,
}

/// A coarse scan still to be evaluated from numerator samples.
///
/// `precalculated_numerator` holds one numerator sample per coarse frequency,
/// `fraction_of_numerator` divides such a sample by the denominator at its
/// frequency, and `fraction_function` evaluates the whole ratio at a frequency
/// of the fine grid, which `linear_grid` builds. The types `W` and `N` are
/// carried, never read.
pub struct MinimizationProblemSlow<'b, W, N, L, F1, F2> {
    pub log_space: &'b [W],
    pub lin_steps: usize,
    pub precalculated_numerator: &'b [N],
    pub linear_grid: L,
    pub fraction_of_numerator: &'b F1,
    pub fraction_function: &'b F2,
}

/// Position of the first least element of a non-empty sequence.
pub open spec fn first_minimum_index(values: Seq<u64>) -> int {
    choose|i: int| is_first_minimum(values, i)
}

/// A sequence has at most one first minimum.
pub proof fn lemma_first_minimum_unique(values: Seq<u64>, i: int)
    requires
        is_first_minimum(values, i),
    ensures
        first_minimum_index(values) == i,
{
    let k = first_minimum_index(values);
    assert(is_first_minimum(values, k));
    if k < i {
        assert(values[i] < values[k]);
        assert(values[k] <= values[i]);
    } else if i < k {
        assert(values[k] < values[i]);
        assert(values[i] <= values[k]);
    }
}

/// Least element of a non-empty scan.
pub fn minimum_of(values: &Vec<u64>) -> (m: u64)
    requires
        values@.len() > 0,
    ensures
        is_minimum(values@, m),
{
    let index = index_of_minimum(values.as_slice());
    values[index]
}

/// Hybrid minimum of a ratio: coarse scan, then a fine scan around its minimum.
pub fn find_minimum_fraction_fast<'b, W: Copy, L, G>(
    problem: MinimizationProblemFast<'b, W, L, G>,
) -> (min: u64) where L: Fn(W, W, usize) -> Vec<W>, G: Fn(&Vec<W>) -> Vec<u64>
    requires
        0 < problem.logspace_fraction@.len() <= problem.log_space@.len(),
        forall|a: W, b: W| call_requires(problem.linear_grid, (a, b, problem.lin_steps)),
        forall|grid: &Vec<W>| call_requires(problem.linspace_fraction_generator, (grid,)),
        forall|grid: &Vec<W>, fine: Vec<u64>|
            call_ensures(problem.linspace_fraction_generator, (grid,), fine) ==> fine@.len() > 0,
    ensures
        match linsearch_interval(
            first_minimum_index(problem.logspace_fraction@),
            problem.log_space@,
        ) {
            None => min == 0,
            Some(window) => exists|grid: Vec<W>, fine: Vec<u64>|
                {
                    &&& call_ensures(
                        problem.linear_grid,
                        (window.0, window.1, problem.lin_steps),
                        grid,
                    )
                    &&& #[trigger] call_ensures(
                        problem.linspace_fraction_generator,
                        (&grid,),
                        fine,
                    )
                    &&& is_minimum(fine@, min)
                },
        },
{
    // coarse scan
    let minind = index_of_minimum(problem.logspace_fraction.as_slice());

    // fine scan
    let (w_min, w_max) = match get_linsearch_interval(minind, problem.log_space) {
        Some(val) => val,
        None => return 0,
    };
    let w_linspace = (problem.linear_grid)(w_min, w_max, problem.lin_steps);
    let fine = (problem.linspace_fraction_generator)(&w_linspace);
    minimum_of(&fine)
}

/// `coarse` is the ratio on the coarse grid: sample `i` is what
/// `fraction_of_numerator` gave for the `i`-th numerator and frequency, over
/// as many samples as both sequences have.
pub open spec fn is_coarse_scan<W, N, F1: Fn(&N, W) -> u64>(
    fraction_of_numerator: &F1,
    numerator: Seq<N>,
    log_space: Seq<W>,
    coarse: Seq<u64>,
) -> bool {
    &&& coarse.len() == if numerator.len() <= log_space.len() {
        numerator.len()
    } else {
        log_space.len()
    }
    &&& forall|i: int|
        0 <= i < coarse.len() ==> call_ensures(
            fraction_of_numerator,
            (&numerator[i], log_space[i]),
            #[trigger] coarse[i],
        )
}

/// `fine` is the ratio on `grid`: sample `j` is what `fraction_function` gave
/// for the `j`-th frequency.
pub open spec fn is_fine_scan<W, F2: Fn(W) -> u64>(
    fraction_function: &F2,
    grid: Seq<W>,
    fine: Seq<u64>,
) -> bool {
    &&& fine.len() == grid.len()
    &&& forall|j: int|
        0 <= j < fine.len() ==> call_ensures(fraction_function, (grid[j],), #[trigger] fine[j])
}

/// Hybrid minimum of a ratio from numerator samples: the coarse scan divides
/// each sample by the denominator at its frequency, the fine scan evaluates the
/// whole ratio around the coarse minimum.
pub fn find_minimum_fraction_slow<'b, W: Copy, N, L, F1, F2>(
    problem: &MinimizationProblemSlow<'b, W, N, L, F1, F2>,
) -> (min: u64) where L: Fn(W, W, usize) -> Vec<W>, F1: Fn(&N, W) -> u64, F2: Fn(W) -> u64
    requires
        problem.log_space@.len() > 0,
        problem.precalculated_numerator@.len() > 0,
        forall|a: W, b: W| call_requires(problem.linear_grid, (a, b, problem.lin_steps)),
        forall|a: W, b: W, grid: Vec<W>|
            call_ensures(problem.linear_grid, (a, b, problem.lin_steps), grid) ==> grid@.len()
                > 0,
        forall|n: &N, w: W| call_requires(problem.fraction_of_numerator, (n, w)),
        forall|w: W| call_requires(problem.fraction_function, (w,)),
    ensures
        exists|coarse: Seq<u64>|
            {
                &&& #[trigger] is_coarse_scan(
                    problem.fraction_of_numerator,
                    problem.precalculated_numerator@,
                    problem.log_space@,
                    coarse,
                )
                &&& match linsearch_interval(first_minimum_index(coarse), problem.log_space@) {
                    None => min == 0,
                    Some(window) => exists|grid: Vec<W>, fine: Seq<u64>|
                        {
                            &&& call_ensures(
                                problem.linear_grid,
                                (window.0, window.1, problem.lin_steps),
                                grid,
                            )
                            &&& #[trigger] is_fine_scan(problem.fraction_function, grid@, fine)
                            &&& is_minimum(fine, min)
                        },
                }
            },
{
    // coarse scan
    let mut coarse: Vec<u64> = Vec::new();
    let mut i: usize = 0;
    while i < problem.precalculated_numerator.len() && i < problem.log_space.len()
        invariant
            i <= problem.precalculated_numerator@.len(),
            i <= problem.log_space@.len(),
            coarse@.len() == i,
            forall|n: &N, w: W| call_requires(problem.fraction_of_numerator, (n, w)),
            forall|j: int|
                0 <= j < i ==> call_ensures(
                    problem.fraction_of_numerator,
                    (&problem.precalculated_numerator@[j], problem.log_space@[j]),
                    #[trigger] coarse@[j],
                ),
        decreases problem.log_space@.len() - i,
    {
        let fraction = (problem.fraction_of_numerator)(
            &problem.precalculated_numerator[i],
            problem.log_space[i],
        );
        coarse.push(fraction);
        i += 1;
    }
    assert(is_coarse_scan(
        problem.fraction_of_numerator,
        problem.precalculated_numerator@,
        problem.log_space@,
        coarse@,
    ));
    let minind = index_of_minimum(coarse.as_slice());

    // fine scan
    let (w_min, w_max) = match get_linsearch_interval(minind, problem.log_space) {
        Some(val) => val,
        None => return 0,
    };
    let grid = (problem.linear_grid)(w_min, w_max, problem.lin_steps);
    let mut fine: Vec<u64> = Vec::new();
    let mut j: usize = 0;
    while j < grid.len()
        invariant
            j <= grid@.len(),
            fine@.len() == j,
            forall|w: W| call_requires(problem.fraction_function, (w,)),
            forall|k: int|
                0 <= k < j ==> call_ensures(
                    problem.fraction_function,
                    (grid@[k],),
                    #[trigger] fine@[k],
                ),
        decreases grid@.len() - j,
    {
        let fraction = (problem.fraction_function)(grid[j]);
        fine.push(fraction);
        j += 1;
    }
    assert(is_fine_scan(problem.fraction_function, grid@, fine@));
    minimum_of(&fine)
}

/// Smallest and largest frequency at which a minimum was found so far.
/// `min_w` is `None` until the first frequency is recorded.
#[derive(Clone, Copy, Debug)]
pub struct MinMaxStatistics {
    pub min_w: Option<u64>,
    pub max_w: u64,
}

impl MinMaxStatistics {
    /// Statistics of a run that has recorded nothing yet.
    pub fn new() -> (stats: MinMaxStatistics)
        ensures
            stats.min_w is None,
            stats.max_w == 0,
    {
        MinMaxStatistics { min_w: None, max_w: 0 }
    }
}

/// Records the frequency `w`: the bounds widen just enough to hold it.
pub fn update_statistics(stats: &mut MinMaxStatistics, w: u64)
    ensures
        final(stats).min_w == Some(
            match old(stats).min_w {
                Some(m) if m <= w => m,
                _ => w,
            },
        ),
        final(stats).max_w == if w > old(stats).max_w {
            w
        } else {
            old(stats).max_w
        },
{
    match stats.min_w {
        Some(m) => {
            if w < m {
                stats.min_w = Some(w);
            }
        },
        None => {
            stats.min_w = Some(w);
        },
    }
    if w > stats.max_w {
        stats.max_w = w;
    }
}

/// The character of a decimal digit.
pub open spec fn digit_char(d: nat) -> char {
    if d == 0 {
        '0'
    } else if d == 1 {
        '1'
    } else if d == 2 {
        '2'
    } else if d == 3 {
        '3'
    } else if d == 4 {
        '4'
    } else if d == 5 {
        '5'
    } else if d == 6 {
        '6'
    } else if d == 7 {
        '7'
    } else if d == 8 {
        '8'
    } else {
        '9'
    }
}

/// The decimal numeral of `n`.
pub open spec fn decimal(n: nat) -> Seq<char>
    decreases n,
{
    if n < 10 {
        seq![digit_char(n)]
    } else {
        decimal(n / 10).push(digit_char(n % 10))
    }
}

fn digit(d: u64) -> (text: &'static str)
    requires
        d < 10,
    ensures
        text@ == seq![digit_char(d as nat)],
{
    proof {
        reveal_strlit("0");
        reveal_strlit("1");
        reveal_strlit("2");
        reveal_strlit("3");
        reveal_strlit("4");
        reveal_strlit("5");
        reveal_strlit("6");
        reveal_strlit("7");
        reveal_strlit("8");
        reveal_strlit("9");
    }
    let text = if d == 0 {
        "0"
    } else if d == 1 {
        "1"
    } else if d == 2 {
        "2"
    } else if d == 3 {
        "3"
    } else if d == 4 {
        "4"
    } else if d == 5 {
        "5"
    } else if d == 6 {
        "6"
    } else if d == 7 {
        "7"
    } else if d == 8 {
        "8"
    } else {
        "9"
    };
    assert(text@ =~= seq![digit_char(d as nat)]);
    text
}

/// Writes `n` as a decimal numeral.
pub fn decimal_string(n: u64) -> (text: String)
    ensures
        text@ == decimal(n as nat),
    decreases n,
{
    if n < 10 {
        String::from_str(digit(n))
    } else {
        let text = decimal_string(n / 10).concat(digit(n % 10));
        assert(text@ =~= decimal(n as nat));
        text
    }
}

/// The report on the frequencies at which minima were found; the lower bound
/// reads `inf` while nothing is recorded.
pub open spec fn minmax_message(stats: MinMaxStatistics) -> Seq<char> {
    "Roots for found for w in ("@ + match stats.min_w {
        Some(min) => decimal(min as nat),
        None => "inf"@,
    } + ", "@ + decimal(stats.max_w as nat) + ")"@
}

/// The report on the frequencies at which minima were found, ready for the log.
pub fn print_minmax_statistics(stats: &MinMaxStatistics) -> (message: String)
    ensures
        message@ == minmax_message(*stats),
{
    let min = match stats.min_w {
        Some(min) => decimal_string(min),
        None => String::from_str("inf"),
    };
    let max = decimal_string(stats.max_w);
    String::from_str("Roots for found for w in (").concat(min.as_str()).concat(", ").concat(
        max.as_str(),
    ).concat(")")
}

} // verus!

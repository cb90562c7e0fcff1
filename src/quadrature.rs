//! The refinement schedule of the adaptive trapezoidal integrator: how many
//! new sample points each refinement takes, and when refining stops.
//!
//! Refinement 1 samples both ends of the interval. Refinement `i >= 2`
//! samples the midpoints of the `2^(i-2)` subintervals left by the ones
//! before, so that after refinement `i` the samples are the points
//! `k / 2^(i-1)` of the interval, `0 <= k <= 2^(i-1)`, each taken once.
use vstd::arithmetic::power2::{
    lemma2_to64,
    lemma2_to64_rest,
    lemma_pow2_strictly_increases,
    lemma_pow2_unfold,
    pow2,
};
use vstd::prelude::*;

verus! {

/// Refinements that always run before successive estimates are compared.
pub const MANDATORY_REFINEMENTS: u64 = 5;

/// What the integrator does after a refinement.
#[derive(Clone, Copy, Debug, PartialEq, Eq, Structural)]
pub enum Step {
    /// The estimate is accepted.
    Converged,
    /// Another refinement follows.
    Refine,
    /// The budget of refinements is spent without agreement: a failure.
    Exhausted,
}

/// New integrand evaluations at refinement `iteration` (counted from 1).
pub open spec fn fresh_points_spec(iteration: nat) -> nat {
    if iteration <= 1 {
        2
    } else {
        pow2((iteration - 2) as nat)
    }
}

/// Evaluations made by refinements `1..=iteration` together.
pub open spec fn points_through(iteration: nat) -> nat
    decreases iteration,
{
    if iteration == 0 {
        0
    } else {
        points_through((iteration - 1) as nat) + fresh_points_spec(iteration)
    }
}

/// Sample positions after refinement `iteration >= 1`, as numerators over
/// the denominator `2^(iteration-1)`.
pub open spec fn grid(iteration: nat) -> Set<int> {
    Set::new(|k: int| 0 <= k <= pow2((iteration - 1) as nat))
}

/// Positions that refinement `iteration >= 2` adds, over the denominator
/// `2^(iteration-1)`: the `j`-th new point is `2j + 1`, for `j` below
/// `fresh_points_spec(iteration)`.
pub open spec fn midpoints(iteration: nat) -> Set<int> {
    Set::new(|k: int| 0 <= k < 2 * fresh_points_spec(iteration) && k % 2 == 1)
}

/// Earlier positions, written over the next, doubled denominator.
pub open spec fn refined(s: Set<int>) -> Set<int> {
    s.map(|k: int| 2 * k)
}

/// What follows refinement `iteration` under a budget of `max_steps`
/// refinements, given whether the last two estimates agree.
pub open spec fn step_spec(iteration: nat, max_steps: nat, agrees: bool) -> Step {
    if iteration > MANDATORY_REFINEMENTS && agrees {
        Step::Converged
    } else if iteration >= max_steps {
        Step::Exhausted
    } else {
        Step::Refine
    }
}

/// The number of new integrand evaluations at refinement `iteration`, or
/// `None` where it does not fit in a `u64`.
pub fn fresh_points(iteration: u64) -> (r: Option<u64>)
    requires
        iteration >= 1,
    ensures
        r is Some <==> iteration <= 65,
        r matches Some(c) ==> c == fresh_points_spec(iteration as nat),
{
    if iteration == 1 {
        return Some(2);
    }
    if iteration > 65 {
        return None;
    }
    let mut c: u64 = 1;
    let mut e: u64 = 0;
    proof {
        lemma2_to64();
        lemma2_to64_rest();
    }
    while e < iteration - 2
        invariant
            2 <= iteration <= 65,
            e <= iteration - 2,
            c == pow2(e as nat),
            pow2(63) == 0x8000_0000_0000_0000,
        decreases iteration - 2 - e,
    {
        proof {
            lemma_pow2_unfold((e + 1) as nat);
            if e + 1 < 63 {
                lemma_pow2_strictly_increases((e + 1) as nat, 63);
            }
        }
        c = 2 * c;
        e = e + 1;
    }
    Some(c)
}

/// Decides what follows refinement `iteration`: convergence once more than
/// `MANDATORY_REFINEMENTS` refinements have run and the last two estimates
/// agree, failure when the budget is spent, another refinement otherwise.
pub fn next_step(iteration: u64, max_steps: u64, agrees: bool) -> (r: Step)
    ensures
        r == step_spec(iteration as nat, max_steps as nat, agrees),
{
    if iteration > MANDATORY_REFINEMENTS && agrees {
        Step::Converged
    } else if iteration >= max_steps {
        Step::Exhausted
    } else {
        Step::Refine
    }
}

/// Each refinement after the first samples only points not sampled before:
/// the earlier samples, over the doubled denominator, together with the new
/// midpoints, make up the finer grid, and the two sets share no point.
pub proof fn lemma_refinement_adds_only_midpoints(iteration: nat)
    requires
        iteration >= 2,
    ensures
        grid(iteration) == refined(grid((iteration - 1) as nat)).union(midpoints(iteration)),
        refined(grid((iteration - 1) as nat)).disjoint(midpoints(iteration)),
{
    let prev = grid((iteration - 1) as nat);
    let fine = grid(iteration);
    let mids = midpoints(iteration);
    lemma_pow2_unfold((iteration - 1) as nat);
    assert(pow2((iteration - 1) as nat) == 2 * fresh_points_spec(iteration));
    assert forall|k: int| #[trigger] refined(prev).contains(k) implies fine.contains(k)
        && !mids.contains(k) && k % 2 == 0 by {
        let x = choose|x: int| prev.contains(x) && 2 * x == k;
        assert(prev.contains(x) && 2 * x == k);
    }
    assert forall|k: int| #[trigger] fine.contains(k) implies refined(prev).contains(k)
        || mids.contains(k) by {
        if k % 2 == 0 {
            assert(prev.contains(k / 2));
            assert(2 * (k / 2) == k);
        }
    }
    assert(fine =~= refined(prev).union(mids));
}

/// After refinement `iteration`, `2^(iteration-1) + 1` evaluations have been
/// made in all: one per point of the grid.
pub proof fn lemma_points_through(iteration: nat)
    requires
        iteration >= 1,
    ensures
        points_through(iteration) == pow2((iteration - 1) as nat) + 1,
    decreases iteration,
{
    lemma2_to64();
    if iteration == 1 {
        assert(points_through(0) == 0);
    } else {
        lemma_points_through((iteration - 1) as nat);
        lemma_pow2_unfold((iteration - 1) as nat);
        assert(points_through(iteration) == points_through((iteration - 1) as nat) + pow2(
            (iteration - 2) as nat,
        ));
    }
}

/// A budget of at most `MANDATORY_REFINEMENTS` refinements never converges:
/// whatever the estimates, every refinement but the last is followed by
/// another, and the last by failure.
pub proof fn lemma_short_budget_fails(iteration: nat, max_steps: nat, agrees: bool)
    requires
        1 <= iteration <= max_steps,
        max_steps <= MANDATORY_REFINEMENTS,
    ensures
        step_spec(iteration, max_steps, agrees) != Step::Converged,
        iteration < max_steps ==> step_spec(iteration, max_steps, agrees) == Step::Refine,
        iteration == max_steps ==> step_spec(iteration, max_steps, agrees) == Step::Exhausted,
{
}

} // verus!

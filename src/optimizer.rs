use vstd::prelude::*;
use crate::constraints::TargetConstraints;
use crate::error::PlanError;
use crate::nutrition::{NormalizedIngredient, MAX_DENSITY};
use crate::proposal::{
    Ingredients, Proposal, total, weighted, weighted_sums, lemma_total_update, lemma_weighted_update,
    lemma_weighted_bound, lemma_count_le_total, MAX_PIECES,
};
use crate::target::NormalizedTarget;

verus! {

/// Bound `i` of a vector of bounds; none past its end.
pub open spec fn bound_at(v: Seq<Option<u64>>, i: int) -> Option<u64> {
    if 0 <= i < v.len() {
        v[i]
    } else {
        None
    }
}

pub open spec fn or_zero(o: Option<u64>) -> int {
    match o {
        Some(x) => x as int,
        None => 0,
    }
}

impl TargetConstraints {
    /// The count ingredient `i` starts the search with: its exact bound, else
    /// its lower bound, else zero.
    pub open spec fn baseline(&self, i: int) -> u64 {
        match bound_at(self.exact@, i) {
            Some(e) => e,
            None => or_zero(bound_at(self.at_least@, i)) as u64,
        }
    }

    /// Pieces assigned by `at_least` and `exact` bounds over the first `n`
    /// ingredients, each bound counted once.
    pub open spec fn assigned(&self, n: int) -> int
        decreases n,
    {
        if n <= 0 {
            0
        } else {
            self.assigned(n - 1) + or_zero(bound_at(self.at_least@, n - 1)) + or_zero(bound_at(self.exact@, n - 1))
        }
    }

    /// Whether ingredient `i` may take another piece: it has no exact bound,
    /// and its count is below its upper bound, if any.
    pub open spec fn eligible(&self, counts: Seq<u64>, i: int) -> bool {
        &&& bound_at(self.exact@, i) is None
        &&& match bound_at(self.at_most@, i) {
            None => true,
            Some(m) => counts[i] < m,
        }
    }
}

/// The counts with one more piece of ingredient `i`.
pub open spec fn with_piece(counts: Seq<u64>, i: int) -> Seq<u64> {
    counts.update(i, (counts[i] + 1) as u64)
}

/// Among the first `n` ingredients, the eligible one whose extra piece gives the
/// lowest cost; the earliest one on ties.
pub open spec fn best_among(
    t: NormalizedTarget,
    ing: Seq<(String, NormalizedIngredient)>,
    cons: TargetConstraints,
    counts: Seq<u64>,
    n: int,
) -> Option<int>
    decreases n,
{
    if n <= 0 {
        None
    } else {
        let i = n - 1;
        match best_among(t, ing, cons, counts, n - 1) {
            None => if cons.eligible(counts, i) {
                Some(i)
            } else {
                None
            },
            Some(j) => if cons.eligible(counts, i) && t.cost(with_piece(counts, i), ing) < t.cost(with_piece(counts, j), ing) {
                Some(i)
            } else {
                Some(j)
            },
        }
    }
}

/// `remaining` greedy steps from `counts`, each adding one piece to the best
/// ingredient; an error when some step finds no eligible ingredient.
pub open spec fn greedy(
    t: NormalizedTarget,
    ing: Seq<(String, NormalizedIngredient)>,
    cons: TargetConstraints,
    counts: Seq<u64>,
    remaining: nat,
) -> Result<Seq<u64>, PlanError>
    decreases remaining,
{
    if remaining == 0 {
        Ok(counts)
    } else {
        match best_among(t, ing, cons, counts, ing.len() as int) {
            None => Err(PlanError::SearchStarved),
            Some(b) => greedy(t, ing, cons, with_piece(counts, b), (remaining - 1) as nat),
        }
    }
}

/// The counts the search starts from.
pub open spec fn initial_counts(cons: TargetConstraints, n: nat) -> Seq<u64> {
    Seq::new(n, |i: int| cons.baseline(i))
}

/// The outcome of the search over `steps` pieces.
pub open spec fn spec_optimize(
    t: NormalizedTarget,
    cons: TargetConstraints,
    ing: Seq<(String, NormalizedIngredient)>,
    steps: int,
) -> Result<Seq<u64>, PlanError> {
    let n = ing.len() as int;
    if cons.assigned(n) > steps {
        Err(PlanError::ConstraintsOverBudget)
    } else {
        greedy(t, ing, cons, initial_counts(cons, n as nat), (steps - cons.assigned(n)) as nat)
    }
}

/// The search is deterministic: two runs on the same target, constraints,
/// catalog and step count end in the same proposal or the same error.
pub proof fn lemma_optimize_deterministic(
    t: NormalizedTarget,
    cons: TargetConstraints,
    ing: Seq<(String, NormalizedIngredient)>,
    steps: int,
    first: Result<Seq<u64>, PlanError>,
    second: Result<Seq<u64>, PlanError>,
)
    requires
        first == spec_optimize(t, cons, ing, steps),
        second == spec_optimize(t, cons, ing, steps),
    ensures
        first == second,
{
}

/// Constraints whose `at_least` and `exact` pieces exceed the steps make the
/// search fail before any piece is placed.
pub proof fn lemma_over_budget_is_infeasible(
    t: NormalizedTarget,
    cons: TargetConstraints,
    ing: Seq<(String, NormalizedIngredient)>,
    steps: int,
)
    requires
        cons.assigned(ing.len() as int) > steps,
    ensures
        spec_optimize(t, cons, ing, steps) == Err::<Seq<u64>, PlanError>(PlanError::ConstraintsOverBudget),
{
}

fn bound(v: &Vec<Option<u64>>, i: usize) -> (r: Option<u64>)
    ensures
        r == bound_at(v@, i as int),
{
    if i < v.len() {
        v[i]
    } else {
        None
    }
}

/// Greedily assigns `steps` pieces: bounded ingredients start at their `exact`
/// or `at_least` counts, then each remaining piece goes to the eligible
/// ingredient whose extra piece lowers the cost most, the earliest in catalog
/// order on ties.
pub fn optimize(
    target: &NormalizedTarget,
    constraints: TargetConstraints,
    ingredients: &Ingredients,
    steps: usize,
) -> (r: Result<Proposal, PlanError>)
    requires
        target.wf(),
        ingredients.wf(),
        steps <= MAX_PIECES,
    ensures
        r matches Ok(p) ==> spec_optimize(*target, constraints, ingredients.0@, steps as int) == Ok::<Seq<u64>, PlanError>(p.0@),
        r matches Err(e) ==> spec_optimize(*target, constraints, ingredients.0@, steps as int) == Err::<Seq<u64>, PlanError>(e),
        constraints.assigned(ingredients.0@.len() as int) > steps ==> r == Err::<Proposal, PlanError>(PlanError::ConstraintsOverBudget),
        r matches Ok(p) ==> p.0@.len() == ingredients.0@.len() && total(p.0@) <= steps,
{
    let n = ingredients.0.len();
    let ghost cons = constraints;
    let ghost ing = ingredients.0@;
    let mut counts: Vec<u64> = Vec::new();
    let mut assigned: u128 = 0;
    let mut i: usize = 0;
    while i < n
        invariant
            n == ing.len(),
            ing == ingredients.0@,
            cons == constraints,
            i <= n,
            counts@ == initial_counts(cons, i as nat),
            assigned == cons.assigned(i as int),
            assigned <= steps,
            total(counts@) <= assigned,
        decreases n - i,
    {
        let at_least = bound(&constraints.at_least, i);
        let exact = bound(&constraints.exact, i);
        let lo: u64 = match at_least {
            Some(x) => x,
            None => 0,
        };
        let ex: u64 = match exact {
            Some(x) => x,
            None => 0,
        };
        let start: u64 = match exact {
            Some(x) => x,
            None => lo,
        };
        assigned = assigned + lo as u128 + ex as u128;
        let ghost old_counts = counts@;
        counts.push(start);
        proof {
            assert(counts@.drop_last() =~= old_counts);
            assert(counts@ =~= initial_counts(cons, (i + 1) as nat));
        }
        if assigned > steps as u128 {
            proof {
                lemma_assigned_mono(cons, i as int + 1, n as int);
            }
            return Err(PlanError::ConstraintsOverBudget);
        }
        i = i + 1;
    }
    let remaining: usize = steps - assigned as usize;
    let ghost result = spec_optimize(*target, constraints, ing, steps as int);
    assert(greedy(*target, ing, cons, counts@, remaining as nat) == result);
    let mut step: usize = 0;
    while step < remaining
        invariant
            n == ing.len(),
            ing == ingredients.0@,
            cons == constraints,
            target.wf(),
            ingredients.wf(),
            steps <= MAX_PIECES,
            step <= remaining,
            counts@.len() == n,
            total(counts@) + (remaining - step) <= steps,
            cons.assigned(n as int) <= steps,
            result == spec_optimize(*target, constraints, ing, steps as int),
            greedy(*target, ing, cons, counts@, (remaining - step) as nat) == result,
        decreases remaining - step,
    {
        let (wc, wf, wp) = weighted_sums(&counts, ingredients);
        let mut best: Option<usize> = None;
        let mut best_cost: u64 = 0;
        let mut i: usize = 0;
        while i < n
            invariant
                n == ing.len(),
                ing == ingredients.0@,
                cons == constraints,
                target.wf(),
                ingredients.wf(),
                steps <= MAX_PIECES,
                counts@.len() == n,
                total(counts@) + 1 <= steps,
                i <= n,
                wc == weighted(counts@, ing, 0),
                wf == weighted(counts@, ing, 1),
                wp == weighted(counts@, ing, 2),
                best is None <==> best_among(*target, ing, cons, counts@, i as int) is None,
                best matches Some(b) ==> best_among(*target, ing, cons, counts@, i as int) == Some(b as int),
                best_among(*target, ing, cons, counts@, i as int) matches Some(b)
                    ==> 0 <= b < i && best_cost == target.cost(with_piece(counts@, b), ing),
            decreases n - i,
        {
            let mut eligible = bound(&constraints.exact, i).is_none();
            if eligible {
                match bound(&constraints.at_most, i) {
                    Some(m) => {
                        if counts[i] >= m {
                            eligible = false;
                        }
                    },
                    None => {},
                }
            }
            assert(eligible == cons.eligible(counts@, i as int));
            if eligible {
                let d = ingredients.0[i].1;
                let ghost trial = with_piece(counts@, i as int);
                proof {
                    lemma_count_le_total(counts@, i as int);
                    lemma_total_update(counts@, i as int, (counts@[i as int] + 1) as u64);
                    lemma_weighted_with_piece(counts@, ing, i as int, 0);
                    lemma_weighted_with_piece(counts@, ing, i as int, 1);
                    lemma_weighted_with_piece(counts@, ing, i as int, 2);
                    lemma_weighted_bound(trial, ing, 0);
                    lemma_weighted_bound(trial, ing, 1);
                    lemma_weighted_bound(trial, ing, 2);
                    lemma_scale_le(total(trial), MAX_PIECES as int);
                    assert(ing[i as int].1.wf());
                    assert(total(trial) == total(counts@) + 1);
                }
                let cost = target.cost_from_sums(wc + d.carb as u128, wf + d.fat as u128, wp + d.protein as u128);
                assert(cost == target.cost(trial, ing));
                let better = match best {
                    None => true,
                    Some(_) => cost < best_cost,
                };
                if better {
                    best = Some(i);
                    best_cost = cost;
                }
            }
            i = i + 1;
        }
        match best {
            None => {
                assert(greedy(*target, ing, cons, counts@, (remaining - step) as nat)
                    == Err::<Seq<u64>, PlanError>(PlanError::SearchStarved));
                return Err(PlanError::SearchStarved);
            },
            Some(b) => {
                proof {
                    lemma_count_le_total(counts@, b as int);
                    lemma_total_update(counts@, b as int, (counts@[b as int] + 1) as u64);
                }
                let ghost prev = counts@;
                let c = counts[b];
                counts.set(b, c + 1);
                assert(counts@ =~= with_piece(prev, b as int));
            },
        }
        step = step + 1;
    }
    Ok(Proposal(counts))
}

/// One more piece of ingredient `i` adds that ingredient's density to a weighted sum.
proof fn lemma_weighted_with_piece(c: Seq<u64>, ing: Seq<(String, NormalizedIngredient)>, i: int, k: int)
    requires
        0 <= i < c.len(),
        c[i] < u64::MAX,
    ensures
        weighted(with_piece(c, i), ing, k) == weighted(c, ing, k) + ing[i].1.component(k),
{
    let v = (c[i] + 1) as u64;
    lemma_weighted_update(c, ing, i, v, k);
    let d = ing[i].1.component(k);
    assert((v - c[i]) * d == d) by (nonlinear_arith)
        requires
            v - c[i] == 1,
    ;
}

/// Assigned pieces only grow with the number of ingredients counted.
proof fn lemma_assigned_mono(cons: TargetConstraints, m: int, n: int)
    requires
        0 <= m <= n,
    ensures
        cons.assigned(m) <= cons.assigned(n),
    decreases n - m,
{
    if m < n {
        lemma_assigned_mono(cons, m, n - 1);
    }
}

proof fn lemma_scale_le(x: int, y: int)
    requires
        0 <= x <= y,
    ensures
        x * MAX_DENSITY <= y * MAX_DENSITY,
{
    assert(x * MAX_DENSITY <= y * MAX_DENSITY) by (nonlinear_arith)
        requires
            x <= y,
    ;
}

} // verus!

use vstd::prelude::*;
use crate::error::PlanError;
use crate::nutrition::{NormalizedIngredient, MAX_AMOUNT, MAX_DENSITY};
use crate::proposal::{Ingredients, Proposal, total, weighted, weighted_sums, MAX_PIECES};

verus! {

/// Ratios are fixed-point: one unit is a part per million.
pub const RATIO_SCALE: u64 = 1_000_000;

/// Parts per million in one percent.
pub const PER_PERCENT: u64 = 10_000;

/// The cost given to a proposal whose mix has no nutrients at all (or no pieces):
/// it cannot be compared with any target, so it ranks below every real cost.
pub const UNEVALUABLE: u64 = 0xFFFF_FFFF_FFFF_FFFF;

/// A limit, in grams, on how much of one named ingredient the mixture holds.
#[derive(Debug, Clone)]
pub struct TargetConstraint {
    pub name: String,
    pub g: u64,
}

/// The desired energy and macro percentages, with optional gram constraints.
#[derive(Debug, Clone)]
pub struct Target {
    pub kcal: u64,
    pub carb: u64,
    pub fat: u64,
    pub protein: u64,
    pub constraint_exact: Option<Vec<TargetConstraint>>,
    pub constraint_at_least: Option<Vec<TargetConstraint>>,
    pub constraint_at_most: Option<Vec<TargetConstraint>>,
}

/// Target ratios in parts per million.
#[derive(Debug, Clone, Copy, PartialEq, Eq, Structural)]
pub struct NormalizedTarget {
    pub carb: u64,
    pub fat: u64,
    pub protein: u64,
}

/// Whether every constraint of a list stays within the accepted range.
pub open spec fn constraints_in_range(list: Option<Vec<TargetConstraint>>) -> bool {
    match list {
        None => true,
        Some(v) => forall|i: int| 0 <= i < v@.len() ==> (#[trigger] v@[i]).g <= MAX_AMOUNT,
    }
}

impl Target {
    /// What `check` reports of this target.
    pub open spec fn spec_check(&self) -> Result<(), PlanError> {
        if self.kcal == 0 {
            Err(PlanError::ZeroKcalTarget)
        } else if self.kcal > MAX_AMOUNT || self.carb > 100 || self.fat > 100 || self.protein > 100
            || !constraints_in_range(self.constraint_exact)
            || !constraints_in_range(self.constraint_at_least)
            || !constraints_in_range(self.constraint_at_most) {
            Err(PlanError::ValueOutOfRange)
        } else {
            Ok(())
        }
    }

    pub open spec fn wf(&self) -> bool {
        self.spec_check() is Ok
    }

    /// Rejects a target with zero kcal, a percentage above 100, or an amount out
    /// of range.
    pub fn check(&self) -> (r: Result<(), PlanError>)
        ensures
            r == self.spec_check(),
    {
        if self.kcal == 0 {
            return Err(PlanError::ZeroKcalTarget);
        }
        if self.kcal > MAX_AMOUNT || self.carb > 100 || self.fat > 100 || self.protein > 100 {
            return Err(PlanError::ValueOutOfRange);
        }
        if !check_constraints(&self.constraint_exact) || !check_constraints(&self.constraint_at_least)
            || !check_constraints(&self.constraint_at_most) {
            return Err(PlanError::ValueOutOfRange);
        }
        Ok(())
    }

    pub open spec fn spec_normalize(&self) -> NormalizedTarget {
        NormalizedTarget {
            carb: (self.carb * PER_PERCENT) as u64,
            fat: (self.fat * PER_PERCENT) as u64,
            protein: (self.protein * PER_PERCENT) as u64,
        }
    }

    /// The target percentages as parts per million.
    pub fn normalize(&self) -> (r: NormalizedTarget)
        requires
            self.carb <= 100,
            self.fat <= 100,
            self.protein <= 100,
        ensures
            r == self.spec_normalize(),
            r.wf(),
    {
        NormalizedTarget {
            carb: self.carb * PER_PERCENT,
            fat: self.fat * PER_PERCENT,
            protein: self.protein * PER_PERCENT,
        }
    }
}

fn check_constraints(list: &Option<Vec<TargetConstraint>>) -> (r: bool)
    ensures
        r == constraints_in_range(*list),
{
    match list {
        None => true,
        Some(v) => all_in_range(v),
    }
}

fn all_in_range(v: &Vec<TargetConstraint>) -> (r: bool)
    ensures
        r == (forall|i: int| 0 <= i < v@.len() ==> (#[trigger] v@[i]).g <= MAX_AMOUNT),
{
    let mut i: usize = 0;
    while i < v.len()
        invariant
            i <= v@.len(),
            forall|j: int| 0 <= j < i ==> (#[trigger] v@[j]).g <= MAX_AMOUNT,
        decreases v@.len() - i,
    {
        if v[i].g > MAX_AMOUNT {
            assert(v@[i as int].g > MAX_AMOUNT);
            return false;
        }
        i = i + 1;
    }
    true
}

/// Squared difference of two ratios.
pub open spec fn sq_diff(a: int, b: int) -> int {
    (a - b) * (a - b)
}

/// A macro sum in fixed-point ratio units, rounded down.
pub open spec fn ratio_of(part: int, whole: int) -> int {
    (part * RATIO_SCALE) / whole
}

/// Sum of the three weighted sums.
pub open spec fn macro_mass(counts: Seq<u64>, ing: Seq<(String, NormalizedIngredient)>) -> int {
    weighted(counts, ing, 0) + weighted(counts, ing, 1) + weighted(counts, ing, 2)
}

/// The proposal's macro ratio, component `k`, in parts per million.
pub open spec fn mix_ratio(counts: Seq<u64>, ing: Seq<(String, NormalizedIngredient)>, k: int) -> int {
    ratio_of(weighted(counts, ing, k), macro_mass(counts, ing))
}

impl NormalizedTarget {
    pub open spec fn wf(self) -> bool {
        self.carb <= RATIO_SCALE && self.fat <= RATIO_SCALE && self.protein <= RATIO_SCALE
    }

    /// Cost of a blend whose weighted sums are `c`, `f` and `p`.
    pub open spec fn cost_of_sums(self, c: int, f: int, p: int) -> int {
        let s = c + f + p;
        if s == 0 {
            UNEVALUABLE as int
        } else {
            sq_diff(self.carb as int, ratio_of(c, s)) + sq_diff(self.fat as int, ratio_of(f, s))
                + sq_diff(self.protein as int, ratio_of(p, s))
        }
    }

    /// Cost of a proposal: squared distance between target and mix ratio.
    pub open spec fn cost(self, counts: Seq<u64>, ing: Seq<(String, NormalizedIngredient)>) -> int {
        self.cost_of_sums(weighted(counts, ing, 0), weighted(counts, ing, 1), weighted(counts, ing, 2))
    }

    /// Using squared difference of ratios, lower is better.
    pub fn evaluate(&self, proposal: &Proposal, ingredients: &Ingredients) -> (r: u64)
        requires
            self.wf(),
            ingredients.wf(),
            proposal.fits(ingredients),
        ensures
            r == self.cost(proposal.0@, ingredients.0@),
    {
        let (c, f, p) = weighted_sums(&proposal.0, ingredients);
        proof {
            crate::proposal::lemma_weighted_bound(proposal.0@, ingredients.0@, 0);
            crate::proposal::lemma_weighted_bound(proposal.0@, ingredients.0@, 1);
            crate::proposal::lemma_weighted_bound(proposal.0@, ingredients.0@, 2);
        }
        self.cost_from_sums(c, f, p)
    }

    /// Cost of a blend given its three weighted sums.
    pub(crate) fn cost_from_sums(&self, c: u128, f: u128, p: u128) -> (r: u64)
        requires
            self.wf(),
            c <= MAX_PIECES * MAX_DENSITY,
            f <= MAX_PIECES * MAX_DENSITY,
            p <= MAX_PIECES * MAX_DENSITY,
        ensures
            r == self.cost_of_sums(c as int, f as int, p as int),
    {
        let s = c + f + p;
        if s == 0 {
            return UNEVALUABLE;
        }
        let rc = ratio(c, s);
        let rf = ratio(f, s);
        let rp = ratio(p, s);
        square_diff(self.carb, rc) + square_diff(self.fat, rf) + square_diff(self.protein, rp)
    }
}

/// The cost is never negative, and it is zero exactly when the proposal has a
/// macro ratio and that ratio equals the target ratio in every component.
pub proof fn lemma_cost_zero_iff_ratio_matches(
    t: NormalizedTarget,
    counts: Seq<u64>,
    ing: Seq<(String, NormalizedIngredient)>,
)
    ensures
        t.cost(counts, ing) >= 0,
        t.cost(counts, ing) == 0 <==> (macro_mass(counts, ing) != 0
            && mix_ratio(counts, ing, 0) == t.carb
            && mix_ratio(counts, ing, 1) == t.fat
            && mix_ratio(counts, ing, 2) == t.protein),
{
    let x = t.carb - mix_ratio(counts, ing, 0);
    let y = t.fat - mix_ratio(counts, ing, 1);
    let z = t.protein - mix_ratio(counts, ing, 2);
    assert(x * x >= 0 && y * y >= 0 && z * z >= 0) by (nonlinear_arith);
    assert(x * x + y * y + z * z == 0 <==> (x == 0 && y == 0 && z == 0)) by (nonlinear_arith);
}

fn ratio(part: u128, whole: u128) -> (r: u64)
    requires
        0 < whole <= 3 * MAX_PIECES * MAX_DENSITY,
        part <= whole,
    ensures
        r == ratio_of(part as int, whole as int),
        r <= RATIO_SCALE,
{
    let num: u128 = part * RATIO_SCALE as u128;
    assert(num / whole <= RATIO_SCALE) by (nonlinear_arith)
        requires
            num == part * RATIO_SCALE,
            part <= whole,
            whole > 0,
    ;
    (num / whole) as u64
}

fn square_diff(a: u64, b: u64) -> (r: u64)
    requires
        a <= RATIO_SCALE,
        b <= RATIO_SCALE,
    ensures
        r == sq_diff(a as int, b as int),
        r <= RATIO_SCALE * RATIO_SCALE,
{
    let d: u64 = if a >= b { a - b } else { b - a };
    assert(d * d <= RATIO_SCALE * RATIO_SCALE) by (nonlinear_arith)
        requires
            d <= RATIO_SCALE,
    ;
    assert(d * d == (a - b) * (a - b)) by (nonlinear_arith)
        requires
            d == a - b || d == b - a,
    ;
    d * d
}

} // verus!

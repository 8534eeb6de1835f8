use vstd::prelude::*;
use crate::error::PlanError;
use crate::nutrition::{Ingredient, RawIngredients, position_of, lemma_first_index, MAX_AMOUNT};
use crate::proposal::MAX_PIECES;
use crate::target::{Target, TargetConstraint};

verus! {

/// Piece-count bounds, one optional bound per catalog entry. Entries past the
/// end of a vector carry no bound.
pub struct TargetConstraints {
    pub exact: Vec<Option<u64>>,
    pub at_least: Vec<Option<u64>>,
    pub at_most: Vec<Option<u64>>,
}

/// `num / den` rounded to the nearest integer, halves away from zero.
pub open spec fn round_div(num: int, den: int) -> int {
    (2 * num + den) / (2 * den)
}

/// `x` as a `u64`, clamped to the largest `u64`.
pub open spec fn saturate(x: int) -> u64 {
    if x > u64::MAX {
        u64::MAX
    } else {
        x as u64
    }
}

/// Pieces standing for `grams` of `ing` when `target_kcal` kcal are split into
/// `steps` pieces: grams times kcal-per-gram times pieces-per-kcal, rounded.
pub open spec fn pieces_for(grams: u64, ing: Ingredient, target_kcal: u64, steps: int) -> u64 {
    saturate(round_div(grams * ing.kcal * steps, ing.g * target_kcal))
}

/// The constraints of an optional list, in order.
pub open spec fn list_of(list: Option<Vec<TargetConstraint>>) -> Seq<TargetConstraint> {
    match list {
        None => Seq::empty(),
        Some(v) => v@,
    }
}

/// Bounds resolved from a list of constraints, a later constraint on the same
/// ingredient replacing an earlier one; an error if a name is not in the catalog.
pub open spec fn resolve(
    list: Seq<TargetConstraint>,
    target_kcal: u64,
    raw: Seq<Ingredient>,
    steps: int,
) -> Result<Seq<Option<u64>>, PlanError>
    decreases list.len(),
{
    if list.len() == 0 {
        Ok(Seq::new(raw.len(), |i: int| None))
    } else {
        match resolve(list.drop_last(), target_kcal, raw, steps) {
            Err(e) => Err(e),
            Ok(v) => match position_of(raw, list.last().name@) {
                None => Err(PlanError::UnknownConstraintIngredient),
                Some(i) => Ok(v.update(i, Some(pieces_for(list.last().g, raw[i], target_kcal, steps)))),
            },
        }
    }
}

/// Every constraint of the list names an ingredient of the catalog.
pub open spec fn all_known(list: Seq<TargetConstraint>, raw: Seq<Ingredient>) -> bool {
    forall|k: int| 0 <= k < list.len() ==> position_of(raw, (#[trigger] list[k]).name@) is Some
}

impl TargetConstraint {
    /// Pieces standing for this constraint's grams, or an error when the
    /// catalog holds no ingredient of its name.
    pub fn to_pieces(&self, target: &Target, raw_ingredients: &RawIngredients, optimization_steps: usize) -> (r: Result<u64, PlanError>)
        requires
            raw_ingredients.wf(),
            0 < target.kcal <= MAX_AMOUNT,
            self.g <= MAX_AMOUNT,
            optimization_steps <= MAX_PIECES,
        ensures
            match position_of(raw_ingredients.0@, self.name@) {
                None => r == Err::<u64, PlanError>(PlanError::UnknownConstraintIngredient),
                Some(i) => r == Ok::<u64, PlanError>(
                    pieces_for(self.g, raw_ingredients.0@[i], target.kcal, optimization_steps as int),
                ),
            },
    {
        match raw_ingredients.find(&self.name) {
            None => Err(PlanError::UnknownConstraintIngredient),
            Some(i) => {
                let ing = &raw_ingredients.0[i];
                assert(raw_ingredients.0@[i as int].wf());
                Ok(pieces(self.g, ing.kcal, ing.g, target.kcal, optimization_steps))
            },
        }
    }
}

fn pieces(grams: u64, kcal: u64, g: u64, target_kcal: u64, steps: usize) -> (r: u64)
    requires
        grams <= MAX_AMOUNT,
        0 < kcal <= MAX_AMOUNT,
        0 < g <= MAX_AMOUNT,
        0 < target_kcal <= MAX_AMOUNT,
        steps <= MAX_PIECES,
    ensures
        r == saturate(round_div(grams * kcal * steps, g * target_kcal)),
{
    assert(grams * kcal <= MAX_AMOUNT * MAX_AMOUNT) by (nonlinear_arith)
        requires
            grams <= MAX_AMOUNT,
            kcal <= MAX_AMOUNT,
    ;
    assert(grams * kcal * steps <= MAX_AMOUNT * MAX_AMOUNT * MAX_PIECES) by (nonlinear_arith)
        requires
            grams * kcal <= MAX_AMOUNT * MAX_AMOUNT,
            steps <= MAX_PIECES,
    ;
    assert(0 < g * target_kcal <= MAX_AMOUNT * MAX_AMOUNT) by (nonlinear_arith)
        requires
            0 < g <= MAX_AMOUNT,
            0 < target_kcal <= MAX_AMOUNT,
    ;
    let num: u128 = grams as u128 * kcal as u128 * steps as u128;
    let den: u128 = g as u128 * target_kcal as u128;
    let q: u128 = (2 * num + den) / (2 * den);
    if q > u64::MAX as u128 {
        u64::MAX
    } else {
        q as u64
    }
}

impl TargetConstraints {
    /// No constraint at all.
    pub fn new() -> (r: TargetConstraints)
        ensures
            r.exact@.len() == 0,
            r.at_least@.len() == 0,
            r.at_most@.len() == 0,
    {
        TargetConstraints { exact: Vec::new(), at_least: Vec::new(), at_most: Vec::new() }
    }

    /// Resolves the target's gram constraints into piece-count bounds.
    pub fn from_target(target: &Target, raw_ingredients: &RawIngredients, optimization_steps: usize) -> (r: Result<TargetConstraints, PlanError>)
        requires
            target.wf(),
            raw_ingredients.wf(),
            optimization_steps <= MAX_PIECES,
        ensures
            ({
                let raw = raw_ingredients.0@;
                let steps = optimization_steps as int;
                let ex = resolve(list_of(target.constraint_exact), target.kcal, raw, steps);
                let al = resolve(list_of(target.constraint_at_least), target.kcal, raw, steps);
                let am = resolve(list_of(target.constraint_at_most), target.kcal, raw, steps);
                &&& r is Ok <==> (ex is Ok && al is Ok && am is Ok)
                &&& r is Ok <==> (all_known(list_of(target.constraint_exact), raw)
                    && all_known(list_of(target.constraint_at_least), raw)
                    && all_known(list_of(target.constraint_at_most), raw))
                &&& r is Err ==> r == Err::<TargetConstraints, PlanError>(PlanError::UnknownConstraintIngredient)
                &&& r matches Ok(c) ==> ex == Ok::<Seq<Option<u64>>, PlanError>(c.exact@)
                    && al == Ok::<Seq<Option<u64>>, PlanError>(c.at_least@)
                    && am == Ok::<Seq<Option<u64>>, PlanError>(c.at_most@)
            }),
    {
        let exact = resolve_list(&target.constraint_exact, target, raw_ingredients, optimization_steps);
        let exact = match exact {
            Ok(v) => v,
            Err(e) => return Err(e),
        };
        let at_least = resolve_list(&target.constraint_at_least, target, raw_ingredients, optimization_steps);
        let at_least = match at_least {
            Ok(v) => v,
            Err(e) => return Err(e),
        };
        let at_most = resolve_list(&target.constraint_at_most, target, raw_ingredients, optimization_steps);
        let at_most = match at_most {
            Ok(v) => v,
            Err(e) => return Err(e),
        };
        Ok(TargetConstraints { exact, at_least, at_most })
    }
}

fn resolve_list(list: &Option<Vec<TargetConstraint>>, target: &Target, raw_ingredients: &RawIngredients, optimization_steps: usize) -> (r: Result<Vec<Option<u64>>, PlanError>)
    requires
        target.wf(),
        raw_ingredients.wf(),
        optimization_steps <= MAX_PIECES,
        crate::target::constraints_in_range(*list),
    ensures
        ({
            let s = resolve(list_of(*list), target.kcal, raw_ingredients.0@, optimization_steps as int);
            &&& r matches Ok(v) ==> s == Ok::<Seq<Option<u64>>, PlanError>(v@)
            &&& r matches Err(e) ==> s == Err::<Seq<Option<u64>>, PlanError>(e)
            &&& s is Ok <==> all_known(list_of(*list), raw_ingredients.0@)
            &&& s is Err ==> s == Err::<Seq<Option<u64>>, PlanError>(PlanError::UnknownConstraintIngredient)
        }),
{
    let n = raw_ingredients.0.len();
    let mut v: Vec<Option<u64>> = Vec::new();
    let mut i: usize = 0;
    while i < n
        invariant
            n == raw_ingredients.0@.len(),
            i <= n,
            v@ == Seq::new(i as nat, |j: int| None::<u64>),
        decreases n - i,
    {
        v.push(None);
        i = i + 1;
        assert(v@ =~= Seq::new(i as nat, |j: int| None::<u64>));
    }
    let ghost raw = raw_ingredients.0@;
    let ghost steps = optimization_steps as int;
    match list {
        None => {
            assert(v@ =~= Seq::new(raw.len(), |j: int| None::<u64>));
            assert(list_of(*list) =~= Seq::<TargetConstraint>::empty());
            Ok(v)
        },
        Some(cs) => {
            assert(list_of(*list) == cs@);
            assert(cs@.subrange(0, 0) =~= Seq::<TargetConstraint>::empty());
            let mut k: usize = 0;
            while k < cs.len()
                invariant
                    target.wf(),
                    raw_ingredients.wf(),
                    optimization_steps <= MAX_PIECES,
                    k <= cs@.len(),
                    forall|j: int| 0 <= j < cs@.len() ==> (#[trigger] cs@[j]).g <= MAX_AMOUNT,
                    v@.len() == raw.len(),
                    list_of(*list) == cs@,
                    raw == raw_ingredients.0@,
                    steps == optimization_steps as int,
                    resolve(cs@.subrange(0, k as int), target.kcal, raw, steps) == Ok::<Seq<Option<u64>>, PlanError>(v@),
                    all_known(cs@.subrange(0, k as int), raw),
                decreases cs@.len() - k,
            {
                let c = &cs[k];
                proof {
                    assert(cs@.subrange(0, k as int + 1).drop_last() =~= cs@.subrange(0, k as int));
                    assert(cs@.subrange(0, k as int + 1).last() == cs@[k as int]);
                }
                match c.to_pieces(target, raw_ingredients, optimization_steps) {
                    Err(e) => {
                        assert(position_of(raw, cs@[k as int].name@) is None);
                        assert(resolve(cs@.subrange(0, k as int + 1), target.kcal, raw, steps)
                            == Err::<Seq<Option<u64>>, PlanError>(PlanError::UnknownConstraintIngredient));
                        proof {
                            lemma_resolve_err_stays(cs@, target.kcal, raw, steps, k as int + 1);
                        }
                        assert(!all_known(cs@, raw)) by {
                            assert(position_of(raw, cs@[k as int].name@) is None);
                        }
                        return Err(e);
                    },
                    Ok(p) => {
                        let idx = raw_ingredients.find(&c.name);
                        let idx = match idx {
                            Some(idx) => idx,
                            None => return Err(PlanError::UnknownConstraintIngredient),
                        };
                        proof {
                            lemma_first_index(raw, c.name@, raw.len() as int);
                        }
                        v.set(idx, Some(p));
                        assert(all_known(cs@.subrange(0, k as int + 1), raw)) by {
                            assert forall|j: int| 0 <= j < k + 1 implies position_of(raw, (#[trigger] cs@.subrange(0, k as int + 1)[j]).name@) is Some by {
                                if j < k {
                                    assert(cs@.subrange(0, k as int + 1)[j] == cs@.subrange(0, k as int)[j]);
                                }
                            }
                        }
                    },
                }
                k = k + 1;
            }
            assert(cs@.subrange(0, k as int) =~= cs@);
            Ok(v)
        },
    }
}

/// Once an error occurs in a prefix, it stays the result for any longer prefix.
proof fn lemma_resolve_err_stays(list: Seq<TargetConstraint>, target_kcal: u64, raw: Seq<Ingredient>, steps: int, m: int)
    requires
        0 <= m <= list.len(),
        resolve(list.subrange(0, m), target_kcal, raw, steps) is Err,
    ensures
        resolve(list, target_kcal, raw, steps) == resolve(list.subrange(0, m), target_kcal, raw, steps),
    decreases list.len() - m,
{
    if m == list.len() {
        assert(list.subrange(0, m) =~= list);
    } else {
        assert(list.subrange(0, m + 1).drop_last() =~= list.subrange(0, m));
        lemma_resolve_err_stays(list, target_kcal, raw, steps, m + 1);
    }
}

} // verus!

use vstd::prelude::*;

verus! {

/// Every way in which planning a mixture can fail.
#[derive(Debug, Clone, Copy, PartialEq, Eq, Structural)]
pub enum PlanError {
    /// An ingredient declares zero kcal, so it has no per-kcal density.
    ZeroKcalIngredient,
    /// An ingredient declares zero grams, so it has no kcal-per-gram density.
    ZeroGramsIngredient,
    /// Two ingredients of one catalog carry the same name.
    DuplicateIngredient,
    /// The target asks for zero kcal.
    ZeroKcalTarget,
    /// An amount or a percentage lies outside the range the library computes with.
    ValueOutOfRange,
    /// A constraint names an ingredient that the catalog does not hold.
    UnknownConstraintIngredient,
    /// The pieces fixed by `at_least` and `exact` constraints exceed the step budget.
    ConstraintsOverBudget,
    /// During the search no ingredient could take another piece.
    SearchStarved,
}

} // verus!

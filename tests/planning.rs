use natural_bodybuilder::constraints::TargetConstraints;
use natural_bodybuilder::error::PlanError;
use natural_bodybuilder::nutrition::{name_less, Ingredient, NormalizedIngredient, RawIngredients, DENSITY_SCALE};
use natural_bodybuilder::optimizer::optimize;
use natural_bodybuilder::projection::to_grams;
use natural_bodybuilder::proposal::{Ingredients, Proposal};
use natural_bodybuilder::target::{NormalizedTarget, Target, TargetConstraint, UNEVALUABLE};

fn fruit() -> Ingredients {
    Ingredients(vec![
        (
            "apple".to_string(),
            NormalizedIngredient { carb: 20_000_000, fat: 30_000_000, protein: 50_000_000 },
        ),
        (
            "banana".to_string(),
            NormalizedIngredient { carb: 40_000_000, fat: 50_000_000, protein: 60_000_000 },
        ),
    ])
}

fn ingredient(name: &str, g: u64, kcal: u64, carb: u64, fat: u64, protein: u64) -> Ingredient {
    Ingredient { name: name.to_string(), g, kcal, carb, fat, protein }
}

fn plain_target(kcal: u64) -> Target {
    Target {
        kcal,
        carb: 30,
        fat: 30,
        protein: 40,
        constraint_exact: None,
        constraint_at_least: None,
        constraint_at_most: None,
    }
}

fn constraint(name: &str, g: u64) -> TargetConstraint {
    TargetConstraint { name: name.to_string(), g }
}

#[test]
fn normalize_rounds_down_to_micrograms() {
    let i = ingredient("oats", 100, 3, 1, 2, 0);
    let n = i.normalize();
    assert_eq!(n.carb, 333_333);
    assert_eq!(n.fat, 666_666);
    assert_eq!(n.protein, 0);
    assert_eq!(DENSITY_SCALE, 1_000_000);
}

#[test]
fn mix_of_one_ingredient_is_that_ingredient() {
    let ingredients = fruit();
    let mix = Proposal(vec![0, 7]).mix(&ingredients).unwrap();
    assert_eq!(mix, ingredients.0[1].1);
}

#[test]
fn mix_without_pieces_is_none() {
    assert_eq!(Proposal(vec![0, 0]).mix(&fruit()), None);
}

#[test]
fn evaluate_is_zero_only_on_matching_ratio() {
    let ingredients = fruit();
    let t = NormalizedTarget { carb: 200_000, fat: 300_000, protein: 500_000 };
    assert_eq!(t.evaluate(&Proposal(vec![3, 0]), &ingredients), 0);
    let off = NormalizedTarget { carb: 200_000, fat: 300_000, protein: 499_999 };
    assert_eq!(off.evaluate(&Proposal(vec![3, 0]), &ingredients), 1);
}

#[test]
fn evaluate_of_mixed_proposal() {
    // apple + banana: ratios 60/250, 80/250, 110/250 = 0.24, 0.32, 0.44
    let t = NormalizedTarget { carb: 230_000, fat: 315_000, protein: 450_000 };
    let cost = t.evaluate(&Proposal(vec![1, 1]), &fruit());
    assert_eq!(cost, 10_000u64 * 10_000 + 5_000 * 5_000 + 10_000 * 10_000);
}

#[test]
fn evaluate_without_nutrients_is_unevaluable() {
    let t = NormalizedTarget { carb: 200_000, fat: 300_000, protein: 500_000 };
    assert_eq!(t.evaluate(&Proposal(vec![0, 0]), &fruit()), UNEVALUABLE);
    let water = Ingredients(vec![("water".to_string(), NormalizedIngredient::new())]);
    assert_eq!(t.evaluate(&Proposal(vec![4]), &water), UNEVALUABLE);
}

#[test]
fn optimize_is_deterministic() {
    let t = NormalizedTarget { carb: 230_000, fat: 315_000, protein: 450_000 };
    let a = optimize(&t, TargetConstraints::new(), &fruit(), 50).unwrap();
    let b = optimize(&t, TargetConstraints::new(), &fruit(), 50).unwrap();
    assert_eq!(a, b);
    assert_eq!(a.kcal(), 50);
}

#[test]
fn optimize_rejects_constraints_over_budget() {
    let t = NormalizedTarget { carb: 230_000, fat: 315_000, protein: 450_000 };
    let cons = TargetConstraints { exact: vec![Some(2), None], at_least: vec![None, Some(2)], at_most: vec![] };
    assert_eq!(optimize(&t, cons, &fruit(), 3), Err(PlanError::ConstraintsOverBudget));
}

#[test]
fn optimize_starves_when_all_are_frozen() {
    let t = NormalizedTarget { carb: 230_000, fat: 315_000, protein: 450_000 };
    let cons = TargetConstraints { exact: vec![Some(1), None], at_least: vec![], at_most: vec![None, Some(1)] };
    assert_eq!(optimize(&t, cons, &fruit(), 5), Err(PlanError::SearchStarved));
}

#[test]
fn optimize_respects_bounds() {
    // Apple alone fits the target best, but it is capped at one piece and
    // banana must hold at least one.
    let t = NormalizedTarget { carb: 200_000, fat: 300_000, protein: 500_000 };
    let cons = TargetConstraints { exact: vec![], at_least: vec![None, Some(1)], at_most: vec![Some(1), None] };
    let p = optimize(&t, cons, &fruit(), 4).unwrap();
    assert_eq!(p, Proposal(vec![1, 3]));
    let cons = TargetConstraints { exact: vec![None, Some(2)], at_least: vec![], at_most: vec![] };
    let p = optimize(&t, cons, &fruit(), 5).unwrap();
    assert_eq!(p, Proposal(vec![3, 2]));
}

#[test]
fn catalog_is_kept_in_name_order() {
    let mut raw = RawIngredients::new();
    assert_eq!(raw.insert(ingredient("rice", 100, 350, 77, 1, 7)), Ok(()));
    assert_eq!(raw.insert(ingredient("egg", 100, 150, 1, 10, 13)), Ok(()));
    assert_eq!(raw.insert(ingredient("milk", 100, 60, 5, 3, 3)), Ok(()));
    let names: Vec<String> = raw.0.iter().map(|i| i.name.clone()).collect();
    assert_eq!(names, vec!["egg", "milk", "rice"]);
    let normalized = raw.normalize();
    assert_eq!(normalized.0[0].0, "egg");
    assert_eq!(normalized.0[0].1.fat, 10 * 1_000_000 / 150);
}

#[test]
fn catalog_rejects_bad_ingredients() {
    let mut raw = RawIngredients::new();
    assert_eq!(raw.insert(ingredient("egg", 100, 150, 1, 10, 13)), Ok(()));
    assert_eq!(raw.insert(ingredient("egg", 50, 70, 1, 5, 6)), Err(PlanError::DuplicateIngredient));
    assert_eq!(raw.insert(ingredient("air", 100, 0, 0, 0, 0)), Err(PlanError::ZeroKcalIngredient));
    assert_eq!(raw.insert(ingredient("fire", 0, 10, 0, 0, 0)), Err(PlanError::ZeroGramsIngredient));
    assert_eq!(
        raw.insert(ingredient("lead", 100, 10, 2_000_000_000_000, 0, 0)),
        Err(PlanError::ValueOutOfRange)
    );
    assert_eq!(raw.0.len(), 1);
}

#[test]
fn name_order_is_lexicographic() {
    assert!(name_less(&"ab".to_string(), &"b".to_string()));
    assert!(name_less(&"a".to_string(), &"ab".to_string()));
    assert!(!name_less(&"ab".to_string(), &"ab".to_string()));
    assert!(!name_less(&"b".to_string(), &"a".to_string()));
}

#[test]
fn target_check_and_normalize() {
    assert_eq!(plain_target(2000).check(), Ok(()));
    assert_eq!(plain_target(0).check(), Err(PlanError::ZeroKcalTarget));
    let mut t = plain_target(2000);
    t.fat = 101;
    assert_eq!(t.check(), Err(PlanError::ValueOutOfRange));
    let n = plain_target(2000).normalize();
    assert_eq!(n, NormalizedTarget { carb: 300_000, fat: 300_000, protein: 400_000 });
}

#[test]
fn constraint_pieces_follow_kcal_share() {
    let mut raw = RawIngredients::new();
    raw.insert(ingredient("rice", 100, 250, 77, 1, 7)).unwrap();
    let t = plain_target(2000);
    // 40 g of rice is 100 kcal, which is 100 of 2000 pieces.
    assert_eq!(constraint("rice", 40).to_pieces(&t, &raw, 2000), Ok(100));
    // 1 g is 2.5 kcal: 2.5 pieces round to 3.
    assert_eq!(constraint("rice", 1).to_pieces(&t, &raw, 2000), Ok(3));
    assert_eq!(constraint("bread", 1).to_pieces(&t, &raw, 2000), Err(PlanError::UnknownConstraintIngredient));
}

#[test]
fn from_target_resolves_each_list() {
    let mut raw = RawIngredients::new();
    raw.insert(ingredient("rice", 100, 250, 77, 1, 7)).unwrap();
    raw.insert(ingredient("egg", 100, 150, 1, 10, 13)).unwrap();
    let mut t = plain_target(1000);
    t.constraint_exact = Some(vec![constraint("egg", 100), constraint("egg", 200)]);
    t.constraint_at_most = Some(vec![constraint("rice", 20)]);
    let c = TargetConstraints::from_target(&t, &raw, 1000).unwrap();
    assert_eq!(c.exact, vec![Some(300), None]);
    assert_eq!(c.at_least, vec![None, None]);
    assert_eq!(c.at_most, vec![None, Some(50)]);
    t.constraint_at_least = Some(vec![constraint("bread", 10)]);
    assert!(matches!(
        TargetConstraints::from_target(&t, &raw, 1000),
        Err(PlanError::UnknownConstraintIngredient)
    ));
}

#[test]
fn grams_follow_kcal_share() {
    let mut raw = RawIngredients::new();
    raw.insert(ingredient("apple", 100, 50, 12, 0, 1)).unwrap();
    raw.insert(ingredient("banana", 100, 90, 20, 0, 1)).unwrap();
    // 1500 of 2000 kcal from apple (3000 g), 500 from banana (555.6 g).
    let grams = to_grams(&Proposal(vec![3, 1]), &raw, 2000);
    assert_eq!(grams, vec![3000, 556]);
}

#[test]
fn kcal_counts_pieces() {
    assert_eq!(Proposal(vec![3, 0, 4]).kcal(), 7);
    assert_eq!(Proposal(vec![]).kcal(), 0);
}

#[test]
fn grams_convert_back_to_the_mix_ratio() {
    let mut raw = RawIngredients::new();
    raw.insert(ingredient("rice", 100, 350, 77, 1, 7)).unwrap();
    raw.insert(ingredient("egg", 100, 150, 1, 10, 13)).unwrap();
    raw.insert(ingredient("oil", 100, 900, 0, 100, 0)).unwrap();
    let mut t = plain_target(2000);
    t.carb = 45;
    t.fat = 30;
    t.protein = 25;
    let nt = t.normalize();
    let ingredients = raw.normalize();
    let p = optimize(&nt, TargetConstraints::new(), &ingredients, 2000).unwrap();
    assert_eq!(p.kcal(), 2000);
    let mix = p.mix(&ingredients).unwrap();
    let sum = (mix.carb + mix.fat + mix.protein) as f64;
    let grams = to_grams(&p, &raw, 2000);
    let totals = natural_bodybuilder::projection::achieved_macros(&grams, &raw).unwrap();
    let (pc, pf, pp) = totals.percentages().unwrap();
    let expect = |d: u64| (100.0 * d as f64 / sum).round() as i64;
    assert!((pc as i64 - expect(mix.carb)).abs() <= 1);
    assert!((pf as i64 - expect(mix.fat)).abs() <= 1);
    assert!((pp as i64 - expect(mix.protein)).abs() <= 1);
}

#[test]
fn macro_totals_in_milligrams_and_percent() {
    let mut raw = RawIngredients::new();
    raw.insert(ingredient("egg", 100, 150, 1, 10, 13)).unwrap();
    let totals = natural_bodybuilder::projection::achieved_macros(&vec![250], &raw).unwrap();
    assert_eq!((totals.carb, totals.fat, totals.protein), (2_500, 25_000, 32_500));
    assert_eq!(totals.rounded_grams(), (3, 25, 33));
    assert_eq!(totals.percentages(), Some((4, 42, 54)));
    let none = natural_bodybuilder::projection::achieved_macros(&vec![0], &raw).unwrap();
    assert_eq!(none.percentages(), None);
}

#[test]
fn round_trip_without_rounding_is_exact() {
    let mut raw = RawIngredients::new();
    raw.insert(ingredient("a", 100, 100, 10, 20, 30)).unwrap();
    raw.insert(ingredient("b", 50, 200, 40, 0, 10)).unwrap();
    let ingredients = raw.normalize();
    let p = Proposal(vec![1, 1]);
    let grams = to_grams(&p, &raw, 200);
    assert_eq!(grams, vec![100, 25]);
    let totals = natural_bodybuilder::projection::achieved_macros(&grams, &raw).unwrap();
    assert_eq!((totals.carb, totals.fat, totals.protein), (30_000, 20_000, 35_000));
    let mix = p.mix(&ingredients).unwrap();
    assert_eq!((mix.carb, mix.fat, mix.protein), (150_000, 100_000, 175_000));
    assert_eq!(totals.carb * 5, mix.carb as u128);
    assert_eq!(totals.fat * 5, mix.fat as u128);
    assert_eq!(totals.protein * 5, mix.protein as u128);
}

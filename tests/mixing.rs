use natural_bodybuilder::constraints::TargetConstraints;
use natural_bodybuilder::nutrition::{Ingredient, NormalizedIngredient, DENSITY_SCALE};
use natural_bodybuilder::optimizer::optimize;
use natural_bodybuilder::proposal::{Ingredients, Proposal};
use natural_bodybuilder::target::NormalizedTarget;

fn density(grams_per_kcal: f64) -> u64 {
    (grams_per_kcal * DENSITY_SCALE as f64).round() as u64
}

fn ratio(r: f64) -> u64 {
    (r * 1_000_000.0).round() as u64
}

fn unscaled(d: u64) -> f64 {
    d as f64 / DENSITY_SCALE as f64
}

fn cost_value(c: u64) -> f64 {
    c as f64 / 1e12
}

fn test_ingredients() -> Ingredients {
    Ingredients(vec![
        (
            "apple".to_string(),
            NormalizedIngredient { carb: density(20.0), fat: density(30.0), protein: density(50.0) },
        ),
        (
            "banana".to_string(),
            NormalizedIngredient { carb: density(40.0), fat: density(50.0), protein: density(60.0) },
        ),
    ])
}

fn target(carb: f64, fat: f64, protein: f64) -> NormalizedTarget {
    NormalizedTarget { carb: ratio(carb), fat: ratio(fat), protein: ratio(protein) }
}

#[test]
fn test_normalize() {
    let i = Ingredient {
        name: "foo".to_string(),
        g: 1000,
        kcal: 100,
        carb: 300,
        fat: 200,
        protein: 100,
    };
    let normalized = i.normalize();
    assert_eq!(unscaled(normalized.carb).round() as u64, 3);
    assert_eq!(unscaled(normalized.fat).round() as u64, 2);
    assert_eq!(unscaled(normalized.protein).round() as u64, 1);
}

#[test]
fn test_mix() {
    let ingredients = test_ingredients();
    let proposal = Proposal(vec![1, 0]);
    let mix = proposal.mix(&ingredients).unwrap();
    assert_eq!(unscaled(mix.carb) as u64, 20);
    assert_eq!(unscaled(mix.fat) as u64, 30);
    assert_eq!(unscaled(mix.protein) as u64, 50);

    let proposal = Proposal(vec![2, 0]);
    let mix = proposal.mix(&ingredients).unwrap();
    assert_eq!(unscaled(mix.carb) as u64, 20);
    assert_eq!(unscaled(mix.fat) as u64, 30);
    assert_eq!(unscaled(mix.protein) as u64, 50);

    let proposal = Proposal(vec![2, 1]);
    let mix = proposal.mix(&ingredients).unwrap();
    assert_eq!(unscaled(mix.carb).round() as u64, 27);
    assert_eq!(unscaled(mix.fat).round() as u64, 37);
    assert_eq!(unscaled(mix.protein).round() as u64, 53);
}

#[test]
fn test_evaluate() {
    let t = target(0.20, 0.30, 0.50);
    let ingredients = test_ingredients();
    let proposal = Proposal(vec![1, 0]);
    assert_eq!(cost_value(t.evaluate(&proposal, &ingredients)).round() as u64, 0);
    let proposal = Proposal(vec![2, 0]);
    assert_eq!(cost_value(t.evaluate(&proposal, &ingredients)).round() as u64, 0);

    let t = target(0.3, 0.5, 0.2);
    assert_eq!(
        t.evaluate(&proposal, &ingredients),
        ((0.1 * 0.1 + 0.2 * 0.2 + 0.3 * 0.3) * 1e12_f64).round() as u64
    );

    let t = target(0.20, 0.30, 0.50);
    let proposal = Proposal(vec![0, 1]);
    assert_eq!(cost_value(t.evaluate(&proposal, &ingredients)).round() as u64, 0);
}

#[test]
fn test_optimize() {
    // apple target
    let t = target(0.20, 0.30, 0.50);
    let ingredients = test_ingredients();
    let proposal = optimize(&t, TargetConstraints::new(), &ingredients, 2).unwrap();
    let expected_proposal = Proposal(vec![2, 0]);
    assert_eq!(proposal, expected_proposal);

    // banana target
    let t = target(0.26, 0.33, 0.4);
    let ingredients = test_ingredients();
    let proposal = optimize(&t, TargetConstraints::new(), &ingredients, 2).unwrap();
    let expected_proposal = Proposal(vec![0, 2]);
    assert_eq!(proposal, expected_proposal);

    let t = target(0.23, 0.315, 0.45);
    let ingredients = test_ingredients();
    let proposal = optimize(&t, TargetConstraints::new(), &ingredients, 2).unwrap();
    let expected_proposal = Proposal(vec![1, 1]);
    assert_eq!(proposal, expected_proposal);
}

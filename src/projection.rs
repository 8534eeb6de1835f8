use vstd::prelude::*;
use crate::constraints::{round_div, saturate};
use crate::nutrition::{density_of, Ingredient, NormalizedIngredient, RawIngredients, DENSITY_SCALE, MAX_AMOUNT};
use crate::proposal::{Proposal, total, weighted, lemma_count_le_total, MAX_PIECES};
use crate::target::{macro_mass, mix_ratio, ratio_of};

verus! {

/// Grams of `ing` that `pieces` of `total_pieces` stand for when the whole
/// mixture holds `target_kcal` kcal: the kcal share times grams-per-kcal, rounded.
pub open spec fn grams_for(pieces: u64, total_pieces: int, ing: Ingredient, target_kcal: u64) -> u64 {
    saturate(round_div(pieces * target_kcal * ing.g, total_pieces * ing.kcal))
}

/// Converts a solved proposal into grams per catalog entry.
pub fn to_grams(proposal: &Proposal, raw_ingredients: &RawIngredients, target_kcal: u64) -> (r: Vec<u64>)
    requires
        raw_ingredients.wf(),
        proposal.0@.len() == raw_ingredients.0@.len(),
        0 < total(proposal.0@) <= MAX_PIECES,
        0 < target_kcal <= MAX_AMOUNT,
    ensures
        r@.len() == proposal.0@.len(),
        forall|i: int| 0 <= i < r@.len() ==> #[trigger] r@[i] == grams_for(
            proposal.0@[i],
            total(proposal.0@),
            raw_ingredients.0@[i],
            target_kcal,
        ),
{
    let n = proposal.kcal();
    let mut grams: Vec<u64> = Vec::new();
    let mut i: usize = 0;
    while i < proposal.0.len()
        invariant
            raw_ingredients.wf(),
            proposal.0@.len() == raw_ingredients.0@.len(),
            0 < total(proposal.0@) <= MAX_PIECES,
            0 < target_kcal <= MAX_AMOUNT,
            n == total(proposal.0@),
            i <= proposal.0@.len(),
            grams@.len() == i,
            forall|j: int| 0 <= j < i ==> #[trigger] grams@[j] == grams_for(
                proposal.0@[j],
                total(proposal.0@),
                raw_ingredients.0@[j],
                target_kcal,
            ),
        decreases proposal.0@.len() - i,
    {
        let ing = &raw_ingredients.0[i];
        proof {
            assert(raw_ingredients.0@[i as int].wf());
            lemma_count_le_total(proposal.0@, i as int);
        }
        let g = grams_of(proposal.0[i], n, target_kcal, ing.g, ing.kcal);
        grams.push(g);
        i = i + 1;
    }
    grams
}

fn grams_of(pieces: u64, total_pieces: u64, target_kcal: u64, g: u64, kcal: u64) -> (r: u64)
    requires
        pieces <= total_pieces <= MAX_PIECES,
        0 < total_pieces,
        0 < target_kcal <= MAX_AMOUNT,
        0 < g <= MAX_AMOUNT,
        0 < kcal <= MAX_AMOUNT,
    ensures
        r == saturate(round_div(pieces * target_kcal * g, total_pieces * kcal)),
{
    assert(pieces * target_kcal <= MAX_PIECES * MAX_AMOUNT) by (nonlinear_arith)
        requires
            pieces <= MAX_PIECES,
            target_kcal <= MAX_AMOUNT,
    ;
    assert(pieces * target_kcal * g <= MAX_PIECES * MAX_AMOUNT * MAX_AMOUNT) by (nonlinear_arith)
        requires
            pieces * target_kcal <= MAX_PIECES * MAX_AMOUNT,
            g <= MAX_AMOUNT,
    ;
    assert(0 < total_pieces * kcal <= MAX_PIECES * MAX_AMOUNT) by (nonlinear_arith)
        requires
            0 < total_pieces <= MAX_PIECES,
            0 < kcal <= MAX_AMOUNT,
    ;
    let num: u128 = pieces as u128 * target_kcal as u128 * g as u128;
    let den: u128 = total_pieces as u128 * kcal as u128;
    let q: u128 = (2 * num + den) / (2 * den);
    if q > u64::MAX as u128 {
        u64::MAX
    } else {
        q as u64
    }
}

/// The largest macro total, in milligrams, that the breakdown reports.
pub const MAX_TOTAL_MG: u128 = 1_000_000_000_000_000_000_000_000_000_000;

/// Achieved macro-nutrients of a gram mixture, in milligrams.
#[derive(Debug, Clone, Copy, PartialEq, Eq, Structural)]
pub struct MacroTotals {
    pub carb: u128,
    pub fat: u128,
    pub protein: u128,
}

/// Grams of macro-nutrient `k` (0 carbohydrate, 1 fat, 2 protein) in an ingredient.
pub open spec fn macro_grams(ing: Ingredient, k: int) -> int {
    if k == 0 {
        ing.carb as int
    } else if k == 1 {
        ing.fat as int
    } else {
        ing.protein as int
    }
}

/// Milligrams of macro-nutrient `k` in `grams` grams of `ing`, rounded down.
pub open spec fn macro_mg(grams: u64, ing: Ingredient, k: int) -> int {
    (grams * macro_grams(ing, k) * 1000) / (ing.g as int)
}

/// Milligrams of macro-nutrient `k` over the first `n` entries of a gram mixture.
pub open spec fn achieved(grams: Seq<u64>, raw: Seq<Ingredient>, k: int, n: int) -> int
    decreases n,
{
    if n <= 0 {
        0
    } else {
        achieved(grams, raw, k, n - 1) + macro_mg(grams[n - 1], raw[n - 1], k)
    }
}

impl MacroTotals {
    pub open spec fn wf(self) -> bool {
        self.carb <= MAX_TOTAL_MG && self.fat <= MAX_TOTAL_MG && self.protein <= MAX_TOTAL_MG
    }

    /// Each total's share of their sum, in whole percent, or `None` when the
    /// mixture holds no macro-nutrient at all.
    pub open spec fn spec_percentages(self) -> Option<(u64, u64, u64)> {
        let s = self.carb + self.fat + self.protein;
        if s == 0 {
            None
        } else {
            Some((
                round_div(100 * self.carb, s) as u64,
                round_div(100 * self.fat, s) as u64,
                round_div(100 * self.protein, s) as u64,
            ))
        }
    }

    /// Percentages of carbohydrate, fat and protein relative to their sum.
    pub fn percentages(&self) -> (r: Option<(u64, u64, u64)>)
        requires
            self.wf(),
        ensures
            r == self.spec_percentages(),
    {
        let s: u128 = self.carb + self.fat + self.protein;
        if s == 0 {
            return None;
        }
        Some((percent(self.carb, s), percent(self.fat, s), percent(self.protein, s)))
    }

    /// The totals in whole grams, rounded.
    pub fn rounded_grams(&self) -> (r: (u128, u128, u128))
        requires
            self.wf(),
        ensures
            r.0 == round_div(self.carb as int, 1000),
            r.1 == round_div(self.fat as int, 1000),
            r.2 == round_div(self.protein as int, 1000),
    {
        ((2 * self.carb + 1000) / 2000, (2 * self.fat + 1000) / 2000, (2 * self.protein + 1000) / 2000)
    }
}

fn percent(part: u128, whole: u128) -> (r: u64)
    requires
        part <= whole <= 3 * MAX_TOTAL_MG,
        0 < whole,
    ensures
        r == round_div(100 * part, whole as int),
{
    let q: u128 = (200 * part + whole) / (2 * whole);
    assert(q <= 101) by (nonlinear_arith)
        requires
            q == (200 * part + whole) / (2 * whole),
            part <= whole,
            0 < whole,
    ;
    q as u64
}

/// Macro-nutrients recovered from a gram mixture, in milligrams; `None` when a
/// total would exceed `MAX_TOTAL_MG`.
pub fn achieved_macros(grams: &Vec<u64>, raw_ingredients: &RawIngredients) -> (r: Option<MacroTotals>)
    requires
        raw_ingredients.wf(),
        grams@.len() == raw_ingredients.0@.len(),
    ensures
        ({
            let n = grams@.len() as int;
            let raw = raw_ingredients.0@;
            &&& r is None <==> (achieved(grams@, raw, 0, n) > MAX_TOTAL_MG
                || achieved(grams@, raw, 1, n) > MAX_TOTAL_MG
                || achieved(grams@, raw, 2, n) > MAX_TOTAL_MG)
            &&& r matches Some(t) ==> t.wf() && t.carb == achieved(grams@, raw, 0, n)
                && t.fat == achieved(grams@, raw, 1, n) && t.protein == achieved(grams@, raw, 2, n)
        }),
{
    let ghost raw = raw_ingredients.0@;
    let mut c: u128 = 0;
    let mut f: u128 = 0;
    let mut p: u128 = 0;
    let mut i: usize = 0;
    while i < grams.len()
        invariant
            raw_ingredients.wf(),
            raw == raw_ingredients.0@,
            grams@.len() == raw.len(),
            i <= grams@.len(),
            c == achieved(grams@, raw, 0, i as int),
            f == achieved(grams@, raw, 1, i as int),
            p == achieved(grams@, raw, 2, i as int),
            c <= MAX_TOTAL_MG,
            f <= MAX_TOTAL_MG,
            p <= MAX_TOTAL_MG,
        decreases grams@.len() - i,
    {
        let ing = &raw_ingredients.0[i];
        proof {
            assert(raw[i as int].wf());
        }
        c = c + milligrams(grams[i], ing.carb, ing.g);
        f = f + milligrams(grams[i], ing.fat, ing.g);
        p = p + milligrams(grams[i], ing.protein, ing.g);
        i = i + 1;
        if c > MAX_TOTAL_MG || f > MAX_TOTAL_MG || p > MAX_TOTAL_MG {
            proof {
                lemma_achieved_mono(grams@, raw, 0, i as int, grams@.len() as int);
                lemma_achieved_mono(grams@, raw, 1, i as int, grams@.len() as int);
                lemma_achieved_mono(grams@, raw, 2, i as int, grams@.len() as int);
            }
            return None;
        }
    }
    Some(MacroTotals { carb: c, fat: f, protein: p })
}

fn milligrams(grams: u64, part: u64, g: u64) -> (r: u128)
    requires
        part <= MAX_AMOUNT,
        0 < g,
    ensures
        r == (grams * part * 1000) / (g as int),
        r <= 0xFFFF_FFFF_FFFF_FFFF * MAX_AMOUNT * 1000,
{
    assert(grams * part * 1000 <= 0xFFFF_FFFF_FFFF_FFFF * MAX_AMOUNT * 1000) by (nonlinear_arith)
        requires
            grams <= 0xFFFF_FFFF_FFFF_FFFF,
            part <= MAX_AMOUNT,
    ;
    let num: u128 = grams as u128 * part as u128 * 1000;
    assert(num / (g as u128) <= num) by (nonlinear_arith)
        requires
            g > 0,
            num >= 0,
    ;
    num / g as u128
}

/// Recovered totals only grow with the number of entries counted.
proof fn lemma_achieved_mono(grams: Seq<u64>, raw: Seq<Ingredient>, k: int, m: int, n: int)
    requires
        0 <= m <= n <= grams.len(),
        n <= raw.len(),
        forall|i: int| 0 <= i < raw.len() ==> (#[trigger] raw[i]).wf(),
    ensures
        achieved(grams, raw, k, m) <= achieved(grams, raw, k, n),
    decreases n - m,
{
    if m < n {
        lemma_achieved_mono(grams, raw, k, m, n - 1);
        let ing = raw[n - 1];
        assert(ing.wf());
        let x = grams[n - 1] as int;
        let y = macro_grams(ing, k);
        let a = x * y * 1000;
        assert(x * y * 1000 >= 0) by (nonlinear_arith)
            requires
                x >= 0,
                y >= 0,
        ;
        assert(a / (ing.g as int) >= 0) by (nonlinear_arith)
            requires
                a >= 0,
                ing.g > 0,
        ;
    }
}

/// Each gram amount lies within half a gram of the exact amount its kcal share
/// stands for (unless it was clamped to the largest `u64`):
/// `|grams - pieces * target_kcal * g / (total_pieces * kcal)| <= 1/2`.
pub proof fn lemma_grams_within_half_gram(pieces: u64, total_pieces: int, ing: Ingredient, target_kcal: u64)
    requires
        ing.wf(),
        0 < total_pieces,
        round_div(pieces * target_kcal * ing.g, total_pieces * ing.kcal) <= u64::MAX,
    ensures
        ({
            let grams = grams_for(pieces, total_pieces, ing, target_kcal) as int;
            let num = pieces * target_kcal * ing.g;
            let den = total_pieces * ing.kcal;
            2 * num - den < 2 * grams * den <= 2 * num + den
        }),
{
    let num = pieces * target_kcal * ing.g;
    let den = total_pieces * ing.kcal;
    let tp = total_pieces;
    let kc = ing.kcal as int;
    assert(tp * kc > 0) by (nonlinear_arith)
        requires
            tp > 0,
            kc > 0,
    ;
    let (x, y, z) = (pieces as int, target_kcal as int, ing.g as int);
    assert(x * y * z >= 0) by (nonlinear_arith)
        requires
            x >= 0,
            y >= 0,
            z >= 0,
    ;
    let q = (2 * num + den) / (2 * den);
    assert(q * (2 * den) <= 2 * num + den < (q + 1) * (2 * den)) by (nonlinear_arith)
        requires
            den > 0,
            q == (2 * num + den) / (2 * den),
    ;
    assert(q >= 0);
    let grams = grams_for(pieces, total_pieces, ing, target_kcal) as int;
    assert(grams == q);
    assert(2 * num - den < 2 * grams * den <= 2 * num + den) by (nonlinear_arith)
        requires
            grams * (2 * den) <= 2 * num + den < (grams + 1) * (2 * den),
    ;
}

/// The gram amounts `to_grams` gives for a proposal.
pub open spec fn grams_of_proposal(counts: Seq<u64>, raw: Seq<Ingredient>, target_kcal: u64) -> Seq<u64> {
    Seq::new(counts.len(), |i: int| grams_for(counts[i], total(counts), raw[i], target_kcal))
}

/// Whether no step of the round trip rounds for entry `i`: the density, the
/// gram amount and the milligrams of every macro-nutrient divide evenly, and
/// the gram amount fits a `u64`.
pub open spec fn exact_at(counts: Seq<u64>, raw: Seq<Ingredient>, target_kcal: u64, i: int) -> bool {
    let ing = raw[i];
    let num = counts[i] * target_kcal * ing.g;
    let den = total(counts) * ing.kcal;
    &&& num % den == 0
    &&& num / den <= u64::MAX
    &&& forall|k: int| 0 <= k < 3 ==> #[trigger] ((macro_grams(ing, k) * DENSITY_SCALE) % (ing.kcal as int)) == 0
        && ((num / den) * macro_grams(ing, k) * 1000) % (ing.g as int) == 0
}

/// Converting a proposal to grams and back to macro-nutrients reproduces its mix
/// ratio exactly when no step rounds: the recovered milligrams are the weighted
/// densities scaled by `target_kcal / (1000 * pieces)`, and so their ratio is the
/// proposal's own mix ratio.
pub proof fn lemma_round_trip_exact(
    counts: Seq<u64>,
    raw: Seq<Ingredient>,
    ing: Seq<(String, NormalizedIngredient)>,
    target_kcal: u64,
)
    requires
        counts.len() == raw.len(),
        ing.len() == raw.len(),
        total(counts) > 0,
        target_kcal > 0,
        forall|i: int| 0 <= i < raw.len() ==> (#[trigger] raw[i]).wf() && ing[i].1 == raw[i].spec_normalize(),
        forall|i: int| 0 <= i < raw.len() ==> #[trigger] exact_at(counts, raw, target_kcal, i),
    ensures
        forall|k: int| 0 <= k < 3 ==> #[trigger] achieved(grams_of_proposal(counts, raw, target_kcal), raw, k, raw.len() as int)
            * 1000 * total(counts) == target_kcal * weighted(counts, ing, k),
        ({
            let gs = grams_of_proposal(counts, raw, target_kcal);
            let n = raw.len() as int;
            let a = achieved(gs, raw, 0, n) + achieved(gs, raw, 1, n) + achieved(gs, raw, 2, n);
            macro_mass(counts, ing) > 0 ==> forall|k: int| 0 <= k < 3
                ==> ratio_of(#[trigger] achieved(gs, raw, k, n), a) == mix_ratio(counts, ing, k)
        }),
{
    let gs = grams_of_proposal(counts, raw, target_kcal);
    let n = raw.len() as int;
    let big_n = total(counts);
    let kk = target_kcal as int;
    assert forall|k: int| 0 <= k < 3 implies #[trigger] achieved(gs, raw, k, n) * 1000 * big_n == kk * weighted(counts, ing, k) by {
        lemma_round_trip_prefix(counts, raw, ing, target_kcal, k, n);
        assert(counts.subrange(0, n) =~= counts);
    }
    let w0 = weighted(counts, ing, 0);
    let w1 = weighted(counts, ing, 1);
    let w2 = weighted(counts, ing, 2);
    let a0 = achieved(gs, raw, 0, n);
    let a1 = achieved(gs, raw, 1, n);
    let a2 = achieved(gs, raw, 2, n);
    let m = 1000 * big_n;
    if macro_mass(counts, ing) > 0 {
        assert forall|k: int| 0 <= k < 3 implies ratio_of(#[trigger] achieved(gs, raw, k, n), a0 + a1 + a2) == mix_ratio(counts, ing, k) by {
            let ak = achieved(gs, raw, k, n);
            let wk = weighted(counts, ing, k);
            let sw = w0 + w1 + w2;
            let sa = a0 + a1 + a2;
            assert(ak * 1000 * big_n == kk * wk);
            assert(ak * m == kk * wk) by (nonlinear_arith)
                requires
                    ak * 1000 * big_n == kk * wk,
                    m == 1000 * big_n,
            ;
            assert(sa * m == kk * sw) by (nonlinear_arith)
                requires
                    a0 * 1000 * big_n == kk * w0,
                    a1 * 1000 * big_n == kk * w1,
                    a2 * 1000 * big_n == kk * w2,
                    m == 1000 * big_n,
                    sa == a0 + a1 + a2,
                    sw == w0 + w1 + w2,
            ;
            assert(sw > 0);
            assert(m > 0) by (nonlinear_arith)
                requires
                    m == 1000 * big_n,
                    big_n > 0,
            ;
            assert(sa > 0) by (nonlinear_arith)
                requires
                    sa * m == kk * sw,
                    kk > 0,
                    sw > 0,
                    m > 0,
            ;
            lemma_div_common_factor(ak * 1_000_000, sa, m);
            lemma_div_common_factor(wk * 1_000_000, sw, kk);
            assert((ak * 1_000_000) * m == (wk * 1_000_000) * kk) by (nonlinear_arith)
                requires
                    ak * m == kk * wk,
            ;
            assert(sa * m == sw * kk) by (nonlinear_arith)
                requires
                    sa * m == kk * sw,
            ;
            assert(ratio_of(ak, sa) == (ak * 1_000_000) / sa);
            assert(mix_ratio(counts, ing, k) == (wk * 1_000_000) / sw);
        }
    }
}

proof fn lemma_div_common_factor(x: int, y: int, m: int)
    requires
        y > 0,
        m > 0,
    ensures
        (x * m) / (y * m) == x / y,
{
    assert((x * m) / (y * m) == x / y) by (nonlinear_arith)
        requires
            y > 0,
            m > 0,
    ;
}

/// The round trip over the first `m` entries.
proof fn lemma_round_trip_prefix(
    counts: Seq<u64>,
    raw: Seq<Ingredient>,
    ing: Seq<(String, NormalizedIngredient)>,
    target_kcal: u64,
    k: int,
    m: int,
)
    requires
        counts.len() == raw.len(),
        ing.len() == raw.len(),
        total(counts) > 0,
        0 <= k < 3,
        0 <= m <= raw.len(),
        forall|i: int| 0 <= i < raw.len() ==> (#[trigger] raw[i]).wf() && ing[i].1 == raw[i].spec_normalize(),
        forall|i: int| 0 <= i < raw.len() ==> #[trigger] exact_at(counts, raw, target_kcal, i),
    ensures
        achieved(grams_of_proposal(counts, raw, target_kcal), raw, k, m) * 1000 * total(counts)
            == target_kcal * weighted(counts.subrange(0, m), ing, k),
    decreases m,
{
    if m > 0 {
        lemma_round_trip_prefix(counts, raw, ing, target_kcal, k, m - 1);
        let i = m - 1;
        assert(counts.subrange(0, m).drop_last() =~= counts.subrange(0, m - 1));
        assert(raw[i].wf());
        assert(exact_at(counts, raw, target_kcal, i));
        lemma_round_trip_term(counts, raw, ing, target_kcal, k, i);
        let gs = grams_of_proposal(counts, raw, target_kcal);
        let big_n = total(counts);
        let prev_a = achieved(gs, raw, k, m - 1);
        let prev_w = weighted(counts.subrange(0, m - 1), ing, k);
        let t = macro_mg(gs[i], raw[i], k);
        let d = ing[i].1.component(k);
        let kk = target_kcal as int;
        let c = counts[i] as int;
        assert(counts.subrange(0, m).last() == counts[i]);
        assert(achieved(gs, raw, k, m) == prev_a + t);
        assert(weighted(counts.subrange(0, m), ing, k) == prev_w + c * d);
        assert((prev_a + t) * 1000 * big_n == kk * (prev_w + c * d)) by (nonlinear_arith)
            requires
                prev_a * 1000 * big_n == kk * prev_w,
                t * 1000 * big_n == kk * c * d,
        ;
    } else {
        let a = achieved(grams_of_proposal(counts, raw, target_kcal), raw, k, m);
        let w = weighted(counts.subrange(0, m), ing, k);
        assert(a == 0 && w == 0);
        assert(a * 1000 * total(counts) == target_kcal * w) by (nonlinear_arith)
            requires
                a == 0,
                w == 0,
        ;
    }
}

/// One entry of the round trip: its recovered milligrams, scaled by the piece
/// total, are its weighted density scaled by the target kcal.
proof fn lemma_round_trip_term(
    counts: Seq<u64>,
    raw: Seq<Ingredient>,
    ing: Seq<(String, NormalizedIngredient)>,
    target_kcal: u64,
    k: int,
    i: int,
)
    requires
        counts.len() == raw.len(),
        ing.len() == raw.len(),
        total(counts) > 0,
        0 <= k < 3,
        0 <= i < raw.len(),
        raw[i].wf(),
        ing[i].1 == raw[i].spec_normalize(),
        exact_at(counts, raw, target_kcal, i),
    ensures
        macro_mg(grams_of_proposal(counts, raw, target_kcal)[i], raw[i], k) * 1000 * total(counts)
            == target_kcal * counts[i] * ing[i].1.component(k),
{
    let r = raw[i];
    let kc = r.kcal as int;
    let g = r.g as int;
    let c = macro_grams(r, k);
    let n = counts[i] as int;
    let big_n = total(counts);
    let kk = target_kcal as int;
    let num = n * kk * g;
    let den = big_n * kc;
    assert(big_n * kc > 0) by (nonlinear_arith)
        requires
            big_n > 0,
            kc > 0,
    ;
    assert(n * kk * g >= 0) by (nonlinear_arith)
        requires
            n >= 0,
            kk >= 0,
            g >= 0,
    ;
    assert((macro_grams(r, k) * DENSITY_SCALE) % kc == 0);
    assert((c * 1000000) % kc == 0);
    let q = num / den;
    assert(num == q * den) by (nonlinear_arith)
        requires
            num % den == 0,
            den > 0,
            q == num / den,
    ;
    assert((2 * num + den) / (2 * den) == q) by (nonlinear_arith)
        requires
            num == q * den,
            den > 0,
    ;
    let gr = grams_of_proposal(counts, raw, target_kcal)[i] as int;
    assert(gr == q);
    let d0 = density_of(c as u64, r.kcal);
    assert(0 <= c <= MAX_AMOUNT);
    assert(d0 == (c * 1000000) / kc);
    assert(d0 * kc == c * 1000000) by (nonlinear_arith)
        requires
            (c * 1000000) % kc == 0,
            d0 == (c * 1000000) / kc,
            kc > 0,
    ;
    assert(0 <= d0 <= c * 1000000) by (nonlinear_arith)
        requires
            d0 == (c * 1000000) / kc,
            kc > 0,
            c >= 0,
    ;
    let d = ing[i].1.component(k);
    assert(d == d0);
    let mg = macro_mg(gr as u64, r, k);
    assert((gr * c * 1000) % g == 0);
    assert(mg == (gr * c * 1000) / g);
    assert(mg * g == gr * c * 1000) by (nonlinear_arith)
        requires
            (gr * c * 1000) % g == 0,
            mg == (gr * c * 1000) / g,
            g > 0,
    ;
    let lhs = mg * 1000 * big_n;
    let rhs = kk * n * d;
    assert(lhs * (g * kc) == (mg * g) * (1000 * big_n * kc)) by (nonlinear_arith)
        requires
            lhs == mg * 1000 * big_n,
    ;
    assert((mg * g) * (1000 * big_n * kc) == (gr * c * 1000) * (1000 * big_n * kc));
    assert((gr * c * 1000) * (1000 * big_n * kc) == (gr * (big_n * kc)) * (c * 1000000)) by (nonlinear_arith);
    assert(gr * (big_n * kc) == n * kk * g) by (nonlinear_arith)
        requires
            gr * den == num,
            den == big_n * kc,
            num == n * kk * g,
    ;
    assert((gr * (big_n * kc)) * (c * 1000000) == (n * kk * g) * (c * 1000000));
    assert(rhs * (g * kc) == (kk * n * g) * (d * kc)) by (nonlinear_arith)
        requires
            rhs == kk * n * d,
    ;
    assert((kk * n * g) * (d * kc) == (kk * n * g) * (c * 1000000));
    assert((n * kk * g) * (c * 1000000) == (kk * n * g) * (c * 1000000)) by (nonlinear_arith);
    assert(lhs * (g * kc) == rhs * (g * kc));
    assert(g * kc > 0) by (nonlinear_arith)
        requires
            g > 0,
            kc > 0,
    ;
    assert(lhs == rhs) by (nonlinear_arith)
        requires
            lhs * (g * kc) == rhs * (g * kc),
            g * kc > 0,
    ;
}

} // verus!

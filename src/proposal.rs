use vstd::prelude::*;
use crate::nutrition::{NormalizedIngredient, MAX_DENSITY};

verus! {

/// The largest number of pieces a proposal (and so a search) may hold.
pub const MAX_PIECES: u64 = 1_000_000_000;

/// A catalog of normalized ingredients, in the order in which the search visits them.
pub struct Ingredients(pub Vec<(String, NormalizedIngredient)>);

/// Piece counts, one per catalog entry and in catalog order. One piece stands
/// for one kcal-equivalent unit of the search's discretization.
#[derive(Debug, Clone, PartialEq, Eq)]
pub struct Proposal(pub Vec<u64>);

/// Sum of all piece counts.
pub open spec fn total(counts: Seq<u64>) -> int
    decreases counts.len(),
{
    if counts.len() == 0 {
        0
    } else {
        total(counts.drop_last()) + counts.last()
    }
}

/// Sum over the catalog of piece count times density component `k`.
pub open spec fn weighted(counts: Seq<u64>, ing: Seq<(String, NormalizedIngredient)>, k: int) -> int
    decreases counts.len(),
{
    if counts.len() == 0 {
        0
    } else {
        weighted(counts.drop_last(), ing, k) + counts.last() * ing[counts.len() - 1].1.component(k)
    }
}

/// The weighted average of the densities, or `None` when there are no pieces.
pub open spec fn spec_mix(counts: Seq<u64>, ing: Seq<(String, NormalizedIngredient)>) -> Option<NormalizedIngredient> {
    if total(counts) == 0 {
        None
    } else {
        Some(NormalizedIngredient {
            carb: (weighted(counts, ing, 0) / total(counts)) as u64,
            fat: (weighted(counts, ing, 1) / total(counts)) as u64,
            protein: (weighted(counts, ing, 2) / total(counts)) as u64,
        })
    }
}

impl Ingredients {
    pub open spec fn wf(&self) -> bool {
        forall|i: int| 0 <= i < self.0@.len() ==> (#[trigger] self.0@[i]).1.wf()
    }
}

impl Proposal {
    /// A proposal that fits the catalog and the piece limit.
    pub open spec fn fits(&self, ingredients: &Ingredients) -> bool {
        &&& self.0@.len() == ingredients.0@.len()
        &&& total(self.0@) <= MAX_PIECES
    }

    /// The weighted average of the catalog's densities, weighted by piece count.
    /// A proposal without pieces has no mix.
    pub fn mix(&self, ingredients: &Ingredients) -> (r: Option<NormalizedIngredient>)
        requires
            ingredients.wf(),
            self.fits(ingredients),
        ensures
            r == spec_mix(self.0@, ingredients.0@),
            r matches Some(m) ==> m.wf(),
    {
        let n = self.kcal();
        if n == 0 {
            return None;
        }
        let (c, f, p) = weighted_sums(&self.0, ingredients);
        proof {
            lemma_weighted_bound(self.0@, ingredients.0@, 0);
            lemma_weighted_bound(self.0@, ingredients.0@, 1);
            lemma_weighted_bound(self.0@, ingredients.0@, 2);
            lemma_average_bound(c as int, n as int);
            lemma_average_bound(f as int, n as int);
            lemma_average_bound(p as int, n as int);
        }
        let carb = (c / n as u128) as u64;
        let fat = (f / n as u128) as u64;
        let protein = (p / n as u128) as u64;
        Some(NormalizedIngredient { carb, fat, protein })
    }

    /// Total number of pieces, i.e. the proposal's kcal in piece units.
    pub fn kcal(&self) -> (r: u64)
        requires
            total(self.0@) <= u64::MAX,
        ensures
            r == total(self.0@),
    {
        let mut sum: u64 = 0;
        let mut i: usize = 0;
        while i < self.0.len()
            invariant
                i <= self.0@.len(),
                sum == total(self.0@.subrange(0, i as int)),
                total(self.0@) <= u64::MAX,
            decreases self.0@.len() - i,
        {
            proof {
                lemma_total_prefix(self.0@, i as int);
                lemma_total_prefix_le(self.0@, i as int + 1);
            }
            sum = sum + self.0[i];
            i = i + 1;
        }
        assert(self.0@.subrange(0, i as int) =~= self.0@);
        sum
    }
}

/// The three weighted sums of a proposal, in one pass.
pub(crate) fn weighted_sums(counts: &Vec<u64>, ingredients: &Ingredients) -> (r: (u128, u128, u128))
    requires
        ingredients.wf(),
        counts@.len() == ingredients.0@.len(),
        total(counts@) <= MAX_PIECES,
    ensures
        r.0 == weighted(counts@, ingredients.0@, 0),
        r.1 == weighted(counts@, ingredients.0@, 1),
        r.2 == weighted(counts@, ingredients.0@, 2),
{
    let mut c: u128 = 0;
    let mut f: u128 = 0;
    let mut p: u128 = 0;
    let mut i: usize = 0;
    while i < counts.len()
        invariant
            i <= counts@.len(),
            counts@.len() == ingredients.0@.len(),
            ingredients.wf(),
            total(counts@) <= MAX_PIECES,
            c == weighted(counts@.subrange(0, i as int), ingredients.0@, 0),
            f == weighted(counts@.subrange(0, i as int), ingredients.0@, 1),
            p == weighted(counts@.subrange(0, i as int), ingredients.0@, 2),
        decreases counts@.len() - i,
    {
        let ghost pre = counts@.subrange(0, i as int + 1);
        proof {
            assert(pre.drop_last() =~= counts@.subrange(0, i as int));
            lemma_total_prefix_le(counts@, i as int + 1);
            lemma_weighted_bound(pre, ingredients.0@, 0);
            lemma_weighted_bound(pre, ingredients.0@, 1);
            lemma_weighted_bound(pre, ingredients.0@, 2);
        }
        let n = counts[i] as u128;
        let d = ingredients.0[i].1;
        c = c + n * d.carb as u128;
        f = f + n * d.fat as u128;
        p = p + n * d.protein as u128;
        i = i + 1;
    }
    assert(counts@.subrange(0, i as int) =~= counts@);
    (c, f, p)
}

pub proof fn lemma_total_prefix(s: Seq<u64>, i: int)
    requires
        0 <= i < s.len(),
    ensures
        total(s.subrange(0, i + 1)) == total(s.subrange(0, i)) + s[i],
{
    assert(s.subrange(0, i + 1).drop_last() =~= s.subrange(0, i));
}

/// A prefix never holds more pieces than the whole.
pub proof fn lemma_total_prefix_le(s: Seq<u64>, i: int)
    requires
        0 <= i <= s.len(),
    ensures
        total(s.subrange(0, i)) <= total(s),
    decreases s.len() - i,
{
    if i < s.len() {
        lemma_total_prefix(s, i);
        lemma_total_prefix_le(s, i + 1);
    } else {
        assert(s.subrange(0, i) =~= s);
    }
}

/// A weighted sum is at most the piece total times the largest density.
pub proof fn lemma_weighted_bound(counts: Seq<u64>, ing: Seq<(String, NormalizedIngredient)>, k: int)
    requires
        counts.len() <= ing.len(),
        forall|i: int| 0 <= i < ing.len() ==> (#[trigger] ing[i]).1.wf(),
    ensures
        0 <= weighted(counts, ing, k) <= total(counts) * MAX_DENSITY,
    decreases counts.len(),
{
    if counts.len() > 0 {
        let rest = counts.drop_last();
        lemma_weighted_bound(rest, ing, k);
        let d = ing[counts.len() - 1].1.component(k);
        assert(ing[counts.len() - 1].1.wf());
        assert(0 <= d <= MAX_DENSITY);
        let n = counts.last() as int;
        assert(0 <= n * d <= n * MAX_DENSITY) by (nonlinear_arith)
            requires
                0 <= d <= MAX_DENSITY,
                n >= 0,
        ;
        assert(total(counts) * MAX_DENSITY == total(rest) * MAX_DENSITY + n * MAX_DENSITY) by (nonlinear_arith)
            requires
                total(counts) == total(rest) + n,
        ;
    }
}

proof fn lemma_average_bound(w: int, n: int)
    requires
        n > 0,
        0 <= w <= n * MAX_DENSITY,
    ensures
        0 <= w / n <= MAX_DENSITY,
{
    assert(0 <= w / n <= MAX_DENSITY) by (nonlinear_arith)
        requires
            n > 0,
            0 <= w <= n * MAX_DENSITY,
    ;
}


/// Mixing a proposal that holds pieces of one ingredient only gives back that
/// ingredient's own densities, whatever the number of pieces.
pub proof fn lemma_mix_single(counts: Seq<u64>, ing: Seq<(String, NormalizedIngredient)>, j: int)
    requires
        counts.len() == ing.len(),
        0 <= j < counts.len(),
        counts[j] > 0,
        forall|i: int| 0 <= i < counts.len() && i != j ==> counts[i] == 0,
    ensures
        spec_mix(counts, ing) == Some(ing[j].1),
{
    let zeros = Seq::new(counts.len(), |i: int| 0u64);
    assert(counts =~= zeros.update(j, counts[j]));
    lemma_zero_sums(zeros, ing);
    lemma_total_update(zeros, j, counts[j]);
    let r = counts[j] as int;
    assert forall|k: int| 0 <= k < 3 implies weighted(counts, ing, k) / total(counts) == ing[j].1.component(k) by {
        lemma_weighted_update(zeros, ing, j, counts[j], k);
        let d = ing[j].1.component(k);
        assert((r * d) / r == d) by (nonlinear_arith)
            requires
                r > 0,
        ;
    }
    assert(weighted(counts, ing, 0) / total(counts) == ing[j].1.component(0));
    assert(weighted(counts, ing, 1) / total(counts) == ing[j].1.component(1));
    assert(weighted(counts, ing, 2) / total(counts) == ing[j].1.component(2));
}

proof fn lemma_zero_sums(zeros: Seq<u64>, ing: Seq<(String, NormalizedIngredient)>)
    requires
        forall|i: int| 0 <= i < zeros.len() ==> zeros[i] == 0,
    ensures
        total(zeros) == 0,
        forall|k: int| weighted(zeros, ing, k) == 0,
    decreases zeros.len(),
{
    if zeros.len() > 0 {
        lemma_zero_sums(zeros.drop_last(), ing);
        assert forall|k: int| weighted(zeros, ing, k) == 0 by {
            let d = ing[zeros.len() - 1].1.component(k);
            let z = zeros.last() as int;
            assert(weighted(zeros.drop_last(), ing, k) == 0);
            assert(z == 0);
            assert(z * d == 0) by (nonlinear_arith)
                requires
                    z == 0,
            ;
        }
    }
}

/// Changing one count changes the total by the difference.
pub proof fn lemma_total_update(c: Seq<u64>, i: int, v: u64)
    requires
        0 <= i < c.len(),
    ensures
        total(c.update(i, v)) == total(c) - c[i] + v,
    decreases c.len(),
{
    let u = c.update(i, v);
    if i == c.len() - 1 {
        assert(u.drop_last() =~= c.drop_last());
    } else {
        assert(u.drop_last() =~= c.drop_last().update(i, v));
        lemma_total_update(c.drop_last(), i, v);
    }
}

/// Changing one count changes a weighted sum by the difference times that
/// ingredient's density.
pub proof fn lemma_weighted_update(c: Seq<u64>, ing: Seq<(String, NormalizedIngredient)>, i: int, v: u64, k: int)
    requires
        0 <= i < c.len(),
    ensures
        weighted(c.update(i, v), ing, k) == weighted(c, ing, k) + (v - c[i]) * ing[i].1.component(k),
    decreases c.len(),
{
    let u = c.update(i, v);
    let d = ing[i].1.component(k);
    if i == c.len() - 1 {
        assert(u.drop_last() =~= c.drop_last());
        assert(v * d == c[i] * d + (v - c[i]) * d) by (nonlinear_arith);
    } else {
        assert(u.drop_last() =~= c.drop_last().update(i, v));
        lemma_weighted_update(c.drop_last(), ing, i, v, k);
    }
}

/// No single count exceeds the total.
pub proof fn lemma_count_le_total(c: Seq<u64>, i: int)
    requires
        0 <= i < c.len(),
    ensures
        c[i] <= total(c),
    decreases c.len(),
{
    if i < c.len() - 1 {
        lemma_count_le_total(c.drop_last(), i);
        lemma_total_nonneg(c.drop_last());
    } else {
        lemma_total_nonneg(c.drop_last());
    }
}

pub proof fn lemma_total_nonneg(c: Seq<u64>)
    ensures
        total(c) >= 0,
    decreases c.len(),
{
    if c.len() > 0 {
        lemma_total_nonneg(c.drop_last());
    }
}

} // verus!

use vstd::prelude::*;
use crate::error::PlanError;
use crate::proposal::Ingredients;

verus! {

/// Densities are fixed-point: one unit is a microgram of nutrient per kcal.
pub const DENSITY_SCALE: u64 = 1_000_000;

/// The largest gram or kcal amount the library accepts from a configuration.
pub const MAX_AMOUNT: u64 = 1_000_000_000_000;

/// The largest density (in `DENSITY_SCALE` units) a normalized ingredient may hold.
pub const MAX_DENSITY: u64 = 1_000_000_000_000_000_000;

/// A food as configured: its total weight, its energy, and the grams of each
/// macro-nutrient it holds.
#[derive(Debug, Clone)]
pub struct Ingredient {
    pub name: String,
    pub g: u64,
    pub kcal: u64,
    pub carb: u64,
    pub fat: u64,
    pub protein: u64,
}

/// Macro-nutrient densities of an ingredient, in micrograms per kcal.
#[derive(Debug, Clone, Copy, PartialEq, Eq, Structural)]
pub struct NormalizedIngredient {
    pub carb: u64,
    pub fat: u64,
    pub protein: u64,
}

/// Fixed-point density of `grams` spread over `kcal`, rounded down.
pub open spec fn density_of(grams: u64, kcal: u64) -> int
    recommends
        kcal > 0,
{
    (grams as int * DENSITY_SCALE as int) / (kcal as int)
}

impl NormalizedIngredient {
    /// Component `k` of the densities: 0 carbohydrate, 1 fat, 2 protein.
    pub open spec fn component(self, k: int) -> int {
        if k == 0 {
            self.carb as int
        } else if k == 1 {
            self.fat as int
        } else {
            self.protein as int
        }
    }

    pub open spec fn wf(self) -> bool {
        self.carb <= MAX_DENSITY && self.fat <= MAX_DENSITY && self.protein <= MAX_DENSITY
    }

    /// All densities zero.
    pub fn new() -> (r: NormalizedIngredient)
        ensures
            r == (NormalizedIngredient { carb: 0, fat: 0, protein: 0 }),
    {
        NormalizedIngredient { carb: 0, fat: 0, protein: 0 }
    }
}

impl Ingredient {
    /// What `check` reports of this ingredient.
    pub open spec fn spec_check(&self) -> Result<(), PlanError> {
        if self.kcal == 0 {
            Err(PlanError::ZeroKcalIngredient)
        } else if self.g == 0 {
            Err(PlanError::ZeroGramsIngredient)
        } else if self.g > MAX_AMOUNT || self.kcal > MAX_AMOUNT || self.carb > MAX_AMOUNT
            || self.fat > MAX_AMOUNT || self.protein > MAX_AMOUNT {
            Err(PlanError::ValueOutOfRange)
        } else {
            Ok(())
        }
    }

    /// An ingredient that can be normalized and used to resolve constraints.
    pub open spec fn wf(&self) -> bool {
        self.spec_check() is Ok
    }

    pub open spec fn spec_normalize(&self) -> NormalizedIngredient {
        NormalizedIngredient {
            carb: density_of(self.carb, self.kcal) as u64,
            fat: density_of(self.fat, self.kcal) as u64,
            protein: density_of(self.protein, self.kcal) as u64,
        }
    }

    /// Rejects an ingredient whose kcal or grams are zero, or whose amounts are
    /// out of range.
    pub fn check(&self) -> (r: Result<(), PlanError>)
        ensures
            r == self.spec_check(),
    {
        if self.kcal == 0 {
            Err(PlanError::ZeroKcalIngredient)
        } else if self.g == 0 {
            Err(PlanError::ZeroGramsIngredient)
        } else if self.g > MAX_AMOUNT || self.kcal > MAX_AMOUNT || self.carb > MAX_AMOUNT
            || self.fat > MAX_AMOUNT || self.protein > MAX_AMOUNT {
            Err(PlanError::ValueOutOfRange)
        } else {
            Ok(())
        }
    }

    /// Per-kcal densities of carbohydrate, fat and protein.
    pub fn normalize(&self) -> (r: NormalizedIngredient)
        requires
            self.wf(),
        ensures
            r == self.spec_normalize(),
            r.wf(),
    {
        let carb = scaled_density(self.carb, self.kcal);
        let fat = scaled_density(self.fat, self.kcal);
        let protein = scaled_density(self.protein, self.kcal);
        NormalizedIngredient { carb, fat, protein }
    }
}

fn scaled_density(grams: u64, kcal: u64) -> (r: u64)
    requires
        0 < kcal,
        grams <= MAX_AMOUNT,
    ensures
        r == density_of(grams, kcal),
        r <= MAX_DENSITY,
{
    let num: u128 = grams as u128 * DENSITY_SCALE as u128;
    let q: u128 = num / kcal as u128;
    assert(q <= num) by (nonlinear_arith)
        requires
            q == num / kcal as u128,
            kcal >= 1,
            num >= 0,
    ;
    q as u64
}

/// The densities of a normalized ingredient lie within one fixed-point unit
/// below the exact ratio of nutrient grams to kcal.
pub proof fn lemma_normalize_within_tolerance(ing: Ingredient)
    requires
        ing.wf(),
    ensures
        ({
            let n = ing.spec_normalize();
            &&& n.carb * ing.kcal <= ing.carb * DENSITY_SCALE < (n.carb + 1) * ing.kcal
            &&& n.fat * ing.kcal <= ing.fat * DENSITY_SCALE < (n.fat + 1) * ing.kcal
            &&& n.protein * ing.kcal <= ing.protein * DENSITY_SCALE < (n.protein + 1) * ing.kcal
        }),
{
    lemma_floor_bounds(ing.carb as int * DENSITY_SCALE as int, ing.kcal as int);
    lemma_floor_bounds(ing.fat as int * DENSITY_SCALE as int, ing.kcal as int);
    lemma_floor_bounds(ing.protein as int * DENSITY_SCALE as int, ing.kcal as int);
}

proof fn lemma_floor_bounds(a: int, b: int)
    requires
        a >= 0,
        b > 0,
    ensures
        (a / b) * b <= a < (a / b + 1) * b,
        0 <= a / b <= a,
{
    assert((a / b) * b <= a < (a / b + 1) * b) by (nonlinear_arith)
        requires
            b > 0,
    ;
    assert(0 <= a / b <= a) by (nonlinear_arith)
        requires
            a >= 0,
            b > 0,
    ;
}


/// The raw ingredients of a catalog, in catalog order.
pub struct RawIngredients(pub Vec<Ingredient>);

/// Position of the first ingredient among the first `n` whose name is `name`.
pub open spec fn first_index(s: Seq<Ingredient>, name: Seq<char>, n: int) -> Option<int>
    decreases n,
{
    if n <= 0 {
        None
    } else {
        match first_index(s, name, n - 1) {
            Some(i) => Some(i),
            None => if s[n - 1].name@ == name {
                Some(n - 1)
            } else {
                None
            },
        }
    }
}

/// Position of the first ingredient of the catalog whose name is `name`.
pub open spec fn position_of(s: Seq<Ingredient>, name: Seq<char>) -> Option<int> {
    first_index(s, name, s.len() as int)
}

pub proof fn lemma_first_index(s: Seq<Ingredient>, name: Seq<char>, n: int)
    requires
        0 <= n <= s.len(),
    ensures
        first_index(s, name, n) matches Some(i) ==> 0 <= i < n && s[i].name@ == name,
        first_index(s, name, n) is None ==> forall|j: int| 0 <= j < n ==> (#[trigger] s[j]).name@ != name,
    decreases n,
{
    if n > 0 {
        lemma_first_index(s, name, n - 1);
    }
}

/// Lexicographic order on names from position `i` on, by code point; a proper
/// prefix comes first.
pub open spec fn name_lt_from(a: Seq<char>, b: Seq<char>, i: int) -> bool
    decreases a.len() - i,
{
    if i < 0 || i >= a.len() {
        0 <= i < b.len()
    } else if i >= b.len() {
        false
    } else if a[i] != b[i] {
        (a[i] as int) < (b[i] as int)
    } else {
        name_lt_from(a, b, i + 1)
    }
}

/// Strict lexicographic order on names.
pub open spec fn name_lt(a: Seq<char>, b: Seq<char>) -> bool {
    name_lt_from(a, b, 0)
}

pub proof fn lemma_name_lt_trans(a: Seq<char>, b: Seq<char>, c: Seq<char>, i: int)
    requires
        0 <= i,
        name_lt_from(a, b, i),
        name_lt_from(b, c, i),
    ensures
        name_lt_from(a, c, i),
    decreases a.len() - i,
{
    if i < a.len() && i < b.len() && i < c.len() && a[i] == b[i] && b[i] == c[i] {
        lemma_name_lt_trans(a, b, c, i + 1);
    }
}

pub proof fn lemma_name_lt_irreflexive(a: Seq<char>, i: int)
    requires
        0 <= i,
    ensures
        !name_lt_from(a, a, i),
    decreases a.len() - i,
{
    if i < a.len() {
        lemma_name_lt_irreflexive(a, i + 1);
    }
}

/// Of two names agreeing before `i`, one comes first, or they are equal.
pub proof fn lemma_name_lt_total(a: Seq<char>, b: Seq<char>, i: int)
    requires
        0 <= i <= a.len(),
        i <= b.len(),
        a.subrange(0, i) == b.subrange(0, i),
    ensures
        name_lt_from(a, b, i) || name_lt_from(b, a, i) || a == b,
    decreases a.len() - i,
{
    if i < a.len() && i < b.len() && a[i] == b[i] {
        assert(a.subrange(0, i + 1) =~= a.subrange(0, i).push(a[i]));
        assert(b.subrange(0, i + 1) =~= b.subrange(0, i).push(b[i]));
        lemma_name_lt_total(a, b, i + 1);
    } else if i < a.len() && i < b.len() {
        assert((a[i] as int) != (b[i] as int));
    } else if i == a.len() && i == b.len() {
        assert(a =~= a.subrange(0, i));
        assert(b =~= b.subrange(0, i));
    }
}

/// Of two names, one comes first, or they are equal.
pub proof fn lemma_name_order_total(a: Seq<char>, b: Seq<char>)
    ensures
        name_lt(a, b) || name_lt(b, a) || a == b,
{
    assert(a.subrange(0, 0) =~= b.subrange(0, 0));
    lemma_name_lt_total(a, b, 0);
}

/// Whether `a` comes strictly before `b` in name order.
pub fn name_less(a: &String, b: &String) -> (r: bool)
    ensures
        r == name_lt(a@, b@),
{
    let sa = a.as_str();
    let sb = b.as_str();
    let la = sa.unicode_len();
    let lb = sb.unicode_len();
    let mut i: usize = 0;
    while i < la && i < lb
        invariant
            sa@ == a@,
            sb@ == b@,
            la == a@.len(),
            lb == b@.len(),
            i <= la,
            i <= lb,
            name_lt(a@, b@) == name_lt_from(a@, b@, i as int),
        decreases la - i,
    {
        let ca = sa.get_char(i);
        let cb = sb.get_char(i);
        if ca != cb {
            return (ca as u32) < (cb as u32);
        }
        i = i + 1;
    }
    i < lb
}

impl RawIngredients {
    pub open spec fn wf(&self) -> bool {
        &&& forall|i: int| 0 <= i < self.0@.len() ==> (#[trigger] self.0@[i]).wf()
        &&& forall|i: int, j: int|
            0 <= i < j < self.0@.len() ==> name_lt(#[trigger] self.0@[i].name@, #[trigger] self.0@[j].name@)
    }

    /// An empty catalog.
    pub fn new() -> (r: RawIngredients)
        ensures
            r.0@.len() == 0,
            r.wf(),
    {
        RawIngredients(Vec::new())
    }

    /// Adds an ingredient at its place in name order. Rejects an ingredient
    /// that `Ingredient::check` rejects, or whose name the catalog already holds.
    pub fn insert(&mut self, ingredient: Ingredient) -> (r: Result<(), PlanError>)
        requires
            old(self).wf(),
        ensures
            final(self).wf(),
            ingredient.spec_check() is Err ==> r == ingredient.spec_check() && final(self).0@ == old(self).0@,
            ingredient.spec_check() is Ok && position_of(old(self).0@, ingredient.name@) is Some
                ==> r == Err::<(), PlanError>(PlanError::DuplicateIngredient) && final(self).0@ == old(self).0@,
            ingredient.spec_check() is Ok && position_of(old(self).0@, ingredient.name@) is None ==> r is Ok,
            r is Ok ==> exists|p: int| 0 <= p <= old(self).0@.len() && final(self).0@ == old(self).0@.insert(p, ingredient),
    {
        match ingredient.check() {
            Err(e) => return Err(e),
            Ok(()) => {},
        }
        let n = self.0.len();
        let mut i: usize = 0;
        while i < n && name_less(&self.0[i].name, &ingredient.name)
            invariant
                n == self.0@.len(),
                i <= n,
                forall|j: int| 0 <= j < i ==> name_lt((#[trigger] self.0@[j]).name@, ingredient.name@),
            decreases n - i,
        {
            i = i + 1;
        }
        let ghost s = self.0@;
        let ghost x = ingredient.name@;
        proof {
            lemma_first_index(s, x, s.len() as int);
            assert forall|j: int| 0 <= j < i implies (#[trigger] s[j]).name@ != x by {
                lemma_name_lt_irreflexive(x, 0);
            }
            if i < n {
                assert(!name_lt(s[i as int].name@, x));
                assert forall|j: int| i < j < n implies (#[trigger] s[j]).name@ != x by {
                    if s[j].name@ == x && s[i as int].name@ != x {
                        lemma_name_order_total(s[i as int].name@, x);
                        lemma_name_lt_trans(x, s[i as int].name@, x, 0);
                        lemma_name_lt_irreflexive(x, 0);
                    }
                }
            }
        }
        if i < n && self.0[i].name == ingredient.name {
            proof {
                lemma_first_index_none_has_no_match(s, x, i as int);
            }
            return Err(PlanError::DuplicateIngredient);
        }
        proof {
            if i < n {
                lemma_name_order_total(s[i as int].name@, x);
            }
            assert(position_of(s, x) is None);
        }
        self.0.insert(i, ingredient);
        proof {
            let t = self.0@;
            assert(t == s.insert(i as int, ingredient));
            assert forall|a: int, b: int| 0 <= a < b < t.len() implies name_lt(#[trigger] t[a].name@, #[trigger] t[b].name@) by {
                if b < i {
                } else if a < i && b == i {
                } else if a < i && b > i {
                    assert(t[b] == s[b - 1]);
                    if b - 1 > i as int {
                        lemma_name_lt_trans(s[a].name@, s[i as int].name@, s[b - 1].name@, 0);
                    }
                    assert(name_lt(s[a].name@, s[b - 1].name@));
                } else if a == i {
                    assert(t[b] == s[b - 1]);
                    if b - 1 > i as int {
                        lemma_name_lt_trans(x, s[i as int].name@, s[b - 1].name@, 0);
                    }
                } else {
                    assert(t[a] == s[a - 1]);
                    assert(t[b] == s[b - 1]);
                }
            }
            assert forall|a: int| 0 <= a < t.len() implies (#[trigger] t[a]).wf() by {
                if a > i {
                    assert(t[a] == s[a - 1]);
                } else if a < i {
                    assert(t[a] == s[a]);
                }
            }
        }
        Ok(())
    }

    /// The normalized catalog, entry for entry.
    pub fn normalize(&self) -> (r: Ingredients)
        requires
            self.wf(),
        ensures
            r.wf(),
            r.0@.len() == self.0@.len(),
            forall|i: int| 0 <= i < self.0@.len() ==> (#[trigger] r.0@[i]).0@ == self.0@[i].name@
                && r.0@[i].1 == self.0@[i].spec_normalize(),
    {
        let mut v: Vec<(String, NormalizedIngredient)> = Vec::new();
        let mut i: usize = 0;
        while i < self.0.len()
            invariant
                self.wf(),
                i <= self.0@.len(),
                v@.len() == i,
                forall|j: int| 0 <= j < i ==> (#[trigger] v@[j]).0@ == self.0@[j].name@
                    && v@[j].1 == self.0@[j].spec_normalize() && v@[j].1.wf(),
            decreases self.0@.len() - i,
        {
            let ing = &self.0[i];
            assert(self.0@[i as int].wf());
            let name = ing.name.clone();
            let macros = ing.normalize();
            v.push((name, macros));
            i = i + 1;
        }
        Ingredients(v)
    }

    /// Position of the ingredient called `name`, if the catalog holds one.
    pub fn find(&self, name: &String) -> (r: Option<usize>)
        ensures
            r matches Some(i) ==> position_of(self.0@, name@) == Some(i as int) && i < self.0@.len()
                && self.0@[i as int].name@ == name@,
            r is None ==> position_of(self.0@, name@) is None,
    {
        let mut i: usize = 0;
        while i < self.0.len()
            invariant
                i <= self.0@.len(),
                first_index(self.0@, name@, i as int) is None,
            decreases self.0@.len() - i,
        {
            if self.0[i].name == *name {
                proof {
                    reveal_with_fuel(first_index, 2);
                }
                assert(first_index(self.0@, name@, i as int + 1) == Some(i as int));
                proof {
                    lemma_first_index_stable(self.0@, name@, i as int + 1, self.0@.len() as int);
                }
                return Some(i);
            }
            i = i + 1;
        }
        None
    }
}

/// A name is found nowhere when it matches no ingredient.
proof fn lemma_first_index_none_has_no_match(s: Seq<Ingredient>, name: Seq<char>, i: int)
    requires
        0 <= i < s.len(),
        s[i].name@ == name,
    ensures
        position_of(s, name) is Some,
{
    lemma_first_index(s, name, s.len() as int);
}

/// Once found among the first `m`, a name's position stays among the first `n >= m`.
pub proof fn lemma_first_index_stable(s: Seq<Ingredient>, name: Seq<char>, m: int, n: int)
    requires
        0 <= m <= n,
        first_index(s, name, m) is Some,
    ensures
        first_index(s, name, n) == first_index(s, name, m),
    decreases n - m,
{
    if n > m {
        lemma_first_index_stable(s, name, m, n - 1);
    }
}

} // verus!

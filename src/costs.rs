use vstd::prelude::*;

use crate::errors::Error;
use crate::text::{append, decimal, decimal_spec, str_eq};

verus! {

pub type CostValue = u64;

pub type CostCountNum = u32;

/// Number of constraint kinds.
pub const NUM_CONSTRAINTS: usize = 15;

/// The weight of a constraint: a finite value, or infinity.
#[derive(Debug, Clone, Copy, PartialEq, Eq, Structural)]
pub enum CostPossibility {
    Infinity,
    Value(CostValue),
}

/// The kinds of cost that a solution incurs.
#[derive(Debug, Clone, Copy, PartialEq, Eq, Structural)]
pub enum Constraint {
    AssignedPreferred,
    AssignedPossible,
    AssignedDislike,
    AssignedImpossible,
    UnassignedSession,
    BelowMinTut,
    BelowMinLab,
    BelowMinClass,
    AboveMaxTut,
    AboveMaxLab,
    AboveMaxClass,
    DirectOverlap,
    PaddedOverlap,
    SameDayOverlap,
    MismatchedInitialSolution,
}

impl Constraint {
    pub open spec fn index(self) -> nat {
        match self {
            Constraint::AssignedPreferred => 0,
            Constraint::AssignedPossible => 1,
            Constraint::AssignedDislike => 2,
            Constraint::AssignedImpossible => 3,
            Constraint::UnassignedSession => 4,
            Constraint::BelowMinTut => 5,
            Constraint::BelowMinLab => 6,
            Constraint::BelowMinClass => 7,
            Constraint::AboveMaxTut => 8,
            Constraint::AboveMaxLab => 9,
            Constraint::AboveMaxClass => 10,
            Constraint::DirectOverlap => 11,
            Constraint::PaddedOverlap => 12,
            Constraint::SameDayOverlap => 13,
            Constraint::MismatchedInitialSolution => 14,
        }
    }

    pub fn raw_index(self) -> (r: usize)
        ensures
            r == self.index(),
    {
        match self {
            Constraint::AssignedPreferred => 0,
            Constraint::AssignedPossible => 1,
            Constraint::AssignedDislike => 2,
            Constraint::AssignedImpossible => 3,
            Constraint::UnassignedSession => 4,
            Constraint::BelowMinTut => 5,
            Constraint::BelowMinLab => 6,
            Constraint::BelowMinClass => 7,
            Constraint::AboveMaxTut => 8,
            Constraint::AboveMaxLab => 9,
            Constraint::AboveMaxClass => 10,
            Constraint::DirectOverlap => 11,
            Constraint::PaddedOverlap => 12,
            Constraint::SameDayOverlap => 13,
            Constraint::MismatchedInitialSolution => 14,
        }
    }

    pub fn from_index(index: usize) -> (r: Constraint)
        requires
            index < NUM_CONSTRAINTS,
        ensures
            r.index() == index,
    {
        if index == 0 {
            Constraint::AssignedPreferred
        } else if index == 1 {
            Constraint::AssignedPossible
        } else if index == 2 {
            Constraint::AssignedDislike
        } else if index == 3 {
            Constraint::AssignedImpossible
        } else if index == 4 {
            Constraint::UnassignedSession
        } else if index == 5 {
            Constraint::BelowMinTut
        } else if index == 6 {
            Constraint::BelowMinLab
        } else if index == 7 {
            Constraint::BelowMinClass
        } else if index == 8 {
            Constraint::AboveMaxTut
        } else if index == 9 {
            Constraint::AboveMaxLab
        } else if index == 10 {
            Constraint::AboveMaxClass
        } else if index == 11 {
            Constraint::DirectOverlap
        } else if index == 12 {
            Constraint::PaddedOverlap
        } else if index == 13 {
            Constraint::SameDayOverlap
        } else {
            Constraint::MismatchedInitialSolution
        }
    }

    /// The constraint's name in snake case, as configuration files write it.
    pub open spec fn spec_name(self) -> Seq<char> {
        match self {
            Constraint::AssignedPreferred => seq!['a', 's', 's', 'i', 'g', 'n', 'e', 'd', '_', 'p', 'r', 'e', 'f', 'e', 'r', 'r', 'e', 'd'],
            Constraint::AssignedPossible => seq!['a', 's', 's', 'i', 'g', 'n', 'e', 'd', '_', 'p', 'o', 's', 's', 'i', 'b', 'l', 'e'],
            Constraint::AssignedDislike => seq!['a', 's', 's', 'i', 'g', 'n', 'e', 'd', '_', 'd', 'i', 's', 'l', 'i', 'k', 'e'],
            Constraint::AssignedImpossible => seq!['a', 's', 's', 'i', 'g', 'n', 'e', 'd', '_', 'i', 'm', 'p', 'o', 's', 's', 'i', 'b', 'l', 'e'],
            Constraint::UnassignedSession => seq!['u', 'n', 'a', 's', 's', 'i', 'g', 'n', 'e', 'd', '_', 's', 'e', 's', 's', 'i', 'o', 'n'],
            Constraint::BelowMinTut => seq!['b', 'e', 'l', 'o', 'w', '_', 'm', 'i', 'n', '_', 't', 'u', 't'],
            Constraint::BelowMinLab => seq!['b', 'e', 'l', 'o', 'w', '_', 'm', 'i', 'n', '_', 'l', 'a', 'b'],
            Constraint::BelowMinClass => seq!['b', 'e', 'l', 'o', 'w', '_', 'm', 'i', 'n', '_', 'c', 'l', 'a', 's', 's'],
            Constraint::AboveMaxTut => seq!['a', 'b', 'o', 'v', 'e', '_', 'm', 'a', 'x', '_', 't', 'u', 't'],
            Constraint::AboveMaxLab => seq!['a', 'b', 'o', 'v', 'e', '_', 'm', 'a', 'x', '_', 'l', 'a', 'b'],
            Constraint::AboveMaxClass => seq!['a', 'b', 'o', 'v', 'e', '_', 'm', 'a', 'x', '_', 'c', 'l', 'a', 's', 's'],
            Constraint::DirectOverlap => seq!['d', 'i', 'r', 'e', 'c', 't', '_', 'o', 'v', 'e', 'r', 'l', 'a', 'p'],
            Constraint::PaddedOverlap => seq!['p', 'a', 'd', 'd', 'e', 'd', '_', 'o', 'v', 'e', 'r', 'l', 'a', 'p'],
            Constraint::SameDayOverlap => seq!['s', 'a', 'm', 'e', '_', 'd', 'a', 'y', '_', 'o', 'v', 'e', 'r', 'l', 'a', 'p'],
            Constraint::MismatchedInitialSolution => seq!['m', 'i', 's', 'm', 'a', 't', 'c', 'h', 'e', 'd', '_', 'i', 'n', 'i', 't', 'i', 'a', 'l', '_', 's', 'o', 'l', 'u', 't', 'i', 'o', 'n'],
        }
    }

    pub fn name(self) -> (r: &'static str)
        ensures
            r@ == self.spec_name(),
    {
        match self {
            Constraint::AssignedPreferred => {
                proof { reveal_strlit("assigned_preferred"); }
                "assigned_preferred"
            },
            Constraint::AssignedPossible => {
                proof { reveal_strlit("assigned_possible"); }
                "assigned_possible"
            },
            Constraint::AssignedDislike => {
                proof { reveal_strlit("assigned_dislike"); }
                "assigned_dislike"
            },
            Constraint::AssignedImpossible => {
                proof { reveal_strlit("assigned_impossible"); }
                "assigned_impossible"
            },
            Constraint::UnassignedSession => {
                proof { reveal_strlit("unassigned_session"); }
                "unassigned_session"
            },
            Constraint::BelowMinTut => {
                proof { reveal_strlit("below_min_tut"); }
                "below_min_tut"
            },
            Constraint::BelowMinLab => {
                proof { reveal_strlit("below_min_lab"); }
                "below_min_lab"
            },
            Constraint::BelowMinClass => {
                proof { reveal_strlit("below_min_class"); }
                "below_min_class"
            },
            Constraint::AboveMaxTut => {
                proof { reveal_strlit("above_max_tut"); }
                "above_max_tut"
            },
            Constraint::AboveMaxLab => {
                proof { reveal_strlit("above_max_lab"); }
                "above_max_lab"
            },
            Constraint::AboveMaxClass => {
                proof { reveal_strlit("above_max_class"); }
                "above_max_class"
            },
            Constraint::DirectOverlap => {
                proof { reveal_strlit("direct_overlap"); }
                "direct_overlap"
            },
            Constraint::PaddedOverlap => {
                proof { reveal_strlit("padded_overlap"); }
                "padded_overlap"
            },
            Constraint::SameDayOverlap => {
                proof { reveal_strlit("same_day_overlap"); }
                "same_day_overlap"
            },
            Constraint::MismatchedInitialSolution => {
                proof { reveal_strlit("mismatched_initial_solution"); }
                "mismatched_initial_solution"
            },
        }
    }

    /// The weight a constraint has when the configuration does not give one.
    pub open spec fn spec_default_value(self) -> Option<CostPossibility> {
        match self {
            Constraint::AssignedPreferred => Some(CostPossibility::Value(0)),
            Constraint::AssignedImpossible => Some(CostPossibility::Infinity),
            Constraint::MismatchedInitialSolution => Some(CostPossibility::Value(0)),
            _ => None,
        }
    }

    pub fn default_value(self) -> (r: Option<CostPossibility>)
        ensures
            r == self.spec_default_value(),
    {
        match self {
            Constraint::AssignedPreferred => Some(CostPossibility::Value(0)),
            Constraint::AssignedImpossible => Some(CostPossibility::Infinity),
            Constraint::MismatchedInitialSolution => Some(CostPossibility::Value(0)),
            _ => None,
        }
    }
}

pub proof fn lemma_constraint_index_injective(a: Constraint, b: Constraint)
    ensures
        a.index() < NUM_CONSTRAINTS,
        a.index() == b.index() ==> a == b,
{
}

proof fn lemma_constraint_name_injective(a: Constraint, b: Constraint)
    ensures
        a.spec_name() == b.spec_name() ==> a == b,
{
    if a.spec_name() == b.spec_name() {
        let (x, y) = (a.spec_name(), b.spec_name());
        assert(x.len() == y.len());
        assert(x[0] == y[0]);
        assert(x[x.len() - 1] == y[y.len() - 1]);
    }
}

/// The constraint whose name is `name`, if any.
pub open spec fn constraint_named(name: Seq<char>) -> Option<Constraint> {
    if exists|k: Constraint| k.spec_name() == name {
        Some(choose|k: Constraint| k.spec_name() == name)
    } else {
        None
    }
}

pub fn constraint_from_name(name: &str) -> (r: Option<Constraint>)
    ensures
        r matches Some(k) ==> k.spec_name() == name@,
        r is None ==> forall|k: Constraint| k.spec_name() != name@,
{
    let mut i: usize = 0;
    while i < NUM_CONSTRAINTS
        invariant
            i <= NUM_CONSTRAINTS,
            forall|k: Constraint| k.index() < i ==> k.spec_name() != name@,
        decreases NUM_CONSTRAINTS - i,
    {
        let k = Constraint::from_index(i);
        if str_eq(k.name(), name) {
            return Some(k);
        }
        proof {
            assert forall|k2: Constraint| k2.index() < i + 1 implies k2.spec_name() != name@ by {
                lemma_constraint_index_injective(k2, k);
            }
        }
        i = i + 1;
    }
    None
}

/// Saturates a count at the largest value a count can hold.
pub open spec fn sat(n: int) -> nat {
    if n > u32::MAX {
        u32::MAX as nat
    } else if n < 0 {
        0
    } else {
        n as nat
    }
}

/// The weight that a word in the configuration stands for: `inf`, `infinity` or `Infinity`
/// stand for infinity.
pub fn cost_word(word: &str) -> (r: Option<CostPossibility>)
    ensures
        r is Some <==> (word@ == "inf"@ || word@ == "infinity"@ || word@ == "Infinity"@),
        r matches Some(w) ==> w is Infinity,
{
    if str_eq(word, "inf") || str_eq(word, "infinity") || str_eq(word, "Infinity") {
        Some(CostPossibility::Infinity)
    } else {
        None
    }
}

/// How often each kind of constraint is violated.
pub struct CostCount {
    counts: Vec<CostCountNum>,
}

impl CostCount {
    pub closed spec fn wf(&self) -> bool {
        self.counts@.len() == NUM_CONSTRAINTS
    }

    /// The count for one kind.
    pub closed spec fn count(&self, k: Constraint) -> nat {
        self.counts@[k.index() as int] as nat
    }

    /// A count always fits in a `u32`.
    pub proof fn lemma_count_bound(&self, k: Constraint)
        requires
            self.wf(),
        ensures
            self.count(k) <= u32::MAX,
    {
    }

    pub fn new() -> (r: CostCount)
        ensures
            r.wf(),
            forall|k: Constraint| #[trigger] r.count(k) == 0,
    {
        let mut counts: Vec<CostCountNum> = Vec::new();
        while counts.len() < NUM_CONSTRAINTS
            invariant
                counts.len() <= NUM_CONSTRAINTS,
                forall|i: int| 0 <= i < counts.len() ==> counts@[i] == 0,
            decreases NUM_CONSTRAINTS - counts.len(),
        {
            counts.push(0);
        }
        CostCount { counts }
    }

    pub fn get(&self, category: Constraint) -> (r: CostCountNum)
        requires
            self.wf(),
        ensures
            r == self.count(category),
    {
        proof { lemma_constraint_index_injective(category, category); }
        self.counts[category.raw_index()]
    }

    /// Adds to the count of one kind, holding it at the largest count.
    pub fn add_cost(&mut self, category: Constraint, count: CostCountNum)
        requires
            old(self).wf(),
        ensures
            final(self).wf(),
            final(self).count(category) == sat(old(self).count(category) + count),
            forall|k: Constraint| k != category ==> #[trigger] final(self).count(k) == old(self).count(k),
    {
        proof { lemma_constraint_index_injective(category, category); }
        let i = category.raw_index();
        let updated = self.counts[i].saturating_add(count);
        self.counts.set(i, updated);
        proof {
            assert forall|k: Constraint| k != category implies #[trigger] self.count(k) == old(self).count(k) by {
                lemma_constraint_index_injective(k, category);
            }
        }
    }

    pub fn add_cost_1(&mut self, category: Constraint)
        requires
            old(self).wf(),
        ensures
            final(self).wf(),
            final(self).count(category) == sat(old(self).count(category) + 1int),
            forall|k: Constraint| k != category ==> #[trigger] final(self).count(k) == old(self).count(k),
    {
        self.add_cost(category, 1);
    }

    /// The breakdown of the first `n` kinds, one line each.
    pub open spec fn describe_spec(&self, n: nat, indentation: nat) -> Seq<char>
        decreases n,
    {
        if n == 0 {
            Seq::empty()
        } else {
            let k = kind_at((n - 1) as nat);
            self.describe_spec((n - 1) as nat, indentation) + Seq::new(indentation, |i: int| ' ') + k.spec_name() + ": "@
                + decimal_spec(self.count(k)) + "\n"@
        }
    }

    /// One line per kind, `name: count`, each indented by the given number of spaces.
    pub fn describe(&self, indentation: usize) -> (r: String)
        requires
            self.wf(),
        ensures
            r@ == self.describe_spec(NUM_CONSTRAINTS as nat, indentation as nat),
    {
        let mut out = String::new();
        let mut i: usize = 0;
        while i < NUM_CONSTRAINTS
            invariant
                self.wf(),
                i <= NUM_CONSTRAINTS,
                out@ == self.describe_spec(i as nat, indentation as nat),
            decreases NUM_CONSTRAINTS - i,
        {
            let k = Constraint::from_index(i);
            proof {
                lemma_kind_at(i as nat);
                lemma_constraint_index_injective(kind_at(i as nat), k);
            }
            let ghost before = out@;
            let mut s: usize = 0;
            while s < indentation
                invariant
                    s <= indentation,
                    out@ == before + Seq::new(s as nat, |j: int| ' '),
                decreases indentation - s,
            {
                append(&mut out, " ");
                proof { reveal_strlit(" "); }
                assert(out@ =~= before + Seq::new((s + 1) as nat, |j: int| ' '));
                s = s + 1;
            }
            append(&mut out, k.name());
            append(&mut out, ": ");
            append(&mut out, decimal(self.get(k) as u64).as_str());
            append(&mut out, "\n");
            assert(out@ =~= self.describe_spec((i + 1) as nat, indentation as nat));
            i = i + 1;
        }
        out
    }

    /// The total cost under a configuration; nothing stands for infinity.
    pub fn total_cost(&self, config: &CostConfig) -> (r: Option<CostValue>)
        requires
            self.wf(),
            config.wf(),
        ensures
            r == total_of(|k: Constraint| self.count(k), |k: Constraint| config.weight(k)),
    {
        let ghost counts = |k: Constraint| self.count(k);
        let ghost weights = |k: Constraint| config.weight(k);
        let mut sum: u64 = 0;
        let mut infinite = false;
        let mut overflow = false;
        let mut i: usize = 0;
        while i < NUM_CONSTRAINTS
            invariant
                self.wf(),
                config.wf(),
                i <= NUM_CONSTRAINTS,
                counts == (|k: Constraint| self.count(k)),
                weights == (|k: Constraint| config.weight(k)),
                infinite == infinity_hit(counts, weights, i as nat),
                !overflow ==> sum == finite_sum(counts, weights, i as nat),
                overflow ==> finite_sum(counts, weights, i as nat) > u64::MAX,
            decreases NUM_CONSTRAINTS - i,
        {
            let k = Constraint::from_index(i);
            let count = self.get(k);
            proof {
                lemma_kind_at(i as nat);
                assert(kind_at(i as nat) == k) by {
                    lemma_constraint_index_injective(kind_at(i as nat), k);
                }
                lemma_finite_sum_monotone(counts, weights, i as nat);
            }
            match config.get(k) {
                CostPossibility::Value(weight) => {
                    if !overflow {
                        match (count as u64).checked_mul(weight) {
                            Some(product) => match sum.checked_add(product) {
                                Some(total) => { sum = total; },
                                None => { overflow = true; },
                            },
                            None => {
                                assert(count as nat * weight as nat >= 0) by (nonlinear_arith);
                                overflow = true;
                            },
                        }
                    }
                },
                CostPossibility::Infinity => {
                    assert(finite_weight(CostPossibility::Infinity) == 0);
                    assert(count as nat * 0 == 0) by (nonlinear_arith);
                    if count > 0 {
                        infinite = true;
                    }
                },
            }
            i = i + 1;
        }
        if infinite || overflow {
            None
        } else {
            Some(sum)
        }
    }
}

/// The kind at a position.
pub open spec fn kind_at(i: nat) -> Constraint {
    choose|k: Constraint| k.index() == i
}

/// The weight of a kind as a number; an infinite weight counts as nothing here.
pub open spec fn finite_weight(w: CostPossibility) -> nat {
    match w {
        CostPossibility::Value(v) => v as nat,
        CostPossibility::Infinity => 0,
    }
}

/// Sum of count times weight over the first `n` kinds with a finite weight.
pub open spec fn finite_sum(counts: spec_fn(Constraint) -> nat, weights: spec_fn(Constraint) -> CostPossibility, n: nat) -> nat
    decreases n,
{
    if n == 0 {
        0
    } else {
        finite_sum(counts, weights, (n - 1) as nat) + counts(kind_at((n - 1) as nat)) * finite_weight(weights(kind_at((n - 1) as nat)))
    }
}

/// Whether one of the first `n` kinds has an infinite weight and a positive count.
pub open spec fn infinity_hit(counts: spec_fn(Constraint) -> nat, weights: spec_fn(Constraint) -> CostPossibility, n: nat) -> bool
    decreases n,
{
    if n == 0 {
        false
    } else {
        infinity_hit(counts, weights, (n - 1) as nat) || (weights(kind_at((n - 1) as nat)) is Infinity
            && counts(kind_at((n - 1) as nat)) > 0)
    }
}

/// The total cost: infinite (nothing) if a kind with infinite weight has a positive count,
/// else the sum of count times weight over all kinds, and nothing if that sum does not fit.
pub open spec fn total_of(counts: spec_fn(Constraint) -> nat, weights: spec_fn(Constraint) -> CostPossibility) -> Option<CostValue> {
    if infinity_hit(counts, weights, NUM_CONSTRAINTS as nat) {
        None
    } else if finite_sum(counts, weights, NUM_CONSTRAINTS as nat) > u64::MAX {
        None
    } else {
        Some(finite_sum(counts, weights, NUM_CONSTRAINTS as nat) as u64)
    }
}

proof fn lemma_finite_sum_monotone(counts: spec_fn(Constraint) -> nat, weights: spec_fn(Constraint) -> CostPossibility, n: nat)
    ensures
        finite_sum(counts, weights, n) <= finite_sum(counts, weights, n + 1),
{
    assert(counts(kind_at(n)) * finite_weight(weights(kind_at(n))) >= 0) by (nonlinear_arith);
}


proof fn lemma_kind_at(i: nat)
    requires
        i < NUM_CONSTRAINTS,
    ensures
        kind_at(i).index() == i,
{
    if i == 0 {
        assert(Constraint::AssignedPreferred.index() == i);
    } else if i == 1 {
        assert(Constraint::AssignedPossible.index() == i);
    } else if i == 2 {
        assert(Constraint::AssignedDislike.index() == i);
    } else if i == 3 {
        assert(Constraint::AssignedImpossible.index() == i);
    } else if i == 4 {
        assert(Constraint::UnassignedSession.index() == i);
    } else if i == 5 {
        assert(Constraint::BelowMinTut.index() == i);
    } else if i == 6 {
        assert(Constraint::BelowMinLab.index() == i);
    } else if i == 7 {
        assert(Constraint::BelowMinClass.index() == i);
    } else if i == 8 {
        assert(Constraint::AboveMaxTut.index() == i);
    } else if i == 9 {
        assert(Constraint::AboveMaxLab.index() == i);
    } else if i == 10 {
        assert(Constraint::AboveMaxClass.index() == i);
    } else if i == 11 {
        assert(Constraint::DirectOverlap.index() == i);
    } else if i == 12 {
        assert(Constraint::PaddedOverlap.index() == i);
    } else if i == 13 {
        assert(Constraint::SameDayOverlap.index() == i);
    } else if i == 14 {
        assert(Constraint::MismatchedInitialSolution.index() == i);
    }
}

proof fn lemma_infinity_hit_exists(counts: spec_fn(Constraint) -> nat, weights: spec_fn(Constraint) -> CostPossibility, n: nat)
    requires
        n <= NUM_CONSTRAINTS,
    ensures
        infinity_hit(counts, weights, n) <==> exists|k: Constraint| #[trigger] k.index() < n && weights(k) is Infinity && counts(k) > 0,
    decreases n,
{
    if n > 0 {
        lemma_infinity_hit_exists(counts, weights, (n - 1) as nat);
        lemma_kind_at((n - 1) as nat);
        let last = kind_at((n - 1) as nat);
        if exists|k: Constraint| #[trigger] k.index() < n && weights(k) is Infinity && counts(k) > 0 {
            let k = choose|k: Constraint| #[trigger] k.index() < n && weights(k) is Infinity && counts(k) > 0;
            if k.index() == n - 1 {
                lemma_constraint_index_injective(k, last);
            }
        }
    }
}

proof fn lemma_finite_sum_weights_monotone(
    counts: spec_fn(Constraint) -> nat,
    lower: spec_fn(Constraint) -> CostPossibility,
    higher: spec_fn(Constraint) -> CostPossibility,
    n: nat,
)
    requires
        forall|k: Constraint| finite_weight(#[trigger] lower(k)) <= finite_weight(higher(k)),
    ensures
        finite_sum(counts, lower, n) <= finite_sum(counts, higher, n),
    decreases n,
{
    if n > 0 {
        lemma_finite_sum_weights_monotone(counts, lower, higher, (n - 1) as nat);
        let k = kind_at((n - 1) as nat);
        let c = counts(k);
        let (a, b) = (finite_weight(lower(k)), finite_weight(higher(k)));
        assert(c * a <= c * b) by (nonlinear_arith)
            requires
                a <= b,
        ;
    }
}

proof fn lemma_infinity_hit_same(
    counts: spec_fn(Constraint) -> nat,
    lower: spec_fn(Constraint) -> CostPossibility,
    higher: spec_fn(Constraint) -> CostPossibility,
    n: nat,
)
    requires
        forall|k: Constraint| (#[trigger] lower(k) is Infinity) == (higher(k) is Infinity),
    ensures
        infinity_hit(counts, lower, n) == infinity_hit(counts, higher, n),
    decreases n,
{
    if n > 0 {
        lemma_infinity_hit_same(counts, lower, higher, (n - 1) as nat);
    }
}

/// Raising finite weights never lowers the total cost: with the same infinite weights and
/// every finite weight at least as large, an infinite total stays infinite and a finite one
/// does not decrease.
pub proof fn lemma_total_cost_monotone_in_weights(
    counts: spec_fn(Constraint) -> nat,
    lower: spec_fn(Constraint) -> CostPossibility,
    higher: spec_fn(Constraint) -> CostPossibility,
)
    requires
        forall|k: Constraint| (#[trigger] lower(k) is Infinity) == (higher(k) is Infinity),
        forall|k: Constraint| finite_weight(#[trigger] lower(k)) <= finite_weight(higher(k)),
    ensures
        total_of(counts, lower) is None ==> total_of(counts, higher) is None,
        total_of(counts, lower) matches Some(a) ==> (total_of(counts, higher) matches Some(b) ==> a <= b),
{
    lemma_infinity_hit_same(counts, lower, higher, NUM_CONSTRAINTS as nat);
    lemma_finite_sum_weights_monotone(counts, lower, higher, NUM_CONSTRAINTS as nat);
}

/// A kind with infinite weight and a positive count makes the total infinite; when no such
/// kind exists, the total is the sum of count times weight over the finite weights, as long
/// as it fits.
pub proof fn lemma_infinite_weight_semantics(
    counts: spec_fn(Constraint) -> nat,
    weights: spec_fn(Constraint) -> CostPossibility,
)
    ensures
        (exists|k: Constraint| #[trigger] weights(k) is Infinity && counts(k) > 0) ==> total_of(counts, weights) is None,
        (forall|k: Constraint| #[trigger] weights(k) is Infinity ==> counts(k) == 0)
            && finite_sum(counts, weights, NUM_CONSTRAINTS as nat) <= u64::MAX
            ==> total_of(counts, weights) == Some(finite_sum(counts, weights, NUM_CONSTRAINTS as nat) as u64),
{
    lemma_infinity_hit_exists(counts, weights, NUM_CONSTRAINTS as nat);
    if exists|k: Constraint| #[trigger] weights(k) is Infinity && counts(k) > 0 {
        let k = choose|k: Constraint| #[trigger] weights(k) is Infinity && counts(k) > 0;
        lemma_constraint_index_injective(k, k);
    }
}

/// The value that the first entry naming the kind gives, if any.
pub open spec fn entry_for(entries: Seq<(String, CostPossibility)>, k: Constraint) -> Option<CostPossibility>
    decreases entries.len(),
{
    if entries.len() == 0 {
        None
    } else if entry_for(entries.drop_last(), k) is Some {
        entry_for(entries.drop_last(), k)
    } else if entries.last().0@ == k.spec_name() {
        Some(entries.last().1)
    } else {
        None
    }
}

/// Every entry names a known kind, and no kind is named twice.
pub open spec fn entries_valid(entries: Seq<(String, CostPossibility)>) -> bool {
    &&& forall|i: int| 0 <= i < entries.len() ==> exists|k: Constraint| k.spec_name() == (#[trigger] entries[i]).0@
    &&& forall|i: int, j: int| 0 <= i < j < entries.len() ==> (#[trigger] entries[i]).0@ != (#[trigger] entries[j]).0@
}

/// The weight a configuration built from the entries gives a kind.
pub open spec fn configured_weight(entries: Seq<(String, CostPossibility)>, k: Constraint) -> Option<CostPossibility> {
    match entry_for(entries, k) {
        Some(w) => Some(w),
        None => k.spec_default_value(),
    }
}

proof fn lemma_entry_for_found(entries: Seq<(String, CostPossibility)>, k: Constraint)
    requires
        entry_for(entries, k) is Some,
    ensures
        exists|i: int| 0 <= i < entries.len() && entries[i].0@ == k.spec_name(),
    decreases entries.len(),
{
    if entry_for(entries.drop_last(), k) is Some {
        lemma_entry_for_found(entries.drop_last(), k);
        let i = choose|i: int| 0 <= i < entries.drop_last().len() && entries.drop_last()[i].0@ == k.spec_name();
        assert(entries[i] == entries.drop_last()[i]);
    } else {
        assert(entries[entries.len() - 1].0@ == k.spec_name());
    }
}

proof fn lemma_entry_for_none(entries: Seq<(String, CostPossibility)>, k: Constraint, i: int)
    requires
        entry_for(entries, k) is None,
        0 <= i < entries.len(),
    ensures
        entries[i].0@ != k.spec_name(),
    decreases entries.len(),
{
    if i < entries.len() - 1 {
        assert(entries.drop_last()[i] == entries[i]);
        lemma_entry_for_none(entries.drop_last(), k, i);
    }
}

/// The weights of each kind of constraint.
pub struct CostConfig {
    map: Vec<CostPossibility>,
}

impl CostConfig {
    pub closed spec fn wf(&self) -> bool {
        self.map@.len() == NUM_CONSTRAINTS
    }

    pub closed spec fn weight(&self, k: Constraint) -> CostPossibility {
        self.map@[k.index() as int]
    }

    pub fn get(&self, k: Constraint) -> (r: CostPossibility)
        requires
            self.wf(),
        ensures
            r == self.weight(k),
    {
        proof { lemma_constraint_index_injective(k, k); }
        self.map[k.raw_index()]
    }

    /// Builds a configuration from (name, weight) entries. Fails on an unknown name, on a
    /// name given twice, or when a kind without a default weight is not given.
    pub fn from_entries(entries: &Vec<(String, CostPossibility)>) -> (r: Result<CostConfig, Error>)
        ensures
            r is Ok <==> entries_valid(entries@) && forall|k: Constraint| #[trigger] configured_weight(entries@, k) is Some,
            r matches Ok(c) ==> c.wf() && forall|k: Constraint| Some(#[trigger] c.weight(k)) == configured_weight(entries@, k),
    {
        let mut slots: Vec<Option<CostPossibility>> = Vec::new();
        while slots.len() < NUM_CONSTRAINTS
            invariant
                slots.len() <= NUM_CONSTRAINTS,
                forall|i: int| 0 <= i < slots.len() ==> slots@[i] is None,
            decreases NUM_CONSTRAINTS - slots.len(),
        {
            slots.push(None);
        }
        let mut e: usize = 0;
        while e < entries.len()
            invariant
                e <= entries.len(),
                slots.len() == NUM_CONSTRAINTS,
                entries_valid(entries@.take(e as int)),
                forall|k: Constraint| #[trigger] slots@[k.index() as int] == entry_for(entries@.take(e as int), k),
            decreases entries.len() - e,
        {
            let ghost prefix = entries@.take(e as int);
            let ghost next = entries@.take(e + 1);
            assert(next.drop_last() =~= prefix);
            let k = match constraint_from_name(entries[e].0.as_str()) {
                Some(k) => k,
                None => {
                    proof {
                        assert(next[e as int] == entries@[e as int]);
                        assert(!entries_valid(entries@));
                    }
                    return Err(Error::UnknownCost { name: entries[e].0.clone() });
                },
            };
            proof { lemma_constraint_index_injective(k, k); }
            if slots[k.raw_index()].is_some() {
                proof {
                    lemma_entry_for_found(prefix, k);
                    let i = choose|i: int| 0 <= i < prefix.len() && prefix[i].0@ == k.spec_name();
                    assert(entries@[i].0@ == entries@[e as int].0@);
                    assert(!entries_valid(entries@));
                }
                return Err(Error::DuplicateCost { name: entries[e].0.clone() });
            }
            slots.set(k.raw_index(), Some(entries[e].1));
            proof {
                assert forall|k2: Constraint| #[trigger] slots@[k2.index() as int] == entry_for(next, k2) by {
                    lemma_constraint_index_injective(k2, k);
                    lemma_constraint_name_injective(k2, k);
                    assert(next.last() == entries@[e as int]);
                }
                assert forall|i: int, j: int| 0 <= i < j < next.len() implies (#[trigger] next[i]).0@ != (#[trigger] next[j]).0@ by {
                    if j == e {
                        assert(next[i] == prefix[i]);
                        if next[i].0@ == k.spec_name() {
                            lemma_entry_for_none(prefix, k, i);
                        }
                    } else {
                        assert(next[i] == prefix[i] && next[j] == prefix[j]);
                    }
                }
                assert forall|i: int| 0 <= i < next.len() implies exists|k2: Constraint| k2.spec_name() == (#[trigger] next[i]).0@ by {
                    if i < e {
                        assert(next[i] == prefix[i]);
                    } else {
                        assert(k.spec_name() == next[i].0@);
                    }
                }
            }
            e = e + 1;
        }
        assert(entries@.take(entries.len() as int) =~= entries@);
        let mut map: Vec<CostPossibility> = Vec::new();
        let mut i: usize = 0;
        while i < NUM_CONSTRAINTS
            invariant
                i <= NUM_CONSTRAINTS,
                map.len() == i,
                slots.len() == NUM_CONSTRAINTS,
                entries_valid(entries@),
                forall|k: Constraint| #[trigger] slots@[k.index() as int] == entry_for(entries@, k),
                forall|k: Constraint| k.index() < i ==> Some(#[trigger] map@[k.index() as int]) == configured_weight(entries@, k),
            decreases NUM_CONSTRAINTS - i,
        {
            let k = Constraint::from_index(i);
            let value = match slots[i] {
                Some(value) => value,
                None => match k.default_value() {
                    Some(value) => value,
                    None => {
                        proof { assert(configured_weight(entries@, k) is None); }
                        return Err(Error::MissingCost { name: k.name().to_owned() });
                    },
                },
            };
            map.push(value);
            proof {
                assert forall|k2: Constraint| k2.index() < i + 1 implies Some(#[trigger] map@[k2.index() as int]) == configured_weight(entries@, k2) by {
                    lemma_constraint_index_injective(k2, k);
                }
            }
            i = i + 1;
        }
        let config = CostConfig { map };
        proof {
            assert forall|k: Constraint| #[trigger] configured_weight(entries@, k) is Some by {
                lemma_constraint_index_injective(k, k);
                assert(Some(map@[k.index() as int]) == configured_weight(entries@, k));
            }
            assert forall|k: Constraint| Some(#[trigger] config.weight(k)) == configured_weight(entries@, k) by {
                lemma_constraint_index_injective(k, k);
            }
        }
        Ok(config)
    }

    /// A kind is counted when its weight is infinite or not zero.
    pub open spec fn spec_should_count(&self, k: Constraint) -> bool {
        self.weight(k) != CostPossibility::Value(0)
    }

    pub fn should_count(&self, constraint: Constraint) -> (r: bool)
        requires
            self.wf(),
        ensures
            r == self.spec_should_count(constraint),
    {
        match self.get(constraint) {
            CostPossibility::Infinity => true,
            CostPossibility::Value(val) => val != 0,
        }
    }
}

} // verus!

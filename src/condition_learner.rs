use vstd::prelude::*;

use crate::condition::{Condition, NUM_LITERALS};

verus! {

/// What a hypothesis says of a condition.
#[derive(Clone, Copy, Debug, PartialEq, Eq, Structural)]
pub enum MatchResult {
    /// No positive example has been seen yet.
    Unknown,
    /// Every literal that the hypothesis requires holds in the condition.
    Match,
    /// Some required literal has another value in the condition.
    NoMatch,
}

/// A hypothesis: for each literal, the value it is required to have, or `None` where it is free.
pub type Hypothesis = Seq<Option<bool>>;

/// The most specific hypothesis for one positive example: every literal as it holds there.
pub open spec fn seed(c: Seq<bool>) -> Hypothesis {
    Seq::new(c.len(), |i: int| Some(c[i]))
}

/// Condition `c` has every value that `h` requires.
pub open spec fn satisfies(h: Hypothesis, c: Seq<bool>) -> bool {
    forall|i: int| 0 <= i < h.len() && #[trigger] h[i] is Some ==> c[i] == h[i]->0
}

/// `h` widened to admit `c`: each required literal whose value differs in `c` is freed.
pub open spec fn generalize(h: Hypothesis, c: Seq<bool>) -> Hypothesis {
    Seq::new(h.len(), |i: int| if h[i] == Some(c[i]) { h[i] } else { None })
}

/// Some condition satisfies both `h` and `g`: no literal is required by both with two values.
pub open spec fn compatible(h: Hypothesis, g: Hypothesis) -> bool {
    forall|i: int|
        0 <= i < h.len() && i < g.len() && #[trigger] h[i] is Some && #[trigger] g[i] is Some
            ==> h[i] == g[i]
}

/// `h` without the requirements that `g` makes too, with the same value.
pub open spec fn strip_shared(h: Hypothesis, g: Hypothesis) -> Hypothesis {
    Seq::new(h.len(), |i: int| if h[i] is Some && h[i] == g[i] { None } else { h[i] })
}

/// The literal `i` is required by `h`.
pub open spec fn requires_literal(h: Hypothesis, i: int) -> bool {
    0 <= i < h.len() && h[i] is Some
}

/// The literals that `h` requires.
pub open spec fn required_set(h: Hypothesis) -> Set<int> {
    Set::new(|i: int| requires_literal(h, i))
}

/// Abstract state of a condition learner: `None` before any positive example.
pub type LearnerModel = Option<Hypothesis>;

pub open spec fn predict_model(m: LearnerModel, c: Seq<bool>) -> MatchResult {
    match m {
        None => MatchResult::Unknown,
        Some(h) => if satisfies(h, c) {
            MatchResult::Match
        } else {
            MatchResult::NoMatch
        },
    }
}

/// A learner after one experience: a positive one seeds or generalizes, a negative one
/// leaves the hypothesis as it is.
pub open spec fn update_model(m: LearnerModel, c: Seq<bool>, matched: bool) -> LearnerModel {
    if !matched {
        m
    } else {
        match m {
            None => Some(seed(c)),
            Some(h) => Some(generalize(h, c)),
        }
    }
}

pub open spec fn overlaps_model(m1: LearnerModel, m2: LearnerModel) -> bool {
    match (m1, m2) {
        (Some(h), Some(g)) => compatible(h, g),
        _ => false,
    }
}

pub open spec fn remove_overlap_model(m1: LearnerModel, m2: LearnerModel) -> LearnerModel {
    match (m1, m2) {
        (Some(h), Some(g)) => Some(strip_shared(h, g)),
        _ => m1,
    }
}

/// A learner model whose hypothesis, if any, has one entry per literal.
pub open spec fn model_wf(m: LearnerModel) -> bool {
    match m {
        None => true,
        Some(h) => h.len() == NUM_LITERALS,
    }
}

/// A conjunctive hypothesis over the literals of a condition, learned from positive examples.
#[derive(Clone, Copy, Debug)]
pub struct ConditionLearner {
    truth: Option<[Option<bool>; NUM_LITERALS]>,
}

impl View for ConditionLearner {
    type V = LearnerModel;

    closed spec fn view(&self) -> LearnerModel {
        match self.truth {
            None => None,
            Some(a) => Some(a@),
        }
    }
}

impl ConditionLearner {
    /// The model of a learner that has seen nothing.
    pub open spec fn new_model() -> LearnerModel {
        None
    }

    pub fn new() -> (r: ConditionLearner)
        ensures
            r@ == ConditionLearner::new_model(),
    {
        ConditionLearner { truth: None }
    }

    /// The value that literal `i` is required to have; `None` where it is free, or where
    /// nothing has been learned yet.
    pub fn required_value(&self, i: usize) -> (r: Option<bool>)
        requires
            i < NUM_LITERALS,
        ensures
            r == (match self@ {
                Some(h) => h[i as int],
                None => None,
            }),
    {
        match self.truth {
            Some(h) => h[i],
            None => None,
        }
    }

    pub fn predict(&self, condition: &Condition) -> (r: MatchResult)
        ensures
            r == predict_model(self@, condition@),
    {
        match self.truth {
            None => MatchResult::Unknown,
            Some(h) => {
                let mut i: usize = 0;
                while i < NUM_LITERALS
                    invariant
                        i <= NUM_LITERALS,
                        h@.len() == NUM_LITERALS,
                        condition@.len() == NUM_LITERALS,
                        self@ == Some(h@),
                        forall|k: int| 0 <= k < i && #[trigger] h@[k] is Some ==> condition@[k]
                            == h@[k]->0,
                    decreases NUM_LITERALS - i,
                {
                    match h[i] {
                        Some(v) => {
                            if v != condition.literals[i] {
                                assert(h@[i as int] is Some && condition@[i as int] != h@[i as int]->0);
                                return MatchResult::NoMatch;
                            }
                        },
                        None => {},
                    }
                    i = i + 1;
                }
                MatchResult::Match
            },
        }
    }

    pub fn apply_experience(&mut self, condition: &Condition, matched: bool)
        ensures
            final(self)@ == update_model(old(self)@, condition@, matched),
    {
        if !matched {
            return ;
        }
        match self.truth {
            None => {
                self.truth = Some(seed_array(condition));
            },
            Some(h) => {
                let mut g = h;
                let mut i: usize = 0;
                while i < NUM_LITERALS
                    invariant
                        i <= NUM_LITERALS,
                        g@.len() == NUM_LITERALS,
                        h@.len() == NUM_LITERALS,
                        condition@.len() == NUM_LITERALS,
                        forall|k: int| 0 <= k < i ==> #[trigger] g@[k] == generalize(h@, condition@)[k],
                        forall|k: int| i <= k < NUM_LITERALS ==> #[trigger] g@[k] == h@[k],
                    decreases NUM_LITERALS - i,
                {
                    match g[i] {
                        Some(v) => {
                            if v != condition.literals[i] {
                                g[i] = None;
                            }
                        },
                        None => {},
                    }
                    i = i + 1;
                }
                assert(g@ == generalize(h@, condition@));
                self.truth = Some(g);
            },
        }
    }

    /// Whether some condition could match both hypotheses.
    pub fn overlaps(&self, other: &ConditionLearner) -> (r: bool)
        ensures
            r == overlaps_model(self@, other@),
    {
        match (self.truth, other.truth) {
            (Some(h), Some(g)) => {
                let mut i: usize = 0;
                while i < NUM_LITERALS
                    invariant
                        i <= NUM_LITERALS,
                        h@.len() == NUM_LITERALS,
                        g@.len() == NUM_LITERALS,
                        self@ == Some(h@) && other@ == Some(g@),
                        forall|k: int|
                            0 <= k < i && #[trigger] h@[k] is Some && #[trigger] g@[k] is Some
                                ==> h@[k] == g@[k],
                    decreases NUM_LITERALS - i,
                {
                    match (h[i], g[i]) {
                        (Some(a), Some(b)) => {
                            if a != b {
                                assert(h@[i as int] is Some && g@[i as int] is Some);
                                assert(!compatible(h@, g@));
                                return false;
                            }
                        },
                        _ => {},
                    }
                    i = i + 1;
                }
                true
            },
            _ => false,
        }
    }

    /// Frees each literal that `other` requires with the same value.
    pub fn remove_overlap(&mut self, other: &ConditionLearner)
        ensures
            final(self)@ == remove_overlap_model(old(self)@, other@),
    {
        match (self.truth, other.truth) {
            (Some(h), Some(o)) => {
                let mut g = h;
                let mut i: usize = 0;
                while i < NUM_LITERALS
                    invariant
                        i <= NUM_LITERALS,
                        g@.len() == NUM_LITERALS,
                        h@.len() == NUM_LITERALS,
                        o@.len() == NUM_LITERALS,
                        forall|k: int| 0 <= k < i ==> #[trigger] g@[k] == strip_shared(h@, o@)[k],
                        forall|k: int| i <= k < NUM_LITERALS ==> #[trigger] g@[k] == h@[k],
                    decreases NUM_LITERALS - i,
                {
                    match (g[i], o[i]) {
                        (Some(a), Some(b)) => {
                            if a == b {
                                g[i] = None;
                            }
                        },
                        _ => {},
                    }
                    i = i + 1;
                }
                assert(g@ == strip_shared(h@, o@));
                self.truth = Some(g);
            },
            _ => {},
        }
    }
}

/// The seeded hypothesis of one condition, as an array.
fn seed_array(condition: &Condition) -> (r: [Option<bool>; NUM_LITERALS])
    ensures
        r@ == seed(condition@),
{
    let mut r: [Option<bool>; NUM_LITERALS] = [None; NUM_LITERALS];
    let mut i: usize = 0;
    while i < NUM_LITERALS
        invariant
            i <= NUM_LITERALS,
            r@.len() == NUM_LITERALS,
            condition@.len() == NUM_LITERALS,
            forall|k: int| 0 <= k < i ==> #[trigger] r@[k] == Some(condition@[k]),
        decreases NUM_LITERALS - i,
    {
        r[i] = Some(condition.literals[i]);
        i = i + 1;
    }
    assert(r@ == seed(condition@));
    r
}

/// The hypotheses of a list of rules, each with its outcome.
pub open spec fn models_of<T>(rules: Seq<(ConditionLearner, T)>) -> Seq<(LearnerModel, T)> {
    rules.map_values(|r: (ConditionLearner, T)| (r.0@, r.1))
}

/// Two of the rules could match one condition.
pub open spec fn some_overlap<T>(rules: Seq<(LearnerModel, T)>) -> bool {
    exists|i: int, j: int|
        0 <= i < j < rules.len() && overlaps_model(#[trigger] rules[i].0, #[trigger] rules[j].0)
}

/// `m` could match a condition together with one of the rules.
pub open spec fn overlaps_some<T>(m: LearnerModel, rules: Seq<(LearnerModel, T)>) -> bool {
    exists|i: int| 0 <= i < rules.len() && overlaps_model(m, #[trigger] rules[i].0)
}

/// `m` narrowed against each rule in turn, first to last.
pub open spec fn narrowed<T>(m: LearnerModel, rules: Seq<(LearnerModel, T)>) -> LearnerModel
    decreases rules.len(),
{
    if rules.len() == 0 {
        m
    } else {
        remove_overlap_model(narrowed(m, rules.drop_last()), rules.last().0)
    }
}

/// Whether two of the rules could match one condition.
pub fn any_overlap<T>(rules: &Vec<(ConditionLearner, T)>) -> (r: bool)
    ensures
        r == some_overlap(models_of(rules@)),
{
    let ghost m = models_of(rules@);
    let n = rules.len();
    let mut i: usize = 0;
    while i < n
        invariant
            i <= n,
            n == rules@.len(),
            m == models_of(rules@),
            forall|i2: int, j2: int|
                0 <= i2 < i && i2 < j2 < n ==> !overlaps_model(#[trigger] m[i2].0, #[trigger] m[j2].0),
        decreases n - i,
    {
        let mut j: usize = i + 1;
        while j < n
            invariant
                i < n,
                i + 1 <= j <= n,
                n == rules@.len(),
                m == models_of(rules@),
                forall|j2: int| i < j2 < j ==> !overlaps_model(m[i as int].0, #[trigger] m[j2].0),
            decreases n - j,
        {
            if rules[i].0.overlaps(&rules[j].0) {
                assert(overlaps_model(m[i as int].0, m[j as int].0));
                return true;
            }
            j = j + 1;
        }
        i = i + 1;
    }
    false
}

/// Whether `learner` could match a condition together with one of the rules.
pub fn overlaps_any<T>(learner: &ConditionLearner, rules: &Vec<(ConditionLearner, T)>) -> (r: bool)
    ensures
        r == overlaps_some(learner@, models_of(rules@)),
{
    let ghost m = models_of(rules@);
    let n = rules.len();
    let mut i: usize = 0;
    while i < n
        invariant
            i <= n,
            n == rules@.len(),
            m == models_of(rules@),
            forall|i2: int| 0 <= i2 < i ==> !overlaps_model(learner@, #[trigger] m[i2].0),
        decreases n - i,
    {
        if learner.overlaps(&rules[i].0) {
            assert(overlaps_model(learner@, m[i as int].0));
            return true;
        }
        i = i + 1;
    }
    false
}

/// Narrows `learner` against each of the rules in turn.
pub fn narrow_against<T>(learner: &mut ConditionLearner, rules: &Vec<(ConditionLearner, T)>)
    ensures
        final(learner)@ == narrowed(old(learner)@, models_of(rules@)),
{
    let ghost m = models_of(rules@);
    let ghost start = learner@;
    let n = rules.len();
    let mut i: usize = 0;
    while i < n
        invariant
            i <= n,
            n == rules@.len(),
            m == models_of(rules@),
            learner@ == narrowed(start, m.take(i as int)),
        decreases n - i,
    {
        learner.remove_overlap(&rules[i].0);
        assert(m.take(i as int + 1).drop_last() == m.take(i as int));
        i = i + 1;
    }
    assert(m.take(n as int) == m);
}

/// A learner that has seen no experience cannot tell whether any condition matches.
pub proof fn lemma_fresh_learner_unknown(c: Seq<bool>)
    ensures
        predict_model(ConditionLearner::new_model(), c) == MatchResult::Unknown,
{
}

/// After one positive example `c`, the learner matches `c`, and it does not match a condition
/// `c2` that differs from `c` in literal `i`, which the seeded hypothesis requires.
pub proof fn lemma_first_positive_example(c: Seq<bool>, c2: Seq<bool>, i: int)
    requires
        c.len() == NUM_LITERALS,
        c2.len() == NUM_LITERALS,
    ensures
        predict_model(update_model(ConditionLearner::new_model(), c, true), c) == MatchResult::Match,
        requires_literal(seed(c), i) && c2[i] != c[i] ==> predict_model(
            update_model(ConditionLearner::new_model(), c, true),
            c2,
        ) == MatchResult::NoMatch,
{
    let h = seed(c);
    if requires_literal(h, i) && c2[i] != c[i] {
        assert(h[i] is Some && c2[i] != h[i]->0);
    }
}

/// A positive example only frees literals: a literal stays required exactly where the example
/// agrees with it, so fewer literals are required after it, and the same example once more
/// changes nothing.
pub proof fn lemma_positive_example_generalizes(m: LearnerModel, c: Seq<bool>)
    requires
        model_wf(m),
        c.len() == NUM_LITERALS,
        m is Some,
    ensures
        ({
            let h = m->0;
            let g = update_model(m, c, true)->0;
            &&& forall|i: int|
                #[trigger] requires_literal(g, i) <==> requires_literal(h, i) && h[i] == Some(c[i])
            &&& required_set(g).subset_of(required_set(h))
            &&& required_set(g).len() <= required_set(h).len()
        }),
        update_model(update_model(m, c, true), c, true) == update_model(m, c, true),
{
    let h = m->0;
    let g = generalize(h, c);
    assert(required_set(g).subset_of(required_set(h)));
    assert(required_set(h).subset_of(vstd::set_lib::set_int_range(0, NUM_LITERALS as int)));
    vstd::set_lib::lemma_int_range(0, NUM_LITERALS as int);
    vstd::set_lib::lemma_len_subset(required_set(h), vstd::set_lib::set_int_range(0, NUM_LITERALS as int));
    vstd::set_lib::lemma_len_subset(required_set(g), required_set(h));
    assert(generalize(g, c) == g);
}

/// Two rules whose hypotheses do not overlap never both match one condition.
pub proof fn lemma_disjoint_rules_never_both_match(m1: LearnerModel, m2: LearnerModel, c: Seq<bool>)
    requires
        !overlaps_model(m1, m2),
    ensures
        !(predict_model(m1, c) == MatchResult::Match && predict_model(m2, c) == MatchResult::Match),
{
    if predict_model(m1, c) == MatchResult::Match && predict_model(m2, c) == MatchResult::Match {
        let h = m1->0;
        let g = m2->0;
        assert forall|i: int|
            0 <= i < h.len() && i < g.len() && #[trigger] h[i] is Some && #[trigger] g[i] is Some
                implies h[i] == g[i] by {
            assert(c[i] == h[i]->0);
            assert(c[i] == g[i]->0);
        }
        assert(compatible(h, g));
    }
}

/// In a rule list where no two hypotheses overlap, no two rules match one condition.
pub proof fn lemma_exclusive_rules<T>(rules: Seq<(LearnerModel, T)>, c: Seq<bool>, i: int, j: int)
    requires
        !some_overlap(rules),
        0 <= i < rules.len(),
        0 <= j < rules.len(),
        i != j,
    ensures
        !(predict_model(rules[i].0, c) == MatchResult::Match && predict_model(rules[j].0, c)
            == MatchResult::Match),
{
    if i < j {
        assert(!overlaps_model(rules[i].0, rules[j].0));
        lemma_disjoint_rules_never_both_match(rules[i].0, rules[j].0, c);
    } else {
        assert(!overlaps_model(rules[j].0, rules[i].0));
        lemma_disjoint_rules_never_both_match(rules[j].0, rules[i].0, c);
    }
}

/// Overlap does not depend on the order of the two hypotheses.
pub proof fn lemma_overlaps_symmetric(m1: LearnerModel, m2: LearnerModel)
    ensures
        overlaps_model(m1, m2) == overlaps_model(m2, m1),
{
    if let (Some(h), Some(g)) = (m1, m2) {
        if compatible(h, g) {
            assert forall|i: int|
                0 <= i < g.len() && i < h.len() && #[trigger] g[i] is Some && #[trigger] h[i] is Some
                    implies g[i] == h[i] by {}
        }
        if compatible(g, h) {
            assert forall|i: int|
                0 <= i < h.len() && i < g.len() && #[trigger] h[i] is Some && #[trigger] g[i] is Some
                    implies h[i] == g[i] by {}
        }
    }
}

} // verus!

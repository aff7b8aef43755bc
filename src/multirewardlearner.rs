use vstd::prelude::*;

use crate::actions::{action_index, Actions, NUM_ACTIONS};
use crate::condition::{condition_spec, Condition};
use crate::condition_learner::{
    any_overlap, lemma_overlaps_symmetric, models_of, overlaps_model, narrow_against, narrowed, overlaps_any, overlaps_some, predict_model,
    seed, some_overlap, update_model, ConditionLearner, LearnerModel, MatchResult,
};
use crate::state::State;
use crate::world::{in_bounds, World, WorldView};

verus! {

/// A learned reward rule: a hypothesis and the reward that follows where it matches.
pub type RewardRule = (LearnerModel, i64);

/// Where a reward prediction stands after some of the rules.
pub enum RewardScan {
    Done(Option<i64>),
    Going(Option<i64>),
}

/// One rule's part in a reward prediction: an undecided rule, or two matching rules with two
/// rewards, make the prediction unknown.
pub open spec fn reward_step(acc: RewardScan, rule: RewardRule, c: Seq<bool>) -> RewardScan {
    match acc {
        RewardScan::Done(r) => RewardScan::Done(r),
        RewardScan::Going(found) => match predict_model(rule.0, c) {
            MatchResult::Unknown => RewardScan::Done(None),
            MatchResult::NoMatch => RewardScan::Going(found),
            MatchResult::Match => match found {
                Some(f) => if f != rule.1 {
                    RewardScan::Done(None)
                } else {
                    RewardScan::Going(found)
                },
                None => RewardScan::Going(Some(rule.1)),
            },
        },
    }
}

pub open spec fn reward_scan(rules: Seq<RewardRule>, c: Seq<bool>) -> RewardScan
    decreases rules.len(),
{
    if rules.len() == 0 {
        RewardScan::Going(None)
    } else {
        reward_step(reward_scan(rules.drop_last(), c), rules.last(), c)
    }
}

/// The reward that the rules predict under condition `c`; `None` where they cannot tell,
/// including where no rule matches.
pub open spec fn reward_predict_spec(rules: Seq<RewardRule>, c: Seq<bool>) -> Option<i64> {
    match reward_scan(rules, c) {
        RewardScan::Done(r) => r,
        RewardScan::Going(found) => found,
    }
}

/// Each rule learns from condition `c`: positively where its reward is the observed one.
pub open spec fn reward_learn_all(rules: Seq<RewardRule>, c: Seq<bool>, reward: i64) -> Seq<
    RewardRule,
> {
    Seq::new(rules.len(), |i: int| (update_model(rules[i].0, c, rules[i].1 == reward), rules[i].1))
}

pub open spec fn has_reward(rules: Seq<RewardRule>, reward: i64) -> bool {
    exists|i: int| 0 <= i < rules.len() && #[trigger] rules[i].1 == reward
}

/// The reward rules after one experience. A reward that no rule has gets a new rule, seeded on
/// `c` and narrowed against the others; if it still overlaps one of them, the old rules are
/// dropped. A reward that a rule has is learned, and the set is emptied if two rules then
/// overlap.
pub open spec fn reward_learn_spec(rules: Seq<RewardRule>, c: Seq<bool>, reward: i64) -> Seq<
    RewardRule,
> {
    let u = reward_learn_all(rules, c, reward);
    if !has_reward(rules, reward) {
        let n = narrowed(Some(seed(c)), u);
        if overlaps_some(n, u) {
            seq![(n, reward)]
        } else {
            u.push((n, reward))
        }
    } else if some_overlap(u) {
        Seq::empty()
    } else {
        u
    }
}

proof fn lemma_reward_scan_done(rules: Seq<RewardRule>, k: int, c: Seq<bool>)
    requires
        0 <= k <= rules.len(),
        reward_scan(rules.take(k), c) is Done,
    ensures
        reward_scan(rules, c) == reward_scan(rules.take(k), c),
    decreases rules.len() - k,
{
    if k < rules.len() {
        assert(rules.take(k + 1).drop_last() == rules.take(k));
        lemma_reward_scan_done(rules, k + 1, c);
    } else {
        assert(rules.take(k) == rules);
    }
}

/// Learning keeps a reward rule set exclusive: if no two of its hypotheses overlap before an
/// experience, none do after it, so no two rules ever match one condition.
pub proof fn lemma_reward_learning_keeps_rules_exclusive(
    rules: Seq<RewardRule>,
    c: Seq<bool>,
    reward: i64,
)
    requires
        !some_overlap(rules),
    ensures
        !some_overlap(reward_learn_spec(rules, c, reward)),
{
    let u = reward_learn_all(rules, c, reward);
    if !has_reward(rules, reward) {
        assert forall|i: int| 0 <= i < rules.len() implies #[trigger] u[i] == rules[i] by {
            assert(rules[i].1 != reward);
        }
        assert(u =~= rules);
        let n = narrowed(Some(seed(c)), u);
        if !overlaps_some(n, u) {
            let r = u.push((n, reward));
            assert forall|i: int, j: int| 0 <= i < j < r.len() implies !overlaps_model(
                #[trigger] r[i].0,
                #[trigger] r[j].0,
            ) by {
                if j == u.len() {
                    assert(!overlaps_model(n, u[i].0));
                    lemma_overlaps_symmetric(n, u[i].0);
                } else {
                    assert(!overlaps_model(rules[i].0, rules[j].0));
                }
            }
        }
    }
}

/// The reward rules that one action has learned.
pub struct RewardLearner {
    condition_rewards: Vec<(ConditionLearner, i64)>,
}

impl View for RewardLearner {
    type V = Seq<RewardRule>;

    closed spec fn view(&self) -> Seq<RewardRule> {
        models_of(self.condition_rewards@)
    }
}

impl RewardLearner {
    pub fn new() -> (r: RewardLearner)
        ensures
            r@ == Seq::<RewardRule>::empty(),
    {
        let r = RewardLearner { condition_rewards: Vec::new() };
        assert(r@ == Seq::<RewardRule>::empty());
        r
    }

    /// The number of rules.
    pub fn num_rules(&self) -> (r: usize)
        ensures
            r == self@.len(),
    {
        self.condition_rewards.len()
    }

    /// The reward that the rules predict under `condition`, or `None` where they cannot tell.
    pub fn predict(&self, condition: &Condition) -> (r: Option<i64>)
        ensures
            r == reward_predict_spec(self@, condition@),
    {
        let ghost m = self@;
        let n = self.condition_rewards.len();
        let mut full_result: Option<i64> = None;
        let mut i: usize = 0;
        while i < n
            invariant
                i <= n,
                n == m.len(),
                m == self@,
                reward_scan(m.take(i as int), condition@) == RewardScan::Going(full_result),
            decreases n - i,
        {
            let (condition_learner, learned_reward) = self.condition_rewards[i];
            proof {
                assert(m.take(i as int + 1).drop_last() == m.take(i as int));
                assert(m[i as int] == (condition_learner@, learned_reward));
            }
            match condition_learner.predict(condition) {
                MatchResult::Unknown => {
                    proof {
                        lemma_reward_scan_done(m, i as int + 1, condition@);
                    }
                    return None;
                },
                MatchResult::NoMatch => {},
                MatchResult::Match => {
                    match full_result {
                        Some(f) => {
                            if f != learned_reward {
                                proof {
                                    lemma_reward_scan_done(m, i as int + 1, condition@);
                                }
                                return None;
                            }
                        },
                        None => {
                            full_result = Some(learned_reward);
                        },
                    }
                },
            }
            i = i + 1;
        }
        assert(m.take(n as int) == m);
        full_result
    }

    /// Learns that `reward` followed under `condition`.
    pub fn apply_experience(&mut self, condition: &Condition, reward: i64)
        ensures
            final(self)@ == reward_learn_spec(old(self)@, condition@, reward),
            !some_overlap(old(self)@) ==> !some_overlap(final(self)@),
    {
        proof {
            if !some_overlap(self@) {
                lemma_reward_learning_keeps_rules_exclusive(self@, condition@, reward);
            }
        }
        let ghost m = self@;
        let ghost u = reward_learn_all(m, condition@, reward);
        let n = self.condition_rewards.len();
        let mut found_entry = false;
        let mut i: usize = 0;
        while i < n
            invariant
                i <= n,
                n == m.len(),
                u == reward_learn_all(m, condition@, reward),
                self.condition_rewards@.len() == n,
                m == old(self)@,
                forall|k: int|
                    0 <= k < i ==> (#[trigger] self.condition_rewards@[k].0@,
                    self.condition_rewards@[k].1) == u[k],
                forall|k: int|
                    i <= k < n ==> (#[trigger] self.condition_rewards@[k].0@,
                    self.condition_rewards@[k].1) == m[k],
                found_entry <==> exists|k: int| 0 <= k < i && #[trigger] m[k].1 == reward,
            decreases n - i,
        {
            let (mut condition_learner, learned_reward) = self.condition_rewards[i];
            assert(m[i as int] == (condition_learner@, learned_reward));
            let matched = reward == learned_reward;
            condition_learner.apply_experience(condition, matched);
            self.condition_rewards.set(i, (condition_learner, learned_reward));
            if matched {
                found_entry = true;
            }
            proof {
                if matched {
                    assert(m[i as int].1 == reward);
                }
            }
            i = i + 1;
        }
        assert(self@ =~= u);
        if !found_entry {
            let mut condition_learner = ConditionLearner::new();
            condition_learner.apply_experience(condition, true);
            narrow_against(&mut condition_learner, &self.condition_rewards);
            if overlaps_any(&condition_learner, &self.condition_rewards) {
                self.condition_rewards = Vec::new();
            }
            self.condition_rewards.push((condition_learner, reward));
            assert(self@ =~= reward_learn_spec(m, condition@, reward));
        } else if any_overlap(&self.condition_rewards) {
            self.condition_rewards = Vec::new();
            assert(self@ == Seq::<RewardRule>::empty());
        }
    }
}

/// A reward model: one reward rule set per action.
pub struct MultiRewardLearner {
    reward_learners: Vec<RewardLearner>,
}

pub open spec fn reward_views_of(learners: Seq<RewardLearner>) -> Seq<Seq<RewardRule>> {
    learners.map_values(|l: RewardLearner| l@)
}

/// No two rules of one action's reward rule set overlap.
pub open spec fn reward_model_exclusive(v: Seq<Seq<RewardRule>>) -> bool {
    forall|i: int| 0 <= i < v.len() ==> !some_overlap(#[trigger] v[i])
}

/// A reward model that has learned nothing.
pub open spec fn empty_reward_model() -> Seq<Seq<RewardRule>> {
    Seq::new(NUM_ACTIONS as nat, |i: int| Seq::<RewardRule>::empty())
}

/// The reward that the model predicts for action `a` in state `s`.
pub open spec fn multi_reward_predict_spec(
    v: Seq<Seq<RewardRule>>,
    w: WorldView,
    s: State,
    a: Actions,
) -> Option<i64> {
    reward_predict_spec(v[action_index(a) as int], condition_spec(w, s))
}

/// The reward model after `reward` followed action `a` in state `s`.
pub open spec fn multi_reward_learn_spec(
    v: Seq<Seq<RewardRule>>,
    w: WorldView,
    s: State,
    a: Actions,
    reward: i64,
) -> Seq<Seq<RewardRule>> {
    let i = action_index(a) as int;
    v.update(i, reward_learn_spec(v[i], condition_spec(w, s), reward))
}

impl View for MultiRewardLearner {
    type V = Seq<Seq<RewardRule>>;

    closed spec fn view(&self) -> Seq<Seq<RewardRule>> {
        reward_views_of(self.reward_learners@)
    }
}

impl MultiRewardLearner {
    /// One reward rule set per action.
    pub closed spec fn wf(&self) -> bool {
        self.reward_learners@.len() == NUM_ACTIONS
    }

    pub fn new() -> (r: MultiRewardLearner)
        ensures
            r.wf(),
            r@ == empty_reward_model(),
            reward_model_exclusive(r@),
    {
        let mut reward_learners: Vec<RewardLearner> = Vec::new();
        let mut i: usize = 0;
        while i < NUM_ACTIONS
            invariant
                i <= NUM_ACTIONS,
                reward_learners@.len() == i,
                forall|k: int|
                    0 <= k < i ==> (#[trigger] reward_learners@[k])@ == Seq::<RewardRule>::empty(),
            decreases NUM_ACTIONS - i,
        {
            reward_learners.push(RewardLearner::new());
            i = i + 1;
        }
        let r = MultiRewardLearner { reward_learners };
        assert(r@ =~= empty_reward_model());
        assert forall|i: int| 0 <= i < r@.len() implies !some_overlap(#[trigger] r@[i]) by {
            assert(r@[i].len() == 0);
        }
        r
    }

    /// The reward that `action` brings in `state`, or `None` where the model cannot tell yet.
    pub fn predict(&self, world: &World, state: &State, action: Actions) -> (r: Option<i64>)
        requires
            self.wf(),
            in_bounds(world@, state.taxi.x as int, state.taxi.y as int),
        ensures
            r == multi_reward_predict_spec(self@, world@, *state, action),
    {
        let condition = Condition::new(world, state);
        let action_index = action.to_index();
        self.reward_learners[action_index].predict(&condition)
    }

    /// Learns that `reward` followed `action` in `state`.
    pub fn apply_experience(&mut self, world: &World, state: &State, action: Actions, reward: i64)
        requires
            old(self).wf(),
            in_bounds(world@, state.taxi.x as int, state.taxi.y as int),
        ensures
            final(self).wf(),
            final(self)@ == multi_reward_learn_spec(old(self)@, world@, *state, action, reward),
            reward_model_exclusive(old(self)@) ==> reward_model_exclusive(final(self)@),
    {
        let condition = Condition::new(world, state);
        let i = action.to_index();
        let mut learner = self.reward_learners.remove(i);
        assert(learner@ == old(self)@[i as int]);
        learner.apply_experience(&condition, reward);
        self.reward_learners.insert(i, learner);
        assert(self@ =~= multi_reward_learn_spec(old(self)@, world@, *state, action, reward));
        proof {
            if reward_model_exclusive(old(self)@) {
                assert forall|k: int| 0 <= k < self@.len() implies !some_overlap(
                    #[trigger] self@[k],
                ) by {
                    if k != i {
                        assert(self@[k] == old(self)@[k]);
                    }
                }
            }
        }
    }
}

} // verus!

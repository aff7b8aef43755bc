use vstd::prelude::*;

use crate::actions::{action_index, Actions, NUM_ACTIONS};
use crate::condition::{condition_spec, Condition};
use crate::condition_learner::{
    any_overlap, models_of, narrow_against, narrowed, predict_model, seed, some_overlap,
    update_model, ConditionLearner, LearnerModel, MatchResult,
};
use crate::effect::{apply_spec, generate_spec, Attribute, Effect};
use crate::state::{build_spec, State, StateError};
use crate::world::{in_bounds, World, WorldView};

verus! {

/// A learned rule: a hypothesis and the effect that follows where it matches.
pub type Rule = (LearnerModel, Effect);

/// Where a prediction stands after some of the rules: decided, or still going with the state
/// that the matching rules so far agree on.
pub enum PredictScan {
    Done(Result<Option<State>, StateError>),
    Going(Option<State>),
}

/// One rule's part in a prediction. An undecided rule makes the prediction unknown; a matching
/// rule applies its effect, and two matching rules that disagree make it unknown.
pub open spec fn predict_step(
    acc: PredictScan,
    rule: Rule,
    w: WorldView,
    s: State,
    c: Seq<bool>,
) -> PredictScan {
    match acc {
        PredictScan::Done(r) => PredictScan::Done(r),
        PredictScan::Going(found) => match predict_model(rule.0, c) {
            MatchResult::Unknown => PredictScan::Done(Ok(None)),
            MatchResult::NoMatch => PredictScan::Going(found),
            MatchResult::Match => match apply_spec(rule.1, w, s) {
                Err(e) => PredictScan::Done(Err(e)),
                Ok(t) => match found {
                    Some(f) => if f != t {
                        PredictScan::Done(Ok(None))
                    } else {
                        PredictScan::Going(found)
                    },
                    None => PredictScan::Going(Some(t)),
                },
            },
        },
    }
}

/// The rules taken first to last.
pub open spec fn predict_scan(rules: Seq<Rule>, w: WorldView, s: State, c: Seq<bool>) -> PredictScan
    decreases rules.len(),
{
    if rules.len() == 0 {
        PredictScan::Going(None)
    } else {
        predict_step(predict_scan(rules.drop_last(), w, s, c), rules.last(), w, s, c)
    }
}

/// What a rule set predicts for `s` under condition `c`: `Ok(None)` where it cannot tell, the
/// state of the matching rules, or `s` itself where no rule matches.
pub open spec fn ce_predict_spec(rules: Seq<Rule>, w: WorldView, s: State, c: Seq<bool>) -> Result<
    Option<State>,
    StateError,
> {
    match predict_scan(rules, w, s, c) {
        PredictScan::Done(r) => r,
        PredictScan::Going(Some(t)) => Ok(Some(t)),
        PredictScan::Going(None) => Ok(Some(s)),
    }
}

/// Each rule learns from condition `c`: positively where its effect is the observed one.
pub open spec fn learn_all(rules: Seq<Rule>, c: Seq<bool>, observed: Option<Effect>) -> Seq<Rule> {
    Seq::new(
        rules.len(),
        |i: int| (update_model(rules[i].0, c, Some(rules[i].1) == observed), rules[i].1),
    )
}

pub open spec fn has_effect(rules: Seq<Rule>, e: Effect) -> bool {
    exists|i: int| 0 <= i < rules.len() && #[trigger] rules[i].1 == e
}

/// The rule set after one experience. Without an effect every rule learns negatively. An effect
/// that no rule has yet gets a new rule, seeded on `c` and narrowed against the others; an effect
/// that a rule has is learned, and the set is emptied if two rules then overlap.
pub open spec fn ce_learn_spec(rules: Seq<Rule>, c: Seq<bool>, observed: Option<Effect>) -> Seq<
    Rule,
> {
    let u = learn_all(rules, c, observed);
    match observed {
        None => u,
        Some(e) => if !has_effect(rules, e) {
            u.push((narrowed(Some(seed(c)), u), e))
        } else if some_overlap(u) {
            Seq::empty()
        } else {
            u
        },
    }
}

/// Where an observed effect is one that a rule already has, the rule set afterwards holds no two
/// overlapping hypotheses: either none overlapped, or it was emptied.
pub proof fn lemma_known_effect_leaves_rules_exclusive(rules: Seq<Rule>, c: Seq<bool>, e: Effect)
    requires
        has_effect(rules, e),
    ensures
        !some_overlap(ce_learn_spec(rules, c, Some(e))),
        ce_learn_spec(rules, c, Some(e)).len() == 0 <==> some_overlap(
            learn_all(rules, c, Some(e)),
        ),
{
}

proof fn lemma_scan_done(rules: Seq<Rule>, k: int, w: WorldView, s: State, c: Seq<bool>)
    requires
        0 <= k <= rules.len(),
        predict_scan(rules.take(k), w, s, c) is Done,
    ensures
        predict_scan(rules, w, s, c) == predict_scan(rules.take(k), w, s, c),
    decreases rules.len() - k,
{
    if k < rules.len() {
        assert(rules.take(k + 1).drop_last() == rules.take(k));
        lemma_scan_done(rules, k + 1, w, s, c);
    } else {
        assert(rules.take(k) == rules);
    }
}

/// The rules that one action has learned for one attribute of the state.
pub struct CELearner {
    attribute: Attribute,
    condition_effects: Vec<(ConditionLearner, Effect)>,
}

impl View for CELearner {
    type V = Seq<Rule>;

    closed spec fn view(&self) -> Seq<Rule> {
        models_of(self.condition_effects@)
    }
}

impl CELearner {
    /// The attribute whose changes this rule set learns.
    pub closed spec fn attribute(&self) -> Attribute {
        self.attribute
    }

    pub fn new(attribute: Attribute) -> (r: CELearner)
        ensures
            r@ == Seq::<Rule>::empty(),
            r.attribute() == attribute,
    {
        let r = CELearner { attribute, condition_effects: Vec::new() };
        assert(r@ == Seq::<Rule>::empty());
        r
    }

    /// The number of rules.
    pub fn num_rules(&self) -> (r: usize)
        ensures
            r == self@.len(),
    {
        self.condition_effects.len()
    }

    /// What the rules say that the attribute of `state` becomes.
    pub fn predict(&self, world: &World, state: &State, condition: &Condition) -> (r: Result<
        Option<State>,
        StateError,
    >)
        ensures
            r == ce_predict_spec(self@, world@, *state, condition@),
    {
        let ghost m = self@;
        let n = self.condition_effects.len();
        let mut full_result: Option<State> = None;
        let mut i: usize = 0;
        while i < n
            invariant
                i <= n,
                n == m.len(),
                m == self@,
                predict_scan(m.take(i as int), world@, *state, condition@) == PredictScan::Going(
                    full_result,
                ),
            decreases n - i,
        {
            let (condition_learner, learned_effect) = self.condition_effects[i];
            proof {
                assert(m.take(i as int + 1).drop_last() == m.take(i as int));
                assert(m[i as int] == (condition_learner@, learned_effect));
            }
            match condition_learner.predict(condition) {
                MatchResult::Unknown => {
                    proof {
                        lemma_scan_done(m, i as int + 1, world@, *state, condition@);
                    }
                    return Ok(None);
                },
                MatchResult::NoMatch => {},
                MatchResult::Match => {
                    match learned_effect.apply(world, state) {
                        Err(e) => {
                            proof {
                                lemma_scan_done(m, i as int + 1, world@, *state, condition@);
                            }
                            return Err(e);
                        },
                        Ok(result) => {
                            match full_result {
                                Some(f) => {
                                    if f != result {
                                        proof {
                                            lemma_scan_done(
                                                m,
                                                i as int + 1,
                                                world@,
                                                *state,
                                                condition@,
                                            );
                                        }
                                        return Ok(None);
                                    }
                                },
                                None => {
                                    full_result = Some(result);
                                },
                            }
                        },
                    }
                },
            }
            i = i + 1;
        }
        assert(m.take(n as int) == m);
        match full_result {
            Some(t) => Ok(Some(t)),
            None => Ok(Some(*state)),
        }
    }

    /// Learns from the transition from `old_state` to `new_state` under `condition`.
    pub fn apply_experience(&mut self, condition: &Condition, old_state: &State, new_state: &State)
        ensures
            final(self).attribute() == old(self).attribute(),
            final(self)@ == ce_learn_spec(
                old(self)@,
                condition@,
                generate_spec(old(self).attribute(), *old_state, *new_state),
            ),
    {
        let observed = Effect::generate_effects(self.attribute, old_state, new_state);
        let ghost m = self@;
        let ghost u = learn_all(m, condition@, observed);
        let n = self.condition_effects.len();
        let mut found_entry = false;
        let mut i: usize = 0;
        while i < n
            invariant
                i <= n,
                n == m.len(),
                u == learn_all(m, condition@, observed),
                self.condition_effects@.len() == n,
                self.attribute == old(self).attribute,
                m == old(self)@,
                forall|k: int|
                    0 <= k < i ==> (#[trigger] self.condition_effects@[k].0@,
                    self.condition_effects@[k].1) == u[k],
                forall|k: int|
                    i <= k < n ==> (#[trigger] self.condition_effects@[k].0@,
                    self.condition_effects@[k].1) == m[k],
                observed matches Some(e) ==> (found_entry <==> exists|k: int|
                    0 <= k < i && #[trigger] m[k].1 == e),
                observed is None ==> !found_entry,
            decreases n - i,
        {
            let (mut condition_learner, learned_effect) = self.condition_effects[i];
            assert(m[i as int] == (condition_learner@, learned_effect));
            let matched = match observed {
                Some(o) => o == learned_effect,
                None => false,
            };
            assert(matched == (Some(learned_effect) == observed));
            condition_learner.apply_experience(condition, matched);
            self.condition_effects.set(i, (condition_learner, learned_effect));
            if matched {
                found_entry = true;
            }
            proof {
                assert(self.condition_effects@[i as int] == (condition_learner, learned_effect));
                if let Some(e) = observed {
                    if matched {
                        assert(m[i as int].1 == e);
                    }
                }
            }
            i = i + 1;
        }
        assert(self@ =~= u);
        match observed {
            None => {},
            Some(e) => {
                if !found_entry {
                    let mut condition_learner = ConditionLearner::new();
                    condition_learner.apply_experience(condition, true);
                    narrow_against(&mut condition_learner, &self.condition_effects);
                    self.condition_effects.push((condition_learner, e));
                    assert(self@ == u.push((narrowed(Some(seed(condition@)), u), e)));
                } else if any_overlap(&self.condition_effects) {
                    self.condition_effects = Vec::new();
                    assert(self@ == Seq::<Rule>::empty());
                }
            },
        }
    }
}

/// The rule sets of a full transition model: for each attribute, one per action.
pub struct MCEView {
    pub taxi_x: Seq<Seq<Rule>>,
    pub taxi_y: Seq<Seq<Rule>>,
    pub passenger: Seq<Seq<Rule>>,
}

/// A model that has learned nothing.
pub open spec fn empty_model() -> MCEView {
    MCEView {
        taxi_x: Seq::new(NUM_ACTIONS as nat, |i: int| Seq::<Rule>::empty()),
        taxi_y: Seq::new(NUM_ACTIONS as nat, |i: int| Seq::<Rule>::empty()),
        passenger: Seq::new(NUM_ACTIONS as nat, |i: int| Seq::<Rule>::empty()),
    }
}

/// The next state that the model predicts for `s` and `a`: each attribute's rule set is asked
/// in turn (column, row, passenger), and the answers are put together only if all three know.
pub open spec fn mce_predict_spec(v: MCEView, w: WorldView, s: State, a: Actions) -> Result<
    Option<State>,
    StateError,
> {
    let c = condition_spec(w, s);
    let i = action_index(a) as int;
    match ce_predict_spec(v.taxi_x[i], w, s, c) {
        Err(e) => Err(e),
        Ok(None) => Ok(None),
        Ok(Some(px)) => match ce_predict_spec(v.taxi_y[i], w, s, c) {
            Err(e) => Err(e),
            Ok(None) => Ok(None),
            Ok(Some(py)) => match ce_predict_spec(v.passenger[i], w, s, c) {
                Err(e) => Err(e),
                Ok(None) => Ok(None),
                Ok(Some(pp)) => match build_spec(
                    w,
                    px.taxi.x as i64,
                    py.taxi.y as i64,
                    pp.passenger,
                    s.destination,
                ) {
                    Err(e) => Err(e),
                    Ok(t) => Ok(Some(t)),
                },
            },
        },
    }
}

/// The model after the transition from `s` to `t` under action `a`: the three rule sets of `a`
/// learn from it, the others stay as they are.
pub open spec fn mce_learn_spec(v: MCEView, w: WorldView, s: State, a: Actions, t: State) -> MCEView {
    let c = condition_spec(w, s);
    let i = action_index(a) as int;
    MCEView {
        taxi_x: v.taxi_x.update(
            i,
            ce_learn_spec(v.taxi_x[i], c, generate_spec(Attribute::TaxiX, s, t)),
        ),
        taxi_y: v.taxi_y.update(
            i,
            ce_learn_spec(v.taxi_y[i], c, generate_spec(Attribute::TaxiY, s, t)),
        ),
        passenger: v.passenger.update(
            i,
            ce_learn_spec(v.passenger[i], c, generate_spec(Attribute::Passenger, s, t)),
        ),
    }
}

pub open spec fn views_of(learners: Seq<CELearner>) -> Seq<Seq<Rule>> {
    learners.map_values(|l: CELearner| l@)
}

/// A full transition model: for each action, one rule set for the taxi's column, one for its
/// row and one for the passenger's location.
pub struct MCELearner {
    taxi_x_learners: Vec<CELearner>,
    taxi_y_learners: Vec<CELearner>,
    passenger_learners: Vec<CELearner>,
}

impl View for MCELearner {
    type V = MCEView;

    closed spec fn view(&self) -> MCEView {
        MCEView {
            taxi_x: views_of(self.taxi_x_learners@),
            taxi_y: views_of(self.taxi_y_learners@),
            passenger: views_of(self.passenger_learners@),
        }
    }
}

/// One empty rule set per action, for `attribute`.
fn empty_learners(attribute: Attribute) -> (r: Vec<CELearner>)
    ensures
        r@.len() == NUM_ACTIONS,
        forall|i: int| 0 <= i < NUM_ACTIONS ==> (#[trigger] r@[i]).attribute() == attribute,
        views_of(r@) == Seq::new(NUM_ACTIONS as nat, |i: int| Seq::<Rule>::empty()),
{
    let mut r: Vec<CELearner> = Vec::new();
    let mut i: usize = 0;
    while i < NUM_ACTIONS
        invariant
            i <= NUM_ACTIONS,
            r@.len() == i,
            forall|k: int| 0 <= k < i ==> (#[trigger] r@[k]).attribute() == attribute,
            forall|k: int| 0 <= k < i ==> (#[trigger] r@[k])@ == Seq::<Rule>::empty(),
        decreases NUM_ACTIONS - i,
    {
        r.push(CELearner::new(attribute));
        i = i + 1;
    }
    assert(views_of(r@) =~= Seq::new(NUM_ACTIONS as nat, |i: int| Seq::<Rule>::empty()));
    r
}

impl MCELearner {
    /// One rule set per action for each attribute, each learning its own attribute.
    pub closed spec fn wf(&self) -> bool {
        &&& self.taxi_x_learners@.len() == NUM_ACTIONS
        &&& self.taxi_y_learners@.len() == NUM_ACTIONS
        &&& self.passenger_learners@.len() == NUM_ACTIONS
        &&& forall|i: int|
            0 <= i < NUM_ACTIONS ==> (#[trigger] self.taxi_x_learners@[i]).attribute()
                == Attribute::TaxiX
        &&& forall|i: int|
            0 <= i < NUM_ACTIONS ==> (#[trigger] self.taxi_y_learners@[i]).attribute()
                == Attribute::TaxiY
        &&& forall|i: int|
            0 <= i < NUM_ACTIONS ==> (#[trigger] self.passenger_learners@[i]).attribute()
                == Attribute::Passenger
    }

    pub fn new() -> (r: MCELearner)
        ensures
            r.wf(),
            r@ == empty_model(),
    {
        MCELearner {
            taxi_x_learners: empty_learners(Attribute::TaxiX),
            taxi_y_learners: empty_learners(Attribute::TaxiY),
            passenger_learners: empty_learners(Attribute::Passenger),
        }
    }

    /// The state that `action` leads to from `state`, or `Ok(None)` where the model cannot
    /// tell yet.
    pub fn predict(&self, world: &World, state: &State, action: Actions) -> (r: Result<
        Option<State>,
        StateError,
    >)
        requires
            self.wf(),
            in_bounds(world@, state.taxi.x as int, state.taxi.y as int),
        ensures
            r == mce_predict_spec(self@, world@, *state, action),
    {
        let condition = Condition::new(world, state);
        let action_index = action.to_index();
        match self.taxi_x_learners[action_index].predict(world, state, &condition) {
            Err(e) => Err(e),
            Ok(None) => Ok(None),
            Ok(Some(predicted_taxi_x)) => match self.taxi_y_learners[action_index].predict(
                world,
                state,
                &condition,
            ) {
                Err(e) => Err(e),
                Ok(None) => Ok(None),
                Ok(Some(predicted_taxi_y)) => match self.passenger_learners[action_index].predict(
                    world,
                    state,
                    &condition,
                ) {
                    Err(e) => Err(e),
                    Ok(None) => Ok(None),
                    Ok(Some(predicted_passenger)) => match State::build(
                        world,
                        (predicted_taxi_x.get_taxi().x, predicted_taxi_y.get_taxi().y),
                        predicted_passenger.get_passenger(),
                        state.get_destination(),
                    ) {
                        Err(e) => Err(e),
                        Ok(t) => Ok(Some(t)),
                    },
                },
            },
        }
    }

    /// Learns from the transition from `state` to `new_state` under `action`.
    pub fn apply_experience(
        &mut self,
        world: &World,
        state: &State,
        action: Actions,
        new_state: &State,
    )
        requires
            old(self).wf(),
            in_bounds(world@, state.taxi.x as int, state.taxi.y as int),
        ensures
            final(self).wf(),
            final(self)@ == mce_learn_spec(old(self)@, world@, *state, action, *new_state),
    {
        let condition = Condition::new(world, state);
        let i = action.to_index();

        let mut learner = self.taxi_x_learners.remove(i);
        learner.apply_experience(&condition, state, new_state);
        self.taxi_x_learners.insert(i, learner);

        let mut learner = self.taxi_y_learners.remove(i);
        learner.apply_experience(&condition, state, new_state);
        self.taxi_y_learners.insert(i, learner);

        let mut learner = self.passenger_learners.remove(i);
        learner.apply_experience(&condition, state, new_state);
        self.passenger_learners.insert(i, learner);

        assert(self@.taxi_x =~= mce_learn_spec(old(self)@, world@, *state, action, *new_state).taxi_x);
        assert(self@.taxi_y =~= mce_learn_spec(old(self)@, world@, *state, action, *new_state).taxi_y);
        assert(self@.passenger =~= mce_learn_spec(old(self)@, world@, *state, action, *new_state).passenger);
    }
}

} // verus!

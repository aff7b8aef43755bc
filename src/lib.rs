//! Incremental learning of conditioned effects and rewards for the grid taxi domain.
//!
//! A `ConditionLearner` keeps one conjunctive hypothesis over the boolean literals of a
//! `Condition`. A `CELearner` owns a set of (hypothesis, effect) rules for one action and one
//! state attribute, and a `RewardLearner` does the same for the scalar reward. The composite
//! learners keep one rule set per action.
pub mod condition;
pub mod condition_learner;
mod text;
pub mod position;
pub mod actions;
pub mod world;
pub mod state;
pub mod effect;
pub mod mcelearner;
pub mod multirewardlearner;

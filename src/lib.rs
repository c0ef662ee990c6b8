//! Tabular reinforcement learning over finite Markov decision processes.
//!
//! The library keeps the discrete side of the model: dense state and action
//! identifiers, grid layouts and the way each grid move spreads its
//! probability mass over next states, policies as maps from states to
//! actions, and the step rule of a policy rollout.

pub mod grid;
pub mod mass;
pub mod model;
pub mod optimizer;
pub mod policy;
pub mod rollout;

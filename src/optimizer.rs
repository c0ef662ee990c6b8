use crate::model::MDPError;
use crate::policy::Policy;
use vstd::prelude::*;

verus! {

/// An algorithm that searches for an optimal policy of a decision process
/// `M` over states `S` and actions `A`.
pub trait Optimizer<S, A, M> {
    fn find_optimal_policy(&self, mdp: &M) -> Result<Policy, MDPError>;
}

} // verus!

use vstd::prelude::*;
use vstd::string::StringExecFns;

verus! {

/// Errors of construction (a malformed grid or tensor) and of planning or
/// rollout (a state without an action or without a transition).
#[derive(Debug, Clone, Copy, PartialEq, Eq, Structural)]
pub enum MDPError {
    Empty,
    NoAction { state: usize },
    NoTransition { state: usize },
    InvalidTransitionMatrix,
    InvalidRewardMatrix,
}

/// The character of a decimal digit.
pub open spec fn digit_char(d: nat) -> char {
    seq!['0', '1', '2', '3', '4', '5', '6', '7', '8', '9'][d as int]
}

/// The decimal writing of a number, without leading zeros.
pub open spec fn decimal(n: nat) -> Seq<char>
    decreases n,
{
    if n < 10 {
        seq![digit_char(n)]
    } else {
        decimal(n / 10) + seq![digit_char(n % 10)]
    }
}

/// Relies on std's `ToString` for `usize`, which writes the number in decimal.
#[verifier::external_body]
fn decimal_string(n: usize) -> (r: String)
    ensures
        r@ == decimal(n as nat),
{
    n.to_string()
}

/// The message that describes an error.
pub open spec fn message(e: MDPError) -> Seq<char> {
    match e {
        MDPError::Empty => "The MDP cannot be empty"@,
        MDPError::NoAction { state } => "No action available for state "@ + decimal(state as nat)
            + "."@,
        MDPError::NoTransition { state } => "No transition is available for state "@ + decimal(
            state as nat,
        ) + "."@,
        MDPError::InvalidTransitionMatrix =>
            "The transition matrix is invalid. Either the dimensions are incorrect or the probabilities do not sum to 1"@,
        MDPError::InvalidRewardMatrix => "The reward matrix has invalid dimensions"@,
    }
}

impl MDPError {
    /// The error's message.
    pub fn to_string(&self) -> (r: String)
        ensures
            r@ == message(*self),
    {
        match self {
            MDPError::Empty => String::from_str("The MDP cannot be empty"),
            MDPError::NoAction { state } => {
                let mut text = String::from_str("No action available for state ");
                let digits = decimal_string(*state);
                text.append(digits.as_str());
                text.append(".");
                text
            },
            MDPError::NoTransition { state } => {
                let mut text = String::from_str("No transition is available for state ");
                let digits = decimal_string(*state);
                text.append(digits.as_str());
                text.append(".");
                text
            },
            MDPError::InvalidTransitionMatrix => String::from_str(
                "The transition matrix is invalid. Either the dimensions are incorrect or the probabilities do not sum to 1",
            ),
            MDPError::InvalidRewardMatrix => String::from_str(
                "The reward matrix has invalid dimensions",
            ),
        }
    }
}

/// A state with a dense, zero-based identifier.
///
/// `state_id` is the identifier that `id` returns, as a specification value;
/// an implementation written outside verified code defines it as a plain
/// method that returns the same identifier.
pub trait State {
    spec fn state_id(&self) -> usize;

    fn id(&self) -> (r: usize)
        ensures
            r == self.state_id(),
    ;
}

/// An action with a dense, zero-based identifier.
///
/// `action_id` is the identifier that `id` returns, as a specification value,
/// defined as `State::state_id` is.
pub trait Action {
    spec fn action_id(&self) -> usize;

    fn id(&self) -> (r: usize)
        ensures
            r == self.action_id(),
    ;
}

/// A bare identifier stands for the state it identifies.
impl State for usize {
    open spec fn state_id(&self) -> usize {
        *self
    }

    fn id(&self) -> (r: usize) {
        *self
    }
}

/// A bare identifier stands for the action it identifies.
impl Action for usize {
    open spec fn action_id(&self) -> usize {
        *self
    }

    fn id(&self) -> (r: usize) {
        *self
    }
}

} // verus!

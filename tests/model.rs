use readapt::model::MDPError;

#[test]
fn error_messages() {
    assert_eq!(
        MDPError::NoAction { state: 0 }.to_string(),
        "No action available for state 0."
    );
    assert_eq!(
        MDPError::NoAction { state: 120 }.to_string(),
        "No action available for state 120."
    );
    assert_eq!(
        MDPError::NoTransition { state: 7 }.to_string(),
        "No transition is available for state 7."
    );
    assert_eq!(MDPError::Empty.to_string(), "The MDP cannot be empty");
    assert_eq!(
        MDPError::InvalidRewardMatrix.to_string(),
        "The reward matrix has invalid dimensions"
    );
    assert!(MDPError::InvalidTransitionMatrix
        .to_string()
        .starts_with("The transition matrix is invalid."));
}

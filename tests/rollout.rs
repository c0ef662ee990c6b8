use rand::Rng;
use readapt::model::MDPError;
use readapt::policy::Policy;
use readapt::rollout::{run_policy, Rollout, Step};
use std::collections::HashMap;

/// A line of `n` states where every action moves one step forward or
/// backward at random; the last state is terminal.
fn line_step(n: usize, state: usize) -> usize {
    if rand::thread_rng().gen_bool(0.5) {
        if state != n - 1 {
            state + 1
        } else {
            state
        }
    } else if state != 0 {
        state - 1
    } else {
        0
    }
}

#[test]
fn run_incomplete_policy() {
    // creates a policy having no action for the starting state
    let incomplete_policy = Policy::new(HashMap::from([(1, 0)]));
    let episode = run_policy(&incomplete_policy, 0, 10, |s, _| line_step(2, s), |s| s == 1);

    assert!(episode.is_err());
    assert!(episode
        .unwrap_err()
        .to_string()
        .contains("No action available for state 0."));
}

#[test]
fn run_random_policy() {
    let states: Vec<usize> = (0..10).collect();
    let actions: Vec<usize> = vec![0, 1];
    let policy = Policy::random(&states, &actions);
    let trajectory = run_policy(&policy, 0, 100, |s, _| line_step(10, s), |s| s == 9).unwrap();

    // starting state is always zero
    assert_eq!(trajectory[0], 0);

    // consecutive states in the trajectory should have contiguous IDs
    for i in 0..trajectory.len() - 1 {
        assert!(trajectory[i].abs_diff(trajectory[i + 1]) <= 1);
    }

    // the run stops at the cap or at the first terminal state
    assert!(trajectory.len() <= 101);
    assert!(trajectory[1..trajectory.len() - 1].iter().all(|&s| s != 9));
    assert!(trajectory.len() == 101 || *trajectory.last().unwrap() == 9);
}

#[test]
fn run_stops_at_first_terminal() {
    let policy = Policy::new(HashMap::from([(0, 0), (1, 0), (2, 0), (3, 0)]));
    let trajectory = run_policy(&policy, 0, 10, |s, _| s + 1, |s| s == 3).unwrap();
    assert_eq!(trajectory, vec![0, 1, 2, 3]);
}

#[test]
fn run_stops_at_step_cap() {
    let policy = Policy::new(HashMap::from([(0, 1), (1, 1)]));
    let trajectory = run_policy(&policy, 0, 5, |s, _| 1 - s, |_| false).unwrap();
    assert_eq!(trajectory, vec![0, 1, 0, 1, 0, 1]);
}

#[test]
fn run_without_steps_keeps_the_start() {
    let policy = Policy::new(HashMap::new());
    let trajectory = run_policy(&policy, 4, 0, |s, _| s, |_| false).unwrap();
    assert_eq!(trajectory, vec![4]);
}

#[test]
fn starting_in_a_terminal_state_still_moves() {
    let policy = Policy::new(HashMap::from([(3, 0)]));
    let trajectory = run_policy(&policy, 3, 10, |s, _| s, |s| s == 3).unwrap();
    assert_eq!(trajectory, vec![3, 3]);
}

#[test]
fn missing_action_later_fails() {
    let policy = Policy::new(HashMap::from([(0, 0)]));
    let result = run_policy(&policy, 0, 10, |s, _| s + 1, |_| false);
    assert_eq!(result, Err(MDPError::NoAction { state: 1 }));
}

#[test]
fn rollout_steps() {
    let policy = Policy::new(HashMap::from([(0, 2), (5, 1)]));
    let mut rollout = Rollout::new(0, 3);
    assert_eq!(rollout.next(&policy), Ok(Step::Act { state: 0, action: 2 }));
    rollout.advance(5, false);
    assert_eq!(rollout.next(&policy), Ok(Step::Act { state: 5, action: 1 }));
    rollout.advance(6, true);
    assert!(rollout.is_finished());
    assert_eq!(rollout.next(&policy), Ok(Step::Done));
    assert_eq!(rollout.starting_state(), 0);
    assert_eq!(rollout.trajectory(), &vec![0, 5, 6]);
}

#[test]
fn terminal_start_takes_one_step() {
    let policy = Policy::new(HashMap::from([(2, 0), (3, 0)]));
    let trajectory = run_policy(&policy, 2, 10, |s, _| s + 1, |s| s == 2 || s == 3).unwrap();
    assert_eq!(trajectory, vec![2, 3]);
}

#[test]
fn no_steps_ignore_missing_action() {
    let policy = Policy::new(HashMap::new());
    assert_eq!(run_policy(&policy, 6, 0, |s, _| s, |_| false), Ok(vec![6]));
}

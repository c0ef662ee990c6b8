use readapt::grid::{check_shape, Grid, Mass, Move, Share};
use readapt::model::{Action, MDPError, State};

fn sums_to_one(row: &Vec<f64>) -> bool {
    row.iter().sum::<f64>() == 1f64
}

fn absorbs(row: &Vec<f64>, state: usize) -> bool {
    row.iter()
        .enumerate()
        .all(|(next, &p)| if next == state { p == 1f64 } else { p == 0f64 })
}

#[test]
fn empty_grid() {
    let transitions: Vec<Vec<Vec<f64>>> = vec![];
    let rewards: Vec<Vec<Vec<f64>>> = vec![];
    if let Err(error) = Grid::new(0, 0, &transitions, &rewards, sums_to_one, absorbs, |_| false) {
        assert_eq!(error, MDPError::Empty);
    } else {
        panic!("an empty grid was accepted");
    }
}

#[test]
fn invalid_matrices() {
    // The transition matrix does not have proper dimensions
    let transitions = vec![vec![vec![0f64; 4]; 16]; 16];
    let rewards = vec![vec![vec![0f64; 16]; 4]; 16];

    if let Err(error) = Grid::new(4, 4, &transitions, &rewards, sums_to_one, absorbs, |_| false) {
        assert_eq!(error, MDPError::InvalidTransitionMatrix);
    }

    // The transition matrix does not sum to 1
    let transitions = vec![vec![vec![0f64; 16]; 4]; 16];
    let rewards = vec![vec![vec![0f64; 16]; 4]; 16];

    if let Err(error) = Grid::new(4, 4, &transitions, &rewards, sums_to_one, absorbs, |_| false) {
        assert_eq!(error, MDPError::InvalidTransitionMatrix);
    }

    // The reward matrix does not have proper dimensions
    let transitions = vec![vec![vec![1.0 / 16.0; 16]; 4]; 16];
    let rewards = vec![vec![vec![0f64; 4]; 16]; 16];

    if let Err(error) = Grid::new(4, 4, &transitions, &rewards, sums_to_one, absorbs, |_| false) {
        assert_eq!(error, MDPError::InvalidRewardMatrix);
    }
}

#[test]
fn explicit_grid_is_accepted() {
    let mut transitions = vec![vec![vec![0.25f64; 4]; 4]; 4];
    transitions[0] = vec![vec![1f64, 0f64, 0f64, 0f64]; 4];
    let rewards = vec![vec![vec![0f64; 4]; 4]; 4];
    let grid = Grid::new(2, 2, &transitions, &rewards, sums_to_one, absorbs, |t| t.id() == 0).unwrap();
    assert_eq!(grid.rows(), 2);
    assert_eq!(grid.columns(), 2);
    assert_eq!(grid.n_states(), 4);
    assert_eq!(grid.n_terminal_states(), 1);
    assert!(grid.is_terminal(0));
    assert!(!grid.is_terminal(3));
}

#[test]
fn terminal_rows_must_absorb() {
    let transitions = vec![vec![vec![0.25f64; 4]; 4]; 4];
    let rewards = vec![vec![vec![0f64; 4]; 4]; 4];
    let result = Grid::new(2, 2, &transitions, &rewards, sums_to_one, absorbs, |t| t.id() == 0);
    assert_eq!(result.err(), Some(MDPError::InvalidTransitionMatrix));
    let accepted = Grid::new(2, 2, &transitions, &rewards, sums_to_one, absorbs, |_| false);
    assert!(accepted.is_ok());
}

#[test]
fn zero_columns_is_empty() {
    let transitions: Vec<Vec<Vec<f64>>> = vec![];
    let rewards: Vec<Vec<Vec<f64>>> = vec![];
    let result = Grid::new(3, 0, &transitions, &rewards, sums_to_one, absorbs, |_| false);
    assert_eq!(result.err(), Some(MDPError::Empty));
    assert_eq!(Grid::corner(0, 5).err(), Some(MDPError::Empty));
    assert_eq!(Grid::directional(0, 2, |_| false, |_| false).err(), Some(MDPError::Empty));
}

#[test]
fn wrong_action_count_is_invalid() {
    let transitions = vec![vec![vec![0.25f64; 4]; 3]; 4];
    let rewards = vec![vec![vec![0f64; 4]; 4]; 4];
    let result = Grid::new(2, 2, &transitions, &rewards, sums_to_one, absorbs, |_| false);
    assert_eq!(result.err(), Some(MDPError::InvalidTransitionMatrix));
}

#[test]
fn shapes() {
    assert!(check_shape(&vec![vec![vec![0u8; 3]; 2]; 3], 3, 2));
    assert!(!check_shape(&vec![vec![vec![0u8; 3]; 2]; 3], 3, 4));
    let mut ragged = vec![vec![vec![0u8; 3]; 2]; 3];
    ragged[2][1].pop();
    assert!(!check_shape(&ragged, 3, 2));
    let none: Vec<Vec<Vec<u8>>> = vec![];
    assert!(check_shape(&none, 0, 4));
}

#[test]
fn state_independent_world() {
    let grid = Grid::directional(
        2,
        2,
        |_| false, // there are no walls
        |s| s.id == 3,
    )
    .unwrap();

    assert_eq!(grid.rows(), 2);
    assert_eq!(grid.columns(), 2);
    assert_eq!(grid.n_terminal_states(), 1);
}

#[test]
fn corner_problem() {
    let grid = Grid::corner(3, 3).unwrap();

    assert_eq!(grid.rows(), 3);
    assert_eq!(grid.columns(), 3);
    assert_eq!(grid.n_terminal_states(), 2);
    assert!(grid.is_terminal(0));
    assert!(grid.is_terminal(8));
}

#[test]
fn tiles_are_numbered_by_rows() {
    let grid = Grid::corner(3, 4).unwrap();
    let tiles = grid.states();
    assert_eq!(tiles.len(), 12);
    assert_eq!((tiles[6].id(), tiles[6].x, tiles[6].y), (6, 1, 2));
    assert_eq!((tiles[11].id(), tiles[11].x, tiles[11].y), (11, 2, 3));
}

#[test]
fn neighbors_stay_on_the_grid() {
    let grid = Grid::corner(3, 4).unwrap();
    assert_eq!(grid.neighbor(5, Move::North), 1);
    assert_eq!(grid.neighbor(5, Move::South), 9);
    assert_eq!(grid.neighbor(5, Move::East), 6);
    assert_eq!(grid.neighbor(5, Move::West), 4);
    assert_eq!(grid.neighbor(1, Move::North), 1);
    assert_eq!(grid.neighbor(9, Move::South), 9);
    assert_eq!(grid.neighbor(7, Move::East), 7);
    assert_eq!(grid.neighbor(4, Move::West), 4);
}

#[test]
fn directional_shares_bounce_off_walls() {
    let grid = Grid::directional(3, 4, |t| t.id == 5, |t| t.id == 3 || t.id == 7).unwrap();
    assert!(grid.is_wall(5));
    assert!(!grid.is_wall(4));
    // from tile 4 the wall lies east and the border west; a bounce off
    // either stays in place without a reward
    let shares = grid.directional_shares(4);
    assert_eq!(
        shares,
        vec![
            Share { next_state: 0, mass: Mass::Toward(Move::North), rewarded: true },
            Share { next_state: 8, mass: Mass::Toward(Move::South), rewarded: true },
            Share { next_state: 4, mass: Mass::Toward(Move::West), rewarded: false },
            Share { next_state: 4, mass: Mass::Toward(Move::East), rewarded: false },
        ]
    );
}

#[test]
fn terminal_tiles_absorb() {
    let grid = Grid::directional(3, 4, |t| t.id == 5, |t| t.id == 3 || t.id == 7).unwrap();
    let absorbing = vec![Share { next_state: 7, mass: Mass::Certain, rewarded: false }];
    assert_eq!(grid.directional_shares(7), absorbing);
    let corner = Grid::corner(3, 4).unwrap();
    for action in Move::actions() {
        assert_eq!(
            corner.corner_shares(11, action),
            vec![Share { next_state: 11, mass: Mass::Certain, rewarded: false }]
        );
    }
}

#[test]
fn corner_shares_succeed_or_fail() {
    let grid = Grid::corner(3, 3).unwrap();
    assert_eq!(
        grid.corner_shares(4, Move::North),
        vec![
            Share { next_state: 1, mass: Mass::Success, rewarded: true },
            Share { next_state: 4, mass: Mass::Failure, rewarded: true },
        ]
    );
    assert_eq!(
        grid.corner_shares(2, Move::North),
        vec![Share { next_state: 2, mass: Mass::Certain, rewarded: true }]
    );
}

#[test]
fn move_identifiers() {
    let ids: Vec<usize> = Move::actions().iter().map(|m| m.id()).collect();
    assert_eq!(ids, vec![0, 1, 2, 3]);
    assert_eq!(Move::from_id(2), Move::East);
    assert_eq!(Move::len(), 4);
}

/// The probability of moving in `direction` when `action` is intended:
/// 0.8 ahead, 0.1 to each side, nothing backward.
fn movement(action: Move, direction: Move) -> f64 {
    if action == direction {
        0.8
    } else {
        let backward = match action {
            Move::North => Move::South,
            Move::South => Move::North,
            Move::East => Move::West,
            Move::West => Move::East,
        };
        if direction == backward {
            0.0
        } else {
            0.1
        }
    }
}

#[test]
fn directional_rows_sum_to_one() {
    let grid = Grid::directional(3, 4, |t| t.id == 5, |t| t.id == 3 || t.id == 7).unwrap();
    for state in 0..grid.n_states() {
        for action in Move::actions() {
            let mut row = vec![0f64; grid.n_states()];
            for share in grid.directional_shares(state) {
                row[share.next_state] += match share.mass {
                    Mass::Toward(direction) => movement(action, direction),
                    _ => 1.0,
                };
            }
            let total: f64 = row.iter().sum();
            assert!((total - 1.0).abs() < 1e-12);
        }
    }
}

#[test]
fn corner_rows_sum_to_one() {
    let grid = Grid::corner(4, 4).unwrap();
    let uncertainty = 0.3;
    for state in 0..grid.n_states() {
        for action in Move::actions() {
            let mut row = vec![0f64; grid.n_states()];
            for share in grid.corner_shares(state, action) {
                row[share.next_state] += match share.mass {
                    Mass::Success => 1.0 - uncertainty,
                    Mass::Failure => uncertainty,
                    _ => 1.0,
                };
            }
            let total: f64 = row.iter().sum();
            assert!((total - 1.0).abs() < 1e-12);
            if state == 0 || state == 15 {
                assert_eq!(row[state], 1.0);
            }
        }
    }
}

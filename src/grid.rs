use crate::model::{Action, MDPError, State};
use std::collections::HashSet;
use vstd::arithmetic::div_mod::{lemma_fundamental_div_mod, lemma_mod_bound};
use vstd::prelude::*;

verus! {

broadcast use vstd::std_specs::hash::group_hash_axioms;

/// A movement on the grid: up, down, right or left.
#[derive(Debug, Clone, Copy, PartialEq, Eq, Structural)]
pub enum Move {
    North,
    South,
    East,
    West,
}

impl Action for Move {
    open spec fn action_id(&self) -> usize {
        match *self {
            Move::North => 0,
            Move::South => 1,
            Move::East => 2,
            Move::West => 3,
        }
    }

    fn id(&self) -> (r: usize) {
        match self {
            Move::North => 0,
            Move::South => 1,
            Move::East => 2,
            Move::West => 3,
        }
    }
}

impl Move {
    /// The number of movements.
    pub fn len() -> (r: usize)
        ensures
            r == 4,
    {
        4
    }

    /// All movements, ordered by identifier.
    pub fn actions() -> (r: Vec<Move>)
        ensures
            r@ == seq![Move::North, Move::South, Move::East, Move::West],
            forall|i: int| 0 <= i < 4 ==> (#[trigger] r@[i]).action_id() == i,
    {
        vec![Move::North, Move::South, Move::East, Move::West]
    }

    /// The movement with the given identifier.
    pub fn from_id(id: usize) -> (r: Move)
        requires
            id < 4,
        ensures
            r.action_id() == id,
    {
        if id == 0 {
            Move::North
        } else if id == 1 {
            Move::South
        } else if id == 2 {
            Move::East
        } else {
            Move::West
        }
    }
}

/// A cell of the grid: its identifier, its row `x` and its column `y`.
#[derive(Debug, Clone, Copy, PartialEq, Eq, Structural, Hash)]
pub struct Tile {
    pub id: usize,
    pub x: usize,
    pub y: usize,
}

impl State for Tile {
    open spec fn state_id(&self) -> usize {
        self.id
    }

    fn id(&self) -> (r: usize) {
        self.id
    }
}

/// The tile with identifier `id` on a grid of `columns` columns.
pub open spec fn tile_of(columns: nat, id: nat) -> Tile {
    Tile { id: id as usize, x: (id / columns) as usize, y: (id % columns) as usize }
}

/// The cell reached from `s` by the movement `m`, staying in place at the border.
pub open spec fn neighbor(rows: nat, columns: nat, s: nat, m: Move) -> nat {
    let x = s / columns;
    let y = s % columns;
    match m {
        Move::North => if x == 0 { s } else { (s - columns) as nat },
        Move::South => if x + 1 == rows { s } else { s + columns },
        Move::West => if y == 0 { s } else { (s - 1) as nat },
        Move::East => if y + 1 == columns { s } else { s + 1 },
    }
}

/// Whether a tensor has the shape states by actions by states.
pub open spec fn has_shape<T>(t: Seq<Vec<Vec<T>>>, n_states: nat, n_actions: nat) -> bool {
    &&& t.len() == n_states
    &&& forall|s: int| 0 <= s < n_states ==> (#[trigger] t[s])@.len() == n_actions
    &&& forall|s: int, a: int|
        0 <= s < n_states && 0 <= a < n_actions ==> (#[trigger] t[s]@[a])@.len() == n_states
}

/// What a grid is made of, as mathematical values.
pub ghost struct GridView {
    pub rows: nat,
    pub columns: nat,
    pub terminal: Set<usize>,
    pub walls: Seq<bool>,
}

impl GridView {
    /// The number of tiles.
    pub open spec fn n_states(self) -> nat {
        self.rows * self.columns
    }

    /// Whether tile `s` is terminal.
    pub open spec fn is_terminal(self, s: nat) -> bool {
        self.terminal.contains(s as usize)
    }

    /// The tile reached from `s` by the movement `m`.
    pub open spec fn neighbor(self, s: nat, m: Move) -> nat {
        neighbor(self.rows, self.columns, s, m)
    }
}

/// The result of a check with its payload dropped.
pub open spec fn outcome_of<V>(r: Result<V, MDPError>) -> Result<(), MDPError> {
    match r {
        Ok(_) => Ok(()),
        Err(e) => Err(e),
    }
}

/// Whether `marks` holds, for every tile of a grid, what `predicate` said of it.
pub open spec fn marked_by<F: Fn(&Tile) -> bool>(
    marks: Seq<bool>,
    columns: nat,
    predicate: F,
) -> bool {
    forall|i: int|
        0 <= i < marks.len() ==> #[trigger] predicate.ensures(
            (&tile_of(columns, i as nat),),
            marks[i],
        )
}

/// The flags of a set of identifiers below `n`.
pub open spec fn flags_of(set: Set<usize>, n: nat) -> Seq<bool> {
    Seq::new(n, |i: int| set.contains(i as usize))
}

/// How a share of the probability mass of a move is weighed: all of it, the
/// part that the movement model gives to one direction, the part of a
/// successful move, or the part of a failed one.
#[derive(Debug, Clone, Copy, PartialEq, Eq, Structural)]
pub enum Mass {
    Certain,
    Toward(Move),
    Success,
    Failure,
}

/// A share of the probability mass of a (state, action) pair: the next state
/// that receives it, its weight, and whether the move's reward is recorded
/// on that next state.
#[derive(Debug, Clone, Copy, PartialEq, Eq, Structural)]
pub struct Share {
    pub next_state: usize,
    pub mass: Mass,
    pub rewarded: bool,
}

/// The shares of a terminal state: all the mass stays there.
pub open spec fn absorbing(s: nat) -> Seq<Share> {
    seq![Share { next_state: s as usize, mass: Mass::Certain, rewarded: false }]
}

/// Where the part of the mass that the movement model gives to direction `d`
/// goes from `s`: to the neighbour, or back to `s` where the neighbour is a
/// wall or the border. Only an actual move into another tile earns a reward.
pub open spec fn routed(g: GridView, s: nat, d: Move) -> Share {
    let t = g.neighbor(s, d);
    if t == s || g.walls[t as int] {
        Share { next_state: s as usize, mass: Mass::Toward(d), rewarded: false }
    } else {
        Share { next_state: t as usize, mass: Mass::Toward(d), rewarded: true }
    }
}

/// The shares of state `s` under the directional movement model; they are the
/// same for every action, the weights of the directions being the action's.
pub open spec fn directional_shares(g: GridView, s: nat) -> Seq<Share> {
    if g.is_terminal(s) {
        absorbing(s)
    } else {
        seq![
            routed(g, s, Move::North),
            routed(g, s, Move::South),
            routed(g, s, Move::West),
            routed(g, s, Move::East),
        ]
    }
}

/// The shares of state `s` and action `a` in the corner world: a move that
/// leaves the cell succeeds or fails, and one into the border stays in place;
/// every one of them, failed or not, costs the move's reward.
pub open spec fn corner_shares(g: GridView, s: nat, a: Move) -> Seq<Share> {
    let t = g.neighbor(s, a);
    if g.is_terminal(s) {
        absorbing(s)
    } else if t == s {
        seq![Share { next_state: s as usize, mass: Mass::Certain, rewarded: true }]
    } else {
        seq![
            Share { next_state: t as usize, mass: Mass::Success, rewarded: true },
            Share { next_state: s as usize, mass: Mass::Failure, rewarded: true },
        ]
    }
}

/// A rectangular grid of tiles, some of them terminal and some of them walls.
pub struct Grid {
    rows: usize,
    columns: usize,
    states: Vec<Tile>,
    terminal_states: HashSet<usize>,
    walls: Vec<bool>,
}

impl View for Grid {
    type V = GridView;

    closed spec fn view(&self) -> GridView {
        GridView {
            rows: self.rows as nat,
            columns: self.columns as nat,
            terminal: self.terminal_states@,
            walls: self.walls@,
        }
    }
}

/// A neighbour stays on the grid; a tile's row and column are in range, and
/// it has room for the moves that leave it north or west.
pub proof fn lemma_neighbor_bounds(rows: nat, columns: nat, s: nat, m: Move)
    requires
        rows > 0,
        columns > 0,
        s < rows * columns,
    ensures
        neighbor(rows, columns, s, m) < rows * columns,
        s / columns < rows,
        s % columns < columns,
        s / columns > 0 ==> s >= columns,
        s % columns > 0 ==> s >= 1,
{
    lemma_fundamental_div_mod(s as int, columns as int);
    lemma_mod_bound(s as int, columns as int);
    let x = s / columns;
    let y = s % columns;
    assert(s == columns * x + y);
    assert(x < rows) by (nonlinear_arith)
        requires
            s == columns * x + y,
            s < rows * columns,
            0 <= y,
    ;
    assert(x + 1 < rows ==> s + columns < rows * columns) by (nonlinear_arith)
        requires
            s == columns * x + y,
            y < columns,
    ;
    assert(columns * x + columns <= rows * columns) by (nonlinear_arith)
        requires
            x < rows,
    ;
    assert(x > 0 ==> s >= columns) by (nonlinear_arith)
        requires
            s == columns * x + y,
            0 <= y,
    ;
}

impl Grid {
    /// The grid's invariant: a tile per cell, identified by `row * columns + column`.
    pub closed spec fn wf(&self) -> bool {
        &&& self.rows > 0
        &&& self.columns > 0
        &&& self.rows * self.columns <= usize::MAX
        &&& self.states@.len() == self.rows * self.columns
        &&& forall|i: int|
            0 <= i < self.states@.len() ==> #[trigger] self.states@[i] == tile_of(
                self.columns as nat,
                i as nat,
            )
        &&& self.walls@.len() == self.rows * self.columns
        &&& forall|t: usize| #[trigger]
            self.terminal_states@.contains(t) ==> t < self.rows * self.columns
    }

    /// A grid with caller-supplied transition and reward tensors, checked
    /// for their shapes, for rows that sum to one, and for terminal tiles
    /// whose rows keep all the mass in place.
    pub fn new<
        T,
        P: Fn(&Vec<T>) -> bool,
        Q: Fn(&Vec<T>, usize) -> bool,
        F: Fn(&Tile) -> bool,
    >(
        rows: usize,
        columns: usize,
        transition_probabilities: &Vec<Vec<Vec<T>>>,
        rewards: &Vec<Vec<Vec<T>>>,
        sums_to_one: P,
        absorbs: Q,
        is_terminal_state: F,
    ) -> (r: Result<Grid, MDPError>)
        requires
            rows * columns <= usize::MAX,
            forall|row: &Vec<T>| #[trigger] sums_to_one.requires((row,)),
            forall|row: &Vec<T>, s: usize| #[trigger] absorbs.requires((row, s)),
            forall|t: &Tile| #[trigger] is_terminal_state.requires((t,)),
        ensures
            rows == 0 || columns == 0 ==> r == Err::<Grid, MDPError>(MDPError::Empty),
            rows > 0 && columns > 0 ==> exists|terminal: Seq<bool>|
                #[trigger] marked_by(terminal, columns as nat, is_terminal_state) && terminal.len()
                    == rows * columns && matrices_outcome(
                    outcome_of(r),
                    transition_probabilities@,
                    rewards@,
                    sums_to_one,
                    absorbs,
                    terminal,
                    (rows * columns) as nat,
                ) && ((r is Ok) ==> flags_of(r->Ok_0@.terminal, (rows * columns) as nat)
                    == terminal),
            r matches Ok(g) ==> {
                &&& g.wf()
                &&& g@.rows == rows
                &&& g@.columns == columns
                &&& marked_by(flags_of(g@.terminal, g@.n_states()), columns as nat, is_terminal_state)
                &&& forall|t: usize| #[trigger] g@.terminal.contains(t) ==> t < g@.n_states()
                &&& g@.walls == Seq::new(g@.n_states(), |i: int| false)
            },
    {
        if rows == 0 || columns == 0 {
            return Err(MDPError::Empty);
        }
        let n = rows * columns;
        let states = Grid::make_tiles(rows, columns);
        let marks = Grid::mark_tiles(&states, &is_terminal_state);
        proof {
            assert(marked_by(marks@, columns as nat, is_terminal_state)) by {
                assert forall|i: int| 0 <= i < marks@.len() implies #[trigger] is_terminal_state.ensures(
                    (&tile_of(columns as nat, i as nat),),
                    marks@[i],
                ) by {
                    assert(states@[i] == tile_of(columns as nat, i as nat));
                }
            }
        }
        match check_matrices(
            transition_probabilities,
            rewards,
            &sums_to_one,
            &absorbs,
            &marks,
            n,
        ) {
            Err(e) => Err(e),
            Ok(()) => {
                let walls: Vec<bool> = vec![false; n];
                Ok(Grid::assemble(rows, columns, states, &marks, walls))
            },
        }
    }

    /// A grid for the directional movement model, with its walls and terminal
    /// tiles as the two predicates decide.
    pub fn directional<W: Fn(&Tile) -> bool, F: Fn(&Tile) -> bool>(
        rows: usize,
        columns: usize,
        is_wall: W,
        is_terminal_state: F,
    ) -> (r: Result<Grid, MDPError>)
        requires
            rows * columns <= usize::MAX,
            forall|t: &Tile| #[trigger] is_wall.requires((t,)),
            forall|t: &Tile| #[trigger] is_terminal_state.requires((t,)),
        ensures
            rows == 0 || columns == 0 ==> r == Err::<Grid, MDPError>(MDPError::Empty),
            rows > 0 && columns > 0 ==> (r is Ok),
            r matches Ok(g) ==> {
                &&& g.wf()
                &&& g@.rows == rows
                &&& g@.columns == columns
                &&& marked_by(flags_of(g@.terminal, g@.n_states()), columns as nat, is_terminal_state)
                &&& forall|t: usize| #[trigger] g@.terminal.contains(t) ==> t < g@.n_states()
                &&& marked_by(g@.walls, columns as nat, is_wall)
            },
    {
        if rows == 0 || columns == 0 {
            return Err(MDPError::Empty);
        }
        let tiles = Grid::make_tiles(rows, columns);
        let walls = Grid::mark_tiles(&tiles, &is_wall);
        Ok(Grid::build(rows, columns, walls, &is_terminal_state))
    }

    /// The corner world: the top-left and the bottom-right tiles are terminal.
    pub fn corner(rows: usize, columns: usize) -> (r: Result<Grid, MDPError>)
        requires
            rows * columns <= usize::MAX,
        ensures
            rows == 0 || columns == 0 ==> r == Err::<Grid, MDPError>(MDPError::Empty),
            rows > 0 && columns > 0 ==> (r is Ok),
            r matches Ok(g) ==> {
                &&& g.wf()
                &&& g@.rows == rows
                &&& g@.columns == columns
                &&& g@.terminal == set![0usize, (rows * columns - 1) as usize]
                &&& g@.walls == Seq::new(g@.n_states(), |i: int| false)
            },
    {
        if rows == 0 || columns == 0 {
            return Err(MDPError::Empty);
        }
        let n = rows * columns;
        assert(n >= 1) by (nonlinear_arith)
            requires
                n == rows * columns,
                rows > 0,
                columns > 0,
        ;
        let states = Grid::make_tiles(rows, columns);
        let mut terminal_states: HashSet<usize> = HashSet::new();
        terminal_states.insert(0);
        terminal_states.insert(n - 1);
        let walls: Vec<bool> = vec![false; n];
        let g = Grid { rows, columns, states, terminal_states, walls };
        assert(g@.terminal =~= set![0usize, (n - 1) as usize]);
        assert(g@.walls =~= Seq::new(g@.n_states(), |i: int| false));
        Ok(g)
    }

    /// A grid with the given walls, whose terminal tiles `is_terminal_state` picks.
    fn build<F: Fn(&Tile) -> bool>(
        rows: usize,
        columns: usize,
        walls: Vec<bool>,
        is_terminal_state: &F,
    ) -> (r: Grid)
        requires
            rows > 0,
            columns > 0,
            rows * columns <= usize::MAX,
            walls@.len() == rows * columns,
            forall|t: &Tile| #[trigger] is_terminal_state.requires((t,)),
        ensures
            r.wf(),
            r@.rows == rows,
            r@.columns == columns,
            r@.walls == walls@,
            marked_by(flags_of(r@.terminal, r@.n_states()), columns as nat, *is_terminal_state),
            forall|t: usize| #[trigger] r@.terminal.contains(t) ==> t < r@.n_states(),
    {
        let states = Grid::make_tiles(rows, columns);
        let marks = Grid::mark_tiles(&states, is_terminal_state);
        Grid::assemble(rows, columns, states, &marks, walls)
    }

    /// A grid of the given tiles and walls, whose terminal tiles `marks` flags.
    fn assemble(
        rows: usize,
        columns: usize,
        states: Vec<Tile>,
        marks: &Vec<bool>,
        walls: Vec<bool>,
    ) -> (r: Grid)
        requires
            rows > 0,
            columns > 0,
            rows * columns <= usize::MAX,
            walls@.len() == rows * columns,
            states@.len() == rows * columns,
            forall|i: int| 0 <= i < states@.len() ==> #[trigger] states@[i] == tile_of(columns as nat, i as nat),
            marks@.len() == rows * columns,
        ensures
            r.wf(),
            r@.rows == rows,
            r@.columns == columns,
            r@.walls == walls@,
            flags_of(r@.terminal, r@.n_states()) == marks@,
            forall|t: usize| #[trigger] r@.terminal.contains(t) ==> t < r@.n_states(),
    {
        let terminal_states = Grid::marked_ids(&states, marks);
        let g = Grid { rows, columns, states, terminal_states, walls };
        assert(flags_of(g@.terminal, g@.n_states()) =~= marks@);
        g
    }

    /// The number of rows.
    pub fn rows(&self) -> (r: usize)
        ensures
            r == self@.rows,
    {
        self.rows
    }

    /// The number of columns.
    pub fn columns(&self) -> (r: usize)
        ensures
            r == self@.columns,
    {
        self.columns
    }

    /// The number of tiles.
    pub fn n_states(&self) -> (r: usize)
        requires
            self.wf(),
        ensures
            r == self@.n_states(),
    {
        self.rows * self.columns
    }

    /// The tiles, in identifier order.
    pub fn states(&self) -> (r: &[Tile])
        requires
            self.wf(),
        ensures
            r@ == Seq::new(self@.n_states(), |i: int| tile_of(self@.columns, i as nat)),
    {
        proof {
            assert(self.states@ =~= Seq::new(
                self@.n_states(),
                |i: int| tile_of(self@.columns, i as nat),
            ));
        }
        self.states.as_slice()
    }

    /// Whether tile `s` is terminal.
    pub fn is_terminal(&self, s: usize) -> (r: bool)
        ensures
            r == self@.terminal.contains(s),
    {
        self.terminal_states.contains(&s)
    }

    /// The number of terminal tiles.
    pub fn n_terminal_states(&self) -> (r: usize)
        ensures
            r == self@.terminal.len(),
    {
        self.terminal_states.len()
    }

    /// Whether tile `s` is a wall.
    pub fn is_wall(&self, s: usize) -> (r: bool)
        requires
            self.wf(),
            s < self@.n_states(),
        ensures
            r == self@.walls[s as int],
    {
        self.walls[s]
    }

    /// The tile reached from `s` by the movement `m`; a move off the grid
    /// stays in place.
    pub fn neighbor(&self, s: usize, m: Move) -> (r: usize)
        requires
            self.wf(),
            s < self@.n_states(),
        ensures
            r == self@.neighbor(s as nat, m),
            r < self@.n_states(),
    {
        proof {
            lemma_neighbor_bounds(self.rows as nat, self.columns as nat, s as nat, m);
            assert(self.states@[s as int] == tile_of(self.columns as nat, s as nat));
        }
        let x = self.states[s].x;
        let y = self.states[s].y;
        match m {
            Move::North => if x == 0 {
                s
            } else {
                s - self.columns
            },
            Move::South => if x + 1 == self.rows {
                s
            } else {
                s + self.columns
            },
            Move::West => if y == 0 {
                s
            } else {
                s - 1
            },
            Move::East => if y + 1 == self.columns {
                s
            } else {
                s + 1
            },
        }
    }

    /// Where the part of the mass toward `d` goes from `s`.
    fn route(&self, s: usize, d: Move) -> (r: Share)
        requires
            self.wf(),
            s < self@.n_states(),
        ensures
            r == routed(self@, s as nat, d),
    {
        let t = self.neighbor(s, d);
        if t == s || self.walls[t] {
            Share { next_state: s, mass: Mass::Toward(d), rewarded: false }
        } else {
            Share { next_state: t, mass: Mass::Toward(d), rewarded: true }
        }
    }

    /// How the mass of every action from `s` spreads under the directional
    /// movement model: each direction's part goes to the neighbour that way,
    /// or stays where that neighbour is a wall; a terminal tile keeps it all.
    pub fn directional_shares(&self, s: usize) -> (r: Vec<Share>)
        requires
            self.wf(),
            s < self@.n_states(),
        ensures
            r@ == directional_shares(self@, s as nat),
    {
        if self.terminal_states.contains(&s) {
            return vec![Share { next_state: s, mass: Mass::Certain, rewarded: false }];
        }
        let v = vec![
            self.route(s, Move::North),
            self.route(s, Move::South),
            self.route(s, Move::West),
            self.route(s, Move::East),
        ];
        proof {
            assert(v@ =~= directional_shares(self@, s as nat));
        }
        v
    }

    /// How the mass of action `a` from `s` spreads in the corner world.
    pub fn corner_shares(&self, s: usize, a: Move) -> (r: Vec<Share>)
        requires
            self.wf(),
            s < self@.n_states(),
        ensures
            r@ == corner_shares(self@, s as nat, a),
    {
        if self.terminal_states.contains(&s) {
            return vec![Share { next_state: s, mass: Mass::Certain, rewarded: false }];
        }
        let t = self.neighbor(s, a);
        if t == s {
            vec![Share { next_state: s, mass: Mass::Certain, rewarded: true }]
        } else {
            let v = vec![
                Share { next_state: t, mass: Mass::Success, rewarded: true },
                Share { next_state: s, mass: Mass::Failure, rewarded: true },
            ];
            proof {
                assert(v@ =~= corner_shares(self@, s as nat, a));
            }
            v
        }
    }

    /// The tiles of a grid with `rows` rows and `columns` columns, in identifier order.
    fn make_tiles(rows: usize, columns: usize) -> (r: Vec<Tile>)
        requires
            rows > 0,
            columns > 0,
            rows * columns <= usize::MAX,
        ensures
            r@.len() == rows * columns,
            forall|i: int| 0 <= i < r@.len() ==> #[trigger] r@[i] == tile_of(columns as nat, i as nat),
    {
        let n = rows * columns;
        let mut states: Vec<Tile> = Vec::with_capacity(n);
        let mut i: usize = 0;
        while i < n
            invariant
                n == rows * columns,
                columns > 0,
                i <= n,
                states@.len() == i,
                forall|k: int| 0 <= k < i ==> #[trigger] states@[k] == tile_of(columns as nat, k as nat),
            decreases n - i,
        {
            states.push(Tile { id: i, x: i / columns, y: i % columns });
            i = i + 1;
        }
        states
    }

    /// Evaluates a predicate on every tile and collects the verdicts.
    fn mark_tiles<F: Fn(&Tile) -> bool>(states: &Vec<Tile>, predicate: &F) -> (r: Vec<bool>)
        requires
            forall|t: &Tile| #[trigger] predicate.requires((t,)),
        ensures
            r@.len() == states@.len(),
            forall|i: int| 0 <= i < r@.len() ==> predicate.ensures((&states@[i],), #[trigger] r@[i]),
    {
        let mut marks: Vec<bool> = Vec::with_capacity(states.len());
        let mut i: usize = 0;
        while i < states.len()
            invariant
                i <= states@.len(),
                marks@.len() == i,
                forall|t: &Tile| #[trigger] predicate.requires((t,)),
                forall|k: int|
                    0 <= k < i ==> predicate.ensures((&states@[k],), #[trigger] marks@[k]),
            decreases states@.len() - i,
        {
            let mark = predicate(&states[i]);
            marks.push(mark);
            i = i + 1;
        }
        marks
    }

    /// The set of identifiers of the marked tiles.
    fn marked_ids(states: &Vec<Tile>, marks: &Vec<bool>) -> (r: HashSet<usize>)
        requires
            marks@.len() == states@.len(),
            forall|i: int| 0 <= i < states@.len() ==> (#[trigger] states@[i]).id == i,
        ensures
            forall|t: usize| r@.contains(t) <==> t < states@.len() && marks@[t as int],
    {
        let mut set: HashSet<usize> = HashSet::new();
        let mut i: usize = 0;
        while i < states.len()
            invariant
                i <= states@.len(),
                marks@.len() == states@.len(),
                forall|k: int| 0 <= k < states@.len() ==> (#[trigger] states@[k]).id == k,
                forall|t: usize| set@.contains(t) <==> t < i && marks@[t as int],
            decreases states@.len() - i,
        {
            if marks[i] {
                set.insert(states[i].id);
            }
            i = i + 1;
        }
        set
    }
}


/// What checking a transition and a reward tensor for `n_states` states may
/// give: a wrong transition shape, a transition row that `sums_to_one`
/// refuses, or a row of a terminal state (as `terminal` flags it) that
/// `absorbs` refuses is `InvalidTransitionMatrix`; then a wrong reward shape
/// is `InvalidRewardMatrix`; otherwise the tensors are accepted.
pub open spec fn matrices_outcome<T, P: Fn(&Vec<T>) -> bool, Q: Fn(&Vec<T>, usize) -> bool>(
    r: Result<(), MDPError>,
    transitions: Seq<Vec<Vec<T>>>,
    rewards: Seq<Vec<Vec<T>>>,
    sums_to_one: P,
    absorbs: Q,
    terminal: Seq<bool>,
    n_states: nat,
) -> bool {
    &&& r == Err::<(), MDPError>(MDPError::InvalidTransitionMatrix) || r == Err::<(), MDPError>(
        MDPError::InvalidRewardMatrix,
    ) || r == Ok::<(), MDPError>(())
    &&& !has_shape(transitions, n_states, 4) ==> r == Err::<(), MDPError>(
        MDPError::InvalidTransitionMatrix,
    )
    &&& r == Err::<(), MDPError>(MDPError::InvalidTransitionMatrix) && has_shape(
        transitions,
        n_states,
        4,
    ) ==> exists|s: int, a: int|
        0 <= s < n_states && 0 <= a < 4 && (sums_to_one.ensures((&transitions[s]@[a],), false) || (
        terminal[s] && absorbs.ensures((&transitions[s]@[a], s as usize), false)))
    &&& r != Err::<(), MDPError>(MDPError::InvalidTransitionMatrix) ==> {
        &&& has_shape(transitions, n_states, 4)
        &&& forall|s: int, a: int|
            0 <= s < n_states && 0 <= a < 4 ==> #[trigger] sums_to_one.ensures(
                (&transitions[s]@[a],),
                true,
            )
        &&& forall|s: int, a: int|
            0 <= s < n_states && 0 <= a < 4 && terminal[s] ==> #[trigger] absorbs.ensures(
                (&transitions[s]@[a], s as usize),
                true,
            )
        &&& (r == Err::<(), MDPError>(MDPError::InvalidRewardMatrix) <==> !has_shape(
            rewards,
            n_states,
            4,
        ))
    }
}

/// Whether a tensor has `n_states` by `n_actions` by `n_states` entries.
pub fn check_shape<T>(tensor: &Vec<Vec<Vec<T>>>, n_states: usize, n_actions: usize) -> (r: bool)
    ensures
        r == has_shape(tensor@, n_states as nat, n_actions as nat),
{
    if tensor.len() != n_states {
        return false;
    }
    let mut s: usize = 0;
    while s < n_states
        invariant
            tensor@.len() == n_states,
            s <= n_states,
            forall|k: int| 0 <= k < s ==> (#[trigger] tensor@[k])@.len() == n_actions,
            forall|k: int, a: int|
                0 <= k < s && 0 <= a < n_actions ==> (#[trigger] tensor@[k]@[a])@.len() == n_states,
        decreases n_states - s,
    {
        if tensor[s].len() != n_actions {
            return false;
        }
        let mut a: usize = 0;
        while a < n_actions
            invariant
                tensor@.len() == n_states,
                s < n_states,
                tensor@[s as int]@.len() == n_actions,
                a <= n_actions,
                forall|b: int| 0 <= b < a ==> (#[trigger] tensor@[s as int]@[b])@.len() == n_states,
            decreases n_actions - a,
        {
            if tensor[s][a].len() != n_states {
                return false;
            }
            a = a + 1;
        }
        s = s + 1;
    }
    true
}

/// Checks the shapes of a transition and a reward tensor, that every
/// transition row sums to one as `sums_to_one` decides, and that every row of
/// a terminal state `s` keeps all its mass on `s` as `absorbs` decides.
pub fn check_matrices<T, P: Fn(&Vec<T>) -> bool, Q: Fn(&Vec<T>, usize) -> bool>(
    transitions: &Vec<Vec<Vec<T>>>,
    rewards: &Vec<Vec<Vec<T>>>,
    sums_to_one: &P,
    absorbs: &Q,
    terminal: &Vec<bool>,
    n_states: usize,
) -> (r: Result<(), MDPError>)
    requires
        terminal@.len() == n_states,
        forall|row: &Vec<T>| #[trigger] sums_to_one.requires((row,)),
        forall|row: &Vec<T>, s: usize| #[trigger] absorbs.requires((row, s)),
    ensures
        matrices_outcome(
            r,
            transitions@,
            rewards@,
            *sums_to_one,
            *absorbs,
            terminal@,
            n_states as nat,
        ),
{
    if !check_shape(transitions, n_states, 4) {
        return Err(MDPError::InvalidTransitionMatrix);
    }
    let mut s: usize = 0;
    while s < n_states
        invariant
            has_shape(transitions@, n_states as nat, 4),
            s <= n_states,
            forall|row: &Vec<T>| #[trigger] sums_to_one.requires((row,)),
            forall|k: int, a: int|
                0 <= k < s && 0 <= a < 4 ==> #[trigger] sums_to_one.ensures(
                    (&transitions@[k]@[a],),
                    true,
                ),
        decreases n_states - s,
    {
        let mut a: usize = 0;
        while a < 4
            invariant
                has_shape(transitions@, n_states as nat, 4),
                s < n_states,
                a <= 4,
                forall|row: &Vec<T>| #[trigger] sums_to_one.requires((row,)),
                forall|k: int, b: int|
                    (0 <= k < s && 0 <= b < 4) || (k == s && 0 <= b < a)
                        ==> #[trigger] sums_to_one.ensures((&transitions@[k]@[b],), true),
            decreases 4 - a,
        {
            let ok = sums_to_one(&transitions[s][a]);
            if !ok {
                return Err(MDPError::InvalidTransitionMatrix);
            }
            a = a + 1;
        }
        s = s + 1;
    }
    let mut s: usize = 0;
    while s < n_states
        invariant
            has_shape(transitions@, n_states as nat, 4),
            terminal@.len() == n_states,
            s <= n_states,
            forall|row: &Vec<T>, k: usize| #[trigger] absorbs.requires((row, k)),
            forall|k: int, a: int|
                0 <= k < n_states && 0 <= a < 4 ==> #[trigger] sums_to_one.ensures(
                    (&transitions@[k]@[a],),
                    true,
                ),
            forall|k: int, a: int|
                0 <= k < s && 0 <= a < 4 && terminal@[k] ==> #[trigger] absorbs.ensures(
                    (&transitions@[k]@[a], k as usize),
                    true,
                ),
        decreases n_states - s,
    {
        if terminal[s] {
            let mut a: usize = 0;
            while a < 4
                invariant
                    has_shape(transitions@, n_states as nat, 4),
                    terminal@.len() == n_states,
                    s < n_states,
                    terminal@[s as int],
                    a <= 4,
                    forall|row: &Vec<T>, k: usize| #[trigger] absorbs.requires((row, k)),
                    forall|k: int, b: int|
                        ((0 <= k < s && 0 <= b < 4) || (k == s && 0 <= b < a)) && terminal@[k]
                            ==> #[trigger] absorbs.ensures((&transitions@[k]@[b], k as usize), true),
                decreases 4 - a,
            {
                let ok = absorbs(&transitions[s][a], s);
                if !ok {
                    return Err(MDPError::InvalidTransitionMatrix);
                }
                a = a + 1;
            }
        }
        s = s + 1;
    }
    if !check_shape(rewards, n_states, 4) {
        return Err(MDPError::InvalidRewardMatrix);
    }
    Ok(())
}

} // verus!

//! How the shares of a (state, action) pair add up to a row of the
//! transition tensor, weighed with exact reals.
use crate::grid::{
    absorbing, corner_shares, directional_shares, lemma_neighbor_bounds, routed, GridView, Mass,
    Move, Share,
};
use vstd::prelude::*;

verus! {

/// The mass that `shares` send into next state `t`, summed in order.
pub open spec fn mass_into(shares: Seq<Share>, weight: spec_fn(Mass) -> real, t: nat) -> real
    decreases shares.len(),
{
    if shares.len() == 0 {
        0real
    } else {
        mass_into(shares.drop_last(), weight, t) + if shares.last().next_state == t {
            weight(shares.last().mass)
        } else {
            0real
        }
    }
}

/// The weight of all of `shares`.
pub open spec fn total_mass(shares: Seq<Share>, weight: spec_fn(Mass) -> real) -> real
    decreases shares.len(),
{
    if shares.len() == 0 {
        0real
    } else {
        total_mass(shares.drop_last(), weight) + weight(shares.last().mass)
    }
}

/// The sum of a transition row over the next states below `n`.
pub open spec fn row_mass(shares: Seq<Share>, weight: spec_fn(Mass) -> real, n: nat) -> real
    decreases n,
{
    if n == 0 {
        0real
    } else {
        row_mass(shares, weight, (n - 1) as nat) + mass_into(shares, weight, (n - 1) as nat)
    }
}

proof fn lemma_row_mass_last(shares: Seq<Share>, weight: spec_fn(Mass) -> real, n: nat)
    requires
        shares.len() > 0,
    ensures
        row_mass(shares, weight, n) == row_mass(shares.drop_last(), weight, n) + if shares.last().next_state
            < n {
            weight(shares.last().mass)
        } else {
            0real
        },
    decreases n,
{
    if n > 0 {
        lemma_row_mass_last(shares, weight, (n - 1) as nat);
    }
}

/// Spreading mass over next states loses none of it: when every share goes
/// to a state below `n`, the row over those states sums to the total weight.
pub proof fn lemma_row_mass_is_total(shares: Seq<Share>, weight: spec_fn(Mass) -> real, n: nat)
    requires
        forall|i: int| 0 <= i < shares.len() ==> (#[trigger] shares[i]).next_state < n,
    ensures
        row_mass(shares, weight, n) == total_mass(shares, weight),
    decreases shares.len(),
{
    if shares.len() == 0 {
        assert(row_mass(shares, weight, n) == 0real) by {
            lemma_row_of_nothing(shares, weight, n);
        }
    } else {
        let rest = shares.drop_last();
        assert forall|i: int| 0 <= i < rest.len() implies (#[trigger] rest[i]).next_state < n by {
            assert(rest[i] == shares[i]);
        }
        lemma_row_mass_is_total(rest, weight, n);
        lemma_row_mass_last(shares, weight, n);
        assert(shares.last() == shares[shares.len() - 1]);
    }
}

proof fn lemma_row_of_nothing(shares: Seq<Share>, weight: spec_fn(Mass) -> real, n: nat)
    requires
        shares.len() == 0,
    ensures
        row_mass(shares, weight, n) == 0real,
    decreases n,
{
    if n > 0 {
        lemma_row_of_nothing(shares, weight, (n - 1) as nat);
    }
}

/// Row-stochasticity of the directional movement model: for every state,
/// and for every action whose four direction weights sum to one, the
/// transition row sums to one.
pub proof fn lemma_directional_row_stochastic(
    g: GridView,
    s: nat,
    weight: spec_fn(Mass) -> real,
)
    requires
        g.rows > 0,
        g.columns > 0,
        g.n_states() <= usize::MAX,
        s < g.n_states(),
        weight(Mass::Certain) == 1real,
        weight(Mass::Toward(Move::North)) + weight(Mass::Toward(Move::South)) + weight(
            Mass::Toward(Move::West),
        ) + weight(Mass::Toward(Move::East)) == 1real,
    ensures
        row_mass(directional_shares(g, s), weight, g.n_states()) == 1real,
{
    let shares = directional_shares(g, s);
    lemma_neighbor_bounds(g.rows, g.columns, s, Move::North);
    lemma_neighbor_bounds(g.rows, g.columns, s, Move::South);
    lemma_neighbor_bounds(g.rows, g.columns, s, Move::West);
    lemma_neighbor_bounds(g.rows, g.columns, s, Move::East);
    lemma_row_mass_is_total(shares, weight, g.n_states());
    reveal_with_fuel(total_mass, 5);
    if g.is_terminal(s) {
        assert(shares.drop_last().len() == 0);
    } else {
        let s3 = shares.drop_last();
        let s2 = s3.drop_last();
        let s1 = s2.drop_last();
        assert(s1.drop_last().len() == 0);
        assert(s1 =~= seq![routed(g, s, Move::North)]);
        assert(s2 =~= seq![routed(g, s, Move::North), routed(g, s, Move::South)]);
    }
}

/// Row-stochasticity of the corner world: for every state and action, when a
/// success and a failure weigh one together, the transition row sums to one.
pub proof fn lemma_corner_row_stochastic(
    g: GridView,
    s: nat,
    a: Move,
    weight: spec_fn(Mass) -> real,
)
    requires
        g.rows > 0,
        g.columns > 0,
        g.n_states() <= usize::MAX,
        s < g.n_states(),
        weight(Mass::Certain) == 1real,
        weight(Mass::Success) + weight(Mass::Failure) == 1real,
    ensures
        row_mass(corner_shares(g, s, a), weight, g.n_states()) == 1real,
{
    let shares = corner_shares(g, s, a);
    lemma_neighbor_bounds(g.rows, g.columns, s, a);
    lemma_row_mass_is_total(shares, weight, g.n_states());
    reveal_with_fuel(total_mass, 3);
    if !g.is_terminal(s) && g.neighbor(s, a) != s {
        assert(shares.drop_last().drop_last().len() == 0);
    } else {
        assert(shares.drop_last().len() == 0);
    }
}

/// Terminal absorption: from a terminal state, every action of either
/// movement model leaves all the mass in that state and none elsewhere.
pub proof fn lemma_terminal_absorbing(
    g: GridView,
    s: nat,
    a: Move,
    weight: spec_fn(Mass) -> real,
    t: nat,
)
    requires
        s <= usize::MAX,
        g.is_terminal(s),
        weight(Mass::Certain) == 1real,
    ensures
        mass_into(directional_shares(g, s), weight, t) == if t == s {
            1real
        } else {
            0real
        },
        mass_into(corner_shares(g, s, a), weight, t) == if t == s {
            1real
        } else {
            0real
        },
{
    let shares = absorbing(s);
    assert(shares.drop_last().len() == 0);
    assert(mass_into(shares.drop_last(), weight, t) == 0real);
    assert(shares.last().next_state == s as usize);
}

} // verus!

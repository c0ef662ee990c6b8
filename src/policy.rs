use crate::model::{Action, MDPError, State};
use rand::seq::SliceRandom;
use std::collections::HashMap;
use vstd::prelude::*;

verus! {

broadcast use vstd::std_specs::hash::group_hash_axioms;

/// A possibly partial map from state identifiers to action identifiers.
pub struct Policy {
    mapping: HashMap<usize, usize>,
}

impl View for Policy {
    type V = Map<usize, usize>;

    closed spec fn view(&self) -> Map<usize, usize> {
        self.mapping@
    }
}

/// The identifiers of a slice of states, as a set.
pub open spec fn state_ids<S: State>(states: Seq<S>) -> Set<usize> {
    Set::new(|id: usize| exists|i: int| 0 <= i < states.len() && states[i].state_id() == id)
}

/// Whether no two of the given states share an identifier.
pub open spec fn distinct_ids<S: State>(states: Seq<S>) -> bool {
    forall|i: int, j: int|
        0 <= i < states.len() && 0 <= j < states.len() && i != j ==> #[trigger] states[i].state_id()
            != #[trigger] states[j].state_id()
}

/// Whether `id` identifies one of the given actions.
pub open spec fn is_action_id<A: Action>(actions: Seq<A>, id: usize) -> bool {
    exists|j: int| 0 <= j < actions.len() && actions[j].action_id() == id
}

/// Relies on rand's `SliceRandom::choose` with the thread-local generator:
/// `None` exactly for an empty slice, otherwise one of the slice's elements.
#[verifier::external_body]
fn choose_action<A>(actions: &[A]) -> (r: Option<&A>)
    ensures
        actions@.len() == 0 <==> r is None,
        r matches Some(a) ==> exists|j: int| 0 <= j < actions@.len() && actions@[j] == *a,
{
    actions.choose(&mut rand::thread_rng())
}

impl Policy {
    /// Wraps an explicit map from state identifiers to action identifiers.
    pub fn new(mapping: HashMap<usize, usize>) -> (r: Self)
        ensures
            r@ == mapping@,
    {
        Policy { mapping }
    }

    /// Assigns to every given state an action drawn uniformly at random.
    pub fn random<S: State, A: Action>(states: &[S], actions: &[A]) -> (r: Self)
        requires
            states@.len() > 0 ==> actions@.len() > 0,
        ensures
            r@.dom() == state_ids(states@),
            forall|id: usize| #[trigger] r@.contains_key(id) ==> is_action_id(actions@, r@[id]),
    {
        let mut mapping: HashMap<usize, usize> = HashMap::new();
        let mut i: usize = 0;
        while i < states.len()
            invariant
                0 <= i <= states@.len(),
                states@.len() > 0 ==> actions@.len() > 0,
                mapping@.dom() == state_ids(states@.subrange(0, i as int)),
                forall|id: usize| #[trigger]
                    mapping@.contains_key(id) ==> is_action_id(actions@, mapping@[id]),
            decreases states@.len() - i,
        {
            let chosen = choose_action(actions);
            let action = chosen.unwrap();
            let state_id = states[i].id();
            let action_id = action.id();
            proof {
                let j = choose|j: int| 0 <= j < actions@.len() && actions@[j] == *action;
                assert(actions@[j].action_id() == action_id);
            }
            mapping.insert(state_id, action_id);
            proof {
                let prev = states@.subrange(0, i as int);
                let next = states@.subrange(0, i + 1);
                assert forall|id: usize| mapping@.dom().contains(id) <==> state_ids(next).contains(
                    id,
                ) by {
                    if state_ids(prev).contains(id) {
                        let k = choose|k: int| 0 <= k < prev.len() && prev[k].state_id() == id;
                        assert(next[k] == prev[k]);
                    }
                    if state_ids(next).contains(id) {
                        let k = choose|k: int| 0 <= k < next.len() && next[k].state_id() == id;
                        if k < i {
                            assert(prev[k] == next[k]);
                        }
                    }
                    assert(next[i as int] == states@[i as int]);
                }
                assert(mapping@.dom() =~= state_ids(next));
            }
            i = i + 1;
        }
        assert(states@.subrange(0, states@.len() as int) =~= states@);
        Policy { mapping }
    }

    /// The action that the policy assigns to `state`, if any.
    pub fn select_action<S: State>(&self, state: &S) -> (r: Option<usize>)
        ensures
            r == (if self@.contains_key(state.state_id()) {
                Some(self@[state.state_id()])
            } else {
                None
            }),
    {
        let id = state.id();
        match self.mapping.get(&id) {
            Some(action) => Some(*action),
            None => None,
        }
    }

    /// Assigns `action` to `state`, and tells whether that changed the policy.
    pub fn set_action(&mut self, state: usize, action: usize) -> (changed: bool)
        ensures
            final(self)@ == old(self)@.insert(state, action),
            changed == !(old(self)@.contains_key(state) && old(self)@[state] == action),
    {
        match self.mapping.insert(state, action) {
            Some(previous) => previous != action,
            None => true,
        }
    }

    /// The policy's action for each of `states`, in order; `NoAction` for
    /// the first state that has none.
    pub fn actions_for<S: State>(&self, states: &[S]) -> (r: Result<Vec<usize>, MDPError>)
        ensures
            (forall|i: int| 0 <= i < states@.len() ==> self@.contains_key(
                #[trigger] states@[i].state_id(),
            )) ==> (r is Ok),
            r matches Ok(v) ==> v@.len() == states@.len() && forall|i: int|
                0 <= i < states@.len() ==> #[trigger] v@[i] == self@[states@[i].state_id()],
            r matches Err(e) ==> exists|i: int|
                0 <= i < states@.len() && e == (MDPError::NoAction { state: states@[i].state_id() })
                    && !self@.contains_key(#[trigger] states@[i].state_id()),
    {
        let mut chosen: Vec<usize> = Vec::with_capacity(states.len());
        let mut i: usize = 0;
        while i < states.len()
            invariant
                i <= states@.len(),
                chosen@.len() == i,
                forall|j: int| 0 <= j < i ==> #[trigger] chosen@[j] == self@[states@[j].state_id()],
            decreases states@.len() - i,
        {
            let id = states[i].id();
            match self.mapping.get(&id) {
                Some(action) => chosen.push(*action),
                None => {
                    return Err(MDPError::NoAction { state: id });
                },
            }
            i = i + 1;
        }
        Ok(chosen)
    }

    /// Gives each of `states` the action that `best` picks for its position,
    /// and tells whether the policy was stable: whether no action changed.
    /// A state without an action ends the work with `NoAction`. What is said
    /// of the new actions holds where the states' identifiers are distinct.
    pub fn improve<S: State, F: Fn(usize) -> usize>(&mut self, states: &[S], best: F) -> (r: Result<
        bool,
        MDPError,
    >)
        requires
            forall|i: usize| #[trigger] best.requires((i,)),
        ensures
            (forall|i: int| 0 <= i < states@.len() ==> old(self)@.contains_key(
                #[trigger] states@[i].state_id(),
            )) ==> (r is Ok),
            r matches Err(e) ==> exists|i: int|
                0 <= i < states@.len() && e == (MDPError::NoAction { state: states@[i].state_id() })
                    && !old(self)@.contains_key(#[trigger] states@[i].state_id()),
            r matches Ok(_) ==> final(self)@.dom() == old(self)@.dom(),
            r matches Ok(stable) ==> (distinct_ids(states@) ==> {
                &&& forall|i: int|
                    0 <= i < states@.len() ==> best.ensures(
                        (i as usize,),
                        #[trigger] final(self)@[states@[i].state_id()],
                    )
                &&& forall|k: usize|
                    old(self)@.contains_key(k) && !state_ids(states@).contains(k)
                        ==> #[trigger] final(self)@[k] == old(self)@[k]
                &&& stable <==> forall|i: int|
                    0 <= i < states@.len()
                        ==> #[trigger] final(self)@[states@[i].state_id()]
                        == old(self)@[states@[i].state_id()]
            }),
    {
        let ghost before = self@;
        let mut stable = true;
        let mut i: usize = 0;
        while i < states.len()
            invariant
                i <= states@.len(),
                forall|k: usize| #[trigger] best.requires((k,)),
                before == old(self)@,
                self@.dom() == before.dom(),
                distinct_ids(states@) ==> forall|j: int|
                    0 <= j < i ==> before.contains_key(#[trigger] states@[j].state_id()) && best.ensures(
                        (j as usize,),
                        self@[states@[j].state_id()],
                    ),
                distinct_ids(states@) ==> forall|k: usize|
                    before.contains_key(k) && !state_ids(states@.subrange(0, i as int)).contains(k)
                        ==> #[trigger] self@[k] == before[k],
                distinct_ids(states@) ==> (stable <==> forall|j: int|
                    0 <= j < i ==> #[trigger] self@[states@[j].state_id()] == before[states@[j].state_id()]),
            decreases states@.len() - i,
        {
            let id = states[i].id();
            let previous = match self.mapping.get(&id) {
                Some(action) => *action,
                None => {
                    assert(!before.contains_key(states@[i as int].state_id()));
                    return Err(MDPError::NoAction { state: id });
                },
            };
            let chosen = best(i);
            proof {
                if distinct_ids(states@) {
                assert(!state_ids(states@.subrange(0, i as int)).contains(id)) by {
                    if state_ids(states@.subrange(0, i as int)).contains(id) {
                        let k = choose|k: int|
                            0 <= k < i && states@.subrange(0, i as int)[k].state_id() == id;
                        assert(states@[k].state_id() == states@[i as int].state_id());
                    }
                }
                }
            }
            let ghost prior = self@;
            self.mapping.insert(id, chosen);
            stable = stable && previous == chosen;
            proof {
                assert(self@.dom() =~= before.dom());
                if distinct_ids(states@) {
                assert forall|j: int| 0 <= j < i implies self@[states@[j].state_id()]
                    == prior[states@[j].state_id()] by {
                    assert(states@[j].state_id() != id);
                }
                assert forall|k: usize|
                    before.contains_key(k) && !state_ids(states@.subrange(0, i + 1)).contains(
                        k,
                    ) implies #[trigger] self@[k] == before[k] by {
                    if k != id {
                        if state_ids(states@.subrange(0, i as int)).contains(k) {
                            let m = choose|m: int|
                                0 <= m < i && states@.subrange(0, i as int)[m].state_id() == k;
                            assert(states@.subrange(0, i + 1)[m].state_id() == k);
                        }
                    } else {
                        assert(states@.subrange(0, i + 1)[i as int].state_id() == k);
                    }
                }
                assert(self@.dom() =~= before.dom());
                assert(previous == before[id]);
                assert(self@[states@[i as int].state_id()] == chosen);
                if stable {
                    assert forall|j: int| 0 <= j < i + 1 implies #[trigger] self@[states@[j].state_id()]
                        == before[states@[j].state_id()] by {
                        if j < i {
                            assert(self@[states@[j].state_id()] == prior[states@[j].state_id()]);
                        }
                    }
                } else if previous != chosen {
                    assert(self@[states@[i as int].state_id()] != before[states@[i as int].state_id()]);
                } else {
                    let w = choose|j: int|
                        0 <= j < i && #[trigger] prior[states@[j].state_id()] != before[states@[j].state_id()];
                    assert(self@[states@[w].state_id()] == prior[states@[w].state_id()]);
                }
                }
            }
            i = i + 1;
        }
        proof {
            assert(states@.subrange(0, states@.len() as int) =~= states@);
        }
        Ok(stable)
    }

    /// The number of states that have an action.
    pub fn len(&self) -> (r: usize)
        ensures
            r == self@.len(),
    {
        self.mapping.len()
    }
}

} // verus!

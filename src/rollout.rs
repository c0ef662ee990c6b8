//! The step rule of a policy rollout. The caller samples each next state and
//! tells whether it is terminal; the rollout decides what happens next.
use crate::model::MDPError;
use crate::policy::Policy;
use vstd::prelude::*;

verus! {

/// What a rollout asks for next: to apply `action` in `state`, or nothing more.
#[derive(Debug, Clone, Copy, PartialEq, Eq, Structural)]
pub enum Step {
    Act { state: usize, action: usize },
    Done,
}

/// A rollout as mathematical values: where it started, the states visited
/// (the starting state first), the step cap, and for each step taken whether
/// the state it reached is terminal.
pub ghost struct RolloutView {
    pub starting_state: usize,
    pub trajectory: Seq<usize>,
    pub maximum_steps: nat,
    pub reached_terminal: Seq<bool>,
}

impl RolloutView {
    /// The number of steps taken.
    pub open spec fn steps(self) -> nat {
        self.reached_terminal.len()
    }

    /// Whether the rollout is over: it took `maximum_steps` steps, or its
    /// last step reached a terminal state.
    pub open spec fn finished(self) -> bool {
        self.steps() == self.maximum_steps || (self.steps() > 0 && self.reached_terminal.last())
    }

    /// The state the rollout is in.
    pub open spec fn current(self) -> usize {
        self.trajectory.last()
    }

    /// The rollout's invariant: the trajectory starts at the starting state and
    /// holds one more state than steps were taken, no more steps than the cap,
    /// and no terminal state was reached before the last step.
    pub open spec fn valid(self) -> bool {
        &&& self.trajectory.len() == self.steps() + 1
        &&& self.trajectory[0] == self.starting_state
        &&& self.steps() <= self.maximum_steps
        &&& forall|i: int| 0 <= i < self.steps() - 1 ==> !#[trigger] self.reached_terminal[i]
    }
}

/// A policy rollout in progress.
pub struct Rollout {
    starting_state: usize,
    trajectory: Vec<usize>,
    maximum_steps: usize,
    reached_terminal: Ghost<Seq<bool>>,
    finished: bool,
}

impl View for Rollout {
    type V = RolloutView;

    closed spec fn view(&self) -> RolloutView {
        RolloutView {
            starting_state: self.starting_state,
            trajectory: self.trajectory@,
            maximum_steps: self.maximum_steps as nat,
            reached_terminal: self.reached_terminal@,
        }
    }
}

impl Rollout {
    /// The rollout's invariant, with its cached verdict on being finished.
    pub closed spec fn wf(&self) -> bool {
        &&& self@.valid()
        &&& self.finished == self@.finished()
    }

    /// A rollout from `starting_state` that takes at most `maximum_steps` steps.
    pub fn new(starting_state: usize, maximum_steps: usize) -> (r: Rollout)
        ensures
            r.wf(),
            r@.starting_state == starting_state,
            r@.trajectory == seq![starting_state],
            r@.maximum_steps == maximum_steps,
            r@.steps() == 0,
    {
        Rollout {
            starting_state,
            trajectory: vec![starting_state],
            maximum_steps,
            reached_terminal: Ghost(Seq::empty()),
            finished: maximum_steps == 0,
        }
    }

    /// What to do next under `policy`: nothing once the rollout is finished;
    /// otherwise the policy's action in the current state, or `NoAction`
    /// where the policy has none for it.
    pub fn next(&self, policy: &Policy) -> (r: Result<Step, MDPError>)
        requires
            self.wf(),
        ensures
            self@.finished() ==> r == Ok::<Step, MDPError>(Step::Done),
            !self@.finished() && !policy@.contains_key(self@.current()) ==> r == Err::<
                Step,
                MDPError,
            >(MDPError::NoAction { state: self@.current() }),
            !self@.finished() && policy@.contains_key(self@.current()) ==> r == Ok::<
                Step,
                MDPError,
            >(Step::Act { state: self@.current(), action: policy@[self@.current()] }),
    {
        if self.finished {
            return Ok(Step::Done);
        }
        let state = self.trajectory[self.trajectory.len() - 1];
        match policy.select_action(&state) {
            Some(action) => Ok(Step::Act { state, action }),
            None => Err(MDPError::NoAction { state }),
        }
    }

    /// Records a step into `next_state`, which is terminal or not as `terminal` says.
    pub fn advance(&mut self, next_state: usize, terminal: bool)
        requires
            old(self).wf(),
            !old(self)@.finished(),
        ensures
            final(self).wf(),
            final(self)@.starting_state == old(self)@.starting_state,
            final(self)@.maximum_steps == old(self)@.maximum_steps,
            final(self)@.trajectory == old(self)@.trajectory.push(next_state),
            final(self)@.reached_terminal == old(self)@.reached_terminal.push(terminal),
    {
        self.trajectory.push(next_state);
        self.reached_terminal = Ghost(self.reached_terminal@.push(terminal));
        self.finished = terminal || self.trajectory.len() - 1 == self.maximum_steps;
        proof {
            assert(self@.trajectory[0] == old(self)@.trajectory[0]);
            assert forall|i: int| 0 <= i < self@.steps() - 1 implies !#[trigger] self@.reached_terminal[i] by {
                assert(self@.reached_terminal[i] == old(self)@.reached_terminal[i]);
            }
        }
    }

    /// Whether the rollout is over.
    pub fn is_finished(&self) -> (r: bool)
        requires
            self.wf(),
        ensures
            r == self@.finished(),
    {
        self.finished
    }

    /// The state the rollout started from.
    pub fn starting_state(&self) -> (r: usize)
        ensures
            r == self@.starting_state,
    {
        self.starting_state
    }

    /// The states visited so far, the starting state first.
    pub fn trajectory(&self) -> (r: &Vec<usize>)
        ensures
            r@ == self@.trajectory,
    {
        &self.trajectory
    }

    /// The states visited, the starting state first.
    pub fn into_trajectory(self) -> (r: Vec<usize>)
        ensures
            r@ == self@.trajectory,
    {
        self.trajectory
    }
}

/// Whether `t` is a run of `policy` from `starting_state`: it starts there,
/// and every state but the last has an action, from which `act` may give the
/// state after it.
pub open spec fn follows<F: Fn(usize, usize) -> usize>(
    policy: Map<usize, usize>,
    act: F,
    starting_state: usize,
    t: Seq<usize>,
) -> bool {
    &&& t.len() >= 1
    &&& t[0] == starting_state
    &&& forall|i: int|
        0 <= i < t.len() - 1 ==> policy.contains_key(#[trigger] t[i]) && act.ensures(
            (t[i], policy[t[i]]),
            t[i + 1],
        )
}

/// Whether `is_terminal` called none of the states of `t` after the first
/// and before position `end` terminal.
pub open spec fn avoids_terminal<T: Fn(usize) -> bool>(is_terminal: T, t: Seq<usize>, end: int) -> bool {
    forall|i: int| 1 <= i < end ==> is_terminal.ensures((#[trigger] t[i],), false)
}

/// Runs `policy` from `starting_state` for at most `maximum_steps` steps:
/// in each state the policy's action is applied through `act`, which samples
/// the next state, and the run ends early at the first state that
/// `is_terminal` calls terminal. A state without an action ends the run
/// with `NoAction` for that state. On success the visited states are
/// returned, the starting state first.
pub fn run_policy<F, T>(
    policy: &Policy,
    starting_state: usize,
    maximum_steps: usize,
    act: F,
    is_terminal: T,
) -> (r: Result<Vec<usize>, MDPError>) where F: Fn(usize, usize) -> usize, T: Fn(usize) -> bool
    requires
        forall|s: usize, a: usize| #[trigger] act.requires((s, a)),
        forall|s: usize| #[trigger] is_terminal.requires((s,)),
    ensures
        maximum_steps == 0 ==> (r matches Ok(t) && t@ == seq![starting_state]),
        maximum_steps > 0 && !policy@.contains_key(starting_state) ==> r == Err::<
            Vec<usize>,
            MDPError,
        >(MDPError::NoAction { state: starting_state }),
        r matches Err(e) ==> exists|t: Seq<usize>|
            #[trigger] follows(policy@, act, starting_state, t) && t.len() <= maximum_steps
                && avoids_terminal(is_terminal, t, t.len() as int) && e == (MDPError::NoAction {
                state: t.last(),
            }) && !policy@.contains_key(t.last()),
        r matches Ok(t) ==> {
            &&& follows(policy@, act, starting_state, t@)
            &&& t@.len() <= maximum_steps + 1
            &&& maximum_steps > 0 ==> t@.len() >= 2
            &&& avoids_terminal(is_terminal, t@, t@.len() - 1)
            &&& t@.len() == maximum_steps + 1 || is_terminal.ensures((t@.last(),), true)
        },
{
    let mut rollout = Rollout::new(starting_state, maximum_steps);
    loop
        invariant
            rollout.wf(),
            rollout@.starting_state == starting_state,
            rollout@.maximum_steps == maximum_steps,
            forall|s: usize, a: usize| #[trigger] act.requires((s, a)),
            forall|s: usize| #[trigger] is_terminal.requires((s,)),
            forall|i: int|
                0 <= i < rollout@.steps() ==> policy@.contains_key(#[trigger] rollout@.trajectory[i])
                    && act.ensures(
                    (rollout@.trajectory[i], policy@[rollout@.trajectory[i]]),
                    rollout@.trajectory[i + 1],
                ),
            forall|i: int|
                0 <= i < rollout@.steps() ==> is_terminal.ensures(
                    (rollout@.trajectory[i + 1],),
                    #[trigger] rollout@.reached_terminal[i],
                ),
        ensures
            rollout@.finished(),
        decreases maximum_steps - rollout@.steps(),
    {
        match rollout.next(policy) {
            Err(e) => {
                assert(rollout@.steps() > 0 ==> policy@.contains_key(rollout@.trajectory[0]));
                proof {
                    let t = rollout@.trajectory;
                    assert(avoids_terminal(is_terminal, t, t.len() as int)) by {
                        assert forall|i: int| 1 <= i < t.len() implies is_terminal.ensures(
                            (#[trigger] t[i],),
                            false,
                        ) by {
                            assert(!rollout@.reached_terminal[i - 1]);
                            assert(is_terminal.ensures(
                                (t[(i - 1) + 1],),
                                rollout@.reached_terminal[i - 1],
                            ));
                        }
                    }
                    assert(follows(policy@, act, starting_state, t));
                }
                return Err(e);
            },
            Ok(Step::Done) => {
                break;
            },
            Ok(Step::Act { state, action }) => {
                let next_state = act(state, action);
                let terminal = is_terminal(next_state);
                let ghost before = rollout@;
                rollout.advance(next_state, terminal);
                proof {
                    assert forall|i: int| 0 <= i < rollout@.steps() implies policy@.contains_key(
                        #[trigger] rollout@.trajectory[i],
                    ) && act.ensures(
                        (rollout@.trajectory[i], policy@[rollout@.trajectory[i]]),
                        rollout@.trajectory[i + 1],
                    ) by {
                        if i < before.steps() {
                            assert(rollout@.trajectory[i] == before.trajectory[i]);
                            assert(rollout@.trajectory[i + 1] == before.trajectory[i + 1]);
                        }
                    }
                    assert forall|i: int| 0 <= i < rollout@.steps() implies is_terminal.ensures(
                        (rollout@.trajectory[i + 1],),
                        #[trigger] rollout@.reached_terminal[i],
                    ) by {
                        if i < before.steps() {
                            assert(rollout@.trajectory[i + 1] == before.trajectory[i + 1]);
                            assert(rollout@.reached_terminal[i] == before.reached_terminal[i]);
                        }
                    }
                }
            },
        }
    }
    let ghost v = rollout@;
    proof {
        assert forall|i: int| 1 <= i < v.trajectory.len() - 1 implies is_terminal.ensures(
            (#[trigger] v.trajectory[i],),
            false,
        ) by {
            assert(!v.reached_terminal[i - 1]);
            assert(is_terminal.ensures((v.trajectory[(i - 1) + 1],), v.reached_terminal[i - 1]));
        }
        if v.trajectory.len() != maximum_steps + 1 {
            let k = v.steps() - 1;
            assert(is_terminal.ensures((v.trajectory[k + 1],), v.reached_terminal[k]));
        }
        if maximum_steps == 0 {
            assert(v.trajectory =~= seq![starting_state]);
        }
        assert(follows(policy@, act, starting_state, v.trajectory));
    }
    Ok(rollout.into_trajectory())
}

} // verus!
